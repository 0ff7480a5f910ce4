//! Reading the grid: the text of rows and commands, and which row is where on a folded screen.

use crate::cell::Cell;
use crate::grid::Grid;
use crate::grid::{GridView, ScreenView};
use crate::text;
use std::collections::HashSet;
use vstd::prelude::*;

verus! {

broadcast use vstd::std_specs::hash::group_hash_axioms;

/// The characters of a line.
pub open spec fn chars_of(line: Seq<Cell>) -> Seq<char> {
    line.map_values(|c: Cell| c.ch)
}

impl ScreenView {
    /// The text of an absolute row without trailing whitespace.
    pub open spec fn row_text(self, abs: int) -> Option<Seq<char>> {
        match self.line(abs) {
            Some(line) => Some(text::trimmed_end(chars_of(line))),
            None => None,
        }
    }
}

impl GridView {
    /// What row `i` of a block says of its command: on the first row what follows the prompt.
    pub open spec fn command_line(self, b: crate::blocks::Block, i: int) -> Option<Seq<char>> {
        let skip = match b.cmd_col {
            Some(col) => col as int,
            None => 0,
        };
        match self.screen.row_text(b.start_row + i) {
            Some(t) => if i == 0 {
                Some(text::trimmed(t.skip(crate::grid::min(skip, t.len() as int))))
            } else {
                Some(text::trimmed(t))
            },
            None => None,
        }
    }

    /// The command text of a block from its row `i` on, up to row `n` or the first blank row.
    pub open spec fn command_lines(self, b: crate::blocks::Block, i: int, n: int) -> Seq<Seq<char>>
        decreases n - i,
    {
        if i >= n {
            Seq::empty()
        } else {
            match self.screen.row_text(b.start_row + i) {
                Some(t) => if t.len() == 0 {
                    Seq::empty()
                } else if self.command_line(b, i).unwrap().len() == 0 {
                    self.command_lines(b, i + 1, n)
                } else {
                    seq![self.command_line(b, i).unwrap()] + self.command_lines(b, i + 1, n)
                },
                None => self.command_lines(b, i + 1, n),
            }
        }
    }

    /// The command text of a block: its rows up to the next block or the first blank row, trimmed
    /// and joined by spaces.
    pub open spec fn command_text(self, idx: int) -> Option<Seq<char>> {
        if 0 <= idx < self.blocks.blocks.len() {
            let b = self.blocks.blocks[idx];
            let rows = self.blocks.end_row(idx, self.screen.total()) - b.start_row;
            let full = text::joined(self.command_lines(b, 0, rows), seq![' ']);
            if full.len() == 0 {
                None
            } else {
                Some(full)
            }
        } else {
            None
        }
    }

    /// The block that holds an absolute row is folded, and the row is not its first.
    pub open spec fn folded_away(self, abs: int, folds: Set<u64>) -> bool {
        let k = self.blocks.upper(abs);
        &&& !self.blocks.starts_at(abs)
        &&& k > 0
        &&& folds.contains(self.blocks.blocks[k - 1].id)
        &&& abs < self.fold_end(abs)
    }

    /// Where the fold that holds an absolute row ends: at the end of its block or the cursor.
    pub open spec fn fold_end(self, abs: int) -> int {
        crate::grid::min(
            self.blocks.end_row(self.blocks.upper(abs) - 1, self.screen.total()),
            self.cursor_abs(),
        )
    }

    /// The absolute row that is `n` screen rows below the absolute row `abs`: phantom rows take
    /// no screen row, a fold takes one.
    pub open spec fn rows_below(self, abs: int, n: int, folds: Set<u64>) -> int
        decreases crate::blocks::monus(self.screen.total(), abs),
    {
        if n <= 0 || abs >= self.screen.total() {
            abs
        } else if abs != self.cursor_abs() && self.screen.phantom(abs) {
            self.rows_below(abs + 1, n, folds)
        } else if self.folded_away(abs, folds) {
            self.rows_below(self.fold_end(abs), n - 1, folds)
        } else {
            self.rows_below(abs + 1, n - 1, folds)
        }
    }

    /// The absolute row at the top of the screen.
    pub open spec fn first_shown(self, folds: Set<u64>) -> int {
        self.blocks.top_row(
            folds,
            self.screen.total(),
            self.cursor_abs(),
            self.rows,
            self.offset,
        )
    }

    /// The screen's rows can be counted with the folds given.
    pub open spec fn countable(self, folds: Set<u64>) -> bool {
        &&& self.blocks.vtotal(folds, self.screen.total(), self.cursor_abs()) <= usize::MAX
        &&& self.rows + self.offset <= usize::MAX
    }
}

/// The characters of a line.
pub fn row_chars(row: &Vec<Cell>) -> (r: Vec<char>)
    ensures
        r@ == chars_of(row@),
{
    let mut out: Vec<char> = Vec::new();
    let mut i: usize = 0;
    while i < row.len()
        invariant
            i <= row@.len(),
            out@ == chars_of(row@).take(i as int),
        decreases row@.len() - i,
    {
        out.push(row[i].ch);
        i = i + 1;
        assert(out@ =~= chars_of(row@).take(i as int));
    }
    assert(out@ =~= chars_of(row@));
    out
}

impl Grid {
    /// The text of an absolute row without trailing whitespace.
    fn row_chars_at(&self, abs_row: usize) -> (r: Option<Vec<char>>)
        ensures
            r.is_some() == self@.screen.row_text(abs_row as int).is_some(),
            r matches Some(t) ==> self@.screen.row_text(abs_row as int) == Some(t@),
    {
        match self.absolute_row(abs_row) {
            Some(row) => {
                let mut t: Vec<char> = row_chars(row);
                text::trim_end(&mut t);
                Some(t)
            },
            None => None,
        }
    }

    /// Extract the trimmed text of an absolute row.
    pub fn row_text_at(&self, abs_row: usize) -> (r: Option<String>)
        ensures
            r.is_some() == self@.screen.row_text(abs_row as int).is_some(),
            r matches Some(t) ==> self@.screen.row_text(abs_row as int) == Some(t@),
    {
        match self.row_chars_at(abs_row) {
            Some(t) => Some(text::to_string(t.as_slice())),
            None => None,
        }
    }

    /// Extract the command text for a completed block.
    /// Collects text from the block's start row up to the next block (or to the
    /// first blank row), trimming whitespace. Returns None if the
    /// block index is out of range or the text is empty.
    pub fn block_command_text(&self, block_idx: usize) -> (r: Option<String>)
        requires
            self@.wf(),
            block_idx < self@.blocks.blocks.len() ==> self@.blocks.blocks[block_idx as int].start_row
                <= self@.blocks.end_row(block_idx as int, self@.screen.total()),
        ensures
            r.is_some() == self@.command_text(block_idx as int).is_some(),
            r matches Some(t) ==> self@.command_text(block_idx as int) == Some(t@),
    {
        proof {
            self.lemma_fields();
        }
        if block_idx >= self.block_list.len() {
            return None;
        }
        let block = self.block_list.blocks()[block_idx];
        let total: usize = self.total_rows();
        let end: usize = self.block_list.block_end_row(block_idx, total);
        let max_rows: usize = end - block.start_row;
        let mut full: Vec<char> = Vec::new();
        let mut i: usize = 0;
        let ghost mut parts: Seq<Seq<char>> = Seq::empty();
        let ghost want = self@.command_lines(block, 0, max_rows as int);
        assert(parts + want =~= want);
        while i < max_rows
            invariant_except_break
                i <= max_rows,
                want == parts + self@.command_lines(block, i as int, max_rows as int),
            invariant
                block.start_row + max_rows <= usize::MAX,
                full@ == text::joined(parts, seq![' ']),
                parts.len() > 0 ==> full@.len() > 0,
            ensures
                want == parts,
            decreases max_rows - i,
        {
            if let Some(t) = self.row_chars_at(block.start_row + i) {
                if t.len() == 0 {
                    assert(parts + Seq::<Seq<char>>::empty() =~= parts);
                    break;
                }
                let skip: usize = if i == 0 {
                    match block.cmd_col {
                        Some(col) => crate::edit::least(col, t.len()),
                        None => 0,
                    }
                } else {
                    0
                };
                let rest: Vec<char> = text::copy_from(t.as_slice(), skip);
                assert(i > 0 ==> t@.skip(0) =~= t@);
                let line: Vec<char> = text::trim(rest.as_slice());
                assert(self@.command_line(block, i as int) == Some(line@));
                if line.len() > 0 {
                    let first: bool = full.len() == 0;
                    text::push_joined(&mut full, first, ' ', line.as_slice());
                    proof {
                        let longer = parts.push(line@);
                        assert(longer.drop_last() =~= parts);
                        assert(parts.len() == 0 ==> text::joined(parts, seq![' ']).len() == 0);
                        assert(full@ =~= text::joined(longer, seq![' ']));
                        assert(parts + (seq![line@] + self@.command_lines(
                            block,
                            i + 1,
                            max_rows as int,
                        )) =~= longer + self@.command_lines(block, i + 1, max_rows as int));
                        parts = longer;
                    }
                }
            }
            i = i + 1;
            assert(i == max_rows ==> parts + self@.command_lines(block, i as int, max_rows as int)
                =~= parts);
        }
        if full.len() == 0 {
            None
        } else {
            Some(text::to_string(full.as_slice()))
        }
    }

    /// Map a visual row (0 = top of viewport) to the corresponding absolute
    /// row, accounting for fold compression. Walks forward from the adjusted
    /// viewport start, skipping folded ranges exactly as the renderer does.
    pub fn visual_to_absolute(&self, target_visual: usize, folds: &HashSet<u64>) -> (r: usize)
        requires
            self@.wf(),
            self@.countable(folds@),
        ensures
            r == self@.rows_below(self@.first_shown(folds@), target_visual as int, folds@),
    {
        proof {
            self.lemma_fields();
        }
        let total: usize = self.total_rows();
        let cursor_abs: usize = self.scrollback.len() + self.cursor_row;
        let mut abs: usize = self.block_list.render_start(
            folds,
            total,
            cursor_abs,
            self.rows,
            self.scroll_offset,
        );
        let mut left: usize = target_visual;
        while left > 0 && abs < total
            invariant
                self@.wf(),
                self.block_list@ == self@.blocks,
                total == self@.screen.total(),
                cursor_abs == self@.cursor_abs(),
                self@.rows_below(self@.first_shown(folds@), target_visual as int, folds@)
                    == self@.rows_below(abs as int, left as int, folds@),
            decreases crate::blocks::monus(total as int, abs as int),
        {
            if abs != cursor_abs && self.is_phantom_wrap(abs) {
                abs = abs + 1;
            } else {
                let fold: Option<usize> = self.fold_at(abs, folds, total, cursor_abs);
                match fold {
                    Some(end) => {
                        abs = end;
                    },
                    None => {
                        abs = abs + 1;
                    },
                }
                left = left - 1;
            }
        }
        abs
    }

    /// The end of the fold that hides an absolute row, where one does.
    pub fn fold_at(
        &self,
        abs: usize,
        folds: &HashSet<u64>,
        total: usize,
        cursor_abs: usize,
    ) -> (r: Option<usize>)
        requires
            self@.wf(),
            total == self@.screen.total(),
            cursor_abs == self@.cursor_abs(),
        ensures
            r.is_some() == self@.folded_away(abs as int, folds@),
            r matches Some(end) ==> end == self@.fold_end(abs as int) && abs < end,
    {
        proof {
            self.lemma_fields();
        }
        if self.block_list.is_block_start(abs) {
            return None;
        }
        let blocks: usize = self.block_list.len();
        match self.block_list.block_for_row(abs) {
            Some((bi, blk)) => {
                assert(bi < blocks);
                if folds.contains(&blk.id) {
                    let end: usize = crate::edit::least(
                        self.block_list.block_end_row(bi, total),
                        cursor_abs,
                    );
                    if end > abs {
                        Some(end)
                    } else {
                        None
                    }
                } else {
                    None
                }
            },
            None => None,
        }
    }
}

/// The command of a block of one row is what stands behind the column where it begins, without the
/// blanks around it.
pub proof fn law_command_behind_prompt(
    g: GridView,
    idx: int,
    prompt: Seq<char>,
    command: Seq<char>,
    rest: Seq<char>,
)
    requires
        0 <= idx < g.blocks.blocks.len(),
        g.blocks.blocks[idx].cmd_col matches Some(c) && c == prompt.len(),
        if idx + 1 < g.blocks.blocks.len() {
            g.blocks.blocks[idx + 1].start_row == g.blocks.blocks[idx].start_row + 1
        } else {
            g.screen.total() == g.blocks.blocks[idx].start_row + 1
        },
        g.screen.line(g.blocks.blocks[idx].start_row as int) matches Some(line) && chars_of(line)
            == prompt + command + rest,
        command.len() > 0,
        !text::white(command[0]),
        !text::white(command.last()),
        forall|i: int| 0 <= i < rest.len() ==> text::white(#[trigger] rest[i]),
    ensures
        g.command_text(idx) == Some(command),
{
    let b = g.blocks.blocks[idx];
    let all = prompt + command + rest;
    let none = Seq::<char>::empty();
    assert(none + (prompt + command) + rest =~= all);
    lemma_end_kept(prompt, command, rest);
    text::law_trim_leaves_the_middle(none, command, none);
    assert(none + command + none =~= command);
    assert((prompt + command).skip(prompt.len() as int) =~= command);
    assert(g.screen.row_text(b.start_row + 0) == Some(prompt + command));
    assert(g.command_line(b, 0) == Some(command));
    assert(g.command_lines(b, 1, 1) =~= Seq::empty());
    assert(g.command_lines(b, 0, 1) =~= seq![command]);
    text::law_join_in_lots(seq![command], seq![command], command, seq![' ']);
}

proof fn lemma_end_kept(prompt: Seq<char>, command: Seq<char>, rest: Seq<char>)
    requires
        command.len() > 0,
        !text::white(command.last()),
        forall|i: int| 0 <= i < rest.len() ==> text::white(#[trigger] rest[i]),
    ensures
        text::trimmed_end(prompt + command + rest) == prompt + command,
    decreases rest.len(),
{
    let all = prompt + command + rest;
    if rest.len() > 0 {
        assert(all.drop_last() =~= prompt + command + rest.drop_last());
        assert(all.last() == rest[rest.len() - 1]);
        lemma_end_kept(prompt, command, rest.drop_last());
    } else {
        assert(all =~= prompt + command);
    }
}

} // verus!
