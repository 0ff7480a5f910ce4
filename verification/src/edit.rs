//! Editing commands of the grid: erasing, inserting and deleting of lines and characters.

use crate::cell::Cell;
use crate::grid::Grid;
use crate::grid::{GridView, ScreenView};
use crate::lines;
use vstd::prelude::*;

verus! {

impl GridView {
    pub open spec fn with_lines(self, lines: Seq<Seq<Cell>>) -> GridView {
        self.with_screen(ScreenView { lines, ..self.screen })
    }

    /// One cell written.
    pub open spec fn put(self, row: int, col: int, c: Cell) -> GridView {
        self.with_lines(self.screen.lines.update(row, self.screen.lines[row].update(col, c)))
    }

    /// The cells `from..to` of a line erased.
    pub open spec fn part_erased(self, row: int, from: int, to: int, c: Cell) -> GridView {
        self.with_lines(lines::erased_part(self.screen.lines, row, from, to, c))
    }

    /// The lines `lo..hi` erased, with their timestamps.
    pub open spec fn rows_cleared(self, lo: int, hi: int, c: Cell) -> GridView {
        if lo >= hi {
            self
        } else {
            self.with_screen(self.screen.cleared(lo, hi, c))
        }
    }

    /// The cells from the cursor to the end of its line erased.
    pub open spec fn erased_right(self, c: Cell) -> GridView {
        self.part_erased(self.screen.row, self.screen.col, self.cols, c)
    }

    /// The cells from the start of the line up to the cursor erased.
    pub open spec fn erased_left(self, c: Cell) -> GridView {
        self.part_erased(self.screen.row, 0, self.screen.col + 1, c)
    }

    /// The cursor's line erased.
    pub open spec fn erased_line(self, c: Cell) -> GridView {
        self.part_erased(self.screen.row, 0, self.cols, c)
    }

    /// Everything from the cursor on erased.
    #[verifier::opaque]
    pub open spec fn erased_below(self, c: Cell) -> GridView {
        self.erased_right(c).rows_cleared(self.screen.row + 1, self.rows, c)
    }

    /// Everything up to the cursor erased.
    #[verifier::opaque]
    pub open spec fn erased_above(self, c: Cell) -> GridView {
        self.rows_cleared(0, self.screen.row, c).erased_left(c)
    }

    /// The whole screen erased with its wrap flags; on the primary screen the blocks start anew
    /// at the cursor, which takes a block ID that is left.
    #[verifier::opaque]
    pub open spec fn erased_all(self, c: Cell, now: [u8; 8]) -> Option<GridView> {
        let g = self.rows_cleared(0, self.rows, c);
        let clean = g.with_screen(g.screen.unwrapped(0, g.rows));
        if self.is_alt {
            Some(clean)
        } else if self.blocks.next_id < u64::MAX {
            Some(GridView { blocks: self.blocks.reset(self.cursor_abs(), now), ..clean })
        } else {
            None
        }
    }

    /// `n` blank lines pushed in at the cursor, within the scroll region.
    #[verifier::opaque]
    pub open spec fn lines_inserted(self, n: int) -> GridView {
        let cur = self.screen.row;
        let bot = self.last_scrolled();
        let k = crate::grid::min(n, bot - cur + 1);
        if cur > bot {
            self
        } else {
            self.with_screen(
                self.screen.shifted_down(cur, bot, k).cleared(cur, cur + k, Cell::blank()),
            )
        }
    }

    /// `n` lines taken out at the cursor, within the scroll region.
    #[verifier::opaque]
    pub open spec fn lines_deleted(self, n: int) -> GridView {
        let cur = self.screen.row;
        let bot = self.last_scrolled();
        let k = crate::grid::min(n, bot - cur + 1);
        if cur > bot {
            self
        } else {
            self.with_screen(
                self.screen.shifted_up(cur, bot, k).cleared(bot + 1 - k, bot + 1, Cell::blank()),
            )
        }
    }

    /// `n` blanks pushed in at the cursor.
    #[verifier::opaque]
    pub open spec fn chars_inserted(self, n: int) -> GridView {
        let k = crate::grid::min(n, self.cols - self.screen.col);
        let line = self.screen.lines[self.screen.row];
        self.with_lines(
            self.screen.lines.update(
                self.screen.row,
                lines::pushed_right(line, self.screen.col, k, self.cols),
            ),
        )
    }

    /// `n` characters taken out at the cursor.
    #[verifier::opaque]
    pub open spec fn chars_deleted(self, n: int) -> GridView {
        let k = crate::grid::min(n, self.cols - self.screen.col);
        let line = self.screen.lines[self.screen.row];
        self.with_lines(
            self.screen.lines.update(
                self.screen.row,
                lines::pulled_left(line, self.screen.col, k, self.cols),
            ),
        )
    }

    /// `n` characters erased from the cursor on.
    #[verifier::opaque]
    pub open spec fn chars_erased(self, n: int, c: Cell) -> GridView {
        self.part_erased(
            self.screen.row,
            self.screen.col,
            self.screen.col + crate::grid::min(n, self.cols - self.screen.col),
            c,
        )
    }
}

/// The smaller of two numbers.
pub fn least(a: usize, b: usize) -> (r: usize)
    ensures
        r == crate::grid::min(a as int, b as int),
{
    if a <= b {
        a
    } else {
        b
    }
}

impl Grid {
    /// Erases the lines `lo..hi` with their timestamps.
    pub fn erase_rows(&mut self, lo: usize, hi: usize, c: Cell)
        requires
            old(self)@.wf(),
            lo >= hi || hi <= old(self)@.rows,
        ensures
            final(self)@ == old(self)@.rows_cleared(lo as int, hi as int, c),
            crate::grid::same_place(old(self)@, final(self)@),
            final(self)@.wf(),
    {
        if lo < hi {
            self.clear_rows(lo, hi, c);
        }
    }

    /// Erases from the cursor to the end of its line.
    pub fn erase_right(&mut self, c: Cell)
        requires
            old(self)@.settled(),
        ensures
            final(self)@ == old(self)@.erased_right(c),
            crate::grid::same_place(old(self)@, final(self)@),
            final(self)@.settled(),
    {
        proof {
            self.lemma_fields();
        }
        let (row, col, cols): (usize, usize, usize) = (self.cursor_row, self.cursor_col, self.cols);
        self.erase_part(row, col, cols, c);
    }

    /// Erases from the start of the line up to the cursor.
    pub fn erase_left(&mut self, c: Cell)
        requires
            old(self)@.settled(),
        ensures
            final(self)@ == old(self)@.erased_left(c),
            crate::grid::same_place(old(self)@, final(self)@),
            final(self)@.settled(),
    {
        proof {
            self.lemma_fields();
        }
        let (row, col): (usize, usize) = (self.cursor_row, self.cursor_col);
        self.erase_part(row, 0, col + 1, c);
    }

    /// Erases the cursor's line.
    pub fn erase_line(&mut self, c: Cell)
        requires
            old(self)@.settled(),
        ensures
            final(self)@ == old(self)@.erased_line(c),
            crate::grid::same_place(old(self)@, final(self)@),
            final(self)@.settled(),
    {
        proof {
            self.lemma_fields();
        }
        let (row, cols): (usize, usize) = (self.cursor_row, self.cols);
        self.erase_part(row, 0, cols, c);
    }

    /// Erases everything from the cursor on.
    pub fn erase_below(&mut self, c: Cell)
        requires
            old(self)@.settled(),
        ensures
            final(self)@ == old(self)@.erased_below(c),
            crate::grid::same_place(old(self)@, final(self)@),
            final(self)@.settled(),
    {
        proof {
            reveal(GridView::erased_below);
            self.lemma_fields();
        }
        let (row, rows): (usize, usize) = (self.cursor_row, self.rows);
        self.erase_right(c);
        self.erase_rows(row + 1, rows, c);
    }

    /// Erases everything up to the cursor.
    pub fn erase_above(&mut self, c: Cell)
        requires
            old(self)@.settled(),
        ensures
            final(self)@ == old(self)@.erased_above(c),
            crate::grid::same_place(old(self)@, final(self)@),
            final(self)@.settled(),
    {
        proof {
            reveal(GridView::erased_above);
            self.lemma_fields();
        }
        let row: usize = self.cursor_row;
        self.erase_rows(0, row, c);
        self.erase_left(c);
    }

    /// Erases the whole screen; fails on the primary screen where no block ID is left.
    pub fn erase_all(&mut self, c: Cell, now: [u8; 8]) -> (ok: bool)
        requires
            old(self)@.settled(),
        ensures
            ok == old(self)@.erased_all(c, now).is_some(),
            ok ==> final(self)@ == old(self)@.erased_all(c, now).unwrap(),
            crate::grid::same_place(old(self)@, final(self)@),
            final(self)@.settled(),
    {
        proof {
            reveal(GridView::erased_all);
            self.lemma_fields();
        }
        let rows: usize = self.rows;
        let alt: bool = self.is_alt_screen;
        self.erase_rows(0, rows, c);
        self.clear_flags(0, rows);
        if alt {
            return true;
        }
        self.restart_blocks(now)
    }

    /// Pushes `n` blank lines in at the cursor, within the scroll region.
    pub fn insert_lines(&mut self, n: usize)
        requires
            old(self)@.settled(),
        ensures
            final(self)@ == old(self)@.lines_inserted(n as int),
            crate::grid::same_place(old(self)@, final(self)@),
            final(self)@.settled(),
    {
        proof {
            reveal(GridView::lines_inserted);
            self.lemma_fields();
        }
        let cur: usize = self.cursor_row;
        let bot: usize = least(self.scroll_bottom, self.rows - 1);
        if cur <= bot {
            let k: usize = least(n, bot - cur + 1);
            self.shift_down(cur, bot, k);
            self.clear_rows(cur, cur + k, Cell::default());
        }
    }

    /// Takes `n` lines out at the cursor, within the scroll region.
    pub fn delete_lines(&mut self, n: usize)
        requires
            old(self)@.settled(),
        ensures
            final(self)@ == old(self)@.lines_deleted(n as int),
            crate::grid::same_place(old(self)@, final(self)@),
            final(self)@.settled(),
    {
        proof {
            reveal(GridView::lines_deleted);
            self.lemma_fields();
        }
        let cur: usize = self.cursor_row;
        let bot: usize = least(self.scroll_bottom, self.rows - 1);
        if cur <= bot {
            let k: usize = least(n, bot - cur + 1);
            self.shift_up(cur, bot, k);
            self.clear_rows(bot + 1 - k, bot + 1, Cell::default());
        }
    }

    /// Erases `n` characters from the cursor on.
    pub fn erase_chars(&mut self, n: usize, c: Cell)
        requires
            old(self)@.settled(),
        ensures
            final(self)@ == old(self)@.chars_erased(n as int, c),
            crate::grid::same_place(old(self)@, final(self)@),
            final(self)@.settled(),
    {
        proof {
            reveal(GridView::chars_erased);
            self.lemma_fields();
        }
        let (row, col): (usize, usize) = (self.cursor_row, self.cursor_col);
        let k: usize = least(n, self.cols - col);
        self.erase_part(row, col, col + k, c);
    }
}

} // verus!
