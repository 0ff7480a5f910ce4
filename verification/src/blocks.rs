//! Command blocks: which rows of the terminal belong to which command.
//!
//! A block starts at an absolute row (counted from the first scrollback line) and reaches to
//! the start of the next one. Blocks can be folded; a folded block of more than two rows is
//! shown as two, its first row and a summary line.

use std::collections::HashSet;
use vstd::prelude::*;

verus! {

broadcast use vstd::std_specs::hash::group_hash_axioms;

/// Lifecycle state of a command block.
#[derive(Debug, Clone, Copy, PartialEq, Eq, Structural)]
pub enum BlockState {
    /// Prompt displayed, waiting for input.
    Prompt,
    /// Command is executing.
    Executing,
    /// Command has completed.
    Completed,
}

/// How the block boundary was detected.
#[derive(Debug, Clone, Copy, PartialEq, Eq, Structural)]
pub enum BlockTrigger {
    /// Implicit first block at terminal start.
    Initial,
    /// User pressed Enter (behavioral detection).
    EnterKey,
    /// OSC 133;A semantic prompt marker.
    Osc133A,
    /// First keypress detected at a new row after command output.
    InputDetected,
}

/// A single command block: prompt + command + output.
#[derive(Debug, Clone, Copy)]
pub struct Block {
    /// Unique monotonic block ID.
    pub id: u64,
    /// Absolute row where this block starts.
    pub start_row: usize,
    /// How this block was triggered.
    pub trigger: BlockTrigger,
    /// Current lifecycle state.
    pub state: BlockState,
    /// Timestamp when this block was created (HH:MM:SS).
    pub created_at: [u8; 8],
    /// Exit code from OSC 133;D, if known.
    pub exit_code: Option<i32>,
    /// Column where command input starts (cursor col at OSC 133;B).
    pub cmd_col: Option<usize>,
}

impl Block {
    /// A block that has just been opened.
    pub open spec fn fresh(id: u64, start_row: usize, trigger: BlockTrigger, ts: [u8; 8]) -> Block {
        Block {
            id,
            start_row,
            trigger,
            state: BlockState::Prompt,
            created_at: ts,
            exit_code: None,
            cmd_col: None,
        }
    }

    /// The block after `n` rows above it have gone.
    pub open spec fn raised(self, n: int) -> Block {
        Block { start_row: (self.start_row - n) as usize, ..self }
    }
}

/// What a block list is: its blocks, the next ID to give, and whether OSC 133 has been seen.
#[verifier::ext_equal]
pub ghost struct BlocksView {
    pub blocks: Seq<Block>,
    pub next_id: int,
    pub has_osc133: bool,
}

impl BlocksView {
    /// Every ID was given before `next_id`, and later blocks have larger IDs.
    pub open spec fn wf(self) -> bool {
        &&& 0 <= self.next_id <= u64::MAX
        &&& forall|i: int| 0 <= i < self.blocks.len() ==> (#[trigger] self.blocks[i]).id < self.next_id
        &&& forall|i: int, j: int|
            0 <= i < j < self.blocks.len() ==> (#[trigger] self.blocks[i]).id < (
            #[trigger] self.blocks[j]).id
    }

    /// Blocks stand in the order of their rows.
    pub open spec fn sorted(self) -> bool {
        forall|i: int, j: int|
            0 <= i <= j < self.blocks.len() ==> (#[trigger] self.blocks[i]).start_row <= (
            #[trigger] self.blocks[j]).start_row
    }

    pub open spec fn empty() -> BlocksView {
        BlocksView { blocks: Seq::empty(), next_id: 0, has_osc133: false }
    }

    /// One fresh initial block and nothing else; IDs go on from where they were.
    pub open spec fn reset(self, start_row: int, ts: [u8; 8]) -> BlocksView {
        BlocksView {
            blocks: seq![
                Block::fresh(self.next_id as u64, start_row as usize, BlockTrigger::Initial, ts),
            ],
            next_id: self.next_id + 1,
            has_osc133: false,
        }
    }

    /// The last block replaced by `b`.
    pub open spec fn with_last(self, b: Block) -> BlocksView {
        BlocksView { blocks: self.blocks.update(self.blocks.len() - 1, b), ..self }
    }

    /// With OSC 133 markers in use, Enter only moves the current block on.
    pub open spec fn only_transitions(self, trigger: BlockTrigger) -> bool {
        self.has_osc133 && trigger == BlockTrigger::EnterKey
    }

    /// The block starts on the row where the current one does.
    pub open spec fn restarts_last(self, start_row: int) -> bool {
        self.blocks.len() > 0 && self.blocks.last().start_row == start_row
    }

    /// The list after a block was started.
    pub open spec fn started(self, trigger: BlockTrigger, start_row: int, ts: [u8; 8]) -> BlocksView {
        let last = self.blocks.last();
        if self.only_transitions(trigger) {
            if self.blocks.len() > 0 && last.state == BlockState::Prompt {
                self.with_last(Block { state: BlockState::Executing, ..last })
            } else {
                self
            }
        } else {
            let marked = BlocksView {
                has_osc133: self.has_osc133 || trigger == BlockTrigger::Osc133A,
                ..self
            };
            if self.restarts_last(start_row) {
                marked.with_last(Block::fresh(last.id, last.start_row, trigger, ts))
            } else {
                let fresh = Block::fresh(self.next_id as u64, start_row as usize, trigger, ts);
                let done = if self.blocks.len() > 0 {
                    marked.with_last(Block { state: BlockState::Completed, ..last })
                } else {
                    marked
                };
                BlocksView { blocks: done.blocks.push(fresh), next_id: self.next_id + 1, ..done }
            }
        }
    }

    /// The ID that starting a block reports.
    pub open spec fn started_id(self, trigger: BlockTrigger, start_row: int) -> u64 {
        if self.only_transitions(trigger) {
            if self.blocks.len() > 0 {
                self.blocks.last().id
            } else {
                0
            }
        } else if self.restarts_last(start_row) {
            self.blocks.last().id
        } else {
            self.next_id as u64
        }
    }

    /// Starting a block would take an ID that is still to be had.
    pub open spec fn has_room(self, trigger: BlockTrigger, start_row: int) -> bool {
        self.only_transitions(trigger) || self.restarts_last(start_row) || self.next_id < u64::MAX
    }

    /// The current block moved from its prompt to execution.
    pub open spec fn executing(self, cursor_col: int) -> BlocksView {
        let last = self.blocks.last();
        if self.blocks.len() > 0 && last.state == BlockState::Prompt {
            self.with_last(
                Block {
                    state: BlockState::Executing,
                    cmd_col: Some(cursor_col as usize),
                    ..last
                },
            )
        } else {
            self
        }
    }

    /// The current block completed.
    pub open spec fn completed(self, exit_code: Option<i32>) -> BlocksView {
        if self.blocks.len() > 0 {
            self.with_last(Block { state: BlockState::Completed, exit_code, ..self.blocks.last() })
        } else {
            self
        }
    }

    /// The list after the first `n` rows have gone: blocks that started there are dropped, the
    /// others move up.
    pub open spec fn evicted(self, n: int) -> BlocksView {
        BlocksView {
            blocks: self.blocks.filter(|b: Block| n <= b.start_row).map_values(
                |b: Block| b.raised(n),
            ),
            ..self
        }
    }

    /// The list after the rows from `first` on were moved: row `first + r` is now the row
    /// `first + places[r]`, and what lies behind them goes with the last.
    pub open spec fn rows_moved(self, first: int, places: Seq<int>) -> BlocksView {
        BlocksView {
            blocks: self.blocks.map_values(
                |b: Block|
                    Block { start_row: moved_row(b.start_row as int, first, places) as usize, ..b },
            ),
            ..self
        }
    }

    /// Where a binary search over `[lo, hi)` parts the blocks that start at or before `row`
    /// from those that start after it.
    pub open spec fn part(self, row: int, lo: int, hi: int) -> int
        decreases hi - lo,
    {
        if lo >= hi {
            lo
        } else {
            let mid = lo + (hi - lo) / 2;
            if self.blocks[mid].start_row <= row {
                self.part(row, mid + 1, hi)
            } else {
                self.part(row, lo, mid)
            }
        }
    }

    /// One past the index of the block that holds `row`; 0 where no block does.
    pub open spec fn upper(self, row: int) -> int {
        self.part(row, 0, self.blocks.len() as int)
    }

    /// A block starts at `row`.
    pub open spec fn starts_at(self, row: int) -> bool {
        self.upper(row) > 0 && self.blocks[self.upper(row) - 1].start_row == row
    }

    /// The first row after block `i`.
    pub open spec fn end_row(self, i: int, total: int) -> int {
        if i + 1 < self.blocks.len() {
            self.blocks[i + 1].start_row as int
        } else {
            total
        }
    }

    /// Rows of block `i`, not counting those at or below the cursor.
    pub open spec fn span(self, i: int, total: int, cursor: int) -> int {
        let n = clip(self.end_row(i, total), cursor) - self.blocks[i].start_row;
        if n < 0 {
            0
        } else {
            n
        }
    }

    /// Block `i` is shown folded.
    pub open spec fn folds_up(self, i: int, folds: Set<u64>, total: int, cursor: int) -> bool {
        folds.contains(self.blocks[i].id) && self.span(i, total, cursor) > 2
    }

    /// Rows that block `i` takes on screen.
    pub open spec fn shown(self, i: int, folds: Set<u64>, total: int, cursor: int) -> int {
        if self.folds_up(i, folds, total, cursor) {
            2
        } else {
            self.span(i, total, cursor)
        }
    }

    /// Rows hidden by folds among the first `k` blocks.
    pub open spec fn hidden_before(self, k: int, folds: Set<u64>, total: int, cursor: int) -> int
        decreases k,
    {
        if k <= 0 {
            0
        } else {
            self.hidden_before(k - 1, folds, total, cursor) + self.span(k - 1, total, cursor)
                - self.shown(k - 1, folds, total, cursor)
        }
    }

    /// Rows that the first `k` blocks take on screen.
    pub open spec fn shown_before(self, k: int, folds: Set<u64>, total: int, cursor: int) -> int
        decreases k,
    {
        if k <= 0 {
            0
        } else {
            self.shown_before(k - 1, folds, total, cursor) + self.shown(k - 1, folds, total, cursor)
        }
    }

    /// Rows hidden by all folds.
    pub open spec fn savings(self, folds: Set<u64>, total: int, cursor: int) -> int {
        self.hidden_before(self.blocks.len() as int, folds, total, cursor)
    }

    /// Rows that everything takes on screen: the blocks, then the rows from the cursor on.
    pub open spec fn vtotal(self, folds: Set<u64>, total: int, cursor: int) -> int {
        if self.blocks.len() == 0 {
            total
        } else {
            self.shown_before(self.blocks.len() as int, folds, total, cursor) + total - clip(
                total,
                cursor,
            )
        }
    }

    /// The absolute row at screen row `target`, looked for from block `k` on.
    pub open spec fn row_at(self, k: int, target: int, folds: Set<u64>, total: int, cursor: int) -> int
        decreases self.blocks.len() - k,
    {
        if k >= self.blocks.len() {
            clip(total, cursor) + target - self.shown_before(
                self.blocks.len() as int,
                folds,
                total,
                cursor,
            )
        } else if target < self.shown_before(k + 1, folds, total, cursor) {
            self.blocks[k].start_row + target - self.shown_before(k, folds, total, cursor)
        } else {
            self.row_at(k + 1, target, folds, total, cursor)
        }
    }

    /// The absolute row at the top of a screen of `visible` rows that is scrolled back by
    /// `offset` screen rows.
    pub open spec fn top_row(
        self,
        folds: Set<u64>,
        total: int,
        cursor: int,
        visible: int,
        offset: int,
    ) -> int {
        if self.blocks.len() == 0 {
            monus(total, visible + offset)
        } else {
            self.row_at(
                0,
                monus(self.vtotal(folds, total, cursor), visible + offset),
                folds,
                total,
                cursor,
            )
        }
    }
}

/// Where a row is after the rows from `first` on were moved.
pub open spec fn moved_row(row: int, first: int, places: Seq<int>) -> int {
    if row < first || places.len() == 0 {
        row
    } else {
        let r = if row - first < places.len() {
            row - first
        } else {
            places.len() - 1
        };
        if first + places[r] <= usize::MAX {
            first + places[r]
        } else {
            usize::MAX as int
        }
    }
}

/// `a - b`, or 0 where that is negative.
pub open spec fn monus(a: int, b: int) -> int {
    if a >= b {
        a - b
    } else {
        0
    }
}

/// `end`, cut off at the cursor row; the largest `usize` stands for no cursor.
pub open spec fn clip(end: int, cursor: int) -> int {
    if cursor != usize::MAX && end > cursor {
        cursor
    } else {
        end
    }
}

/// Cuts an end row off at the cursor row.
fn clip_row(end: usize, cursor_abs: usize) -> (r: usize)
    ensures
        r == clip(end as int, cursor_abs as int),
{
    if cursor_abs != usize::MAX && end > cursor_abs {
        cursor_abs
    } else {
        end
    }
}

/// Ordered list of command blocks.
#[derive(Debug)]
pub struct BlockList {
    blocks: Vec<Block>,
    next_id: u64,
    /// Whether OSC 133 markers have been seen. When true, Enter-key
    /// detection only transitions state (doesn't create new blocks).
    pub has_osc133: bool,
}

impl View for BlockList {
    type V = BlocksView;

    closed spec fn view(&self) -> BlocksView {
        BlocksView {
            blocks: self.blocks@,
            next_id: self.next_id as int,
            has_osc133: self.has_osc133,
        }
    }
}

impl BlockList {
    pub fn new() -> (r: BlockList)
        ensures
            r@ == BlocksView::empty(),
            r@.wf(),
    {
        BlockList { blocks: Vec::new(), next_id: 0, has_osc133: false }
    }

    /// Reset the block list (e.g. on screen clear). Creates a fresh initial block.
    pub fn reset(&mut self, start_row: usize, ts: [u8; 8])
        requires
            old(self)@.next_id < u64::MAX,
        ensures
            final(self)@ == old(self)@.reset(start_row as int, ts),
            final(self)@.wf(),
    {
        self.blocks.clear();
        self.has_osc133 = false;
        let id: u64 = self.next_id;
        self.next_id = self.next_id + 1;
        self.blocks.push(
            Block {
                id,
                start_row,
                state: BlockState::Prompt,
                trigger: BlockTrigger::Initial,
                created_at: ts,
                exit_code: None,
                cmd_col: None,
            },
        );
        assert(self@.blocks =~= old(self)@.reset(start_row as int, ts).blocks);
    }

    /// Create a new block. Finalizes the previous block first.
    /// Returns the new block's ID.
    pub fn start_block(&mut self, trigger: BlockTrigger, start_row: usize, ts: [u8; 8]) -> (id: u64)
        requires
            old(self)@.wf(),
            old(self)@.has_room(trigger, start_row as int),
        ensures
            final(self)@ == old(self)@.started(trigger, start_row as int, ts),
            id == old(self)@.started_id(trigger, start_row as int),
            final(self)@.wf(),
    {
        let n: usize = self.blocks.len();
        if self.has_osc133 && trigger == BlockTrigger::EnterKey {
            if n > 0 {
                let mut b = self.blocks[n - 1];
                if b.state == BlockState::Prompt {
                    b.state = BlockState::Executing;
                    self.blocks[n - 1] = b;
                }
                return b.id;
            }
            return 0;
        }
        if trigger == BlockTrigger::Osc133A {
            self.has_osc133 = true;
        }
        if n > 0 {
            let mut last = self.blocks[n - 1];
            if last.start_row == start_row {
                last.trigger = trigger;
                last.state = BlockState::Prompt;
                last.created_at = ts;
                last.exit_code = None;
                last.cmd_col = None;
                self.blocks[n - 1] = last;
                return last.id;
            }
            last.state = BlockState::Completed;
            self.blocks[n - 1] = last;
        }
        let id: u64 = self.next_id;
        self.next_id = self.next_id + 1;
        self.blocks.push(
            Block {
                id,
                start_row,
                trigger,
                state: BlockState::Prompt,
                created_at: ts,
                exit_code: None,
                cmd_col: None,
            },
        );
        id
    }

    /// Transition the current block to Executing, recording the cursor column
    /// where command input starts (i.e. right after the prompt).
    pub fn mark_executing(&mut self, cursor_col: usize)
        ensures
            final(self)@ == old(self)@.executing(cursor_col as int),
            old(self)@.wf() ==> final(self)@.wf(),
    {
        let n: usize = self.blocks.len();
        if n > 0 {
            let mut b = self.blocks[n - 1];
            if b.state == BlockState::Prompt {
                b.state = BlockState::Executing;
                b.cmd_col = Some(cursor_col);
                self.blocks[n - 1] = b;
            }
        }
    }

    /// Mark current block Completed with optional exit code.
    pub fn mark_completed(&mut self, exit_code: Option<i32>)
        ensures
            final(self)@ == old(self)@.completed(exit_code),
            old(self)@.wf() ==> final(self)@.wf(),
    {
        let n: usize = self.blocks.len();
        if n > 0 {
            let mut b = self.blocks[n - 1];
            b.state = BlockState::Completed;
            b.exit_code = exit_code;
            self.blocks[n - 1] = b;
        }
    }

    /// Number of blocks up to and including the one that holds `abs_row`.
    fn upper_bound(&self, abs_row: usize) -> (r: usize)
        ensures
            r == self@.upper(abs_row as int),
            r <= self@.blocks.len(),
    {
        let mut lo: usize = 0;
        let mut hi: usize = self.blocks.len();
        while lo < hi
            invariant
                lo <= hi <= self.blocks.len(),
                self@.upper(abs_row as int) == self@.part(abs_row as int, lo as int, hi as int),
            decreases hi - lo,
        {
            let mid: usize = lo + (hi - lo) / 2;
            if self.blocks[mid].start_row <= abs_row {
                lo = mid + 1;
            } else {
                hi = mid;
            }
        }
        lo
    }

    /// Find the block containing `abs_row`. Returns (index, &Block).
    /// The block found is the last that starts at or before the row, provided the blocks stand
    /// in the order of their rows.
    pub fn block_for_row(&self, abs_row: usize) -> (r: Option<(usize, &Block)>)
        ensures
            r.is_some() == (self@.upper(abs_row as int) > 0),
            r matches Some((i, b)) ==> i == self@.upper(abs_row as int) - 1 && *b
                == self@.blocks[i as int] && i < self@.blocks.len() && i < usize::MAX,
            self@.sorted() ==> match r {
                Some((i, b)) => b.start_row <= abs_row && forall|j: int|
                    i < j < self@.blocks.len() ==> (#[trigger] self@.blocks[j]).start_row > abs_row,
                None => forall|j: int|
                    0 <= j < self@.blocks.len() ==> (#[trigger] self@.blocks[j]).start_row > abs_row,
            },
    {
        let idx: usize = self.upper_bound(abs_row);
        proof {
            law_upper_parts(self@, abs_row as int);
        }
        if idx == 0 {
            None
        } else {
            Some((idx - 1, &self.blocks[idx - 1]))
        }
    }

    /// Is this absolute row the start of a block?
    pub fn is_block_start(&self, abs_row: usize) -> (r: bool)
        ensures
            r == self@.starts_at(abs_row as int),
            self@.sorted() ==> r == exists|j: int|
                0 <= j < self@.blocks.len() && (#[trigger] self@.blocks[j]).start_row == abs_row,
    {
        let idx: usize = self.upper_bound(abs_row);
        proof {
            law_upper_parts(self@, abs_row as int);
        }
        idx > 0 && self.blocks[idx - 1].start_row == abs_row
    }

    /// Block ID at the given row (for fold toggling).
    pub fn block_id_at_row(&self, abs_row: usize) -> (r: Option<u64>)
        ensures
            r == if self@.upper(abs_row as int) > 0 {
                Some(self@.blocks[self@.upper(abs_row as int) - 1].id)
            } else {
                None::<u64>
            },
    {
        match self.block_for_row(abs_row) {
            Some((_, b)) => Some(b.id),
            None => None,
        }
    }

    /// Start row for a block ID.
    pub fn start_row_for_id(&self, id: u64) -> (r: Option<usize>)
        requires
            self@.wf(),
        ensures
            match r {
                Some(row) => exists|i: int|
                    0 <= i < self@.blocks.len() && (#[trigger] self@.blocks[i]).id == id
                        && self@.blocks[i].start_row == row,
                None => forall|i: int|
                    0 <= i < self@.blocks.len() ==> (#[trigger] self@.blocks[i]).id != id,
            },
    {
        let mut i: usize = 0;
        while i < self.blocks.len()
            invariant
                i <= self.blocks.len(),
                forall|j: int| 0 <= j < i ==> (#[trigger] self.blocks[j]).id != id,
            decreases self.blocks.len() - i,
        {
            if self.blocks[i].id == id {
                assert(self@.blocks[i as int].id == id);
                return Some(self.blocks[i].start_row);
            }
            i = i + 1;
        }
        None
    }

    /// End row (exclusive) for a block by index.
    pub fn block_end_row(&self, block_idx: usize, total_rows: usize) -> (r: usize)
        requires
            block_idx < usize::MAX,
        ensures
            r == self@.end_row(block_idx as int, total_rows as int),
    {
        if block_idx + 1 < self.blocks.len() {
            self.blocks[block_idx + 1].start_row
        } else {
            total_rows
        }
    }

    /// Get the current (most recent) block.
    pub fn current(&self) -> (r: Option<&Block>)
        ensures
            r.is_some() == (self@.blocks.len() > 0),
            r matches Some(b) ==> *b == self@.blocks.last(),
    {
        let n: usize = self.blocks.len();
        if n > 0 {
            Some(&self.blocks[n - 1])
        } else {
            None
        }
    }

    /// Whether OSC 133 shell integration is active (detected at least one marker).
    pub fn has_osc133(&self) -> (r: bool)
        ensures
            r == self@.has_osc133,
    {
        self.has_osc133
    }

    /// All blocks.
    pub fn blocks(&self) -> (r: &[Block])
        ensures
            r@ == self@.blocks,
    {
        self.blocks.as_slice()
    }

    /// Number of blocks.
    pub fn len(&self) -> (r: usize)
        ensures
            r == self@.blocks.len(),
    {
        self.blocks.len()
    }

    /// The ID that the next block gets.
    pub fn next_id(&self) -> (r: u64)
        ensures
            r == self@.next_id,
    {
        self.next_id
    }

    /// Whether there is no block.
    pub fn is_empty(&self) -> (r: bool)
        ensures
            r == (self@.blocks.len() == 0),
    {
        self.blocks.len() == 0
    }

    /// Rows of block `i` above the cursor, and whether it is shown folded.
    fn block_span(
        &self,
        i: usize,
        folds: &HashSet<u64>,
        total_rows: usize,
        cursor_abs: usize,
    ) -> (r: (usize, bool))
        requires
            i < self@.blocks.len(),
        ensures
            r.0 == self@.span(i as int, total_rows as int, cursor_abs as int),
            r.1 == self@.folds_up(i as int, folds@, total_rows as int, cursor_abs as int),
    {
        assert(i < self.blocks.len());
        let end: usize = self.block_end_row(i, total_rows);
        let n: usize = clip_row(end, cursor_abs).saturating_sub(self.blocks[i].start_row);
        (n, folds.contains(&self.blocks[i].id) && n > 2)
    }

    /// Total absolute rows hidden by folds.
    /// Each folded block uses 2 visual rows (block-start + summary); the rest are hidden.
    pub fn fold_savings(&self, folds: &HashSet<u64>, total_rows: usize, cursor_abs: usize) -> (r: usize)
        requires
            self@.savings(folds@, total_rows as int, cursor_abs as int) <= usize::MAX,
        ensures
            r == self@.savings(folds@, total_rows as int, cursor_abs as int),
    {
        let mut savings: usize = 0;
        let mut i: usize = 0;
        while i < self.blocks.len()
            invariant
                i <= self.blocks.len(),
                self@.savings(folds@, total_rows as int, cursor_abs as int) <= usize::MAX,
                savings == self@.hidden_before(
                    i as int,
                    folds@,
                    total_rows as int,
                    cursor_abs as int,
                ),
            decreases self.blocks.len() - i,
        {
            proof {
                lemma_hidden_grows(
                    self@,
                    i as int + 1,
                    self@.blocks.len() as int,
                    folds@,
                    total_rows as int,
                    cursor_abs as int,
                );
            }
            let (rows, folded): (usize, bool) = self.block_span(i, folds, total_rows, cursor_abs);
            if folded {
                savings = savings + (rows - 2);
            }
            i = i + 1;
        }
        savings
    }

    /// Total virtual (fold-compressed) row count.
    /// Folded blocks contribute 2 virtual rows (block-start + summary); others are 1:1.
    pub fn virtual_total(&self, folds: &HashSet<u64>, total_rows: usize, cursor_abs: usize) -> (r:
        usize)
        requires
            self@.vtotal(folds@, total_rows as int, cursor_abs as int) <= usize::MAX,
        ensures
            r == self@.vtotal(folds@, total_rows as int, cursor_abs as int),
    {
        if self.blocks.len() == 0 {
            return total_rows;
        }
        let mut vtotal: usize = 0;
        let mut i: usize = 0;
        while i < self.blocks.len()
            invariant
                i <= self.blocks.len(),
                self@.blocks.len() > 0,
                self@.vtotal(folds@, total_rows as int, cursor_abs as int) <= usize::MAX,
                vtotal == self@.shown_before(
                    i as int,
                    folds@,
                    total_rows as int,
                    cursor_abs as int,
                ),
            decreases self.blocks.len() - i,
        {
            proof {
                lemma_shown_grows(
                    self@,
                    i as int + 1,
                    self@.blocks.len() as int,
                    folds@,
                    total_rows as int,
                    cursor_abs as int,
                );
            }
            let (rows, folded): (usize, bool) = self.block_span(i, folds, total_rows, cursor_abs);
            vtotal = vtotal + if folded {
                2
            } else {
                rows
            };
            i = i + 1;
        }
        vtotal + (total_rows - clip_row(total_rows, cursor_abs))
    }

    /// Compute the absolute row to start rendering from, treating `scroll_offset`
    /// as a virtual (fold-compressed) offset from the bottom.
    pub fn render_start(
        &self,
        folds: &HashSet<u64>,
        total_rows: usize,
        cursor_abs: usize,
        visible_rows: usize,
        scroll_offset: usize,
    ) -> (r: usize)
        requires
            self@.vtotal(folds@, total_rows as int, cursor_abs as int) <= usize::MAX,
            visible_rows + scroll_offset <= usize::MAX,
        ensures
            r == self@.top_row(
                folds@,
                total_rows as int,
                cursor_abs as int,
                visible_rows as int,
                scroll_offset as int,
            ),
    {
        if self.blocks.len() == 0 {
            return total_rows.saturating_sub(visible_rows + scroll_offset);
        }
        let vtotal: usize = self.virtual_total(folds, total_rows, cursor_abs);
        let target: usize = vtotal.saturating_sub(visible_rows + scroll_offset);
        let mut vrow: usize = 0;
        let mut i: usize = 0;
        while i < self.blocks.len()
            invariant
                i <= self.blocks.len(),
                self@.blocks.len() > 0,
                vtotal == self@.vtotal(folds@, total_rows as int, cursor_abs as int),
                target == monus(vtotal as int, visible_rows + scroll_offset),
                vrow == self@.shown_before(i as int, folds@, total_rows as int, cursor_abs as int),
                vrow <= target,
                self@.row_at(0, target as int, folds@, total_rows as int, cursor_abs as int)
                    == self@.row_at(
                    i as int,
                    target as int,
                    folds@,
                    total_rows as int,
                    cursor_abs as int,
                ),
            decreases self.blocks.len() - i,
        {
            proof {
                lemma_shown_grows(
                    self@,
                    i as int + 1,
                    self@.blocks.len() as int,
                    folds@,
                    total_rows as int,
                    cursor_abs as int,
                );
            }
            let (rows, folded): (usize, bool) = self.block_span(i, folds, total_rows, cursor_abs);
            let shown: usize = if folded {
                2
            } else {
                rows
            };
            if target < vrow + shown {
                let offset: usize = target - vrow;
                return self.blocks[i].start_row + offset;
            }
            vrow = vrow + shown;
            i = i + 1;
        }
        clip_row(total_rows, cursor_abs) + (target - vrow)
    }

    /// Adjust start_rows when the rows from `first` on are moved.
    pub fn move_rows(&mut self, first: usize, places: &Vec<usize>)
        ensures
            final(self)@ == old(self)@.rows_moved(
                first as int,
                places@.map_values(|p: usize| p as int),
            ),
            old(self)@.wf() ==> final(self)@.wf(),
    {
        let ghost to = places@.map_values(|p: usize| p as int);
        let ghost want = self@.rows_moved(first as int, to).blocks;
        let mut i: usize = 0;
        while i < self.blocks.len()
            invariant
                i <= self.blocks@.len() == old(self).blocks@.len(),
                to == places@.map_values(|p: usize| p as int),
                want == old(self)@.rows_moved(first as int, to).blocks,
                forall|j: int| 0 <= j < i ==> #[trigger] self.blocks@[j] == want[j],
                forall|j: int| i <= j < self.blocks@.len() ==> #[trigger] self.blocks@[j]
                    == old(self).blocks@[j],
                self.next_id == old(self).next_id,
                self.has_osc133 == old(self).has_osc133,
            decreases self.blocks@.len() - i,
        {
            let mut b = self.blocks[i];
            if b.start_row >= first && places.len() > 0 {
                let r: usize = if b.start_row - first < places.len() {
                    b.start_row - first
                } else {
                    places.len() - 1
                };
                assert(to[r as int] == places@[r as int]);
                b.start_row = if places[r] <= usize::MAX - first {
                    first + places[r]
                } else {
                    usize::MAX
                };
            }
            self.blocks[i] = b;
            i = i + 1;
        }
        assert(self.blocks@ =~= want);
    }

    /// Adjust start_rows when `n` lines are evicted from scrollback front.
    pub fn adjust_on_evict(&mut self, n: usize)
        ensures
            final(self)@ == old(self)@.evicted(n as int),
            old(self)@.wf() ==> final(self)@.wf(),
    {
        let mut kept: Vec<Block> = Vec::new();
        let mut i: usize = 0;
        while i < self.blocks.len()
            invariant
                i <= self.blocks.len(),
                *self == *old(self),
                kept@ == self@.blocks.take(i as int).filter(
                    |b: Block| n as int <= b.start_row,
                ).map_values(|b: Block| b.raised(n as int)),
            decreases self.blocks.len() - i,
        {
            let b = self.blocks[i];
            let ghost p = |b: Block| n as int <= b.start_row;
            let ghost f = |b: Block| b.raised(n as int);
            proof {
                let pre = self@.blocks.take(i as int + 1);
                assert(pre.drop_last() =~= self@.blocks.take(i as int));
                assert(pre.last() == b);
                reveal(Seq::filter);
                assert(pre.filter(p) == if p(b) {
                    pre.drop_last().filter(p).push(b)
                } else {
                    pre.drop_last().filter(p)
                });
                if p(b) {
                    assert(pre.filter(p).map_values(f) =~= pre.drop_last().filter(p).map_values(
                        f,
                    ).push(f(b)));
                }
            }
            if b.start_row >= n {
                let mut moved = b;
                moved.start_row = b.start_row - n;
                kept.push(moved);
            }
            i = i + 1;
        }
        proof {
            assert(self@.blocks.take(self@.blocks.len() as int) =~= self@.blocks);
            if self@.wf() {
                law_evict_keeps_ids(self@, n as int);
            }
        }
        self.blocks = kept;
    }
}

proof fn lemma_shown_grows(
    v: BlocksView,
    i: int,
    j: int,
    folds: Set<u64>,
    total: int,
    cursor: int,
)
    requires
        0 <= i <= j,
    ensures
        0 <= v.shown_before(i, folds, total, cursor) <= v.shown_before(j, folds, total, cursor),
    decreases j,
{
    if j > i {
        lemma_shown_grows(v, i, j - 1, folds, total, cursor);
    } else if j > 0 {
        lemma_shown_grows(v, i - 1, j - 1, folds, total, cursor);
    }
}

proof fn lemma_hidden_grows(
    v: BlocksView,
    i: int,
    j: int,
    folds: Set<u64>,
    total: int,
    cursor: int,
)
    requires
        0 <= i <= j,
    ensures
        0 <= v.hidden_before(i, folds, total, cursor) <= v.hidden_before(j, folds, total, cursor),
    decreases j,
{
    if j > i {
        lemma_hidden_grows(v, i, j - 1, folds, total, cursor);
    } else if j > 0 {
        lemma_hidden_grows(v, i - 1, j - 1, folds, total, cursor);
    }
}

proof fn lemma_part_bounds(v: BlocksView, row: int, lo: int, hi: int)
    requires
        0 <= lo <= hi <= v.blocks.len(),
        lo > 0 ==> v.blocks[lo - 1].start_row <= row,
        hi < v.blocks.len() ==> v.blocks[hi].start_row > row,
    ensures
        ({
            let p = v.part(row, lo, hi);
            &&& lo <= p <= hi
            &&& p > 0 ==> v.blocks[p - 1].start_row <= row
            &&& p < v.blocks.len() ==> v.blocks[p].start_row > row
        }),
    decreases hi - lo,
{
    if lo < hi {
        let mid = lo + (hi - lo) / 2;
        if v.blocks[mid].start_row <= row {
            lemma_part_bounds(v, row, mid + 1, hi);
        } else {
            lemma_part_bounds(v, row, lo, mid);
        }
    }
}

/// The boundary found for a row parts the blocks: the one before it starts at or before the
/// row, the one after it starts later. In a list in row order so does every other block.
pub proof fn law_upper_parts(v: BlocksView, row: int)
    ensures
        0 <= v.upper(row) <= v.blocks.len(),
        v.upper(row) > 0 ==> v.blocks[v.upper(row) - 1].start_row <= row,
        v.upper(row) < v.blocks.len() ==> v.blocks[v.upper(row)].start_row > row,
        v.sorted() ==> forall|j: int|
            0 <= j < v.blocks.len() ==> ((#[trigger] v.blocks[j]).start_row <= row <==> j < v.upper(
                row,
            )),
{
    lemma_part_bounds(v, row, 0, v.blocks.len() as int);
}

proof fn lemma_filter_subsequence(s: Seq<Block>, n: int, k: int)
    requires
        0 <= k < s.filter(|b: Block| n <= b.start_row).len(),
    ensures
        exists|i: int|
            0 <= i < s.len() && #[trigger] s[i] == s.filter(|b: Block| n <= b.start_row)[k] && n
                <= s[i].start_row && s.take(i).filter(|b: Block| n <= b.start_row).len() == k,
    decreases s.len(),
{
    reveal(Seq::filter);
    let p = |b: Block| n <= b.start_row;
    let pre = s.drop_last();
    let m = s.len() - 1;
    assert(s.take(m) =~= pre);
    if k < pre.filter(p).len() {
        lemma_filter_subsequence(pre, n, k);
        let i = choose|i: int|
            0 <= i < pre.len() && #[trigger] pre[i] == pre.filter(p)[k] && n <= pre[i].start_row
                && pre.take(i).filter(p).len() == k;
        assert(s.take(i) =~= pre.take(i));
        assert(s[i] == s.filter(p)[k]);
    } else {
        assert(s[m] == s.filter(p)[k]);
    }
}

proof fn lemma_filter_len_monotone(s: Seq<Block>, n: int, i: int, j: int)
    requires
        0 <= i <= j <= s.len(),
    ensures
        s.take(i).filter(|b: Block| n <= b.start_row).len() <= s.take(j).filter(
            |b: Block| n <= b.start_row,
        ).len(),
    decreases j - i,
{
    if i < j {
        reveal(Seq::filter);
        lemma_filter_len_monotone(s, n, i, j - 1);
        assert(s.take(j).drop_last() =~= s.take(j - 1));
    }
}

/// Dropping the blocks of evicted rows keeps IDs unique and increasing.
pub proof fn law_evict_keeps_ids(v: BlocksView, n: int)
    requires
        v.wf(),
    ensures
        v.evicted(n).wf(),
{
    let p = |b: Block| n <= b.start_row;
    let f = |b: Block| b.raised(n);
    let kept = v.blocks.filter(p);
    assert forall|i: int| 0 <= i < kept.len() implies (#[trigger] v.evicted(n).blocks[i]).id
        < v.next_id by {
        lemma_filter_subsequence(v.blocks, n, i);
        assert(v.evicted(n).blocks[i] == f(kept[i]));
    }
    assert forall|i: int, j: int| 0 <= i < j < kept.len() implies (
    #[trigger] v.evicted(n).blocks[i]).id < (#[trigger] v.evicted(n).blocks[j]).id by {
        lemma_filter_subsequence(v.blocks, n, i);
        lemma_filter_subsequence(v.blocks, n, j);
        let a = choose|a: int|
            0 <= a < v.blocks.len() && #[trigger] v.blocks[a] == kept[i] && n
                <= v.blocks[a].start_row && v.blocks.take(a).filter(p).len() == i;
        let b = choose|b: int|
            0 <= b < v.blocks.len() && #[trigger] v.blocks[b] == kept[j] && n
                <= v.blocks[b].start_row && v.blocks.take(b).filter(p).len() == j;
        if b <= a {
            lemma_filter_len_monotone(v.blocks, n, b, a);
        }
        assert(v.evicted(n).blocks[i] == f(kept[i]));
        assert(v.evicted(n).blocks[j] == f(kept[j]));
    }
}

proof fn lemma_spans_telescope(v: BlocksView, k: int, folds: Set<u64>, total: int, cursor: int)
    requires
        v.sorted(),
        0 < k <= v.blocks.len(),
        v.blocks.last().start_row <= total <= usize::MAX,
        v.blocks[0].start_row <= cursor,
    ensures
        v.shown_before(k, folds, total, cursor) + v.hidden_before(k, folds, total, cursor) == clip(
            v.end_row(k - 1, total),
            cursor,
        ) - v.blocks[0].start_row,
    decreases k,
{
    if k == 1 {
        assert(v.shown_before(0, folds, total, cursor) == 0);
        assert(v.hidden_before(0, folds, total, cursor) == 0);
        if v.blocks.len() > 1 {
            assert(v.blocks[0].start_row <= v.blocks[1].start_row);
        }
    } else {
        lemma_spans_telescope(v, k - 1, folds, total, cursor);
        assert(v.end_row(k - 2, total) == v.blocks[k - 1].start_row);
        if k < v.blocks.len() {
            assert(v.blocks[k - 1].start_row <= v.blocks[k].start_row);
        }
    }
}

/// Folding loses no row: the rows shown, the rows hidden and the rows above the first block
/// are all the rows there are. The blocks are in row order and within the terminal, and the
/// first starts at or above the cursor.
pub proof fn law_folds_conserve_rows(v: BlocksView, folds: Set<u64>, total: int, cursor: int)
    requires
        v.sorted(),
        v.blocks.len() > 0,
        v.blocks.last().start_row <= total <= usize::MAX,
        v.blocks[0].start_row <= cursor <= usize::MAX,
    ensures
        v.vtotal(folds, total, cursor) + v.savings(folds, total, cursor) + v.blocks[0].start_row
            == total,
{
    lemma_spans_telescope(v, v.blocks.len() as int, folds, total, cursor);
}

proof fn lemma_row_at_unfolded(v: BlocksView, k: int, target: int, total: int, cursor: int)
    requires
        v.sorted(),
        0 <= k <= v.blocks.len(),
        v.blocks.len() > 0,
        v.blocks.last().start_row <= total <= usize::MAX,
        v.blocks[0].start_row <= cursor <= usize::MAX,
        v.shown_before(k, Set::empty(), total, cursor) <= target,
    ensures
        v.row_at(k, target, Set::empty(), total, cursor) == v.blocks[0].start_row + target,
    decreases v.blocks.len() - k,
{
    let folds = Set::<u64>::empty();
    lemma_hidden_nothing(v, k, total, cursor);
    if k > 0 {
        lemma_spans_telescope(v, k, folds, total, cursor);
    }
    if k < v.blocks.len() {
        if target < v.shown_before(k + 1, folds, total, cursor) {
            if k > 0 {
                assert(v.end_row(k - 1, total) == v.blocks[k].start_row);
            }
        } else {
            lemma_row_at_unfolded(v, k + 1, target, total, cursor);
        }
    }
}

proof fn lemma_hidden_nothing(v: BlocksView, k: int, total: int, cursor: int)
    ensures
        v.hidden_before(k, Set::empty(), total, cursor) == 0,
    decreases k,
{
    if k > 0 {
        lemma_hidden_nothing(v, k - 1, total, cursor);
    }
}

/// Without folds the viewport starts `visible + offset` rows above the bottom, or at the first
/// block where there are not so many rows.
pub proof fn law_top_row_unfolded(
    v: BlocksView,
    total: int,
    cursor: int,
    visible: int,
    offset: int,
)
    requires
        v.sorted(),
        v.blocks.len() > 0,
        v.blocks.last().start_row <= total <= usize::MAX,
        v.blocks[0].start_row <= cursor <= usize::MAX,
        0 <= visible,
        0 <= offset,
    ensures
        v.top_row(Set::empty(), total, cursor, visible, offset) == v.blocks[0].start_row + monus(
            total - v.blocks[0].start_row,
            visible + offset,
        ),
{
    law_folds_conserve_rows(v, Set::empty(), total, cursor);
    lemma_hidden_nothing(v, v.blocks.len() as int, total, cursor);
    lemma_row_at_unfolded(
        v,
        0,
        monus(v.vtotal(Set::empty(), total, cursor), visible + offset),
        total,
        cursor,
    );
}

/// Starting a block twice on the same row with the same trigger opens one block only.
pub proof fn law_restart_adds_no_block(
    v: BlocksView,
    trigger: BlockTrigger,
    row: int,
    ts: [u8; 8],
    later: [u8; 8],
)
    requires
        v.wf(),
        v.has_room(trigger, row),
        0 <= row <= usize::MAX,
    ensures
        v.started(trigger, row, ts).started(trigger, row, later).blocks.len() == v.started(
            trigger,
            row,
            ts,
        ).blocks.len(),
        v.started(trigger, row, ts).started_id(trigger, row) == v.started_id(trigger, row),
{
}

/// Something that was done to a block list.
pub ghost enum BlockStep {
    Start(BlockTrigger, int, [u8; 8]),
    Reset(int, [u8; 8]),
    Executing(int),
    Completed(Option<i32>),
    Evicted(int),
    Moved(int, Seq<int>),
}

impl BlocksView {
    /// The list after a step.
    pub open spec fn stepped(self, step: BlockStep) -> BlocksView {
        match step {
            BlockStep::Start(trigger, row, ts) => self.started(trigger, row, ts),
            BlockStep::Reset(row, ts) => self.reset(row, ts),
            BlockStep::Executing(col) => self.executing(col),
            BlockStep::Completed(code) => self.completed(code),
            BlockStep::Evicted(n) => self.evicted(n),
            BlockStep::Moved(first, places) => self.rows_moved(first, places),
        }
    }

    /// The ID that a step gives out, where it does.
    pub open spec fn given(self, step: BlockStep) -> Option<u64> {
        match step {
            BlockStep::Start(trigger, row, _) => Some(self.started_id(trigger, row)),
            BlockStep::Reset(_, _) => Some(self.next_id as u64),
            _ => None,
        }
    }

    /// The step finds the ID that it needs.
    pub open spec fn allows(self, step: BlockStep) -> bool {
        match step {
            BlockStep::Start(trigger, row, _) => self.has_room(trigger, row),
            BlockStep::Reset(_, _) => self.next_id < u64::MAX,
            _ => true,
        }
    }
}

/// The list that the steps lead to from the empty one.
pub open spec fn after_steps(steps: Seq<BlockStep>) -> BlocksView
    decreases steps.len(),
{
    if steps.len() == 0 {
        BlocksView::empty()
    } else {
        after_steps(steps.drop_last()).stepped(steps.last())
    }
}

/// Each step found the ID that it needed.
pub open spec fn all_allowed(steps: Seq<BlockStep>) -> bool {
    forall|k: int|
        0 <= k < steps.len() ==> after_steps(steps.take(k)).allows(#[trigger] steps[k])
}

/// Blocks that have been counted on, and OSC 133 seen, have taken an ID.
spec fn counted(v: BlocksView) -> bool {
    v.wf() && (v.has_osc133 ==> v.next_id > 0)
}

proof fn lemma_step(v: BlocksView, step: BlockStep)
    requires
        counted(v),
        v.allows(step),
    ensures
        counted(v.stepped(step)),
        v.next_id <= v.stepped(step).next_id,
        v.given(step) matches Some(id) ==> id < v.stepped(step).next_id,
{
    match step {
        BlockStep::Evicted(n) => law_evict_keeps_ids(v, n),
        _ => {},
    }
}

#[verifier::spinoff_prover]
proof fn lemma_steps(steps: Seq<BlockStep>, k: int)
    requires
        all_allowed(steps),
    ensures
        counted(after_steps(steps)),
        0 <= k < steps.len() ==> (after_steps(steps.take(k)).given(steps[k]) matches Some(id) ==> id
            < after_steps(steps).next_id),
    decreases steps.len(),
{
    if steps.len() > 0 {
        let rest = steps.drop_last();
        let n = steps.len() - 1;
        assert(steps.take(n) =~= rest);
        assert(after_steps(steps.take(n)).allows(steps[n]));
        assert forall|k: int| 0 <= k < rest.len() implies after_steps(rest.take(k)).allows(
            #[trigger] rest[k],
        ) by {
            assert(rest.take(k) =~= steps.take(k));
            assert(after_steps(steps.take(k)).allows(steps[k]));
        }
        lemma_steps(rest, k);
        lemma_step(after_steps(rest), steps[n]);
        if 0 <= k < rest.len() {
            assert(rest.take(k) =~= steps.take(k));
        }
    }
}

/// A reset gives its one block an ID above every ID that was given out before, those of blocks
/// that are long gone included: a set of old IDs never matches it.
pub proof fn law_reset_id_is_new(steps: Seq<BlockStep>, k: int, start_row: int, ts: [u8; 8])
    requires
        all_allowed(steps),
        after_steps(steps).next_id < u64::MAX,
        0 <= k < steps.len(),
    ensures
        ({
            let fresh = after_steps(steps).reset(start_row, ts);
            &&& fresh.blocks.len() == 1
            &&& !fresh.has_osc133
            &&& after_steps(steps.take(k)).given(steps[k]) matches Some(id) ==> id
                < fresh.blocks[0].id
        }),
{
    lemma_steps(steps, k);
}

/// When the first `n` rows go, a block that starts below them starts `n` rows higher and is
/// otherwise as it was, one that starts in them goes with them, and no other comes.
pub proof fn law_evicted_blocks(v: BlocksView, n: int, b: Block)
    requires
        0 <= n,
    ensures
        v.blocks.contains(b) && n <= b.start_row ==> v.evicted(n).blocks.contains(
            Block { start_row: (b.start_row - n) as usize, ..b },
        ),
        v.evicted(n).blocks.contains(b) ==> b.start_row + n <= usize::MAX && v.blocks.contains(
            Block { start_row: (b.start_row + n) as usize, ..b },
        ),
        v.evicted(n).next_id == v.next_id,
        v.evicted(n).has_osc133 == v.has_osc133,
{
    let p = |b: Block| n <= b.start_row;
    let kept = v.blocks.filter(p);
    let moved = v.evicted(n).blocks;
    if v.blocks.contains(b) && n <= b.start_row {
        let i = choose|i: int| 0 <= i < v.blocks.len() && v.blocks[i] == b;
        v.blocks.lemma_filter_contains(p, i);
        let j = choose|j: int| 0 <= j < kept.len() && kept[j] == b;
        assert(moved[j] == b.raised(n));
    }
    if moved.contains(b) {
        let j = choose|j: int| 0 <= j < moved.len() && moved[j] == b;
        assert(moved[j] == kept[j].raised(n));
        v.blocks.lemma_filter_pred(p, j);
        assert(kept.contains(kept[j]));
        v.blocks.lemma_filter_contains_rev(p, kept[j]);
        assert(kept[j] == Block { start_row: (b.start_row + n) as usize, ..b });
    }
}

/// Pressing Enter where the host marks its prompts starts no block: it only sets a block at its
/// prompt executing. Elsewhere it starts one, as an `A` mark does, in a row in which the last block
/// does not start already.
pub proof fn law_enter_key(v: BlocksView, row: int, ts: [u8; 8])
    requires
        0 <= row <= usize::MAX,
        v.next_id < u64::MAX,
        0 <= v.next_id,
    ensures
        ({
            let n = v.blocks.len();
            let after = v.started(BlockTrigger::EnterKey, row, ts);
            let restarts = n > 0 && v.blocks[n - 1].start_row == row;
            &&& v.has_osc133 ==> after.blocks.len() == n && after.next_id == v.next_id
            &&& v.has_osc133 && n > 0 && v.blocks[n - 1].state == BlockState::Prompt ==> after.blocks
                == v.blocks.update(
                n - 1,
                Block { state: BlockState::Executing, ..v.blocks[n - 1] },
            )
            &&& v.has_osc133 && (n == 0 || v.blocks[n - 1].state != BlockState::Prompt)
                ==> after.blocks == v.blocks
            &&& !v.has_osc133 && restarts ==> after.blocks.len() == n && after.next_id == v.next_id
            &&& !v.has_osc133 && !restarts ==> {
                let b = after.blocks.last();
                &&& after.blocks.len() == n + 1
                &&& b.start_row == row
                &&& b.id == v.next_id
                &&& b.state == BlockState::Prompt
                &&& b.trigger == BlockTrigger::EnterKey
                &&& b.created_at == ts
                &&& after.next_id == v.next_id + 1
                &&& n > 0 ==> after.blocks[n - 1] == Block {
                    state: BlockState::Completed,
                    ..v.blocks[n - 1]
                }
            }
        }),
{
}

/// A folded block of more than two rows takes two rows on the screen, its first and the one that
/// stands for the others; any other block takes as many as it has above the cursor.
pub proof fn law_rows_on_screen(v: BlocksView, i: int, folds: Set<u64>, total: int, cursor: int)
    requires
        0 <= i < v.blocks.len(),
        0 <= total,
        0 <= cursor,
    ensures
        ({
            let start = v.blocks[i].start_row as int;
            let next = if i + 1 < v.blocks.len() {
                v.blocks[i + 1].start_row as int
            } else {
                total
            };
            let end = if cursor != usize::MAX && next > cursor {
                cursor
            } else {
                next
            };
            let rows = if end > start {
                end - start
            } else {
                0
            };
            v.shown(i, folds, total, cursor) == if folds.contains(v.blocks[i].id) && rows > 2 {
                2
            } else {
                rows
            }
        }),
{
}

} // verus!
