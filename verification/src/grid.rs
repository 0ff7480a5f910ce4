//! The terminal grid: a matrix of cells with its scrollback, cursor, margins and modes.

use crate::blocks::{BlockList, BlockTrigger};
use crate::cell::{Cell, CursorStyle, SavedCursor, Selection};
use crate::clock;
use crate::lines;
use std::collections::VecDeque;
use vstd::prelude::*;

verus! {

/// What one screen buffer is: its lines, their history, the cursor and the scroll margins.
pub ghost struct ScreenView {
    pub lines: Seq<Seq<Cell>>,
    pub stamps: Seq<[u8; 8]>,
    pub wrapped: Seq<bool>,
    pub history: Seq<Seq<Cell>>,
    pub history_stamps: Seq<[u8; 8]>,
    pub history_wrapped: Seq<bool>,
    pub row: int,
    pub col: int,
    pub top: int,
    pub bottom: int,
}

/// What a grid is.
pub ghost struct GridView {
    pub cols: int,
    pub rows: int,
    pub screen: ScreenView,
    pub saved: Option<ScreenView>,
    pub is_alt: bool,
    pub max_history: int,
    pub style: CursorStyle,
    pub cursor_visible: bool,
    pub selection: Option<Selection>,
    pub offset: int,
    pub saved_cursor: Option<SavedCursor>,
    pub auto_wrap: bool,
    pub origin_mode: bool,
    pub bracketed_paste: bool,
    pub application_cursor_keys: bool,
    pub application_keypad: bool,
    pub mouse_tracking: u16,
    pub mouse_format: u16,
    pub title: Seq<char>,
    pub batch: [u8; 8],
    pub blocks: crate::blocks::BlocksView,
}

/// The largest size that a grid may have in any direction, so that sums of sizes can be held.
pub open spec fn size_limit() -> int {
    usize::MAX as int / 8
}

pub open spec fn min(a: int, b: int) -> int {
    if a <= b {
        a
    } else {
        b
    }
}

pub open spec fn max(a: int, b: int) -> int {
    if a >= b {
        a
    } else {
        b
    }
}

/// Size, cursor and margins are the same.
pub open spec fn same_place(a: GridView, b: GridView) -> bool {
    &&& b.rows == a.rows
    &&& b.cols == a.cols
    &&& b.screen.row == a.screen.row
    &&& b.screen.col == a.screen.col
    &&& b.screen.top == a.screen.top
    &&& b.screen.bottom == a.screen.bottom
}

impl ScreenView {
    /// Each line has its timestamp and its wrap flag, in the history too, and the history is no
    /// longer than it may be.
    pub open spec fn wf(self, max_history: int) -> bool {
        &&& self.stamps.len() == self.lines.len()
        &&& self.wrapped.len() == self.lines.len()
        &&& self.history_stamps.len() == self.history.len()
        &&& self.history_wrapped.len() == self.history.len()
        &&& self.history.len() <= max(max_history, 1)
    }

    /// The buffer is a matrix of the given size, and cursor and margins lie inside, at 0 where
    /// there is no row or no column; the top margin is not below the bottom one.
    pub open spec fn fits(self, rows: int, cols: int) -> bool {
        &&& self.lines.len() == rows
        &&& forall|i: int| 0 <= i < rows ==> (#[trigger] self.lines[i]).len() == cols
        &&& 0 <= self.row <= crate::blocks::monus(rows, 1)
        &&& 0 <= self.col <= crate::blocks::monus(cols, 1)
        &&& 0 <= self.top <= self.bottom <= crate::blocks::monus(rows, 1)
    }

    /// An empty buffer with the cursor at home and the margins at the edges.
    pub open spec fn blank(rows: int, cols: int) -> ScreenView {
        ScreenView {
            lines: lines::blank_lines(rows, cols),
            stamps: Seq::new(rows as nat, |i: int| clock::unset()),
            wrapped: Seq::new(rows as nat, |i: int| false),
            history: Seq::empty(),
            history_stamps: Seq::empty(),
            history_wrapped: Seq::empty(),
            row: 0,
            col: 0,
            top: 0,
            bottom: crate::blocks::monus(rows, 1),
        }
    }

    /// The lines `lo..=hi` turned `n` places towards the top, with their timestamps and flags.
    pub open spec fn turned_up(self, lo: int, hi: int, n: int) -> ScreenView {
        ScreenView {
            lines: lines::rotated_left(self.lines, lo, hi, n),
            stamps: lines::rotated_left(self.stamps, lo, hi, n),
            wrapped: lines::rotated_left(self.wrapped, lo, hi, n),
            ..self
        }
    }

    /// The lines `lo..=hi` turned `n` places towards the bottom.
    pub open spec fn turned_down(self, lo: int, hi: int, n: int) -> ScreenView {
        ScreenView {
            lines: lines::rotated_right(self.lines, lo, hi, n),
            stamps: lines::rotated_right(self.stamps, lo, hi, n),
            wrapped: lines::rotated_right(self.wrapped, lo, hi, n),
            ..self
        }
    }

    /// The lines `lo..hi` erased with `c` and without timestamps.
    pub open spec fn cleared(self, lo: int, hi: int, c: Cell) -> ScreenView {
        ScreenView {
            lines: lines::erased(self.lines, lo, hi, c),
            stamps: lines::filled(self.stamps, lo, hi, clock::unset()),
            ..self
        }
    }

    /// The lines `lo..=hi` turned `n` places towards the top with their timestamps; the wrap
    /// flags stay where they are.
    pub open spec fn shifted_up(self, lo: int, hi: int, n: int) -> ScreenView {
        ScreenView { wrapped: self.wrapped, ..self.turned_up(lo, hi, n) }
    }

    /// The lines `lo..=hi` turned `n` places towards the bottom with their timestamps; the wrap
    /// flags stay where they are.
    pub open spec fn shifted_down(self, lo: int, hi: int, n: int) -> ScreenView {
        ScreenView { wrapped: self.wrapped, ..self.turned_down(lo, hi, n) }
    }

    /// The wrap flags of the lines `lo..hi` taken away.
    pub open spec fn unwrapped(self, lo: int, hi: int) -> ScreenView {
        ScreenView { wrapped: lines::filled(self.wrapped, lo, hi, false), ..self }
    }

    /// A line that has no timestamp yet gets this one.
    pub open spec fn touched(self, row: int, batch: [u8; 8]) -> ScreenView {
        if 0 <= row < self.stamps.len() && self.stamps[row] == clock::unset() {
            ScreenView { stamps: self.stamps.update(row, batch), ..self }
        } else {
            self
        }
    }

    /// The wrap flag of a line set, where there is such a line.
    pub open spec fn flagged(self, row: int, on: bool) -> ScreenView {
        if 0 <= row < self.wrapped.len() {
            ScreenView { wrapped: self.wrapped.update(row, on), ..self }
        } else {
            self
        }
    }

    /// The line at an absolute row: the history first, then the screen.
    pub open spec fn line(self, abs: int) -> Option<Seq<Cell>> {
        if abs < 0 {
            None
        } else if abs < self.history.len() {
            Some(self.history[abs])
        } else if abs - self.history.len() < self.lines.len() {
            Some(self.lines[abs - self.history.len()])
        } else {
            None
        }
    }

    /// Rows of history and screen together.
    pub open spec fn total(self) -> int {
        self.history.len() as int + self.lines.len() as int
    }

    /// The raw wrap flag of an absolute row.
    pub open spec fn wrap_flag(self, abs: int) -> bool {
        if abs < self.history.len() {
            self.history_wrapped[abs]
        } else {
            abs - self.history.len() < self.wrapped.len() && self.wrapped[abs
                - self.history.len()]
        }
    }

    /// Nothing is to be seen in the row, or there is no such row.
    pub open spec fn blank_row(self, abs: int) -> bool {
        match self.line(abs) {
            Some(line) => forall|j: int|
                0 <= j < line.len() ==> (#[trigger] line[j]).shows_nothing(),
            None => true,
        }
    }

    /// The row above is filled to its last column.
    pub open spec fn overflows_into(self, abs: int) -> bool {
        abs > 0 && match self.line(abs - 1) {
            Some(line) => line.len() > 0 && !line.last().shows_nothing(),
            None => false,
        }
    }

    /// The row goes on with the logical line of the row above.
    pub open spec fn continues(self, abs: int) -> bool {
        self.wrap_flag(abs) && !self.blank_row(abs) && self.overflows_into(abs)
    }

    /// The row once went on with the row above, and no longer does.
    pub open spec fn phantom(self, abs: int) -> bool {
        self.wrap_flag(abs) && (self.blank_row(abs) || !self.overflows_into(abs))
    }
}

impl GridView {
    /// The screen buffer, and the one set aside, are matrices of the size of the grid.
    pub open spec fn wf(self) -> bool {
        &&& 0 <= self.cols <= size_limit()
        &&& 0 <= self.rows <= size_limit()
        &&& 0 <= self.max_history <= size_limit()
        &&& self.screen.wf(self.max_history)
        &&& self.screen.fits(self.rows, self.cols)
        &&& self.saved matches Some(s) ==> s.wf(self.max_history) && s.fits(self.rows, self.cols)
        &&& self.blocks.wf()
        &&& 0 <= self.offset <= usize::MAX
    }

    /// The grid has cells to write to.
    pub open spec fn settled(self) -> bool {
        self.wf() && self.rows >= 1 && self.cols >= 1
    }

    /// A new grid.
    pub open spec fn fresh(cols: int, rows: int, max_history: int) -> GridView {
        GridView {
            cols,
            rows,
            screen: ScreenView::blank(rows, cols),
            saved: None,
            is_alt: false,
            max_history,
            style: CursorStyle::Block,
            cursor_visible: true,
            selection: None,
            offset: 0,
            saved_cursor: None,
            auto_wrap: true,
            origin_mode: false,
            bracketed_paste: false,
            application_cursor_keys: false,
            application_keypad: false,
            mouse_tracking: 0,
            mouse_format: 0,
            title: Seq::empty(),
            batch: clock::unset(),
            blocks: crate::blocks::BlocksView::empty().started(
                BlockTrigger::Initial,
                0,
                clock::unset(),
            ),
        }
    }

    pub open spec fn with_screen(self, screen: ScreenView) -> GridView {
        GridView { screen, ..self }
    }

    /// The grid with the cursor elsewhere.
    pub open spec fn at(self, row: int, col: int) -> GridView {
        self.with_screen(ScreenView { row, col, ..self.screen })
    }

    /// The last row that scrolls.
    pub open spec fn last_scrolled(self) -> int {
        min(self.screen.bottom, crate::blocks::monus(self.rows, 1))
    }

    /// There are rows that scroll.
    pub open spec fn scrolls(self) -> bool {
        &&& self.screen.top <= self.last_scrolled()
        &&& self.last_scrolled() < self.screen.lines.len()
    }

    /// Rows that scroll off the top go into the history.
    pub open spec fn keeps_history(self) -> bool {
        &&& self.screen.top == 0
        &&& self.last_scrolled() == crate::blocks::monus(self.rows, 1)
        &&& !self.is_alt
    }

    /// Line `i` moved to the end of the history, and a blank line left in its place. Where the
    /// history is full its oldest line goes, and the blocks move up with the rows.
    pub open spec fn retired(self, i: int, now: [u8; 8]) -> GridView {
        let s = self.screen;
        let full = s.history.len() >= self.max_history;
        let from = if full && s.history.len() > 0 {
            1int
        } else {
            0int
        };
        let stamp = if s.stamps[i] != clock::unset() {
            s.stamps[i]
        } else {
            now
        };
        GridView {
            screen: ScreenView {
                lines: s.lines.update(i, lines::blank_line(self.cols)),
                stamps: s.stamps.update(i, clock::unset()),
                wrapped: s.wrapped.update(i, false),
                history: s.history.skip(from).push(s.lines[i]),
                history_stamps: s.history_stamps.skip(from).push(stamp),
                history_wrapped: s.history_wrapped.skip(from).push(s.wrapped[i]),
                ..s
            },
            blocks: if full {
                self.blocks.evicted(1)
            } else {
                self.blocks
            },
            ..self
        }
    }

    /// The lines `i..end` moved to the history, one after the other.
    pub open spec fn all_retired(self, i: int, end: int, now: [u8; 8]) -> GridView
        decreases end - i,
    {
        if i >= end {
            self
        } else {
            self.retired(i, now).all_retired(i + 1, end, now)
        }
    }

    /// The scroll region moved up by `n` lines.
    #[verifier::opaque]
    pub open spec fn scrolled_up(self, n: int, now: [u8; 8]) -> GridView {
        let top = self.screen.top;
        let bot = self.last_scrolled();
        let k = min(n, bot - top + 1);
        if !self.scrolls() || k <= 0 {
            self
        } else {
            let turned = self.with_screen(self.screen.turned_up(top, bot, k));
            if self.keeps_history() {
                turned.all_retired(bot - k + 1, bot + 1, now)
            } else {
                turned.with_screen(turned.screen.cleared(bot - k + 1, bot + 1, Cell::blank()))
            }
        }
    }

    /// The scroll region moved down by `n` lines.
    #[verifier::opaque]
    pub open spec fn scrolled_down(self, n: int) -> GridView {
        let top = self.screen.top;
        let bot = self.last_scrolled();
        let k = min(n, bot - top + 1);
        if !self.scrolls() || k <= 0 {
            self
        } else {
            self.with_screen(
                self.screen.turned_down(top, bot, k).cleared(top, top + k, Cell::blank()).unwrapped(
                    top,
                    top + k,
                ),
            )
        }
    }

    /// The alternate screen in place of the primary one.
    pub open spec fn in_alt_screen(self) -> GridView {
        if self.is_alt {
            self
        } else {
            GridView {
                saved: Some(self.screen),
                screen: ScreenView::blank(self.rows, self.cols),
                is_alt: true,
                ..self
            }
        }
    }

    /// Back on the primary screen.
    pub open spec fn out_of_alt_screen(self) -> GridView {
        if !self.is_alt {
            self
        } else {
            match self.saved {
                Some(s) => GridView {
                    screen: ScreenView {
                        row: min(s.row, crate::blocks::monus(self.rows, 1)),
                        col: min(s.col, crate::blocks::monus(self.cols, 1)),
                        ..s
                    },
                    saved: None,
                    is_alt: false,
                    ..self
                },
                None => GridView { is_alt: false, ..self },
            }
        }
    }

    /// The primary screen.
    pub open spec fn primary(self) -> ScreenView {
        match self.saved {
            Some(s) => if self.is_alt {
                s
            } else {
                self.screen
            },
            None => self.screen,
        }
    }

    /// The grid in another size: the screen that is shown and the one set aside are reflowed,
    /// and the blocks go with the rows of the primary one.
    pub open spec fn resized(self, cols: int, rows: int) -> GridView {
        let p = self.primary();
        GridView {
            cols,
            rows,
            screen: self.screen.reflowed(cols, rows, self.max_history, self.batch),
            saved: match self.saved {
                Some(s) => Some(s.reflowed(cols, rows, self.max_history, self.batch)),
                None => None,
            },
            blocks: self.blocks.rows_moved(p.history.len() as int, p.places(cols, rows)).evicted(
                p.given_up(cols, rows, self.max_history),
            ),
            ..self
        }
    }

    /// A private mode that is a mere switch set or reset.
    pub open spec fn switched(self, mode: u16, on: bool) -> GridView {
        match mode {
            1 => GridView { application_cursor_keys: on, ..self },
            7 => GridView { auto_wrap: on, ..self },
            25 => GridView { cursor_visible: on, ..self },
            66 => GridView { application_keypad: on, ..self },
            1000 | 1002 | 1003 => GridView {
                mouse_tracking: if on {
                    mode
                } else {
                    0
                },
                ..self
            },
            1006 => GridView {
                mouse_format: if on {
                    1006
                } else {
                    0
                },
                ..self
            },
            1005 | 1015 => if on {
                self
            } else {
                GridView { mouse_format: 0, ..self }
            },
            2004 => GridView { bracketed_paste: on, ..self },
            _ => self,
        }
    }

    /// The absolute row of the cursor.
    pub open spec fn cursor_abs(self) -> int {
        self.screen.history.len() + self.screen.row
    }

    /// The absolute row at the top of the viewport.
    pub open spec fn view_start(self) -> int {
        crate::blocks::monus(self.screen.history.len() as int, self.offset)
    }

    /// The timestamp of an absolute row, where it has one.
    pub open spec fn stamp_of(self, abs: int) -> Option<[u8; 8]> {
        let s = self.screen;
        if abs < s.history_stamps.len() {
            Some(s.history_stamps[abs])
        } else if abs - s.history_stamps.len() < s.stamps.len() && s.stamps[abs
            - s.history_stamps.len()] != clock::unset() {
            Some(s.stamps[abs - s.history_stamps.len()])
        } else {
            None
        }
    }
}

/// A screen buffer set aside while the alternate screen is shown.
#[derive(Debug)]
pub struct AltScreenSaved {
    pub cells: Vec<Vec<Cell>>,
    pub scrollback: VecDeque<Vec<Cell>>,
    pub scrollback_timestamps: VecDeque<[u8; 8]>,
    pub scrollback_wrapped: VecDeque<bool>,
    pub active_timestamps: Vec<[u8; 8]>,
    pub line_wrapped: Vec<bool>,
    pub cursor_row: usize,
    pub cursor_col: usize,
    pub scroll_top: usize,
    pub scroll_bottom: usize,
}

impl View for AltScreenSaved {
    type V = ScreenView;

    open spec fn view(&self) -> ScreenView {
        ScreenView {
            lines: lines::lines(self.cells@),
            stamps: self.active_timestamps@,
            wrapped: self.line_wrapped@,
            history: lines::lines(self.scrollback@),
            history_stamps: self.scrollback_timestamps@,
            history_wrapped: self.scrollback_wrapped@,
            row: self.cursor_row as int,
            col: self.cursor_col as int,
            top: self.scroll_top as int,
            bottom: self.scroll_bottom as int,
        }
    }
}

/// The terminal grid: `rows × cols` matrix of cells, plus a scrollback buffer.
#[derive(Debug)]
pub struct Grid {
    pub cols: usize,
    pub rows: usize,
    /// Active screen buffer (visible).
    pub cells: Vec<Vec<Cell>>,
    /// Scrollback lines (newest at back).
    pub scrollback: VecDeque<Vec<Cell>>,
    /// Timestamp for each scrollback line (parallel to `scrollback`).
    pub scrollback_timestamps: VecDeque<[u8; 8]>,
    pub max_scrollback: usize,
    /// Cursor position.
    pub cursor_row: usize,
    pub cursor_col: usize,
    /// Cursor style (block, underline, bar).
    pub cursor_style: CursorStyle,
    /// Whether the cursor is visible (DECTCEM).
    pub cursor_visible: bool,
    /// Active text selection, if any.
    pub selection: Option<Selection>,
    /// Viewport scroll offset: 0 = bottom (live), >0 = scrolled into history.
    pub scroll_offset: usize,
    /// Saved primary screen buffer when the alternate screen is active.
    pub alt_screen_saved: Option<AltScreenSaved>,
    pub is_alt_screen: bool,
    /// Top margin (0-indexed, inclusive).
    pub scroll_top: usize,
    /// Bottom margin (0-indexed, inclusive).
    pub scroll_bottom: usize,
    /// Saved cursor (DECSC/DECRC).
    pub saved_cursor: Option<SavedCursor>,
    /// Auto-wrap mode (DECAWM, mode 7). When true, printing past last col wraps.
    pub auto_wrap: bool,
    /// Origin mode (DECOM, mode 6). When true, cursor positions are relative to scroll region.
    pub origin_mode: bool,
    /// Bracketed paste mode (mode 2004).
    pub bracketed_paste: bool,
    /// Application cursor keys (DECCKM, mode 1).
    pub application_cursor_keys: bool,
    /// Application keypad mode (DECNKM).
    pub application_keypad: bool,
    /// Mouse tracking: 0=off, 1000=normal, 1002=button, 1003=any
    pub mouse_tracking: u16,
    /// Mouse report format: 0=default, 1006=SGR
    pub mouse_format: u16,
    /// Window title.
    pub title: String,
    /// Timestamp for each active screen row (parallel to `cells`).
    pub active_timestamps: Vec<[u8; 8]>,
    /// Cached timestamp for the current write batch.
    pub batch_timestamp: [u8; 8],
    /// Per-row soft-wrap flag: true if row is a continuation of the previous (no hard newline).
    pub line_wrapped: Vec<bool>,
    /// Soft-wrap flag for scrollback rows (parallel to `scrollback`).
    pub scrollback_wrapped: VecDeque<bool>,
    /// Block list: ordered command blocks.
    pub block_list: BlockList,
}

impl View for Grid {
    type V = GridView;

    closed spec fn view(&self) -> GridView {
        GridView {
            cols: self.cols as int,
            rows: self.rows as int,
            screen: ScreenView {
                lines: lines::lines(self.cells@),
                stamps: self.active_timestamps@,
                wrapped: self.line_wrapped@,
                history: lines::lines(self.scrollback@),
                history_stamps: self.scrollback_timestamps@,
                history_wrapped: self.scrollback_wrapped@,
                row: self.cursor_row as int,
                col: self.cursor_col as int,
                top: self.scroll_top as int,
                bottom: self.scroll_bottom as int,
            },
            saved: match self.alt_screen_saved {
                Some(s) => Some(s@),
                None => None,
            },
            is_alt: self.is_alt_screen,
            max_history: self.max_scrollback as int,
            style: self.cursor_style,
            cursor_visible: self.cursor_visible,
            selection: self.selection,
            offset: self.scroll_offset as int,
            saved_cursor: self.saved_cursor,
            auto_wrap: self.auto_wrap,
            origin_mode: self.origin_mode,
            bracketed_paste: self.bracketed_paste,
            application_cursor_keys: self.application_cursor_keys,
            application_keypad: self.application_keypad,
            mouse_tracking: self.mouse_tracking,
            mouse_format: self.mouse_format,
            title: self.title@,
            batch: self.batch_timestamp,
            blocks: self.block_list@,
        }
    }
}

/// A vector of `n` unset timestamps.
fn unset_stamps(n: usize) -> (r: Vec<[u8; 8]>)
    ensures
        r@ == Seq::new(n as nat, |i: int| clock::unset()),
{
    let mut v: Vec<[u8; 8]> = Vec::new();
    lines::resize(&mut v, n, clock::unset_stamp());
    assert(v@ =~= Seq::new(n as nat, |i: int| clock::unset()));
    v
}

/// A vector of `n` cleared flags.
fn cleared_flags(n: usize) -> (r: Vec<bool>)
    ensures
        r@ == Seq::new(n as nat, |i: int| false),
{
    let mut v: Vec<bool> = Vec::new();
    lines::resize(&mut v, n, false);
    assert(v@ =~= Seq::new(n as nat, |i: int| false));
    v
}

impl Grid {
    pub fn new(cols: usize, rows: usize, max_scrollback: usize) -> (r: Grid)
        requires
            cols <= size_limit(),
            rows <= size_limit(),
            max_scrollback <= size_limit(),
        ensures
            r@ == GridView::fresh(cols as int, rows as int, max_scrollback as int),
            r@.wf(),
            rows > 0 && cols > 0 ==> r@.settled(),
    {
        let mut block_list = BlockList::new();
        block_list.start_block(BlockTrigger::Initial, 0, clock::unset_stamp());
        let g = Grid {
            cols,
            rows,
            cells: lines::blank_rows(rows, cols),
            scrollback: VecDeque::new(),
            scrollback_timestamps: VecDeque::new(),
            max_scrollback,
            cursor_row: 0,
            cursor_col: 0,
            cursor_style: CursorStyle::Block,
            cursor_visible: true,
            selection: None,
            scroll_offset: 0,
            alt_screen_saved: None,
            is_alt_screen: false,
            scroll_top: 0,
            scroll_bottom: rows.saturating_sub(1),
            saved_cursor: None,
            auto_wrap: true,
            origin_mode: false,
            bracketed_paste: false,
            application_cursor_keys: false,
            application_keypad: false,
            mouse_tracking: 0,
            mouse_format: 0,
            title: String::new(),
            active_timestamps: unset_stamps(rows),
            batch_timestamp: clock::unset_stamp(),
            line_wrapped: cleared_flags(rows),
            scrollback_wrapped: VecDeque::new(),
            block_list,
        };
        assert(lines::lines(g.scrollback@) =~= Seq::empty());
        g
    }

    /// Takes the screen buffer out and leaves an empty one.
    fn take_screen(&mut self) -> (r: AltScreenSaved)
        ensures
            r@ == old(self)@.screen,
            final(self)@ == old(self)@.with_screen(final(self)@.screen),
    {
        let mut cells: Vec<Vec<Cell>> = Vec::new();
        let mut scrollback: VecDeque<Vec<Cell>> = VecDeque::new();
        let mut scrollback_timestamps: VecDeque<[u8; 8]> = VecDeque::new();
        let mut scrollback_wrapped: VecDeque<bool> = VecDeque::new();
        let mut active_timestamps: Vec<[u8; 8]> = Vec::new();
        let mut line_wrapped: Vec<bool> = Vec::new();
        std::mem::swap(&mut self.cells, &mut cells);
        std::mem::swap(&mut self.scrollback, &mut scrollback);
        std::mem::swap(&mut self.scrollback_timestamps, &mut scrollback_timestamps);
        std::mem::swap(&mut self.scrollback_wrapped, &mut scrollback_wrapped);
        std::mem::swap(&mut self.active_timestamps, &mut active_timestamps);
        std::mem::swap(&mut self.line_wrapped, &mut line_wrapped);
        AltScreenSaved {
            cells,
            scrollback,
            scrollback_timestamps,
            scrollback_wrapped,
            active_timestamps,
            line_wrapped,
            cursor_row: self.cursor_row,
            cursor_col: self.cursor_col,
            scroll_top: self.scroll_top,
            scroll_bottom: self.scroll_bottom,
        }
    }

    /// Shows a screen buffer.
    fn put_screen(&mut self, s: AltScreenSaved)
        ensures
            final(self)@ == old(self)@.with_screen(s@),
    {
        self.cells = s.cells;
        self.scrollback = s.scrollback;
        self.scrollback_timestamps = s.scrollback_timestamps;
        self.scrollback_wrapped = s.scrollback_wrapped;
        self.active_timestamps = s.active_timestamps;
        self.line_wrapped = s.line_wrapped;
        self.cursor_row = s.cursor_row;
        self.cursor_col = s.cursor_col;
        self.scroll_top = s.scroll_top;
        self.scroll_bottom = s.scroll_bottom;
    }

    /// Resize the grid, reflowing content as needed: what history and screen show is kept, as
    /// far as the history has room, on the screen that is shown and on the one set aside.
    pub fn resize(&mut self, new_cols: usize, new_rows: usize)
        requires
            old(self)@.wf(),
            new_cols <= size_limit(),
            new_rows <= size_limit(),
        ensures
            final(self)@ == old(self)@.resized(new_cols as int, new_rows as int),
            final(self)@.wf(),
            new_cols >= 1 && old(self)@.screen.given_up(
                new_cols as int,
                new_rows as int,
                old(self)@.max_history,
            ) == 0 ==> final(self)@.screen.reading() == old(self)@.screen.reading(),
            old(self)@.saved matches Some(s) ==> new_cols >= 1 && s.given_up(
                new_cols as int,
                new_rows as int,
                old(self)@.max_history,
            ) == 0 ==> final(self)@.saved.unwrap().reading() == s.reading(),
    {
        let (max_history, stamp): (usize, [u8; 8]) = (self.max_scrollback, self.batch_timestamp);
        proof {
            crate::resize::lemma_resized_wf(self@, new_cols as int, new_rows as int);
        }
        let mut shown: AltScreenSaved = self.take_screen();
        assert(lines::lines(shown.scrollback@).len() == shown.scrollback@.len());
        let mut first: usize = shown.scrollback.len();
        let (mut places, mut gone): (Vec<usize>, usize) = crate::resize::reflow_buffer(
            &mut shown,
            new_cols,
            new_rows,
            max_history,
            stamp,
        );
        self.put_screen(shown);
        if let Some(mut aside) = self.alt_screen_saved.take() {
            assert(lines::lines(aside.scrollback@).len() == aside.scrollback@.len());
            let first_aside: usize = aside.scrollback.len();
            let (places_aside, gone_aside): (Vec<usize>, usize) = crate::resize::reflow_buffer(
                &mut aside,
                new_cols,
                new_rows,
                max_history,
                stamp,
            );
            self.alt_screen_saved = Some(aside);
            if self.is_alt_screen {
                first = first_aside;
                places = places_aside;
                gone = gone_aside;
            }
        }
        self.block_list.move_rows(first, &places);
        self.block_list.adjust_on_evict(gone);
        self.cols = new_cols;
        self.rows = new_rows;
    }
}

/// Moving a line to the history keeps the grid well-formed and the shape of its screen.
pub proof fn lemma_retired_wf(g: GridView, i: int, now: [u8; 8])
    requires
        g.wf(),
        0 <= i < g.screen.lines.len(),
    ensures
        g.retired(i, now).wf(),
        g.retired(i, now).screen.lines.len() == g.screen.lines.len(),
        g.retired(i, now).max_history == g.max_history,
{
    if g.screen.history.len() >= g.max_history {
        crate::blocks::law_evict_keeps_ids(g.blocks, 1);
    }
}

pub proof fn lemma_all_retired_wf(g: GridView, i: int, end: int, now: [u8; 8])
    requires
        g.wf(),
        0 <= i,
        end <= g.screen.lines.len(),
    ensures
        g.all_retired(i, end, now).wf(),
        g.all_retired(i, end, now).screen.lines.len() == g.screen.lines.len(),
    decreases end - i,
{
    if i < end {
        lemma_retired_wf(g, i, now);
        lemma_all_retired_wf(g.retired(i, now), i + 1, end, now);
    }
}

impl Grid {
    /// Moves line `i` to the scrollback and leaves a blank one.
    fn retire_row(&mut self, i: usize, now: [u8; 8])
        requires
            old(self)@.wf(),
            i < old(self)@.screen.lines.len(),
        ensures
            final(self)@ == old(self)@.retired(i as int, now),
    {
        assert(self.cells.len() == lines::lines(self.cells@).len());
        assert(self.scrollback.len() == lines::lines(self.scrollback@).len());
        let mut row: Vec<Cell> = Vec::new();
        if self.scrollback.len() >= self.max_scrollback {
            let _ = self.scrollback_timestamps.pop_front();
            let _ = self.scrollback_wrapped.pop_front();
            self.block_list.adjust_on_evict(1);
            match self.scrollback.pop_front() {
                Some(oldest) => {
                    row = oldest;
                    row.clear();
                },
                None => {},
            }
        }
        let ghost from: int = if old(self)@.screen.history.len() >= old(self)@.max_history
            && old(self)@.screen.history.len() > 0 {
            1
        } else {
            0
        };
        assert(self.scrollback@ =~= old(self).scrollback@.skip(from));
        assert(self.scrollback_timestamps@ =~= old(self).scrollback_timestamps@.skip(from));
        assert(self.scrollback_wrapped@ =~= old(self).scrollback_wrapped@.skip(from));
        lines::resize(&mut row, self.cols, Cell::default());
        assert(row@ =~= lines::blank_line(self.cols as int));
        let ghost blank = row;
        std::mem::swap(&mut self.cells[i], &mut row);
        assert(self.cells@ =~= old(self).cells@.update(i as int, blank));
        self.scrollback.push_back(row);
        let stamp: [u8; 8] = if clock::is_unset(&self.active_timestamps[i]) {
            now
        } else {
            self.active_timestamps[i]
        };
        self.scrollback_timestamps.push_back(stamp);
        let was_wrapped: bool = self.line_wrapped[i];
        self.scrollback_wrapped.push_back(was_wrapped);
        self.active_timestamps[i] = clock::unset_stamp();
        self.line_wrapped[i] = false;
        proof {
            let want = old(self)@.retired(i as int, now);
            assert(lines::lines(self.scrollback@) =~= want.screen.history);
            assert(lines::lines(self.cells@) =~= want.screen.lines);
        }
    }

    /// Moves the lines `lo..hi` to the scrollback, one after the other.
    fn retire_rows(&mut self, lo: usize, hi: usize, now: [u8; 8])
        requires
            old(self)@.wf(),
            lo <= hi <= old(self)@.screen.lines.len(),
        ensures
            final(self)@ == old(self)@.all_retired(lo as int, hi as int, now),
            final(self)@.wf(),
    {
        let mut i: usize = lo;
        while i < hi
            invariant
                i <= hi <= self@.screen.lines.len(),
                self@.wf(),
                self@.all_retired(i as int, hi as int, now) == old(self)@.all_retired(
                    lo as int,
                    hi as int,
                    now,
                ),
            decreases hi - i,
        {
            proof {
                lemma_retired_wf(self@, i as int, now);
            }
            self.retire_row(i, now);
            i = i + 1;
        }
    }

    /// Turns the lines `lo..=hi` towards the top.
    fn turn_up(&mut self, lo: usize, hi: usize, n: usize)
        requires
            old(self)@.wf(),
            lo <= hi < old(self)@.screen.lines.len(),
            n <= hi - lo + 1,
        ensures
            final(self)@ == old(self)@.with_screen(
                old(self)@.screen.turned_up(lo as int, hi as int, n as int),
            ),
            final(self)@.wf(),
            final(self)@.screen.lines.len() == old(self)@.screen.lines.len(),
    {
        assert(self.cells.len() == lines::lines(self.cells@).len());
        proof {
            lines::lemma_lines_rotated(self.cells@, lo as int, hi as int, n as int);
        }
        lines::rotate_left(&mut self.cells, lo, hi, n);
        lines::rotate_left(&mut self.active_timestamps, lo, hi, n);
        lines::rotate_left(&mut self.line_wrapped, lo, hi, n);
    }

    /// Turns the lines `lo..=hi` towards the bottom.
    fn turn_down(&mut self, lo: usize, hi: usize, n: usize)
        requires
            old(self)@.wf(),
            lo <= hi < old(self)@.screen.lines.len(),
            n <= hi - lo + 1,
        ensures
            final(self)@ == old(self)@.with_screen(
                old(self)@.screen.turned_down(lo as int, hi as int, n as int),
            ),
            final(self)@.wf(),
            final(self)@.screen.lines.len() == old(self)@.screen.lines.len(),
    {
        assert(self.cells.len() == lines::lines(self.cells@).len());
        proof {
            lines::lemma_lines_rotated(self.cells@, lo as int, hi as int, n as int);
        }
        lines::rotate_right(&mut self.cells, lo, hi, n);
        lines::rotate_right(&mut self.active_timestamps, lo, hi, n);
        lines::rotate_right(&mut self.line_wrapped, lo, hi, n);
    }

    /// Turns the lines `lo..=hi` towards the top and leaves the wrap flags in place.
    pub fn shift_up(&mut self, lo: usize, hi: usize, n: usize)
        requires
            old(self)@.wf(),
            lo <= hi < old(self)@.screen.lines.len(),
            n <= hi - lo + 1,
        ensures
            final(self)@ == old(self)@.with_screen(
                old(self)@.screen.shifted_up(lo as int, hi as int, n as int),
            ),
            final(self)@.wf(),
            final(self)@.screen.lines.len() == old(self)@.screen.lines.len(),
    {
        assert(self.cells.len() == lines::lines(self.cells@).len());
        proof {
            lines::lemma_lines_rotated(self.cells@, lo as int, hi as int, n as int);
        }
        lines::rotate_left(&mut self.cells, lo, hi, n);
        lines::rotate_left(&mut self.active_timestamps, lo, hi, n);
    }

    /// Turns the lines `lo..=hi` towards the bottom and leaves the wrap flags in place.
    pub fn shift_down(&mut self, lo: usize, hi: usize, n: usize)
        requires
            old(self)@.wf(),
            lo <= hi < old(self)@.screen.lines.len(),
            n <= hi - lo + 1,
        ensures
            final(self)@ == old(self)@.with_screen(
                old(self)@.screen.shifted_down(lo as int, hi as int, n as int),
            ),
            final(self)@.wf(),
            final(self)@.screen.lines.len() == old(self)@.screen.lines.len(),
    {
        assert(self.cells.len() == lines::lines(self.cells@).len());
        proof {
            lines::lemma_lines_rotated(self.cells@, lo as int, hi as int, n as int);
        }
        lines::rotate_right(&mut self.cells, lo, hi, n);
        lines::rotate_right(&mut self.active_timestamps, lo, hi, n);
    }

    /// Erases the lines `lo..hi` with `cell` and takes their timestamps away.
    pub fn clear_rows(&mut self, lo: usize, hi: usize, cell: Cell)
        requires
            old(self)@.wf(),
            lo <= hi <= old(self)@.screen.lines.len(),
        ensures
            final(self)@ == old(self)@.with_screen(
                old(self)@.screen.cleared(lo as int, hi as int, cell),
            ),
            final(self)@.wf(),
            final(self)@.screen.lines.len() == old(self)@.screen.lines.len(),
    {
        assert(self.cells.len() == lines::lines(self.cells@).len());
        lines::erase_lines(&mut self.cells, lo, hi, cell);
        lines::fill(&mut self.active_timestamps, lo, hi, clock::unset_stamp());
    }

    /// Takes the wrap flags of the lines `lo..hi` away.
    pub fn clear_flags(&mut self, lo: usize, hi: usize)
        requires
            old(self)@.wf(),
            lo <= hi <= old(self)@.screen.lines.len(),
        ensures
            final(self)@ == old(self)@.with_screen(
                old(self)@.screen.unwrapped(lo as int, hi as int),
            ),
            final(self)@.wf(),
            final(self)@.screen.lines.len() == old(self)@.screen.lines.len(),
    {
        lines::fill(&mut self.line_wrapped, lo, hi, false);
    }

    /// Scroll the visible buffer up by one line, respecting scroll region.
    /// If the scroll region is the full screen, push into scrollback.
    pub fn scroll_up(&mut self)
        requires
            old(self)@.wf(),
        ensures
            exists|now: [u8; 8]|
                clock::is_time(now) && final(self)@ == #[trigger] old(self)@.scrolled_up(1, now),
            final(self)@.wf(),
    {
        self.scroll_up_in_region();
    }

    /// Scroll up within the current scroll region.
    pub fn scroll_up_in_region(&mut self)
        requires
            old(self)@.wf(),
        ensures
            exists|now: [u8; 8]|
                clock::is_time(now) && final(self)@ == #[trigger] old(self)@.scrolled_up(1, now),
            final(self)@.wf(),
    {
        self.scroll_up_n_in_region(1);
    }

    /// Scroll up within the current scroll region by `n` lines. Lines without a timestamp that
    /// go into the scrollback get the time of the system's clock.
    pub fn scroll_up_n_in_region(&mut self, n: usize)
        requires
            old(self)@.wf(),
        ensures
            exists|now: [u8; 8]|
                clock::is_time(now) && final(self)@ == #[trigger] old(self)@.scrolled_up(
                    n as int,
                    now,
                ),
            final(self)@.wf(),
    {
        let now: [u8; 8] = clock::now_timestamp();
        self.scroll_up_at(n, now);
    }

    /// The rows that scroll and by how many lines, when asked to scroll by `n`; none where
    /// nothing moves.
    fn scrolled_rows(&self, n: usize) -> (r: Option<(usize, usize, usize)>)
        requires
            self@.wf(),
        ensures
            match r {
                Some((top, bot, k)) => {
                    &&& self@.scrolls()
                    &&& top == self@.screen.top
                    &&& bot == self@.last_scrolled()
                    &&& k == min(n as int, bot - top + 1)
                    &&& k > 0
                },
                None => !self@.scrolls() || n == 0,
            },
    {
        assert(self.cells.len() == lines::lines(self.cells@).len());
        let top: usize = self.scroll_top;
        let last: usize = self.rows.saturating_sub(1);
        let bot: usize = if self.scroll_bottom <= last {
            self.scroll_bottom
        } else {
            last
        };
        if top >= self.cells.len() || bot >= self.cells.len() || top > bot || n == 0 {
            return None;
        }
        let region: usize = bot - top + 1;
        let k: usize = if n <= region {
            n
        } else {
            region
        };
        Some((top, bot, k))
    }

    /// Scroll up within the current scroll region by `n` lines at the time `now`.
    pub fn scroll_up_at(&mut self, n: usize, now: [u8; 8])
        requires
            old(self)@.wf(),
        ensures
            final(self)@ == old(self)@.scrolled_up(n as int, now),
            final(self)@.wf(),
    {
        proof {
            reveal(GridView::scrolled_up);
        }
        if let Some((top, bot, k)) = self.scrolled_rows(n) {
            let keeps: bool = top == 0 && bot == self.rows.saturating_sub(1) && !self.is_alt_screen;
            assert(keeps == self@.keeps_history());
            self.turn_up(top, bot, k);
            if keeps {
                self.retire_rows(bot + 1 - k, bot + 1, now);
            } else {
                self.clear_rows(bot + 1 - k, bot + 1, Cell::default());
            }
        }
    }

    /// Scroll down within the current scroll region by `n` lines.
    pub fn scroll_down_n_in_region(&mut self, n: usize)
        requires
            old(self)@.wf(),
        ensures
            final(self)@ == old(self)@.scrolled_down(n as int),
            final(self)@.wf(),
    {
        proof {
            reveal(GridView::scrolled_down);
        }
        if let Some((top, bot, k)) = self.scrolled_rows(n) {
            self.turn_down(top, bot, k);
            self.clear_rows(top, top + k, Cell::default());
            self.clear_flags(top, top + k);
        }
    }

    /// Scroll down within the current scroll region.
    pub fn scroll_down_in_region(&mut self)
        requires
            old(self)@.wf(),
        ensures
            final(self)@ == old(self)@.scrolled_down(1),
            final(self)@.wf(),
    {
        self.scroll_down_n_in_region(1);
    }

    /// Switch to alternate screen buffer.
    pub fn enter_alt_screen(&mut self)
        requires
            old(self)@.wf(),
        ensures
            final(self)@ == old(self)@.in_alt_screen(),
            final(self)@.wf(),
    {
        if self.is_alt_screen {
            return ;
        }
        let mut cells: Vec<Vec<Cell>> = lines::blank_rows(self.rows, self.cols);
        let mut scrollback: VecDeque<Vec<Cell>> = VecDeque::new();
        let mut scrollback_timestamps: VecDeque<[u8; 8]> = VecDeque::new();
        let mut scrollback_wrapped: VecDeque<bool> = VecDeque::new();
        let mut active_timestamps: Vec<[u8; 8]> = unset_stamps(self.rows);
        let mut line_wrapped: Vec<bool> = cleared_flags(self.rows);
        std::mem::swap(&mut self.cells, &mut cells);
        std::mem::swap(&mut self.scrollback, &mut scrollback);
        std::mem::swap(&mut self.scrollback_timestamps, &mut scrollback_timestamps);
        std::mem::swap(&mut self.scrollback_wrapped, &mut scrollback_wrapped);
        std::mem::swap(&mut self.active_timestamps, &mut active_timestamps);
        std::mem::swap(&mut self.line_wrapped, &mut line_wrapped);
        self.alt_screen_saved = Some(
            AltScreenSaved {
                cells,
                scrollback,
                scrollback_timestamps,
                scrollback_wrapped,
                active_timestamps,
                line_wrapped,
                cursor_row: self.cursor_row,
                cursor_col: self.cursor_col,
                scroll_top: self.scroll_top,
                scroll_bottom: self.scroll_bottom,
            },
        );
        self.is_alt_screen = true;
        self.cursor_row = 0;
        self.cursor_col = 0;
        self.scroll_top = 0;
        self.scroll_bottom = self.rows.saturating_sub(1);
        assert(lines::lines(self.scrollback@) =~= Seq::empty());
    }

    /// Switch back to primary screen buffer.
    pub fn leave_alt_screen(&mut self)
        requires
            old(self)@.wf(),
        ensures
            final(self)@ == old(self)@.out_of_alt_screen(),
            final(self)@.wf(),
    {
        if !self.is_alt_screen {
            return ;
        }
        if let Some(saved) = self.alt_screen_saved.take() {
            self.cells = saved.cells;
            self.scrollback = saved.scrollback;
            self.scrollback_timestamps = saved.scrollback_timestamps;
            self.scrollback_wrapped = saved.scrollback_wrapped;
            self.active_timestamps = saved.active_timestamps;
            self.line_wrapped = saved.line_wrapped;
            let last_row: usize = self.rows.saturating_sub(1);
            let last_col: usize = self.cols.saturating_sub(1);
            self.cursor_row = if saved.cursor_row <= last_row {
                saved.cursor_row
            } else {
                last_row
            };
            self.cursor_col = if saved.cursor_col <= last_col {
                saved.cursor_col
            } else {
                last_col
            };
            self.scroll_top = saved.scroll_top;
            self.scroll_bottom = saved.scroll_bottom;
        }
        self.is_alt_screen = false;
    }

    /// Scroll viewport up (into history) by `lines` lines.
    pub fn scroll_viewport_up(&mut self, lines: usize)
        requires
            old(self)@.offset + lines <= usize::MAX,
        ensures
            final(self)@ == (GridView {
                offset: min(
                    old(self)@.offset + lines,
                    old(self)@.screen.history.len() as int,
                ),
                ..old(self)@
            }),
    {
        let max: usize = self.scrollback.len();
        let wanted: usize = self.scroll_offset + lines;
        self.scroll_offset = if wanted <= max {
            wanted
        } else {
            max
        };
    }

    /// Scroll viewport down (toward live) by `lines` lines.
    pub fn scroll_viewport_down(&mut self, lines: usize)
        ensures
            final(self)@ == (GridView {
                offset: crate::blocks::monus(old(self)@.offset, lines as int),
                ..old(self)@
            }),
    {
        self.scroll_offset = self.scroll_offset.saturating_sub(lines);
    }

    /// Reset viewport to live (bottom).
    pub fn scroll_reset(&mut self)
        ensures
            final(self)@ == (GridView { offset: 0, ..old(self)@ }),
    {
        self.scroll_offset = 0;
    }

    /// Convert a viewport row (0 = top of screen) to an absolute row index.
    /// Absolute row 0 = first scrollback line; scrollback.len() = first screen line.
    pub fn viewport_to_absolute(&self, visible_row: usize) -> (r: usize)
        requires
            self@.view_start() + visible_row <= usize::MAX,
        ensures
            r == self@.view_start() + visible_row,
    {
        let sb_len: usize = self.scrollback.len();
        sb_len.saturating_sub(self.scroll_offset) + visible_row
    }

    /// Absolute index of the first visible row in the viewport.
    pub fn viewport_start(&self) -> (r: usize)
        ensures
            r == self@.view_start(),
    {
        self.scrollback.len().saturating_sub(self.scroll_offset)
    }

    /// Get row data by absolute index. Returns None if out of range.
    pub fn absolute_row(&self, abs_row: usize) -> (r: Option<&Vec<Cell>>)
        ensures
            r.is_some() == self@.screen.line(abs_row as int).is_some(),
            r matches Some(row) ==> self@.screen.line(abs_row as int) == Some(row@),
    {
        let sb_len: usize = self.scrollback.len();
        if abs_row < sb_len {
            Some(&self.scrollback[abs_row])
        } else if abs_row - sb_len < self.cells.len() {
            Some(&self.cells[abs_row - sb_len])
        } else {
            None
        }
    }

    /// Get a row for rendering, accounting for scroll offset.
    /// Row 0 = top of viewport. Returns None if out of range.
    pub fn viewport_row(&self, visible_row: usize) -> (r: Option<&Vec<Cell>>)
        requires
            self@.view_start() + visible_row <= usize::MAX,
        ensures
            r.is_some() == self@.screen.line(self@.view_start() + visible_row).is_some(),
            r matches Some(row) ==> self@.screen.line(self@.view_start() + visible_row) == Some(
                row@,
            ),
    {
        let logical: usize = self.viewport_to_absolute(visible_row);
        self.absolute_row(logical)
    }

    /// Generate a HH:MM:SS timestamp for the current moment.
    pub fn now_timestamp() -> (r: [u8; 8])
        ensures
            clock::is_time(r),
    {
        clock::now_timestamp()
    }

    /// Get the timestamp for a given absolute row.
    /// Returns the stored timestamp for scrollback rows and active screen rows.
    pub fn row_timestamp(&self, abs_row: usize) -> (r: Option<&[u8; 8]>)
        requires
            self@.wf(),
        ensures
            r.is_some() == self@.stamp_of(abs_row as int).is_some(),
            r matches Some(ts) ==> self@.stamp_of(abs_row as int) == Some(*ts),
    {
        assert(self.scrollback.len() == lines::lines(self.scrollback@).len());
        let sb_len: usize = self.scrollback.len();
        if abs_row < sb_len {
            Some(&self.scrollback_timestamps[abs_row])
        } else {
            let screen_row: usize = abs_row - sb_len;
            if screen_row < self.active_timestamps.len() && !clock::is_unset(
                &self.active_timestamps[screen_row],
            ) {
                Some(&self.active_timestamps[screen_row])
            } else {
                None
            }
        }
    }

    /// Called once at the start of each data batch to snapshot the current time. All rows
    /// written during this batch share this timestamp.
    pub fn begin_write_batch(&mut self)
        ensures
            clock::is_time(final(self)@.batch),
            final(self)@ == (GridView { batch: final(self)@.batch, ..old(self)@ }),
    {
        self.batch_timestamp = clock::now_timestamp();
    }

    /// Mark an active screen row as having received output.
    /// Uses first-write semantics: only sets the timestamp if the row has none yet.
    pub fn touch_active_row(&mut self, row: usize)
        ensures
            final(self)@ == old(self)@.with_screen(
                old(self)@.screen.touched(row as int, old(self)@.batch),
            ),
            old(self)@.wf() ==> final(self)@.wf(),
    {
        if row < self.active_timestamps.len() && clock::is_unset(&self.active_timestamps[row]) {
            self.active_timestamps[row] = self.batch_timestamp;
        }
    }

    /// Reset the timestamp for an active screen row (called on erase/clear).
    pub fn reset_row_timestamp(&mut self, row: usize)
        ensures
            final(self)@ == old(self)@.with_screen(
                ScreenView {
                    stamps: if row < old(self)@.screen.stamps.len() {
                        old(self)@.screen.stamps.update(row as int, clock::unset())
                    } else {
                        old(self)@.screen.stamps
                    },
                    ..old(self)@.screen
                },
            ),
    {
        if row < self.active_timestamps.len() {
            self.active_timestamps[row] = clock::unset_stamp();
        }
    }

    /// Sets the wrap flag of a row, where there is such a row.
    pub fn flag_row(&mut self, row: usize, on: bool)
        ensures
            final(self)@ == old(self)@.with_screen(old(self)@.screen.flagged(row as int, on)),
            old(self)@.wf() ==> final(self)@.wf(),
    {
        if row < self.line_wrapped.len() {
            self.line_wrapped[row] = on;
        }
    }

    /// Start a new block at the current cursor row with the given trigger.
    /// Finalises the previous block. Returns the new block ID.
    pub fn start_block(&mut self, trigger: BlockTrigger) -> (id: u64)
        requires
            old(self)@.wf(),
            old(self)@.blocks.has_room(trigger, old(self)@.cursor_abs()),
        ensures
            exists|now: [u8; 8]|
                clock::is_time(now) && final(self)@ == (GridView {
                    blocks: #[trigger] old(self)@.blocks.started(
                        trigger,
                        old(self)@.cursor_abs(),
                        now,
                    ),
                    ..old(self)@
                }),
            id == old(self)@.blocks.started_id(trigger, old(self)@.cursor_abs()),
            final(self)@.wf(),
    {
        let now: [u8; 8] = clock::now_timestamp();
        self.start_block_at(trigger, now)
    }

    /// Start a new block at the current cursor row at the time `now`.
    pub fn start_block_at(&mut self, trigger: BlockTrigger, now: [u8; 8]) -> (id: u64)
        requires
            old(self)@.wf(),
            old(self)@.blocks.has_room(trigger, old(self)@.cursor_abs()),
        ensures
            final(self)@ == (GridView {
                blocks: old(self)@.blocks.started(trigger, old(self)@.cursor_abs(), now),
                ..old(self)@
            }),
            id == old(self)@.blocks.started_id(trigger, old(self)@.cursor_abs()),
            final(self)@.wf(),
    {
        assert(self.scrollback.len() == lines::lines(self.scrollback@).len());
        let abs_row: usize = self.scrollback.len() + self.cursor_row;
        self.block_list.start_block(trigger, abs_row, now)
    }

    /// Transition current block to Executing (called on OSC 133;B).
    /// Records the cursor column so we know where the prompt ends.
    pub fn mark_block_executing(&mut self)
        requires
            old(self)@.wf(),
        ensures
            final(self)@ == (GridView {
                blocks: old(self)@.blocks.executing(old(self)@.screen.col),
                ..old(self)@
            }),
            final(self)@.wf(),
    {
        let col: usize = self.cursor_col;
        self.block_list.mark_executing(col);
    }

    /// Mark current block Completed with optional exit code (OSC 133;D).
    pub fn mark_block_completed(&mut self, exit_code: Option<i32>)
        requires
            old(self)@.wf(),
        ensures
            final(self)@ == (GridView {
                blocks: old(self)@.blocks.completed(exit_code),
                ..old(self)@
            }),
            final(self)@.wf(),
    {
        self.block_list.mark_completed(exit_code);
    }

    /// Delegate: is this absolute row the start of a block?
    pub fn is_block_start(&self, abs_row: usize) -> (r: bool)
        ensures
            r == self@.blocks.starts_at(abs_row as int),
    {
        self.block_list.is_block_start(abs_row)
    }

    /// Raw wrap flag (not adjusted for blank content).
    pub fn raw_wrap_flag(&self, abs_row: usize) -> (r: bool)
        requires
            self@.wf(),
        ensures
            r == self@.screen.wrap_flag(abs_row as int),
    {
        assert(self.scrollback.len() == lines::lines(self.scrollback@).len());
        let sb: usize = self.scrollback.len();
        if abs_row < sb {
            self.scrollback_wrapped[abs_row]
        } else {
            let screen_row: usize = abs_row - sb;
            screen_row < self.line_wrapped.len() && self.line_wrapped[screen_row]
        }
    }

    /// Check if the previous row's last column is non-blank (i.e. it overflowed).
    pub fn prev_row_fills_last_col(&self, abs_row: usize) -> (r: bool)
        ensures
            r == self@.screen.overflows_into(abs_row as int),
    {
        if abs_row == 0 {
            return false;
        }
        match self.absolute_row(abs_row - 1) {
            Some(prev) => {
                let n: usize = prev.len();
                n > 0 && prev[n - 1].ch != ' ' && prev[n - 1].ch != '\0'
            },
            None => false,
        }
    }

    /// Check if an absolute row is a soft-wrap continuation (not a new logical line).
    /// Requires both: the wrap flag is set AND the previous row's last column is filled.
    /// This auto-corrects when content is deleted and the previous row no longer overflows.
    pub fn is_row_wrapped(&self, abs_row: usize) -> (r: bool)
        requires
            self@.wf(),
        ensures
            r == self@.screen.continues(abs_row as int),
    {
        self.raw_wrap_flag(abs_row) && !self.is_row_blank(abs_row) && self.prev_row_fills_last_col(
            abs_row,
        )
    }

    /// True if this row is a phantom wrap continuation: had its wrap flag set,
    /// but is now blank OR the previous row no longer overflows. Such rows
    /// should be hidden in log mode to clean up after deletions.
    pub fn is_phantom_wrap(&self, abs_row: usize) -> (r: bool)
        requires
            self@.wf(),
        ensures
            r == self@.screen.phantom(abs_row as int),
    {
        self.raw_wrap_flag(abs_row) && (self.is_row_blank(abs_row) || !self.prev_row_fills_last_col(
            abs_row,
        ))
    }

    /// Check if an absolute row is entirely blank.
    pub fn is_row_blank(&self, abs_row: usize) -> (r: bool)
        ensures
            r == self@.screen.blank_row(abs_row as int),
    {
        match self.absolute_row(abs_row) {
            Some(row) => {
                let mut i: usize = 0;
                while i < row.len()
                    invariant
                        i <= row.len(),
                        forall|j: int| 0 <= j < i ==> (#[trigger] row@[j]).shows_nothing(),
                        self@.screen.line(abs_row as int) == Some(row@),
                    decreases row.len() - i,
                {
                    if row[i].ch != ' ' && row[i].ch != '\0' {
                        proof {
                            let line = self@.screen.line(abs_row as int).unwrap();
                            assert(line == row@);
                            assert(!line[i as int].shows_nothing());
                        }
                        return false;
                    }
                    i = i + 1;
                }
                true
            },
            None => true,
        }
    }

    /// Total number of logical rows (scrollback + active screen).
    pub fn total_rows(&self) -> (r: usize)
        requires
            self@.wf(),
        ensures
            r == self@.screen.total(),
    {
        assert(self.scrollback.len() == lines::lines(self.scrollback@).len());
        assert(self.cells.len() == lines::lines(self.cells@).len());
        self.scrollback.len() + self.cells.len()
    }
}


impl Grid {
    /// What the public fields say of the view.
    pub proof fn lemma_fields(&self)
        ensures
            self@.cols == self.cols,
            self@.rows == self.rows,
            self@.screen.row == self.cursor_row,
            self@.screen.col == self.cursor_col,
            self@.screen.top == self.scroll_top,
            self@.screen.bottom == self.scroll_bottom,
            self@.screen.lines == lines::lines(self.cells@),
            self@.screen.stamps == self.active_timestamps@,
            self@.screen.wrapped == self.line_wrapped@,
            self@.screen.history == lines::lines(self.scrollback@),
            self@.screen.history_stamps == self.scrollback_timestamps@,
            self@.screen.history_wrapped == self.scrollback_wrapped@,
            self@.saved == (match self.alt_screen_saved {
                Some(s) => Some(s@),
                None => None,
            }),
            self@.is_alt == self.is_alt_screen,
            self@.max_history == self.max_scrollback,
            self@.offset == self.scroll_offset,
            self@.saved_cursor == self.saved_cursor,
            self@.auto_wrap == self.auto_wrap,
            self@.origin_mode == self.origin_mode,
            self@.bracketed_paste == self.bracketed_paste,
            self@.application_cursor_keys == self.application_cursor_keys,
            self@.application_keypad == self.application_keypad,
            self@.mouse_tracking == self.mouse_tracking,
            self@.mouse_format == self.mouse_format,
            self@.title == self.title@,
            self@.blocks == self.block_list@,
            self@.batch == self.batch_timestamp,
            self@.selection == self.selection,
            self@.style == self.cursor_style,
            self@.cursor_visible == self.cursor_visible,
    {
    }

    /// Puts the cursor elsewhere.
    pub fn move_to(&mut self, row: usize, col: usize)
        ensures
            final(self)@ == old(self)@.at(row as int, col as int),
            old(self)@.wf() && row <= crate::blocks::monus(old(self)@.rows, 1) && col
                <= crate::blocks::monus(old(self)@.cols, 1) ==> final(self)@.wf(),
    {
        self.cursor_row = row;
        self.cursor_col = col;
    }

    /// Sets the scroll margins.
    pub fn set_region(&mut self, top: usize, bottom: usize)
        ensures
            final(self)@ == old(self)@.with_screen(
                ScreenView { top: top as int, bottom: bottom as int, ..old(self)@.screen },
            ),
            old(self)@.wf() && top <= bottom < old(self)@.rows ==> final(self)@.wf(),
    {
        self.scroll_top = top;
        self.scroll_bottom = bottom;
    }

    /// Switches origin mode.
    pub fn set_origin_mode(&mut self, on: bool)
        ensures
            final(self)@ == (GridView { origin_mode: on, ..old(self)@ }),
            old(self)@.wf() ==> final(self)@.wf(),
    {
        self.origin_mode = on;
    }

    /// Switches the application keypad.
    pub fn set_application_keypad(&mut self, on: bool)
        ensures
            final(self)@ == (GridView { application_keypad: on, ..old(self)@ }),
            old(self)@.wf() ==> final(self)@.wf(),
    {
        self.application_keypad = on;
    }

    /// Sets the cursor style.
    pub fn set_cursor_style(&mut self, style: CursorStyle)
        ensures
            final(self)@ == (GridView { style, ..old(self)@ }),
            old(self)@.wf() ==> final(self)@.wf(),
    {
        self.cursor_style = style;
    }

    /// Sets or resets a private mode that is a mere switch.
    pub fn switch_mode(&mut self, mode: u16, on: bool)
        requires
            old(self)@.wf(),
        ensures
            final(self)@ == old(self)@.switched(mode, on),
            final(self)@.wf(),
            same_place(old(self)@, final(self)@),
    {
        match mode {
            1 => {
                self.application_cursor_keys = on;
            },
            7 => {
                self.auto_wrap = on;
            },
            25 => {
                self.cursor_visible = on;
            },
            66 => {
                self.application_keypad = on;
            },
            1000 | 1002 | 1003 => {
                self.mouse_tracking = if on {
                    mode
                } else {
                    0
                };
            },
            1006 => {
                self.mouse_format = if on {
                    1006
                } else {
                    0
                };
            },
            1005 | 1015 => {
                if !on {
                    self.mouse_format = 0;
                }
            },
            2004 => {
                self.bracketed_paste = on;
            },
            _ => {},
        }
    }

    /// Saves a cursor.
    pub fn set_saved_cursor(&mut self, cursor: SavedCursor)
        ensures
            final(self)@ == (GridView { saved_cursor: Some(cursor), ..old(self)@ }),
            old(self)@.wf() ==> final(self)@.wf(),
    {
        self.saved_cursor = Some(cursor);
    }

    /// Sets the window title.
    pub fn set_title(&mut self, title: String)
        ensures
            final(self)@ == (GridView { title: title@, ..old(self)@ }),
            old(self)@.wf() ==> final(self)@.wf(),
    {
        self.title = title;
    }

    /// Sets the timestamp that rows written from now on get.
    pub fn set_batch(&mut self, now: [u8; 8])
        ensures
            final(self)@ == (GridView { batch: now, ..old(self)@ }),
            old(self)@.wf() ==> final(self)@.wf(),
    {
        self.batch_timestamp = now;
    }

    /// The cell at a row and a column of the screen.
    pub fn cell_at(&self, row: usize, col: usize) -> (r: Cell)
        requires
            row < self@.screen.lines.len(),
            col < self@.screen.lines[row as int].len(),
        ensures
            r == self@.screen.lines[row as int][col as int],
    {
        self.cells[row][col]
    }

    /// The characters of a row of the screen.
    pub fn line_chars(&self, row: usize) -> (r: Vec<char>)
        requires
            row < self@.screen.lines.len(),
        ensures
            r@ == crate::readout::chars_of(self@.screen.lines[row as int]),
    {
        crate::readout::row_chars(&self.cells[row])
    }

    /// Writes one cell.
    pub fn put_cell(&mut self, row: usize, col: usize, c: Cell)
        requires
            old(self)@.wf(),
            row < old(self)@.rows,
            col < old(self)@.cols,
        ensures
            final(self)@ == old(self)@.put(row as int, col as int, c),
            final(self)@.wf(),
    {
        assert(self.cells.len() == lines::lines(self.cells@).len());
        lines::put_cell(&mut self.cells, row, col, c);
    }

    /// Erases the cells `from..to` of a line.
    pub fn erase_part(&mut self, row: usize, from: usize, to: usize, c: Cell)
        requires
            old(self)@.wf(),
            row < old(self)@.rows,
            from <= to <= old(self)@.cols,
        ensures
            final(self)@ == old(self)@.part_erased(row as int, from as int, to as int, c),
            same_place(old(self)@, final(self)@),
            final(self)@.wf(),
    {
        assert(self.cells.len() == lines::lines(self.cells@).len());
        lines::erase_part(&mut self.cells, row, from, to, c);
    }

    /// Starts the blocks anew at the cursor; fails where no block ID is left.
    pub fn restart_blocks(&mut self, now: [u8; 8]) -> (ok: bool)
        requires
            old(self)@.wf(),
        ensures
            ok == (old(self)@.blocks.next_id < u64::MAX),
            ok ==> final(self)@ == (GridView {
                blocks: old(self)@.blocks.reset(old(self)@.cursor_abs(), now),
                ..old(self)@
            }),
            !ok ==> final(self)@ == old(self)@,
            ok ==> same_place(old(self)@, final(self)@),
            final(self)@.wf(),
    {
        assert(self.scrollback.len() == lines::lines(self.scrollback@).len());
        if self.block_list.next_id() == u64::MAX {
            return false;
        }
        let abs: usize = self.scrollback.len() + self.cursor_row;
        self.block_list.reset(abs, now);
        true
    }

    /// Pushes `n` blanks in at the cursor.
    pub fn insert_chars(&mut self, n: usize)
        requires
            old(self)@.settled(),
        ensures
            final(self)@ == old(self)@.chars_inserted(n as int),
            same_place(old(self)@, final(self)@),
            final(self)@.settled(),
    {
        proof {
            reveal(GridView::chars_inserted);
        }
        assert(self.cells.len() == lines::lines(self.cells@).len());
        let (row, col, cols): (usize, usize, usize) = (self.cursor_row, self.cursor_col, self.cols);
        let k: usize = crate::edit::least(n, cols - col);
        lines::push_right(&mut self.cells, row, col, k, cols);
    }

    /// Takes `n` characters out at the cursor.
    pub fn delete_chars(&mut self, n: usize)
        requires
            old(self)@.settled(),
        ensures
            final(self)@ == old(self)@.chars_deleted(n as int),
            same_place(old(self)@, final(self)@),
            final(self)@.settled(),
    {
        proof {
            reveal(GridView::chars_deleted);
        }
        assert(self.cells.len() == lines::lines(self.cells@).len());
        let (row, col, cols): (usize, usize, usize) = (self.cursor_row, self.cursor_col, self.cols);
        let k: usize = crate::edit::least(n, cols - col);
        lines::pull_left(&mut self.cells, row, col, k, cols);
    }
}

} // verus!
