//! The terminal's state and how control functions change it.
//!
//! Each control function has a specification from state to state. A new block may find that no
//! block ID is left; the specification is then `None` and the function answers `false`.

use crate::blocks::BlockTrigger;
use crate::cell::{CellAttrs, Color, CursorStyle, SavedCursor};
use crate::clock;
use crate::edit::least;
use crate::grid::{Grid, GridView, ScreenView};
use crate::lines;
use crate::number;
use crate::sgr::Pen;
use vstd::prelude::*;

verus! {

/// What a terminal is.
pub ghost struct TermView {
    pub grid: GridView,
    pub pen: Pen,
    pub pending_wrap: bool,
    pub in_ground: bool,
    pub replies: Seq<Seq<u8>>,
}

/// The grid keeps all but the contents of its screen, its history and its blocks.
pub open spec fn same_frame(a: GridView, b: GridView) -> bool {
    &&& b == GridView { screen: b.screen, blocks: b.blocks, ..a }
    &&& b.screen.row == a.screen.row
    &&& b.screen.col == a.screen.col
    &&& b.screen.top == a.screen.top
    &&& b.screen.bottom == a.screen.bottom
    &&& b.screen.lines.len() == a.screen.lines.len()
}

pub proof fn lemma_all_retired_frame(g: GridView, i: int, end: int, now: [u8; 8])
    requires
        0 <= i,
        end <= g.screen.lines.len(),
    ensures
        same_frame(g, g.all_retired(i, end, now)),
    decreases end - i,
{
    if i < end {
        lemma_all_retired_frame(g.retired(i, now), i + 1, end, now);
    }
}

/// Scrolling moves neither the cursor nor the margins and changes no mode.
pub proof fn law_scroll_keeps_frame(g: GridView, n: int, now: [u8; 8])
    requires
        0 <= g.screen.top,
    ensures
        same_frame(g, g.scrolled_up(n, now)),
        same_frame(g, g.scrolled_down(n)),
{
    reveal(GridView::scrolled_up);
    reveal(GridView::scrolled_down);
    let top = g.screen.top;
    let bot = g.last_scrolled();
    let k = crate::grid::min(n, bot - top + 1);
    if g.scrolls() && k > 0 && g.keeps_history() {
        lemma_all_retired_frame(
            g.with_screen(g.screen.turned_up(top, bot, k)),
            bot - k + 1,
            bot + 1,
            now,
        );
    }
}

impl GridView {
    /// One row down, or the region scrolled where the cursor is at its bottom.
    pub open spec fn lowered(self, now: [u8; 8]) -> GridView {
        if self.screen.row == self.screen.bottom {
            self.scrolled_up(1, now)
        } else if self.screen.row < self.rows - 1 {
            self.at(self.screen.row + 1, self.screen.col)
        } else {
            self
        }
    }

    /// A linefeed: one row down, to a row that is stamped and continues no other.
    pub open spec fn line_fed(self, now: [u8; 8]) -> GridView {
        let moved = self.lowered(now);
        moved.with_screen(
            moved.screen.flagged(moved.screen.row, false).touched(moved.screen.row, moved.batch),
        )
    }

    /// A reverse index: one row up, or the region scrolled where the cursor is at its top.
    pub open spec fn reverse_indexed(self) -> GridView {
        if self.screen.row == self.screen.top {
            self.scrolled_down(1)
        } else if self.screen.row > 0 {
            self.at(self.screen.row - 1, self.screen.col)
        } else {
            self
        }
    }

    /// A soft line break: the next row from column 0, marked as a continuation.
    pub open spec fn soft_broken(self, now: [u8; 8]) -> GridView {
        let fed = self.at(self.screen.row, 0).line_fed(now);
        fed.with_screen(fed.screen.flagged(fed.screen.row, true))
    }

    /// The cursor's row stamped, where it has no timestamp.
    pub open spec fn row_touched(self) -> GridView {
        self.with_screen(self.screen.touched(self.screen.row, self.batch))
    }

    /// The cursor at a row given by a control function, which counts from the top margin in
    /// origin mode.
    pub open spec fn row_addressed(self, row: int) -> int {
        if self.origin_mode {
            crate::grid::min(self.screen.top + row, self.screen.bottom)
        } else {
            crate::grid::min(row, self.rows - 1)
        }
    }

    /// The cursor one column back; at the start of a continuation row, at the end of the row
    /// above.
    pub open spec fn backspaced(self) -> GridView {
        let s = self.screen;
        if s.col > 0 {
            self.at(s.row, s.col - 1)
        } else if self.auto_wrap && s.row > 0 && s.row < s.wrapped.len() && s.wrapped[s.row] {
            self.at(s.row - 1, crate::blocks::monus(self.cols, 1))
        } else {
            self
        }
    }

    /// New margins, where they leave at least two rows, and the cursor at home.
    pub open spec fn margins_set(self, top: int, bottom: int) -> GridView {
        let s = if top < bottom {
            ScreenView { top, bottom, ..self.screen }
        } else {
            self.screen
        };
        self.with_screen(
            ScreenView {
                row: if self.origin_mode {
                    s.top
                } else {
                    0
                },
                col: 0,
                ..s
            },
        )
    }
}

/// The parameter at `i`, or `d` where there is none.
pub open spec fn arg(p: Seq<u16>, i: int, d: u16) -> u16 {
    if i < p.len() {
        p[i]
    } else {
        d
    }
}

/// The parameter at `i` as a count: at least 1, and 1 where it is missing.
pub open spec fn count(p: Seq<u16>, i: int) -> int {
    crate::grid::max(arg(p, i, 1) as int, 1)
}

/// The first subparameter.
pub open spec fn first(sub: Seq<u16>) -> u16 {
    if sub.len() > 0 {
        sub[0]
    } else {
        0
    }
}

/// The parameters of a control sequence, each by its first subparameter, at most 32 of them.
pub open spec fn first_params(params: Seq<Seq<u16>>) -> Seq<u16> {
    Seq::new(
        crate::grid::min(params.len() as int, 32) as nat,
        |i: int| first(params[i]),
    )
}

/// The cursor style that a parameter selects.
pub open spec fn style_of(v: u16) -> CursorStyle {
    if v == 3 || v == 4 {
        CursorStyle::Underline
    } else if v == 5 || v == 6 {
        CursorStyle::Bar
    } else {
        CursorStyle::Block
    }
}

/// The answer to a request for the cursor position: `ESC [ row ; col R`, counted from 1.
pub open spec fn position_report(row: int, col: int) -> Seq<u8> {
    seq![27u8, 91u8] + number::decimal((row + 1) as nat) + seq![59u8] + number::decimal(
        (col + 1) as nat,
    ) + seq![82u8]
}

impl TermView {
    pub open spec fn wf(self) -> bool {
        self.grid.settled()
    }

    /// A new terminal.
    pub open spec fn fresh(cols: int, rows: int) -> TermView {
        TermView {
            grid: GridView::fresh(cols, rows, 100_000),
            pen: Pen::plain(),
            pending_wrap: false,
            in_ground: true,
            replies: Seq::empty(),
        }
    }

    pub open spec fn with_grid(self, grid: GridView) -> TermView {
        TermView { grid, ..self }
    }

    /// The terminal with the grid that an editing command left, where it could be carried out.
    pub open spec fn edited(self, grid: Option<GridView>) -> Option<TermView> {
        match grid {
            Some(g) => Some(self.with_grid(g)),
            None => None,
        }
    }

    pub open spec fn moved(self, row: int, col: int) -> TermView {
        self.with_grid(self.grid.at(row, col))
    }

    /// A soft line break that is due no longer.
    pub open spec fn wrapped_on(self, now: [u8; 8]) -> TermView {
        TermView { grid: self.grid.soft_broken(now), pending_wrap: false, ..self }
    }

    /// A character of one column written at the cursor.
    pub open spec fn narrow_written(self, c: char) -> TermView {
        let s = self.grid.screen;
        let g = self.grid.put(s.row, s.col, self.pen.printed(c));
        if s.col + 1 < self.grid.cols {
            self.with_grid(g.at(s.row, s.col + 1))
        } else {
            TermView { grid: g, pending_wrap: true, ..self }
        }
    }

    /// The cells of a character of two columns: the character, and its tail where the line
    /// goes on.
    pub open spec fn wide_put(self, c: char) -> GridView {
        let s = self.grid.screen;
        let g = self.grid.put(s.row, s.col, self.pen.printed_with(c, CellAttrs::WIDE));
        if s.col + 1 < self.grid.cols {
            g.put(s.row, s.col + 1, self.pen.printed_with(' ', CellAttrs::WIDE_TAIL))
        } else {
            g
        }
    }

    /// A character of two columns written at the cursor.
    pub open spec fn wide_written(self, c: char) -> TermView {
        let s = self.grid.screen;
        let g = self.wide_put(c);
        if s.col + 2 < self.grid.cols {
            self.with_grid(g.at(s.row, s.col + 2))
        } else {
            TermView { grid: g.at(s.row, self.grid.cols - 1), pending_wrap: true, ..self }
        }
    }

    /// A line break that is due has been made, and the row has been stamped.
    pub open spec fn readied(self, now: [u8; 8]) -> TermView {
        let s = if self.pending_wrap && self.grid.auto_wrap {
            self.wrapped_on(now)
        } else {
            self
        };
        s.with_grid(s.grid.row_touched())
    }

    /// A character of `width` columns placed at the cursor.
    pub open spec fn placed(self, c: char, width: int, now: [u8; 8]) -> TermView {
        let s = self.readied(now);
        if width == 2 {
            if s.grid.screen.col + 1 < s.grid.cols {
                s.wide_written(c)
            } else if s.grid.auto_wrap {
                s.wrapped_on(now).wide_written(c)
            } else {
                s
            }
        } else {
            s.narrow_written(c)
        }
    }

    /// A character printed.
    pub open spec fn printed(self, c: char, width: int, now: [u8; 8]) -> TermView {
        TermView { in_ground: true, ..self }.placed(c, width, now)
    }

    /// A run of ASCII characters placed one after the other.
    pub open spec fn run_placed(self, bytes: Seq<u8>, now: [u8; 8]) -> TermView
        decreases bytes.len(),
    {
        if bytes.len() == 0 {
            self
        } else {
            self.placed(bytes[0] as char, 1, now).run_placed(bytes.skip(1), now)
        }
    }

    /// A C0 control executed.
    pub open spec fn executed(self, byte: u8, now: [u8; 8]) -> TermView {
        let s = self.grid.screen;
        if byte == 0x08 {
            TermView { grid: self.grid.backspaced(), pending_wrap: false, ..self }
        } else if byte == 0x09 {
            TermView {
                grid: self.grid.at(
                    s.row,
                    crate::grid::min((s.col / 8 + 1) * 8, self.grid.cols - 1),
                ),
                pending_wrap: false,
                ..self
            }
        } else if byte == 0x0a || byte == 0x0b || byte == 0x0c {
            TermView { grid: self.grid.line_fed(now), pending_wrap: false, ..self }
        } else if byte == 0x0d {
            TermView { grid: self.grid.at(s.row, 0), pending_wrap: false, ..self }
        } else {
            self
        }
    }

    /// Where a control sequence moves the cursor to.
    pub open spec fn cursor_target(self, p: Seq<u16>, action: char) -> (int, int) {
        let s = self.grid.screen;
        let n = count(p, 0);
        let last_row = self.grid.rows - 1;
        let last_col = self.grid.cols - 1;
        match action {
            'A' => (crate::blocks::monus(s.row, n), s.col),
            'B' | 'e' => (crate::grid::min(s.row + n, last_row), s.col),
            'C' => (s.row, crate::grid::min(s.col + n, last_col)),
            'D' => (s.row, crate::blocks::monus(s.col, n)),
            'E' => (crate::grid::min(s.row + n, last_row), 0),
            'F' => (crate::blocks::monus(s.row, n), 0),
            'G' | '`' => (s.row, crate::grid::min(n - 1, last_col)),
            'H' | 'f' => (
                self.grid.row_addressed(n - 1),
                crate::grid::min(count(p, 1) - 1, last_col),
            ),
            'd' => (self.grid.row_addressed(n - 1), s.col),
            _ => (s.row, s.col),
        }
    }

    /// The cursor moved by a control sequence.
    pub open spec fn cursor_moved(self, p: Seq<u16>, action: char) -> TermView {
        self.moved(self.cursor_target(p, action).0, self.cursor_target(p, action).1)
    }

    /// Part of the screen erased.
    #[verifier::opaque]
    pub open spec fn display_erased(self, mode: u16, now: [u8; 8]) -> Option<TermView> {
        let c = self.pen.erased_cell();
        match mode {
            0 => Some(self.with_grid(self.grid.erased_below(c))),
            1 => Some(self.with_grid(self.grid.erased_above(c))),
            2 | 3 => self.edited(self.grid.erased_all(c, now)),
            _ => Some(self),
        }
    }

    /// Part of the cursor's line erased.
    #[verifier::opaque]
    pub open spec fn line_erased(self, mode: u16) -> TermView {
        let c = self.pen.erased_cell();
        match mode {
            0 => self.with_grid(self.grid.erased_right(c)),
            1 => self.with_grid(self.grid.erased_left(c)),
            2 => self.with_grid(self.grid.erased_line(c)),
            _ => self,
        }
    }

    /// The scroll margins set, by rows counted from 1.
    pub open spec fn margins_set(self, p: Seq<u16>) -> TermView {
        let low = crate::grid::max(
            arg(p, 1, (self.grid.rows % 0x1_0000) as u16) as int,
            1,
        );
        self.with_grid(
            self.grid.margins_set(
                count(p, 0) - 1,
                crate::grid::min(low - 1, self.grid.rows - 1),
            ),
        )
    }

    /// The cursor and the pen saved.
    pub open spec fn cursor_saved(self) -> TermView {
        self.with_grid(
            GridView {
                saved_cursor: Some(
                    SavedCursor {
                        row: self.grid.screen.row as usize,
                        col: self.grid.screen.col as usize,
                        fg: self.pen.fg,
                        bg: self.pen.bg,
                        attrs: self.pen.attrs,
                    },
                ),
                ..self.grid
            },
        )
    }

    /// The cursor and the pen as they were saved, where they were.
    pub open spec fn cursor_restored(self) -> TermView {
        match self.grid.saved_cursor {
            Some(c) => TermView {
                grid: self.grid.at(
                    crate::grid::min(c.row as int, self.grid.rows - 1),
                    crate::grid::min(c.col as int, self.grid.cols - 1),
                ),
                pen: Pen { fg: c.fg, bg: c.bg, attrs: c.attrs },
                ..self
            },
            None => self,
        }
    }

    pub open spec fn replied(self, reply: Seq<u8>) -> TermView {
        TermView { replies: self.replies.push(reply), ..self }
    }

    /// A device status report answered.
    pub open spec fn status_reported(self, mode: u16) -> TermView {
        if mode == 5 {
            self.replied(seq![27u8, 91u8, 48u8, 110u8])
        } else if mode == 6 {
            self.replied(position_report(self.grid.screen.row, self.grid.screen.col))
        } else {
            self
        }
    }

    /// A request for the device attributes answered.
    pub open spec fn attributes_reported(self, mode: u16) -> TermView {
        if mode == 0 {
            self.replied(seq![27u8, 91u8, 63u8, 54u8, 50u8, 59u8, 50u8, 50u8, 99u8])
        } else {
            self
        }
    }

    /// A private mode set.
    #[verifier::opaque]
    pub open spec fn mode_set(self, mode: u16) -> TermView {
        let g = self.grid;
        match mode {
            6 => self.with_grid(GridView { origin_mode: true, ..g.at(g.screen.top, 0) }),
            47 | 1047 => self.with_grid(g.in_alt_screen()),
            1048 => self.cursor_saved(),
            1049 => self.cursor_saved().with_grid(self.cursor_saved().grid.in_alt_screen()),
            _ => self.with_grid(g.switched(mode, true)),
        }
    }

    /// A private mode reset.
    #[verifier::opaque]
    pub open spec fn mode_reset(self, mode: u16) -> TermView {
        let g = self.grid;
        match mode {
            6 => self.with_grid(GridView { origin_mode: false, ..g.at(0, 0) }),
            47 | 1047 => self.with_grid(g.out_of_alt_screen()),
            1048 => self.cursor_restored(),
            1049 => self.with_grid(g.out_of_alt_screen()).cursor_restored(),
            _ => self.with_grid(g.switched(mode, false)),
        }
    }

    /// The private modes `p[i..]` set or reset, one after the other.
    pub open spec fn modes_changed(self, p: Seq<u16>, i: int, on: bool) -> TermView
        decreases p.len() - i,
    {
        if i < 0 || i >= p.len() {
            self
        } else if on {
            self.mode_set(p[i]).modes_changed(p, i + 1, on)
        } else {
            self.mode_reset(p[i]).modes_changed(p, i + 1, on)
        }
    }

    /// A control sequence without the private marker.
    #[verifier::opaque]
    pub open spec fn csi_public(
        self,
        p: Seq<u16>,
        intermediates: Seq<u8>,
        action: char,
        now: [u8; 8],
    ) -> TermView {
        let n = count(p, 0);
        match action {
            'K' => self.line_erased(arg(p, 0, 0)),
            'm' => TermView { pen: self.pen.after(p), ..self },
            'L' => self.with_grid(self.grid.lines_inserted(n)),
            'M' => self.with_grid(self.grid.lines_deleted(n)),
            'S' => self.with_grid(self.grid.scrolled_up(n, now)),
            'T' => self.with_grid(self.grid.scrolled_down(n)),
            '@' => self.with_grid(self.grid.chars_inserted(n)),
            'P' => self.with_grid(self.grid.chars_deleted(n)),
            'X' => self.with_grid(self.grid.chars_erased(n, self.pen.erased_cell())),
            'r' => self.margins_set(p),
            's' => self.cursor_saved(),
            'u' => self.cursor_restored(),
            'n' => self.status_reported(arg(p, 0, 0)),
            'c' => self.attributes_reported(arg(p, 0, 0)),
            'q' => if intermediates.len() > 0 && intermediates[0] == 32 {
                self.with_grid(GridView { style: style_of(arg(p, 0, 0)), ..self.grid })
            } else {
                self
            },
            _ => self.cursor_moved(p, action),
        }
    }

    /// A control sequence.
    pub open spec fn csi(
        self,
        params: Seq<Seq<u16>>,
        intermediates: Seq<u8>,
        action: char,
        now: [u8; 8],
    ) -> Option<TermView> {
        let p = first_params(params);
        let s = TermView { in_ground: true, pending_wrap: false, ..self };
        let private = intermediates.len() > 0 && intermediates[0] == 63;
        if action == 'J' {
            s.display_erased(arg(p, 0, 0), now)
        } else if private {
            if action == 'h' {
                Some(s.modes_changed(p, 0, true))
            } else if action == 'l' {
                Some(s.modes_changed(p, 0, false))
            } else {
                Some(s)
            }
        } else {
            Some(s.csi_public(p, intermediates, action, now))
        }
    }

    /// A full reset.
    pub open spec fn full_reset(self) -> TermView {
        TermView {
            grid: GridView::fresh(self.grid.cols, self.grid.rows, self.grid.max_history),
            pen: Pen::plain(),
            ..self
        }
    }

    /// An escape sequence.
    pub open spec fn esc(self, intermediates: Seq<u8>, byte: u8, now: [u8; 8]) -> TermView {
        let s = TermView { in_ground: true, pending_wrap: false, ..self };
        if intermediates.len() > 0 {
            s
        } else if byte == 77 {
            s.with_grid(s.grid.reverse_indexed())
        } else if byte == 68 {
            s.with_grid(s.grid.line_fed(now))
        } else if byte == 69 {
            s.with_grid(s.grid.at(s.grid.screen.row, 0).line_fed(now))
        } else if byte == 55 {
            s.cursor_saved()
        } else if byte == 56 {
            s.cursor_restored()
        } else if byte == 99 {
            s.full_reset()
        } else if byte == 61 {
            s.with_grid(GridView { application_keypad: true, ..s.grid })
        } else if byte == 62 {
            s.with_grid(GridView { application_keypad: false, ..s.grid })
        } else {
            s
        }
    }
}

/// A terminal that has been readied for printing stays as it is when readied again.
proof fn lemma_readied_stable(t: TermView, now: [u8; 8])
    ensures
        t.readied(now).readied(now) == t.readied(now),
{
    let s = t.readied(now);
    assert(!(s.pending_wrap && s.grid.auto_wrap)) by {
        if t.pending_wrap && t.grid.auto_wrap {
            assert(!s.pending_wrap);
        }
    }
    let row = s.grid.screen.row;
    assert(s.grid.screen.touched(row, s.grid.batch).stamps =~= s.grid.screen.stamps);
    assert(s.grid.screen.touched(row, s.grid.batch) == s.grid.screen);
}

/// Printing a run readies the terminal first.
proof fn lemma_run_readied(t: TermView, bytes: Seq<u8>, now: [u8; 8])
    requires
        bytes.len() > 0,
    ensures
        t.run_placed(bytes, now) == t.readied(now).run_placed(bytes, now),
{
    lemma_readied_stable(t, now);
}

/// A character written before the last column leaves the terminal readied.
proof fn lemma_narrow_stable(t: TermView, c: char, now: [u8; 8])
    requires
        t.readied(now) == t,
        t.grid.screen.col + 1 < t.grid.cols,
    ensures
        t.narrow_written(c).readied(now) == t.narrow_written(c),
{
    let s = t.narrow_written(c);
    assert(!(t.pending_wrap && t.grid.auto_wrap)) by {
        if t.pending_wrap && t.grid.auto_wrap {
            assert(!t.readied(now).pending_wrap);
        }
    }
    assert(s.grid.screen.stamps == t.grid.screen.stamps);
    assert(t.readied(now).grid.screen.stamps == t.grid.screen.stamps);
    assert(s.grid.screen.touched(s.grid.screen.row, s.grid.batch) == s.grid.screen);
}

/// Terminal state that receives control functions and updates the grid.
#[derive(Debug)]
pub struct TermState {
    pub grid: Grid,
    pub current_fg: Color,
    pub current_bg: Color,
    pub current_attrs: CellAttrs,
    /// Pending wrap: cursor is at the last column and the next printable char should wrap.
    pub pending_wrap: bool,
    /// True when the escape-sequence state machine is (believed to be) in the ground state.
    pub in_ground: bool,
    /// Queued responses to send back to the host (e.g. DSR, DA).
    pub pending_replies: Vec<Vec<u8>>,
}

impl View for TermState {
    type V = TermView;

    open spec fn view(&self) -> TermView {
        TermView {
            grid: self.grid@,
            pen: Pen { fg: self.current_fg, bg: self.current_bg, attrs: self.current_attrs },
            pending_wrap: self.pending_wrap,
            in_ground: self.in_ground,
            replies: self.pending_replies@.map_values(|v: Vec<u8>| v@),
        }
    }
}

/// The parameter at `i`, or `d` where there is none.
fn arg_or(p: &[u16], i: usize, d: u16) -> (r: u16)
    ensures
        r == arg(p@, i as int, d),
{
    if i < p.len() {
        p[i]
    } else {
        d
    }
}

/// The parameter at `i` as a count.
fn count_at(p: &[u16], i: usize) -> (r: usize)
    ensures
        r == count(p@, i as int),
        1 <= r <= 0xffff,
{
    let v: u16 = arg_or(p, i, 1);
    if v >= 1 {
        v as usize
    } else {
        1
    }
}

/// The cursor style that a parameter selects.
fn select_style(v: u16) -> (r: CursorStyle)
    ensures
        r == style_of(v),
{
    if v == 3 || v == 4 {
        CursorStyle::Underline
    } else if v == 5 || v == 6 {
        CursorStyle::Bar
    } else {
        CursorStyle::Block
    }
}

/// The first subparameters of at most 32 parameters.
fn collect_params(params: &Vec<Vec<u16>>) -> (r: Vec<u16>)
    ensures
        r@ == first_params(params@.map_values(|v: Vec<u16>| v@)),
{
    let ghost subs = params@.map_values(|v: Vec<u16>| v@);
    let mut out: Vec<u16> = Vec::new();
    let mut i: usize = 0;
    while i < params.len() && i < 32
        invariant
            i <= params.len(),
            i <= 32,
            subs == params@.map_values(|v: Vec<u16>| v@),
            out@ == first_params(subs).take(i as int),
        decreases params.len() - i,
    {
        assert(subs[i as int] == params[i as int]@);
        let v: u16 = if params[i].len() > 0 {
            params[i][0]
        } else {
            0
        };
        out.push(v);
        i = i + 1;
        assert(out@ =~= first_params(subs).take(i as int));
    }
    assert(out@ =~= first_params(subs));
    out
}

impl TermState {
    pub fn new(cols: usize, rows: usize) -> (r: TermState)
        requires
            cols <= crate::grid::size_limit(),
            rows <= crate::grid::size_limit(),
        ensures
            r@ == TermView::fresh(cols as int, rows as int),
            cols > 0 && rows > 0 ==> r@.wf(),
    {
        let t = TermState {
            grid: Grid::new(cols, rows, 100_000),
            current_fg: Color::Default,
            current_bg: Color::Default,
            current_attrs: CellAttrs::empty(),
            pending_wrap: false,
            in_ground: true,
            pending_replies: Vec::new(),
        };
        assert(t@.replies =~= Seq::empty());
        t
    }

    /// The colours and attributes of new text.
    pub fn pen(&self) -> (r: Pen)
        ensures
            r == self@.pen,
    {
        Pen { fg: self.current_fg, bg: self.current_bg, attrs: self.current_attrs }
    }

    fn set_pen(&mut self, pen: Pen)
        ensures
            final(self)@ == (TermView { pen, ..old(self)@ }),
    {
        self.current_fg = pen.fg;
        self.current_bg = pen.bg;
        self.current_attrs = pen.attrs;
    }

    fn reply(&mut self, reply: Vec<u8>)
        ensures
            final(self)@ == old(self)@.replied(reply@),
    {
        self.pending_replies.push(reply);
        assert(self@.replies =~= old(self)@.replies.push(reply@));
    }

    /// Moves the cursor one row down, scrolling the region if at the bottom margin.
    fn lower(&mut self, now: [u8; 8])
        requires
            old(self)@.wf(),
        ensures
            final(self)@ == old(self)@.with_grid(old(self)@.grid.lowered(now)),
            final(self)@.wf(),
            final(self)@.grid.screen.col == old(self)@.grid.screen.col,
            final(self)@.grid.cols == old(self)@.grid.cols,
            final(self)@.grid.rows == old(self)@.grid.rows,
    {
        proof {
            law_scroll_keeps_frame(self@.grid, 1, now);
            self.grid.lemma_fields();
        }
        let row: usize = self.grid.cursor_row;
        let col: usize = self.grid.cursor_col;
        if row == self.grid.scroll_bottom {
            self.grid.scroll_up_at(1, now);
        } else if row < self.grid.rows - 1 {
            self.grid.move_to(row + 1, col);
        }
    }

    /// Perform a linefeed: move cursor down, scrolling the region if at the bottom margin.
    pub fn linefeed(&mut self, now: [u8; 8])
        requires
            old(self)@.wf(),
        ensures
            final(self)@ == old(self)@.with_grid(old(self)@.grid.line_fed(now)),
            final(self)@.wf(),
            final(self)@.grid.screen.col == old(self)@.grid.screen.col,
            final(self)@.grid.cols == old(self)@.grid.cols,
            final(self)@.grid.rows == old(self)@.grid.rows,
    {
        self.lower(now);
        let r: usize = self.grid.cursor_row;
        proof {
            self.grid.lemma_fields();
        }
        self.grid.flag_row(r, false);
        self.grid.touch_active_row(r);
    }

    /// Perform a reverse index: move cursor up, scrolling the region down if at the top margin.
    pub fn reverse_index(&mut self)
        requires
            old(self)@.wf(),
        ensures
            final(self)@ == old(self)@.with_grid(old(self)@.grid.reverse_indexed()),
            final(self)@.wf(),
    {
        proof {
            law_scroll_keeps_frame(self@.grid, 1, clock::unset());
            self.grid.lemma_fields();
        }
        let row: usize = self.grid.cursor_row;
        let col: usize = self.grid.cursor_col;
        if row == self.grid.scroll_top {
            self.grid.scroll_down_in_region();
        } else if row > 0 {
            self.grid.move_to(row - 1, col);
        }
    }

    /// Advance to the next line, wrapping if needed.
    pub fn do_wrap(&mut self, now: [u8; 8])
        requires
            old(self)@.wf(),
        ensures
            final(self)@ == old(self)@.wrapped_on(now),
            final(self)@.wf(),
            final(self)@.grid.screen.col == 0,
            final(self)@.grid.cols == old(self)@.grid.cols,
    {
        let row: usize = self.grid.cursor_row;
        proof {
            self.grid.lemma_fields();
        }
        self.grid.move_to(row, 0);
        self.linefeed(now);
        let r: usize = self.grid.cursor_row;
        proof {
            self.grid.lemma_fields();
        }
        self.grid.flag_row(r, true);
        self.pending_wrap = false;
    }

    /// Makes a line break that is due and stamps the row.
    fn make_ready(&mut self, now: [u8; 8])
        requires
            old(self)@.wf(),
        ensures
            final(self)@ == old(self)@.readied(now),
            final(self)@.wf(),
    {
        proof {
            self.grid.lemma_fields();
        }
        if self.pending_wrap && self.grid.auto_wrap {
            self.do_wrap(now);
        }
        let row: usize = self.grid.cursor_row;
        proof {
            self.grid.lemma_fields();
        }
        self.grid.touch_active_row(row);
    }

    fn write_narrow(&mut self, c: char)
        requires
            old(self)@.wf(),
        ensures
            final(self)@ == old(self)@.narrow_written(c),
            final(self)@.wf(),
    {
        proof {
            self.grid.lemma_fields();
        }
        let row: usize = self.grid.cursor_row;
        let col: usize = self.grid.cursor_col;
        let cols: usize = self.grid.cols;
        let cell = self.pen().cell(c);
        self.grid.put_cell(row, col, cell);
        if col + 1 < cols {
            self.grid.move_to(row, col + 1);
        } else {
            self.pending_wrap = true;
        }
    }

    /// Writes the cells of a wide character.
    fn put_wide(&mut self, c: char)
        requires
            old(self)@.wf(),
        ensures
            final(self)@ == old(self)@.with_grid(old(self)@.wide_put(c)),
            final(self)@.wf(),
    {
        proof {
            self.grid.lemma_fields();
        }
        let row: usize = self.grid.cursor_row;
        let col: usize = self.grid.cursor_col;
        let cols: usize = self.grid.cols;
        let head = self.pen().cell_with(c, CellAttrs::WIDE);
        let tail = self.pen().cell_with(' ', CellAttrs::WIDE_TAIL);
        self.grid.put_cell(row, col, head);
        if col + 1 < cols {
            self.grid.put_cell(row, col + 1, tail);
        }
    }

    fn write_wide(&mut self, c: char)
        requires
            old(self)@.wf(),
        ensures
            final(self)@ == old(self)@.wide_written(c),
            final(self)@.wf(),
    {
        proof {
            self.grid.lemma_fields();
        }
        let row: usize = self.grid.cursor_row;
        let col: usize = self.grid.cursor_col;
        let cols: usize = self.grid.cols;
        self.put_wide(c);
        if col + 2 < cols {
            self.grid.move_to(row, col + 2);
        } else {
            self.pending_wrap = true;
            self.grid.move_to(row, cols - 1);
        }
    }

    fn place(&mut self, c: char, width: usize, now: [u8; 8])
        requires
            old(self)@.wf(),
        ensures
            final(self)@ == old(self)@.placed(c, width as int, now),
            final(self)@.wf(),
    {
        self.make_ready(now);
        proof {
            self.grid.lemma_fields();
        }
        if width == 2 {
            if self.grid.cursor_col + 1 < self.grid.cols {
                self.write_wide(c);
            } else if self.grid.auto_wrap {
                self.do_wrap(now);
                self.write_wide(c);
            }
        } else {
            self.write_narrow(c);
        }
    }

    /// Prints a character of `width` columns.
    pub fn print(&mut self, c: char, width: usize, now: [u8; 8])
        requires
            old(self)@.wf(),
        ensures
            final(self)@ == old(self)@.printed(c, width as int, now),
            final(self)@.wf(),
    {
        self.in_ground = true;
        self.place(c, width, now);
    }

    /// Prints a run of printable ASCII bytes, row by row.
    pub fn print_ascii_run(&mut self, bytes: &[u8], now: [u8; 8])
        requires
            old(self)@.wf(),
        ensures
            final(self)@ == old(self)@.run_placed(bytes@, now),
            final(self)@.wf(),
    {
        let mut bi: usize = 0;
        assert(bytes@.skip(0) =~= bytes@);
        while bi < bytes.len()
            invariant
                bi <= bytes@.len(),
                self@.wf(),
                self@.run_placed(bytes@.skip(bi as int), now) == old(self)@.run_placed(bytes@, now),
            decreases bytes@.len() - bi,
        {
            proof {
                lemma_readied_stable(self@, now);
                lemma_run_readied(self@, bytes@.skip(bi as int), now);
            }
            self.make_ready(now);
            proof {
                self.grid.lemma_fields();
            }
            let remaining: usize = self.grid.cols - self.grid.cursor_col;
            let end: usize = bi + least(remaining, bytes.len() - bi);
            while bi < end
                invariant
                    bi <= end <= bytes@.len(),
                    self@.wf(),
                    self@.run_placed(bytes@.skip(bi as int), now) == old(self)@.run_placed(
                        bytes@,
                        now,
                    ),
                    bi < end ==> self@.readied(now) == self@,
                    bi < end ==> end - bi <= self@.grid.cols - self@.grid.screen.col,
                decreases end - bi,
            {
                let c: char = bytes[bi] as char;
                let ghost before = self@;
                assert(bytes@.skip(bi as int).skip(1) =~= bytes@.skip(bi + 1));
                assert(bytes@.skip(bi as int)[0] == bytes@[bi as int]);
                assert(before.placed(c, 1, now) == before.narrow_written(c));
                self.write_narrow(c);
                bi = bi + 1;
                proof {
                    if bi < end {
                        lemma_narrow_stable(before, c, now);
                    }
                }
            }
        }
        assert(bytes@.skip(bi as int) =~= Seq::empty());
    }

    /// Executes a C0 control.
    pub fn execute(&mut self, byte: u8, now: [u8; 8])
        requires
            old(self)@.wf(),
        ensures
            final(self)@ == old(self)@.executed(byte, now),
            final(self)@.wf(),
    {
        proof {
            self.grid.lemma_fields();
        }
        let row: usize = self.grid.cursor_row;
        if byte == 0x08 {
            self.backspace();
            self.pending_wrap = false;
        } else if byte == 0x09 {
            let next: usize = (self.grid.cursor_col / 8 + 1) * 8;
            let col: usize = least(next, self.grid.cols - 1);
            self.grid.move_to(row, col);
            self.pending_wrap = false;
        } else if byte == 0x0a || byte == 0x0b || byte == 0x0c {
            self.linefeed(now);
            self.pending_wrap = false;
        } else if byte == 0x0d {
            self.grid.move_to(row, 0);
            self.pending_wrap = false;
        }
    }

    /// Moves the cursor back; at column 0 of a soft-wrap continuation row it moves to the end of
    /// the previous row.
    fn backspace(&mut self)
        requires
            old(self)@.wf(),
        ensures
            final(self)@ == old(self)@.with_grid(old(self)@.grid.backspaced()),
            final(self)@.wf(),
    {
        proof {
            self.grid.lemma_fields();
        }
        let row: usize = self.grid.cursor_row;
        let col: usize = self.grid.cursor_col;
        let last_col: usize = self.grid.cols - 1;
        if col > 0 {
            self.grid.move_to(row, col - 1);
        } else if self.grid.auto_wrap && row > 0 && row < self.grid.line_wrapped.len()
            && self.grid.line_wrapped[row] {
            self.grid.move_to(row - 1, last_col);
        }
    }

    /// The row that a control function addresses by `row`.
    fn address_row(&self, row: usize) -> (r: usize)
        requires
            self@.wf(),
            row <= 0xffff,
        ensures
            r == self@.grid.row_addressed(row as int),
    {
        proof {
            self.grid.lemma_fields();
        }
        if self.grid.origin_mode {
            least(self.grid.scroll_top + row, self.grid.scroll_bottom)
        } else {
            least(row, self.grid.rows - 1)
        }
    }

    /// Moves the cursor by a control sequence.
    fn move_cursor(&mut self, p: &[u16], action: char)
        requires
            old(self)@.wf(),
        ensures
            final(self)@ == old(self)@.cursor_moved(p@, action),
            final(self)@.wf(),
    {
        proof {
            self.grid.lemma_fields();
        }
        let (row, col): (usize, usize) = self.cursor_target(p, action);
        self.grid.move_to(row, col);
    }

    /// Where a control sequence moves the cursor to.
    fn cursor_target(&self, p: &[u16], action: char) -> (r: (usize, usize))
        requires
            self@.wf(),
        ensures
            r.0 == self@.cursor_target(p@, action).0,
            r.1 == self@.cursor_target(p@, action).1,
            r.0 < self@.grid.rows,
            r.1 < self@.grid.cols,
    {
        proof {
            self.grid.lemma_fields();
        }
        let n: usize = count_at(p, 0);
        let row: usize = self.grid.cursor_row;
        let col: usize = self.grid.cursor_col;
        let last_row: usize = self.grid.rows - 1;
        let last_col: usize = self.grid.cols - 1;
        match action {
            'A' => (row.saturating_sub(n), col),
            'B' | 'e' => (least(row + n, last_row), col),
            'C' => (row, least(col + n, last_col)),
            'D' => (row, col.saturating_sub(n)),
            'E' => (least(row + n, last_row), 0),
            'F' => (row.saturating_sub(n), 0),
            'G' | '`' => (row, least(n - 1, last_col)),
            'H' | 'f' => (self.address_row(n - 1), least(count_at(p, 1) - 1, last_col)),
            'd' => (self.address_row(n - 1), col),
            _ => (row, col),
        }
    }

    fn erase_display(&mut self, mode: u16, now: [u8; 8]) -> (ok: bool)
        requires
            old(self)@.wf(),
        ensures
            ok == old(self)@.display_erased(mode, now).is_some(),
            ok ==> final(self)@ == old(self)@.display_erased(mode, now).unwrap(),
            ok ==> final(self)@.wf(),
    {
        proof {
            reveal(TermView::display_erased);
        }
        let c = self.pen().erase_cell();
        match mode {
            0 => {
                self.grid.erase_below(c);
                true
            },
            1 => {
                self.grid.erase_above(c);
                true
            },
            2 | 3 => self.grid.erase_all(c, now),
            _ => true,
        }
    }

    fn erase_in_line(&mut self, mode: u16)
        requires
            old(self)@.wf(),
        ensures
            final(self)@ == old(self)@.line_erased(mode),
            final(self)@.wf(),
    {
        proof {
            reveal(TermView::line_erased);
        }
        let c = self.pen().erase_cell();
        match mode {
            0 => self.grid.erase_right(c),
            1 => self.grid.erase_left(c),
            2 => self.grid.erase_line(c),
            _ => {},
        }
    }

    fn set_margins(&mut self, p: &[u16])
        requires
            old(self)@.wf(),
        ensures
            final(self)@ == old(self)@.margins_set(p@),
            final(self)@.wf(),
    {
        proof {
            self.grid.lemma_fields();
        }
        let top: usize = count_at(p, 0) - 1;
        let low: u16 = arg_or(p, 1, (self.grid.rows % 0x1_0000) as u16);
        let low: usize = if low >= 1 {
            low as usize
        } else {
            1
        };
        let bottom: usize = least(low - 1, self.grid.rows - 1);
        if top < bottom {
            self.grid.set_region(top, bottom);
        }
        proof {
            self.grid.lemma_fields();
        }
        let row: usize = if self.grid.origin_mode {
            self.grid.scroll_top
        } else {
            0
        };
        self.grid.move_to(row, 0);
    }

    /// Saves cursor and pen (DECSC).
    fn save_cursor(&mut self)
        requires
            old(self)@.wf(),
        ensures
            final(self)@ == old(self)@.cursor_saved(),
            final(self)@.wf(),
    {
        proof {
            self.grid.lemma_fields();
        }
        let cursor = SavedCursor {
            row: self.grid.cursor_row,
            col: self.grid.cursor_col,
            fg: self.current_fg,
            bg: self.current_bg,
            attrs: self.current_attrs,
        };
        self.grid.set_saved_cursor(cursor);
    }

    /// Restores cursor and pen (DECRC).
    fn restore_cursor(&mut self)
        requires
            old(self)@.wf(),
        ensures
            final(self)@ == old(self)@.cursor_restored(),
            final(self)@.wf(),
    {
        proof {
            self.grid.lemma_fields();
        }
        if let Some(saved) = self.grid.saved_cursor {
            let row: usize = least(saved.row, self.grid.rows - 1);
            let col: usize = least(saved.col, self.grid.cols - 1);
            self.grid.move_to(row, col);
            self.current_fg = saved.fg;
            self.current_bg = saved.bg;
            self.current_attrs = saved.attrs;
        }
    }

    /// Answers a device status report.
    fn report_status(&mut self, mode: u16)
        requires
            old(self)@.wf(),
        ensures
            final(self)@ == old(self)@.status_reported(mode),
            final(self)@.wf(),
    {
        proof {
            self.grid.lemma_fields();
        }
        if mode == 5 {
            let reply: Vec<u8> = vec![27u8, 91u8, 48u8, 110u8];
            assert(reply@ =~= seq![27u8, 91u8, 48u8, 110u8]);
            self.reply(reply);
        } else if mode == 6 {
            let mut reply: Vec<u8> = vec![27u8, 91u8];
            number::push_decimal(&mut reply, (self.grid.cursor_row + 1) as u64);
            reply.push(59);
            number::push_decimal(&mut reply, (self.grid.cursor_col + 1) as u64);
            reply.push(82);
            assert(reply@ =~= position_report(
                self.grid.cursor_row as int,
                self.grid.cursor_col as int,
            ));
            self.reply(reply);
        }
    }

    /// Answers a request for the device attributes: a VT220 with a basic feature set.
    fn report_attributes(&mut self, mode: u16)
        ensures
            final(self)@ == old(self)@.attributes_reported(mode),
    {
        if mode == 0 {
            let reply: Vec<u8> = vec![27u8, 91u8, 63u8, 54u8, 50u8, 59u8, 50u8, 50u8, 99u8];
            assert(reply@ =~= seq![27u8, 91u8, 63u8, 54u8, 50u8, 59u8, 50u8, 50u8, 99u8]);
            self.reply(reply);
        }
    }

    /// Sets a private mode (DECSET).
    fn set_mode(&mut self, mode: u16)
        requires
            old(self)@.wf(),
        ensures
            final(self)@ == old(self)@.mode_set(mode),
            final(self)@.wf(),
    {
        proof {
            reveal(TermView::mode_set);
            self.grid.lemma_fields();
        }
        if mode == 6 {
            let top: usize = self.grid.scroll_top;
            self.grid.move_to(top, 0);
            self.grid.set_origin_mode(true);
        } else if mode == 47 || mode == 1047 {
            self.grid.enter_alt_screen();
        } else if mode == 1048 {
            self.save_cursor();
        } else if mode == 1049 {
            self.save_cursor();
            self.grid.enter_alt_screen();
        } else {
            self.grid.switch_mode(mode, true);
        }
    }

    /// Resets a private mode (DECRST).
    fn reset_mode(&mut self, mode: u16)
        requires
            old(self)@.wf(),
        ensures
            final(self)@ == old(self)@.mode_reset(mode),
            final(self)@.wf(),
    {
        proof {
            reveal(TermView::mode_reset);
        }
        if mode == 6 {
            self.grid.move_to(0, 0);
            self.grid.set_origin_mode(false);
        } else if mode == 47 || mode == 1047 {
            self.grid.leave_alt_screen();
        } else if mode == 1048 {
            self.restore_cursor();
        } else if mode == 1049 {
            self.grid.leave_alt_screen();
            self.restore_cursor();
        } else {
            self.grid.switch_mode(mode, false);
        }
    }

    /// Sets or resets private modes in the order given.
    fn change_modes(&mut self, p: &[u16], on: bool)
        requires
            old(self)@.wf(),
        ensures
            final(self)@ == old(self)@.modes_changed(p@, 0, on),
            final(self)@.wf(),
    {
        let mut i: usize = 0;
        while i < p.len()
            invariant
                i <= p@.len(),
                self@.wf(),
                self@.modes_changed(p@, i as int, on) == old(self)@.modes_changed(p@, 0, on),
            decreases p@.len() - i,
        {
            if on {
                self.set_mode(p[i]);
            } else {
                self.reset_mode(p[i]);
            }
            i = i + 1;
        }
    }

    /// Carries out a control sequence without the private marker.
    fn dispatch_public(&mut self, p: &[u16], intermediates: &[u8], action: char, now: [u8; 8])
        requires
            old(self)@.wf(),
        ensures
            final(self)@ == old(self)@.csi_public(p@, intermediates@, action, now),
            final(self)@.wf(),
    {
        proof {
            reveal(TermView::csi_public);
            law_scroll_keeps_frame(self@.grid, count(p@, 0), now);
        }
        let n: usize = count_at(p, 0);
        match action {
            'K' => self.erase_in_line(arg_or(p, 0, 0)),
            'm' => {
                let pen = self.pen().select(p);
                self.set_pen(pen);
            },
            'L' => self.grid.insert_lines(n),
            'M' => self.grid.delete_lines(n),
            'S' => self.grid.scroll_up_at(n, now),
            'T' => self.grid.scroll_down_n_in_region(n),
            '@' => self.grid.insert_chars(n),
            'P' => self.grid.delete_chars(n),
            'X' => {
                let c = self.pen().erase_cell();
                self.grid.erase_chars(n, c);
            },
            'r' => self.set_margins(p),
            's' => self.save_cursor(),
            'u' => self.restore_cursor(),
            'n' => self.report_status(arg_or(p, 0, 0)),
            'c' => self.report_attributes(arg_or(p, 0, 0)),
            'q' => {
                if intermediates.len() > 0 && intermediates[0] == 32 {
                    let v: u16 = arg_or(p, 0, 0);
                    self.grid.set_cursor_style(select_style(v));
                }
            },
            _ => self.move_cursor(p, action),
        }
    }

    /// Carries out a control sequence.
    pub fn csi_dispatch(
        &mut self,
        params: &Vec<Vec<u16>>,
        intermediates: &[u8],
        action: char,
        now: [u8; 8],
    ) -> (ok: bool)
        requires
            old(self)@.wf(),
        ensures
            ok == old(self)@.csi(
                params@.map_values(|v: Vec<u16>| v@),
                intermediates@,
                action,
                now,
            ).is_some(),
            ok ==> final(self)@ == old(self)@.csi(
                params@.map_values(|v: Vec<u16>| v@),
                intermediates@,
                action,
                now,
            ).unwrap(),
            ok ==> final(self)@.wf(),
    {
        let p: Vec<u16> = collect_params(params);
        let private: bool = intermediates.len() > 0 && intermediates[0] == 63;
        self.in_ground = true;
        self.pending_wrap = false;
        if action == 'J' {
            self.erase_display(arg_or(p.as_slice(), 0, 0), now)
        } else if private {
            if action == 'h' {
                self.change_modes(p.as_slice(), true);
            } else if action == 'l' {
                self.change_modes(p.as_slice(), false);
            }
            true
        } else {
            self.dispatch_public(p.as_slice(), intermediates, action, now);
            true
        }
    }

    /// Carries out an escape sequence.
    pub fn esc_dispatch(&mut self, intermediates: &[u8], byte: u8, now: [u8; 8])
        requires
            old(self)@.wf(),
        ensures
            final(self)@ == old(self)@.esc(intermediates@, byte, now),
            final(self)@.wf(),
    {
        self.in_ground = true;
        self.pending_wrap = false;
        if intermediates.len() > 0 {
            return ;
        }
        proof {
            self.grid.lemma_fields();
        }
        let row: usize = self.grid.cursor_row;
        if byte == 77 {
            self.reverse_index();
        } else if byte == 68 {
            self.linefeed(now);
        } else if byte == 69 {
            self.grid.move_to(row, 0);
            self.linefeed(now);
        } else if byte == 55 {
            self.save_cursor();
        } else if byte == 56 {
            self.restore_cursor();
        } else if byte == 99 {
            self.grid = Grid::new(self.grid.cols, self.grid.rows, self.grid.max_scrollback);
            self.set_pen(Pen::reset());
        } else if byte == 61 {
            self.grid.set_application_keypad(true);
        } else if byte == 62 {
            self.grid.set_application_keypad(false);
        }
    }
}

} // verus!
