//! What printing, control characters and escape sequences do to the terminal, told by the cursor
//! and the cells.

use crate::cell::{Cell, CellAttrs, Color};
use crate::effects::{after_csi, cursor_stands};
use crate::grid::{GridView, ScreenView};
use crate::laws::sound;
use crate::sgr::Pen;
use crate::term::TermView;
use crate::vt::EventView;
use vstd::prelude::*;

verus! {

/// The terminal after a character of `width` columns is printed.
pub open spec fn after_print(t: TermView, c: char, width: int, now: [u8; 8]) -> TermView {
    t.printed(c, width, now)
}

/// The terminal is as before but for the cells of its screen, the cursor, the timestamp of its row
/// and whether a line break is due.
pub open spec fn only_written(before: TermView, after: TermView) -> bool {
    after == TermView {
        grid: GridView {
            screen: ScreenView {
                lines: after.grid.screen.lines,
                stamps: after.grid.screen.stamps,
                row: after.grid.screen.row,
                col: after.grid.screen.col,
                ..before.grid.screen
            },
            ..before.grid
        },
        in_ground: true,
        pending_wrap: after.pending_wrap,
        ..before
    }
}

/// The row has a time: the one it had, or that of the write under way where it had none. No other
/// row has another time than before.
pub open spec fn row_timed(before: TermView, after: TermView, row: int) -> bool {
    let s = before.grid.screen;
    after.grid.screen.stamps == if s.stamps[row] == crate::clock::unset() {
        s.stamps.update(row, before.grid.batch)
    } else {
        s.stamps
    }
}

/// A printed character stands where the cursor was, in the pen's colours and attributes; every
/// other cell is as it was, and the cursor is one column further, or in the last column with a
/// line break due.
#[verifier::rlimit(40)]
pub proof fn law_print_narrow(t: TermView, c: char, now: [u8; 8])
    requires
        sound(t),
        !t.pending_wrap || !t.grid.auto_wrap,
    ensures
        ({
            let s = after_print(t, c, 1, now);
            let (row, col) = (t.grid.screen.row, t.grid.screen.col);
            let (old_lines, lines) = (t.grid.screen.lines, s.grid.screen.lines);
            &&& row_timed(t, s, row)
            &&& only_written(t, s)
            &&& crate::edits::same_shape(t, lines)
            &&& forall|r: int, k: int|
                0 <= r < t.grid.rows && 0 <= k < t.grid.cols ==> #[trigger] lines[r][k] == if r
                    == row && k == col {
                    Cell { ch: c, fg: t.pen.fg, bg: t.pen.bg, attrs: t.pen.attrs }
                } else {
                    old_lines[r][k]
                }
            &&& s.grid.screen.row == row
            &&& col + 1 < t.grid.cols ==> s.grid.screen.col == col + 1 && s.pending_wrap
                == t.pending_wrap
            &&& col + 1 == t.grid.cols ==> s.grid.screen.col == col && s.pending_wrap
        }),
{
    reveal(sound);
    assert(t.grid.screen.lines[t.grid.screen.row].len() == t.grid.cols);
}

/// A character of two columns takes two cells in the pen's colours, of which the first holds the
/// character, and the cursor is two columns further, or in the last column with a line break due.
#[verifier::rlimit(40)]
pub proof fn law_print_wide(t: TermView, c: char, now: [u8; 8])
    requires
        sound(t),
        !t.pending_wrap || !t.grid.auto_wrap,
        t.grid.screen.col + 1 < t.grid.cols,
    ensures
        ({
            let s = after_print(t, c, 2, now);
            let (row, col) = (t.grid.screen.row, t.grid.screen.col);
            let (old_lines, lines) = (t.grid.screen.lines, s.grid.screen.lines);
            &&& row_timed(t, s, row)
            &&& only_written(t, s)
            &&& crate::edits::same_shape(t, lines)
            &&& forall|r: int, k: int|
                0 <= r < t.grid.rows && 0 <= k < t.grid.cols ==> #[trigger] lines[r][k] == if r
                    == row && k == col {
                    Cell {
                        ch: c,
                        fg: t.pen.fg,
                        bg: t.pen.bg,
                        attrs: CellAttrs { bits: t.pen.attrs.bits | 0x100 },
                    }
                } else if r == row && k == col + 1 {
                    Cell {
                        ch: ' ',
                        fg: t.pen.fg,
                        bg: t.pen.bg,
                        attrs: CellAttrs { bits: t.pen.attrs.bits | 0x200 },
                    }
                } else {
                    old_lines[r][k]
                }
            &&& s.grid.screen.row == row
            &&& col + 2 < t.grid.cols ==> s.grid.screen.col == col + 2 && s.pending_wrap
                == t.pending_wrap
            &&& col + 2 == t.grid.cols ==> s.grid.screen.col == col + 1 && s.pending_wrap
        }),
{
    reveal(sound);
    assert(t.grid.screen.lines[t.grid.screen.row].len() == t.grid.cols);
}

/// A character printed while a line break is due goes to the start of the next row, which then goes
/// on from the one above, as long as the cursor is not at the bottom margin or the last row.
#[verifier::rlimit(40)]
pub proof fn law_print_wraps(t: TermView, c: char, now: [u8; 8])
    requires
        sound(t),
        t.pending_wrap,
        t.grid.auto_wrap,
        t.grid.screen.row != t.grid.screen.bottom,
        t.grid.screen.row + 1 < t.grid.rows,
        t.grid.cols >= 2,
    ensures
        ({
            let s = after_print(t, c, 1, now);
            let row = t.grid.screen.row;
            let (old_lines, lines) = (t.grid.screen.lines, s.grid.screen.lines);
            &&& crate::edits::same_shape(t, lines)
            &&& forall|r: int, k: int|
                0 <= r < t.grid.rows && 0 <= k < t.grid.cols ==> #[trigger] lines[r][k] == if r
                    == row + 1 && k == 0 {
                    Cell { ch: c, fg: t.pen.fg, bg: t.pen.bg, attrs: t.pen.attrs }
                } else {
                    old_lines[r][k]
                }
            &&& s.grid.screen.row == row + 1
            &&& s.grid.screen.col == 1
            &&& !s.pending_wrap
            &&& s.grid.screen.wrapped == t.grid.screen.wrapped.update(row + 1, true)
            &&& s.grid.screen.history == t.grid.screen.history
        }),
{
    reveal(sound);
    let row = t.grid.screen.row;
    assert(t.grid.screen.lines[row + 1].len() == t.grid.cols);
    let s = after_print(t, c, 1, now);
    assert(s.grid.screen.wrapped =~= t.grid.screen.wrapped.update(row + 1, true));
}

/// The terminal after a control character.
#[verifier::opaque]
pub open spec fn after_control(t: TermView, byte: u8, now: [u8; 8]) -> TermView {
    t.performed(EventView::Execute(byte), now).unwrap()
}

/// The terminal is as before, but its cursor stands at `row` and `col` and no line break is due.
pub open spec fn stands_at(before: TermView, after: TermView, row: int, col: int) -> bool {
    after == TermView {
        grid: GridView {
            screen: ScreenView { row, col, ..before.grid.screen },
            ..before.grid
        },
        pending_wrap: false,
        ..before
    }
}

/// A carriage return goes to the first column. A backspace goes one column back; in the first it
/// stays, unless the row goes on from the one above, whose last column it then goes to. A tab goes
/// to the next column whose number is a multiple of eight, or to the last one. Nothing else
/// changes.
#[verifier::rlimit(40)]
pub proof fn law_control_moves(t: TermView, now: [u8; 8])
    requires
        sound(t),
    ensures
        ({
            let (row, col) = (t.grid.screen.row, t.grid.screen.col);
            let tab = t.grid.screen.col - t.grid.screen.col % 8 + 8;
            &&& stands_at(t, after_control(t, 13, now), row, 0)
            &&& col > 0 ==> stands_at(t, after_control(t, 8, now), row, col - 1)
            &&& col == 0 && (row == 0 || !t.grid.auto_wrap || !t.grid.screen.wrapped[row])
                ==> stands_at(t, after_control(t, 8, now), row, col)
            &&& col == 0 && row > 0 && t.grid.auto_wrap && t.grid.screen.wrapped[row] ==> stands_at(
                t,
                after_control(t, 8, now),
                row - 1,
                t.grid.cols - 1,
            )
            &&& stands_at(
                t,
                after_control(t, 9, now),
                row,
                if tab < t.grid.cols {
                    tab
                } else {
                    t.grid.cols - 1
                },
            )
        }),
{
    reveal(sound);
    reveal(after_control);
    assert((t.grid.screen.col / 8 + 1) * 8 == t.grid.screen.col - t.grid.screen.col % 8 + 8);
}

/// A linefeed above the bottom margin, or below it and above the last row, goes one row down in the
/// same column: to a row that goes on from no other. No cell changes. Vertical tabs and form feeds
/// are linefeeds.
#[verifier::rlimit(40)]
pub proof fn law_linefeed(t: TermView, now: [u8; 8])
    requires
        sound(t),
        t.grid.screen.row != t.grid.screen.bottom,
        t.grid.screen.row + 1 < t.grid.rows,
    ensures
        ({
            let s = after_control(t, 10, now);
            let row = t.grid.screen.row;
            &&& row_timed(t, s, row + 1)
            &&& s.grid.screen.row == row + 1
            &&& s.grid.screen.col == t.grid.screen.col
            &&& s.grid.screen.lines == t.grid.screen.lines
            &&& s.grid.screen.history == t.grid.screen.history
            &&& s.grid.screen.wrapped == t.grid.screen.wrapped.update(row + 1, false)
            &&& s.pen == t.pen
            &&& !s.pending_wrap
        }),
        after_control(t, 11, now) == after_control(t, 10, now),
        after_control(t, 12, now) == after_control(t, 10, now),
{
    reveal(sound);
    reveal(after_control);
    let row = t.grid.screen.row;
    assert(t.grid.screen.wrapped.len() == t.grid.rows);
    assert(after_control(t, 10, now).grid.screen.wrapped =~= t.grid.screen.wrapped.update(
        row + 1,
        false,
    ));
}

/// A linefeed at the bottom margin scrolls the region up by one row, and the cursor stays; one in
/// the last row below the margin does nothing to rows and cursor.
#[verifier::rlimit(40)]
pub proof fn law_linefeed_scrolls(t: TermView, now: [u8; 8])
    requires
        sound(t),
    ensures
        ({
            let s = after_control(t, 10, now);
            let u = after_csi(t, seq![1], 'S', now);
            &&& t.grid.screen.row == t.grid.screen.bottom ==> u is Some && s.grid.screen.lines
                == u.unwrap().grid.screen.lines && s.grid.screen.history
                == u.unwrap().grid.screen.history && s.grid.screen.row == t.grid.screen.row
                && s.grid.screen.col == t.grid.screen.col
            &&& t.grid.screen.row > t.grid.screen.bottom && t.grid.screen.row == t.grid.rows - 1
                ==> s.grid.screen.lines == t.grid.screen.lines && s.grid.screen.history
                == t.grid.screen.history && s.grid.screen.row == t.grid.screen.row
        }),
{
    reveal(sound);
    reveal(after_control);
    crate::effects::lemma_public(t, seq![1], 'S', now);
    reveal(TermView::csi_public);
    crate::term::law_scroll_keeps_frame(t.grid, 1, now);
}

/// The terminal after an escape sequence without intermediates.
#[verifier::opaque]
pub open spec fn after_esc(t: TermView, byte: u8, now: [u8; 8]) -> TermView {
    t.performed(EventView::Esc(Seq::empty(), false, byte), now).unwrap()
}

/// Reverse Index goes one row up; at the top margin it scrolls the region down by one row and
/// stays.
#[verifier::rlimit(40)]
pub proof fn law_reverse_index(t: TermView, now: [u8; 8])
    requires
        sound(t),
    ensures
        ({
            let (row, col) = (t.grid.screen.row, t.grid.screen.col);
            let s = after_esc(t, 77, now);
            &&& row != t.grid.screen.top && row > 0 ==> cursor_stands(t, Some(s), row - 1, col)
            &&& row != t.grid.screen.top && row == 0 ==> cursor_stands(t, Some(s), row, col)
            &&& row == t.grid.screen.top ==> after_csi(t, seq![1], 'T', now) == Some(s)
        }),
{
    reveal(sound);
    reveal(after_esc);
    crate::effects::lemma_public(t, seq![1], 'T', now);
    reveal(TermView::csi_public);
}

/// Index is a linefeed, and Next Line one in the first column.
#[verifier::rlimit(40)]
pub proof fn law_index(t: TermView, now: [u8; 8])
    ensures
        ({
            let u = TermView { in_ground: true, ..t };
            &&& after_esc(t, 68, now) == after_control(u, 10, now)
            &&& after_esc(t, 69, now) == after_control(after_control(u, 13, now), 10, now)
        }),
{
    reveal(after_esc);
    reveal(after_control);
}

/// A full reset leaves an empty screen of the same size with the cursor at home, no history, the
/// margins at the edges, the modes of a new terminal and a plain pen.
#[verifier::rlimit(40)]
pub proof fn law_full_reset(t: TermView, now: [u8; 8])
    requires
        sound(t),
    ensures
        ({
            let s = after_esc(t, 99, now);
            let g = s.grid;
            &&& g.rows == t.grid.rows && g.cols == t.grid.cols && g.max_history
                == t.grid.max_history
            &&& crate::edits::same_shape(t, g.screen.lines)
            &&& forall|r: int, c: int|
                0 <= r < g.rows && 0 <= c < g.cols ==> #[trigger] g.screen.lines[r][c]
                    == crate::edits::plain_blank()
            &&& g.screen.history.len() == 0
            &&& g.screen.row == 0 && g.screen.col == 0
            &&& g.screen.top == 0 && g.screen.bottom == g.rows - 1
            &&& !g.is_alt && g.saved is None && g.saved_cursor is None
            &&& g.auto_wrap && g.cursor_visible && !g.origin_mode && !g.bracketed_paste
            &&& !g.application_cursor_keys && !g.application_keypad
            &&& g.mouse_tracking == 0 && g.mouse_format == 0
            &&& g.title.len() == 0 && g.offset == 0
            &&& s.pen == Pen {
                fg: Color::Default,
                bg: Color::Default,
                attrs: CellAttrs { bits: 0 },
            }
            &&& s.replies == t.replies
        }),
{
    reveal(sound);
    reveal(after_esc);
}

/// Other control characters than backspace, tab, linefeed, vertical tab, form feed and carriage
/// return do nothing.
pub proof fn law_other_controls_ignored(t: TermView, byte: u8, now: [u8; 8])
    requires
        byte < 8 || byte > 13,
    ensures
        after_control(t, byte, now) == t,
{
    reveal(after_control);
}

/// The sequences `s` and `u` save and restore the cursor as the escape sequences 7 and 8 do.
#[verifier::rlimit(40)]
pub proof fn law_save_and_restore_sequences(t: TermView, now: [u8; 8])
    ensures
        after_csi(t, Seq::empty(), 's', now) == Some(after_esc(t, 55, now)),
        after_csi(t, Seq::empty(), 'u', now) == Some(after_esc(t, 56, now)),
{
    reveal(after_esc);
    crate::effects::lemma_public(t, Seq::empty(), 's', now);
    crate::effects::lemma_public(t, Seq::empty(), 'u', now);
    reveal(TermView::csi_public);
}

/// The escape sequences `=` and `>` switch the application's keypad on and off, and change nothing
/// else.
pub proof fn law_keypad(t: TermView, now: [u8; 8])
    ensures
        after_esc(t, 61, now) == (TermView {
            grid: GridView { application_keypad: true, ..t.grid },
            in_ground: true,
            pending_wrap: false,
            ..t
        }),
        after_esc(t, 62, now) == (TermView {
            grid: GridView { application_keypad: false, ..t.grid },
            in_ground: true,
            pending_wrap: false,
            ..t
        }),
{
    reveal(after_esc);
}

/// A character of two columns that only one column is left for goes to the start of the next row,
/// as long as the cursor is not at the bottom margin or the last row; the cell it leaves stays.
#[verifier::rlimit(40)]
pub proof fn law_print_wide_wraps(t: TermView, c: char, now: [u8; 8])
    requires
        sound(t),
        !t.pending_wrap,
        t.grid.auto_wrap,
        t.grid.screen.col + 1 == t.grid.cols,
        t.grid.screen.row != t.grid.screen.bottom,
        t.grid.screen.row + 1 < t.grid.rows,
        t.grid.cols >= 3,
    ensures
        ({
            let s = after_print(t, c, 2, now);
            let row = t.grid.screen.row;
            let (old_lines, lines) = (t.grid.screen.lines, s.grid.screen.lines);
            &&& forall|r: int, k: int|
                0 <= r < t.grid.rows && 0 <= k < t.grid.cols ==> #[trigger] lines[r][k] == if r
                    == row + 1 && k == 0 {
                    Cell {
                        ch: c,
                        fg: t.pen.fg,
                        bg: t.pen.bg,
                        attrs: CellAttrs { bits: t.pen.attrs.bits | 0x100 },
                    }
                } else if r == row + 1 && k == 1 {
                    Cell {
                        ch: ' ',
                        fg: t.pen.fg,
                        bg: t.pen.bg,
                        attrs: CellAttrs { bits: t.pen.attrs.bits | 0x200 },
                    }
                } else {
                    old_lines[r][k]
                }
            &&& s.grid.screen.row == row + 1
            &&& s.grid.screen.col == 2
            &&& !s.pending_wrap
        }),
{
    reveal(sound);
    let row = t.grid.screen.row;
    assert(t.grid.screen.lines[row + 1].len() == t.grid.cols);
}

/// Entering the alternate screen sets the primary one aside as it is and shows an empty one with
/// the cursor at home, the margins at the edges and no history; on the alternate screen it does
/// nothing.
#[verifier::rlimit(40)]
pub proof fn law_enter_alt_screen(t: TermView, mode: u16, now: [u8; 8])
    requires
        sound(t),
        mode == 47 || mode == 1047,
    ensures
        crate::switches::after_modes(t, seq![mode], true, now) matches Some(s) && {
            let g = s.grid;
            &&& t.grid.is_alt ==> g == t.grid
            &&& !t.grid.is_alt ==> {
                &&& g.is_alt
                &&& g.saved == Some(t.grid.screen)
                &&& crate::edits::same_shape(t, g.screen.lines)
                &&& forall|r: int, c: int|
                    0 <= r < g.rows && 0 <= c < g.cols ==> #[trigger] g.screen.lines[r][c]
                        == crate::edits::plain_blank()
                &&& g.screen.history.len() == 0
                &&& g.screen.row == 0 && g.screen.col == 0
                &&& g.screen.top == 0 && g.screen.bottom == g.rows - 1
                &&& g == GridView {
                    screen: g.screen,
                    saved: g.saved,
                    is_alt: true,
                    ..t.grid
                }
            }
            &&& s.pen == t.pen
        },
{
    reveal(sound);
    crate::switches::lemma_one_mode(t, mode, true, now);
    reveal(TermView::mode_set);
}

} // verus!
