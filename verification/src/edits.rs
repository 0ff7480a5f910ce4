//! What erasing, inserting, deleting and scrolling do to the terminal, cell by cell.

use crate::cell::{Cell, CellAttrs, Color};
use crate::effects::after_csi;
use crate::grid::{GridView, ScreenView};
use crate::laws::sound;
use crate::term::TermView;
use vstd::prelude::*;

verus! {

/// The terminal as a control sequence finds it.
spec fn readied(t: TermView) -> TermView {
    TermView { in_ground: true, pending_wrap: false, ..t }
}

/// The terminal is as before but for the cells of its screen.
pub open spec fn only_cells(before: TermView, after: TermView) -> bool {
    after == TermView {
        grid: GridView {
            screen: ScreenView { lines: after.grid.screen.lines, ..before.grid.screen },
            ..before.grid
        },
        in_ground: true,
        pending_wrap: false,
        ..before
    }
}

/// The terminal is as before but for the rows of its screen, with their timestamps and wrap flags.
pub open spec fn only_rows(before: TermView, after: TermView) -> bool {
    after == TermView {
        grid: GridView {
            screen: ScreenView {
                lines: after.grid.screen.lines,
                stamps: after.grid.screen.stamps,
                wrapped: after.grid.screen.wrapped,
                ..before.grid.screen
            },
            ..before.grid
        },
        in_ground: true,
        pending_wrap: false,
        ..before
    }
}

/// The matrix has the size of the screen.
pub open spec fn same_shape(t: TermView, lines: Seq<Seq<Cell>>) -> bool {
    &&& lines.len() == t.grid.rows
    &&& forall|r: int| 0 <= r < lines.len() ==> (#[trigger] lines[r]).len() == t.grid.cols
}

/// A blank in the colours of the pen.
pub open spec fn pen_blank(t: TermView) -> Cell {
    Cell { ch: ' ', fg: t.pen.fg, bg: t.pen.bg, attrs: CellAttrs { bits: 0 } }
}

/// A blank in default colours.
pub open spec fn plain_blank() -> Cell {
    Cell { ch: ' ', fg: Color::Default, bg: Color::Default, attrs: CellAttrs { bits: 0 } }
}

proof fn lemma_line_erased(t: TermView, p: Seq<u16>, now: [u8; 8])
    requires
        p.len() <= 32,
    ensures
        after_csi(t, p, 'K', now) == Some(readied(t).line_erased(crate::term::arg(p, 0, 0))),
{
    crate::effects::lemma_public(t, p, 'K', now);
    reveal(TermView::csi_public);
}

/// Erase in Line makes blank, in the pen's colours, the cells of the cursor's row from the cursor
/// on, up to the cursor, or all of them, and changes nothing else.
#[verifier::rlimit(40)]
pub proof fn law_erase_line(t: TermView, mode: u16, now: [u8; 8])
    requires
        sound(t),
        mode <= 2,
    ensures
        after_csi(t, seq![mode], 'K', now) matches Some(s) && {
            let (row, col) = (t.grid.screen.row, t.grid.screen.col);
            let (old_lines, lines) = (t.grid.screen.lines, s.grid.screen.lines);
            &&& only_cells(t, s)
            &&& same_shape(t, lines)
            &&& forall|r: int, c: int|
                0 <= r < t.grid.rows && 0 <= c < t.grid.cols ==> #[trigger] lines[r][c] == if r
                    == row && (mode == 0 && c >= col || mode == 1 && c <= col || mode == 2) {
                    pen_blank(t)
                } else {
                    old_lines[r][c]
                }
        },
        after_csi(t, Seq::empty(), 'K', now) == after_csi(t, seq![0], 'K', now),
{
    reveal(sound);
    lemma_line_erased(t, seq![mode], now);
    lemma_line_erased(t, seq![0], now);
    lemma_line_erased(t, Seq::empty(), now);
    reveal(TermView::line_erased);
    assert(t.grid.screen.lines[t.grid.screen.row].len() == t.grid.cols);
}

proof fn lemma_display_erased(t: TermView, p: Seq<u16>, now: [u8; 8])
    requires
        p.len() <= 32,
    ensures
        after_csi(t, p, 'J', now) == readied(t).display_erased(crate::term::arg(p, 0, 0), now),
{
    crate::effects::lemma_params(p);
    reveal(after_csi);
}

/// Erase in Display makes blank, in the pen's colours, the cells from the cursor on, or those up to
/// the cursor, row after row; cursor, history, margins and modes stay. Rows that are erased whole,
/// but the cursor's, have no time any more.
#[verifier::rlimit(40)]
pub proof fn law_erase_part_of_display(t: TermView, mode: u16, now: [u8; 8])
    requires
        sound(t),
        mode <= 1,
    ensures
        after_csi(t, seq![mode], 'J', now) matches Some(s) && {
            let (row, col) = (t.grid.screen.row, t.grid.screen.col);
            let (old_lines, lines) = (t.grid.screen.lines, s.grid.screen.lines);
            &&& only_rows(t, s)
            &&& s.grid.screen.wrapped == t.grid.screen.wrapped
            &&& s.grid.screen.stamps.len() == t.grid.rows
            &&& forall|r: int|
                0 <= r < t.grid.rows ==> #[trigger] s.grid.screen.stamps[r] == if mode == 0 && r
                    > row || mode == 1 && r < row {
                    crate::clock::unset()
                } else {
                    t.grid.screen.stamps[r]
                }
            &&& same_shape(t, lines)
            &&& forall|r: int, c: int|
                0 <= r < t.grid.rows && 0 <= c < t.grid.cols ==> #[trigger] lines[r][c] == if (mode
                    == 0 && (r > row || r == row && c >= col)) || (mode == 1 && (r < row || r == row
                    && c <= col)) {
                    pen_blank(t)
                } else {
                    old_lines[r][c]
                }
        },
        after_csi(t, Seq::empty(), 'J', now) == after_csi(t, seq![0], 'J', now),
{
    reveal(sound);
    lemma_display_erased(t, seq![mode], now);
    lemma_display_erased(t, seq![0], now);
    lemma_display_erased(t, Seq::empty(), now);
    reveal(TermView::display_erased);
    reveal(GridView::erased_below);
    reveal(GridView::erased_above);
    let g = t.grid;
    assert(g.screen.lines[g.screen.row].len() == g.cols);
}

/// Erase in Display makes every cell of the screen blank, in the pen's colours, with no row going
/// on from the one above; cursor, history, margins and modes stay. On the primary screen one block
/// is left, which starts at the cursor.
#[verifier::rlimit(40)]
pub proof fn law_erase_display(t: TermView, mode: u16, now: [u8; 8])
    requires
        sound(t),
        mode == 2 || mode == 3,
        t.grid.blocks.next_id < u64::MAX,
    ensures
        after_csi(t, seq![mode], 'J', now) matches Some(s) && {
            let lines = s.grid.screen.lines;
            &&& only_rows(t, TermView { grid: GridView { blocks: t.grid.blocks, ..s.grid }, ..s })
            &&& s.grid.screen.stamps.len() == t.grid.rows
            &&& forall|r: int|
                0 <= r < t.grid.rows ==> #[trigger] s.grid.screen.stamps[r] == crate::clock::unset()
            &&& same_shape(t, lines)
            &&& forall|r: int, c: int|
                0 <= r < t.grid.rows && 0 <= c < t.grid.cols ==> #[trigger] lines[r][c]
                    == pen_blank(t)
            &&& forall|r: int| 0 <= r < t.grid.rows ==> !#[trigger] s.grid.screen.wrapped[r]
            &&& t.grid.is_alt ==> s.grid.blocks == t.grid.blocks
            &&& !t.grid.is_alt ==> s.grid.blocks.blocks.len() == 1
                && s.grid.blocks.blocks[0].start_row == t.grid.screen.history.len()
                + t.grid.screen.row && s.grid.blocks.blocks[0].id == t.grid.blocks.next_id
        },
{
    reveal(sound);
    lemma_display_erased(t, seq![mode], now);
    reveal(TermView::display_erased);
    reveal(GridView::erased_all);
}

#[verifier::rlimit(40)]
proof fn lemma_lines_csi(t: TermView, n: u16, now: [u8; 8])
    requires
        n >= 1,
    ensures
        after_csi(t, seq![n], 'L', now) == Some(
            readied(t).with_grid(t.grid.lines_inserted(n as int)),
        ),
        after_csi(t, seq![n], 'M', now) == Some(
            readied(t).with_grid(t.grid.lines_deleted(n as int)),
        ),
        after_csi(t, seq![n], 'S', now) == Some(
            readied(t).with_grid(t.grid.scrolled_up(n as int, now)),
        ),
        after_csi(t, seq![n], 'T', now) == Some(
            readied(t).with_grid(t.grid.scrolled_down(n as int)),
        ),
{
    crate::effects::lemma_public(t, seq![n], 'L', now);
    crate::effects::lemma_public(t, seq![n], 'M', now);
    crate::effects::lemma_public(t, seq![n], 'S', now);
    crate::effects::lemma_public(t, seq![n], 'T', now);
    reveal(TermView::csi_public);
}

/// Insert Line pushes the rows from the cursor's down to the bottom margin down by `n` and leaves
/// empty rows; what leaves at the bottom margin is lost. Below that margin it does nothing. Rows
/// keep their times, and empty ones have none.
#[verifier::rlimit(40)]
pub proof fn law_insert_lines(t: TermView, n: u16, now: [u8; 8])
    requires
        sound(t),
        n >= 1,
    ensures
        after_csi(t, seq![n], 'L', now) matches Some(s) && {
            let (row, bottom) = (t.grid.screen.row, t.grid.screen.bottom);
            let (old_lines, lines) = (t.grid.screen.lines, s.grid.screen.lines);
            &&& only_rows(t, s)
            &&& s.grid.screen.stamps.len() == t.grid.rows
            &&& forall|r: int|
                0 <= r < t.grid.rows ==> #[trigger] s.grid.screen.stamps[r] == if r < row || r > bottom {
                    t.grid.screen.stamps[r]
                } else if r < row + n {
                    crate::clock::unset()
                } else {
                    t.grid.screen.stamps[r - n]
                }
            &&& same_shape(t, lines)
            &&& forall|r: int, c: int|
                0 <= r < t.grid.rows && 0 <= c < t.grid.cols ==> #[trigger] lines[r][c] == if r
                    < row || r > bottom {
                    old_lines[r][c]
                } else if r < row + n {
                    plain_blank()
                } else {
                    old_lines[r - n][c]
                }
        },
{
    reveal(sound);
    lemma_lines_csi(t, n, now);
    reveal(GridView::lines_inserted);
}

/// Delete Line takes the `n` rows from the cursor's on away; the rows below, down to the bottom
/// margin, move up, and empty ones follow. Below that margin it does nothing.
#[verifier::rlimit(40)]
pub proof fn law_delete_lines(t: TermView, n: u16, now: [u8; 8])
    requires
        sound(t),
        n >= 1,
    ensures
        after_csi(t, seq![n], 'M', now) matches Some(s) && {
            let (row, bottom) = (t.grid.screen.row, t.grid.screen.bottom);
            let (old_lines, lines) = (t.grid.screen.lines, s.grid.screen.lines);
            &&& only_rows(t, s)
            &&& s.grid.screen.stamps.len() == t.grid.rows
            &&& forall|r: int|
                0 <= r < t.grid.rows ==> #[trigger] s.grid.screen.stamps[r] == if r < row || r > bottom {
                    t.grid.screen.stamps[r]
                } else if r + n <= bottom {
                    t.grid.screen.stamps[r + n]
                } else {
                    crate::clock::unset()
                }
            &&& same_shape(t, lines)
            &&& forall|r: int, c: int|
                0 <= r < t.grid.rows && 0 <= c < t.grid.cols ==> #[trigger] lines[r][c] == if r
                    < row || r > bottom {
                    old_lines[r][c]
                } else if r + n <= bottom {
                    old_lines[r + n][c]
                } else {
                    plain_blank()
                }
        },
{
    reveal(sound);
    lemma_lines_csi(t, n, now);
    reveal(GridView::lines_deleted);
}

/// Scroll Down moves the rows between the margins down by `n`, with empty rows at the top margin;
/// rows outside stay, and so do the history and the cursor.
#[verifier::rlimit(40)]
pub proof fn law_scroll_down(t: TermView, n: u16, now: [u8; 8])
    requires
        sound(t),
        n >= 1,
    ensures
        after_csi(t, seq![n], 'T', now) matches Some(s) && {
            let (top, bottom) = (t.grid.screen.top, t.grid.screen.bottom);
            let (old_lines, lines) = (t.grid.screen.lines, s.grid.screen.lines);
            &&& only_rows(t, s)
            &&& s.grid.screen.stamps.len() == t.grid.rows
            &&& forall|r: int|
                0 <= r < t.grid.rows ==> #[trigger] s.grid.screen.stamps[r] == if r < top || r > bottom {
                    t.grid.screen.stamps[r]
                } else if r < top + n {
                    crate::clock::unset()
                } else {
                    t.grid.screen.stamps[r - n]
                }
            &&& same_shape(t, lines)
            &&& forall|r: int, c: int|
                0 <= r < t.grid.rows && 0 <= c < t.grid.cols ==> #[trigger] lines[r][c] == if r
                    < top || r > bottom {
                    old_lines[r][c]
                } else if r < top + n {
                    plain_blank()
                } else {
                    old_lines[r - n][c]
                }
        },
{
    reveal(sound);
    lemma_lines_csi(t, n, now);
    reveal(GridView::scrolled_down);
}

/// Scroll Up with margins, or on the alternate screen, moves the rows between the margins up by
/// `n`, with empty rows at the bottom margin; rows outside stay, and so do the history and the
/// cursor.
#[verifier::rlimit(40)]
pub proof fn law_scroll_up_in_region(t: TermView, n: u16, now: [u8; 8])
    requires
        sound(t),
        n >= 1,
        t.grid.is_alt || t.grid.screen.top > 0 || t.grid.screen.bottom < t.grid.rows - 1,
    ensures
        after_csi(t, seq![n], 'S', now) matches Some(s) && {
            let (top, bottom) = (t.grid.screen.top, t.grid.screen.bottom);
            let (old_lines, lines) = (t.grid.screen.lines, s.grid.screen.lines);
            &&& only_rows(t, s)
            &&& s.grid.screen.stamps.len() == t.grid.rows
            &&& forall|r: int|
                0 <= r < t.grid.rows ==> #[trigger] s.grid.screen.stamps[r] == if r < top || r > bottom {
                    t.grid.screen.stamps[r]
                } else if r + n <= bottom {
                    t.grid.screen.stamps[r + n]
                } else {
                    crate::clock::unset()
                }
            &&& same_shape(t, lines)
            &&& forall|r: int, c: int|
                0 <= r < t.grid.rows && 0 <= c < t.grid.cols ==> #[trigger] lines[r][c] == if r
                    < top || r > bottom {
                    old_lines[r][c]
                } else if r + n <= bottom {
                    old_lines[r + n][c]
                } else {
                    plain_blank()
                }
        },
{
    reveal(sound);
    lemma_lines_csi(t, n, now);
    reveal(GridView::scrolled_up);
}

#[verifier::rlimit(40)]
proof fn lemma_chars_csi(t: TermView, n: u16, now: [u8; 8])
    requires
        n >= 1,
    ensures
        after_csi(t, seq![n], '@', now) == Some(
            readied(t).with_grid(t.grid.chars_inserted(n as int)),
        ),
        after_csi(t, seq![n], 'P', now) == Some(
            readied(t).with_grid(t.grid.chars_deleted(n as int)),
        ),
        after_csi(t, seq![n], 'X', now) == Some(
            readied(t).with_grid(t.grid.chars_erased(n as int, pen_blank(t))),
        ),
{
    crate::effects::lemma_public(t, seq![n], '@', now);
    crate::effects::lemma_public(t, seq![n], 'P', now);
    crate::effects::lemma_public(t, seq![n], 'X', now);
    reveal(TermView::csi_public);
}

/// Insert Character pushes the cells from the cursor on to the right by `n` and leaves blanks;
/// Delete Character takes `n` cells from the cursor on away, the rest of the row closes up and
/// blanks follow; Erase Character makes `n` cells from the cursor on blank in the pen's colours.
/// None touches another row or moves the cursor.
#[verifier::rlimit(40)]
pub proof fn law_edit_characters(t: TermView, n: u16, now: [u8; 8])
    requires
        sound(t),
        n >= 1,
    ensures
        ({
            let (row, col, cols) = (t.grid.screen.row, t.grid.screen.col, t.grid.cols);
            let old_lines = t.grid.screen.lines;
            &&& after_csi(t, seq![n], '@', now) matches Some(s) && {
                &&& only_cells(t, s)
                &&& same_shape(t, s.grid.screen.lines)
                &&& forall|r: int, c: int|
                    0 <= r < t.grid.rows && 0 <= c < cols ==> #[trigger] s.grid.screen.lines[r][c]
                        == if r != row || c < col {
                        old_lines[r][c]
                    } else if c < col + n {
                        plain_blank()
                    } else {
                        old_lines[r][c - n]
                    }
            }
            &&& after_csi(t, seq![n], 'P', now) matches Some(s) && {
                &&& only_cells(t, s)
                &&& same_shape(t, s.grid.screen.lines)
                &&& forall|r: int, c: int|
                    0 <= r < t.grid.rows && 0 <= c < cols ==> #[trigger] s.grid.screen.lines[r][c]
                        == if r != row || c < col {
                        old_lines[r][c]
                    } else if c + n < cols {
                        old_lines[r][c + n]
                    } else {
                        plain_blank()
                    }
            }
            &&& after_csi(t, seq![n], 'X', now) matches Some(s) && {
                &&& only_cells(t, s)
                &&& same_shape(t, s.grid.screen.lines)
                &&& forall|r: int, c: int|
                    0 <= r < t.grid.rows && 0 <= c < cols ==> #[trigger] s.grid.screen.lines[r][c]
                        == if r == row && col <= c < col + n {
                        pen_blank(t)
                    } else {
                        old_lines[r][c]
                    }
            }
        }),
{
    reveal(sound);
    lemma_chars_csi(t, n, now);
    reveal(GridView::chars_inserted);
    reveal(GridView::chars_deleted);
    reveal(GridView::chars_erased);
    assert(t.grid.screen.lines[t.grid.screen.row].len() == t.grid.cols);
}

/// The times of rows for the history: those that have none get the one given.
pub open spec fn timed(stamps: Seq<[u8; 8]>, now: [u8; 8]) -> Seq<[u8; 8]> {
    stamps.map_values(
        |ts: [u8; 8]|
            if ts == crate::clock::unset() {
                now
            } else {
                ts
            },
    )
}

#[verifier::rlimit(40)]
proof fn lemma_retired_rows(g: GridView, i: int, end: int, now: [u8; 8])
    requires
        0 <= i <= end <= g.screen.lines.len(),
        g.screen.history.len() + (end - i) <= g.max_history,
        g.screen.stamps.len() == g.screen.lines.len(),
        g.screen.wrapped.len() == g.screen.lines.len(),
        g.screen.history_stamps.len() == g.screen.history.len(),
        g.screen.history_wrapped.len() == g.screen.history.len(),
    ensures
        ({
            let r = g.all_retired(i, end, now);
            &&& r.screen.history == g.screen.history + g.screen.lines.subrange(i, end)
            &&& r.screen.history_wrapped == g.screen.history_wrapped + g.screen.wrapped.subrange(i, end)
            &&& r.screen.history_stamps == g.screen.history_stamps + timed(
                g.screen.stamps.subrange(i, end),
                now,
            )
            &&& r.screen.lines.len() == g.screen.lines.len()
            &&& forall|j: int|
                0 <= j < r.screen.lines.len() ==> #[trigger] r.screen.lines[j] == if i <= j < end {
                    crate::lines::blank_line(g.cols)
                } else {
                    g.screen.lines[j]
                }
            &&& r.blocks == g.blocks
        }),
    decreases end - i,
{
    if i < end {
        let h = g.retired(i, now);
        lemma_retired_rows(h, i + 1, end, now);
        assert(h.screen.history =~= g.screen.history.push(g.screen.lines[i]));
        let r = g.all_retired(i, end, now);
        assert(r.screen.history =~= g.screen.history + g.screen.lines.subrange(i, end)) by {
            assert(h.screen.lines.subrange(i + 1, end) =~= g.screen.lines.subrange(i + 1, end));
            assert(g.screen.lines.subrange(i, end) =~= seq![g.screen.lines[i]]
                + g.screen.lines.subrange(i + 1, end));
        }
        assert(r.screen.history_wrapped =~= g.screen.history_wrapped + g.screen.wrapped.subrange(
            i,
            end,
        )) by {
            assert(h.screen.history_wrapped =~= g.screen.history_wrapped.push(g.screen.wrapped[i]));
            assert(h.screen.wrapped.subrange(i + 1, end) =~= g.screen.wrapped.subrange(i + 1, end));
        }
        assert(r.screen.history_stamps =~= g.screen.history_stamps + timed(
            g.screen.stamps.subrange(i, end),
            now,
        )) by {
            let first = timed(seq![g.screen.stamps[i]], now);
            assert(h.screen.history_stamps =~= g.screen.history_stamps + first);
            assert(h.screen.stamps.subrange(i + 1, end) =~= g.screen.stamps.subrange(i + 1, end));
            assert(timed(g.screen.stamps.subrange(i, end), now) =~= first + timed(
                g.screen.stamps.subrange(i + 1, end),
                now,
            ));
        }
        assert forall|j: int| 0 <= j < r.screen.lines.len() implies #[trigger] r.screen.lines[j]
            == if i <= j < end {
            crate::lines::blank_line(g.cols)
        } else {
            g.screen.lines[j]
        } by {
            assert(r.screen.lines[j] == if i + 1 <= j < end {
                crate::lines::blank_line(g.cols)
            } else {
                h.screen.lines[j]
            });
        }
    } else {
        assert(g.screen.lines.subrange(i, end) =~= Seq::empty());
        assert(g.screen.history + g.screen.lines.subrange(i, end) =~= g.screen.history);
        assert(g.screen.history_wrapped + g.screen.wrapped.subrange(i, end)
            =~= g.screen.history_wrapped);
        assert(g.screen.history_stamps + timed(g.screen.stamps.subrange(i, end), now)
            =~= g.screen.history_stamps);
    }
}

/// Scroll Up of the whole primary screen moves its first `n` rows behind the history, in order, as
/// long as that has room; the others move up, and empty rows follow.
#[verifier::rlimit(40)]
pub proof fn law_scroll_up_into_history(t: TermView, n: u16, now: [u8; 8])
    requires
        sound(t),
        n >= 1,
        !t.grid.is_alt,
        t.grid.screen.top == 0,
        t.grid.screen.bottom == t.grid.rows - 1,
        n <= t.grid.rows,
        t.grid.screen.history.len() + n <= t.grid.max_history,
    ensures
        after_csi(t, seq![n], 'S', now) matches Some(s) && {
            let (old_lines, lines) = (t.grid.screen.lines, s.grid.screen.lines);
            &&& s.grid.screen.history == t.grid.screen.history + old_lines.take(n as int)
            &&& s.grid.screen.history_wrapped == t.grid.screen.history_wrapped
                + t.grid.screen.wrapped.take(n as int)
            &&& s.grid.screen.history_stamps == t.grid.screen.history_stamps + timed(
                t.grid.screen.stamps.take(n as int),
                now,
            )
            &&& same_shape(t, lines)
            &&& forall|r: int, c: int|
                0 <= r < t.grid.rows && 0 <= c < t.grid.cols ==> #[trigger] lines[r][c] == if r + n
                    < t.grid.rows {
                    old_lines[r + n][c]
                } else {
                    plain_blank()
                }
            &&& s.grid.screen.row == t.grid.screen.row
            &&& s.grid.screen.col == t.grid.screen.col
            &&& s.grid.blocks == t.grid.blocks
        },
{
    reveal(sound);
    lemma_lines_csi(t, n, now);
    reveal(GridView::scrolled_up);
    let g = t.grid;
    let bot = g.rows - 1;
    let turned = g.with_screen(g.screen.turned_up(0, bot, n as int));
    lemma_retired_rows(turned, bot - n + 1, bot + 1, now);
    crate::term::law_scroll_keeps_frame(g, n as int, now);
    assert(turned.screen.lines.subrange(bot - n + 1, bot + 1) =~= g.screen.lines.take(n as int));
    assert(turned.screen.wrapped.subrange(bot - n + 1, bot + 1) =~= g.screen.wrapped.take(
        n as int,
    ));
    assert(turned.screen.stamps.subrange(bot - n + 1, bot + 1) =~= g.screen.stamps.take(n as int));
    let h = g.scrolled_up(n as int, now);
    assert forall|r: int| 0 <= r < h.screen.lines.len() implies (#[trigger] h.screen.lines[r]).len()
        == g.cols by {
        if r + n <= bot {
            assert(turned.screen.lines[r] == g.screen.lines[r + n]);
        }
    }
}

} // verus!
