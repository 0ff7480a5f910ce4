//! What holds of the terminal as a whole.

use crate::cell::Cell;
use crate::clock;
use crate::grid::{GridView, ScreenView};
use crate::lines;
use crate::term::TermView;
use crate::vt::{EventView, InputView};
use vstd::prelude::*;

verus! {

/// A terminal whose screen buffers are matrices of the size of its grid, with cursor and margins
/// inside and no top margin below the bottom one, on the screen that is shown and on the one set
/// aside.
#[verifier::opaque]
pub open spec fn sound(t: TermView) -> bool {
    t.wf()
}

proof fn lemma_cursor_settled(g: GridView, row: int, col: int)
    requires
        g.settled(),
        0 <= row < g.rows,
        0 <= col < g.cols,
    ensures
        g.at(row, col).settled(),
{
}

proof fn lemma_put_settled(g: GridView, row: int, col: int, c: Cell)
    requires
        g.settled(),
        0 <= row < g.rows,
        0 <= col < g.cols,
    ensures
        g.put(row, col, c).settled(),
{
    assert(g.screen.lines[row].len() == g.cols);
}

proof fn lemma_part_settled(g: GridView, row: int, from: int, to: int, c: Cell)
    requires
        g.settled(),
        0 <= row < g.rows,
        0 <= from <= to <= g.cols,
    ensures
        g.part_erased(row, from, to, c).settled(),
{
    assert(g.screen.lines[row].len() == g.cols);
}

proof fn lemma_rows_settled(g: GridView, lo: int, hi: int, c: Cell)
    requires
        g.settled(),
        0 <= lo,
        hi <= g.rows,
    ensures
        g.rows_cleared(lo, hi, c).settled(),
{
}

proof fn lemma_retired_settled(g: GridView, i: int, now: [u8; 8])
    requires
        g.settled(),
        0 <= i < g.rows,
    ensures
        g.retired(i, now).settled(),
{
    crate::grid::lemma_retired_wf(g, i, now);
}

proof fn lemma_all_retired_settled(g: GridView, i: int, end: int, now: [u8; 8])
    requires
        g.settled(),
        0 <= i,
        end <= g.rows,
    ensures
        g.all_retired(i, end, now).settled(),
    decreases end - i,
{
    if i < end {
        lemma_retired_settled(g, i, now);
        lemma_all_retired_settled(g.retired(i, now), i + 1, end, now);
    }
}

/// Scrolling keeps the screen buffer in the size of the grid.
pub proof fn law_scroll_settled(g: GridView, n: int, now: [u8; 8])
    requires
        g.settled(),
    ensures
        g.scrolled_up(n, now).settled(),
        g.scrolled_down(n).settled(),
{
    reveal(GridView::scrolled_up);
    reveal(GridView::scrolled_down);
    let top = g.screen.top;
    let bot = g.last_scrolled();
    let k = crate::grid::min(n, bot - top + 1);
    if g.scrolls() && k > 0 {
        let turned = g.with_screen(g.screen.turned_up(top, bot, k));
        assert(turned.settled());
        if g.keeps_history() {
            lemma_all_retired_settled(turned, bot - k + 1, bot + 1, now);
        }
    }
}

proof fn lemma_line_fed_settled(g: GridView, now: [u8; 8])
    requires
        g.settled(),
    ensures
        g.line_fed(now).settled(),
        g.line_fed(now).cols == g.cols,
        g.line_fed(now).rows == g.rows,
        g.line_fed(now).screen.col == g.screen.col,
        g.line_fed(now).auto_wrap == g.auto_wrap,
{
    law_scroll_settled(g, 1, now);
    crate::term::law_scroll_keeps_frame(g, 1, now);
}

proof fn lemma_soft_broken_settled(g: GridView, now: [u8; 8])
    requires
        g.settled(),
    ensures
        g.soft_broken(now).settled(),
        g.soft_broken(now).cols == g.cols,
        g.soft_broken(now).rows == g.rows,
        g.soft_broken(now).screen.col == 0,
        g.soft_broken(now).auto_wrap == g.auto_wrap,
{
    lemma_cursor_settled(g, g.screen.row, 0);
    lemma_line_fed_settled(g.at(g.screen.row, 0), now);
}

proof fn lemma_readied_sound(t: TermView, now: [u8; 8])
    requires
        sound(t),
    ensures
        sound(t.readied(now)),
{
    reveal(sound);
    lemma_soft_broken_settled(t.grid, now);
}

proof fn lemma_narrow_sound(t: TermView, c: char)
    requires
        sound(t),
    ensures
        sound(t.narrow_written(c)),
{
    reveal(sound);
    let s = t.grid.screen;
    lemma_put_settled(t.grid, s.row, s.col, t.pen.printed(c));
    let h = t.grid.put(s.row, s.col, t.pen.printed(c));
    if s.col + 1 < t.grid.cols {
        lemma_cursor_settled(h, s.row, s.col + 1);
    }
}

proof fn lemma_wide_sound(t: TermView, c: char)
    requires
        sound(t),
    ensures
        sound(t.wide_written(c)),
{
    reveal(sound);
    let s = t.grid.screen;
    let head = t.pen.printed_with(c, crate::cell::CellAttrs::WIDE);
    let tail = t.pen.printed_with(' ', crate::cell::CellAttrs::WIDE_TAIL);
    lemma_put_settled(t.grid, s.row, s.col, head);
    let h = t.grid.put(s.row, s.col, head);
    if s.col + 1 < t.grid.cols {
        lemma_put_settled(h, s.row, s.col + 1, tail);
    }
    let w = t.wide_put(c);
    if s.col + 2 < t.grid.cols {
        lemma_cursor_settled(w, s.row, s.col + 2);
    } else {
        lemma_cursor_settled(w, s.row, t.grid.cols - 1);
    }
}

/// A sound terminal prints every character, whatever its width, and stays sound.
pub proof fn law_print_sound(t: TermView, c: char, width: int, now: [u8; 8])
    requires
        sound(t),
    ensures
        sound(t.placed(c, width, now)),
        sound(t.printed(c, width, now)),
{
    lemma_same_grid_sound(t, TermView { in_ground: true, ..t });
    lemma_placed_sound(t, c, width, now);
    lemma_placed_sound(TermView { in_ground: true, ..t }, c, width, now);
}

proof fn lemma_placed_sound(t: TermView, c: char, width: int, now: [u8; 8])
    requires
        sound(t),
    ensures
        sound(t.placed(c, width, now)),
{
    reveal(sound);
    let s = t.readied(now);
    lemma_readied_sound(t, now);
    lemma_narrow_sound(s, c);
    lemma_wide_sound(s, c);
    lemma_soft_broken_settled(s.grid, now);
    lemma_wide_sound(s.wrapped_on(now), c);
}

/// A control character leaves a sound terminal sound.
pub proof fn law_execute_sound(t: TermView, byte: u8, now: [u8; 8])
    requires
        sound(t),
    ensures
        sound(t.executed(byte, now)),
{
    reveal(sound);
    let g = t.grid;
    let s = g.screen;
    lemma_line_fed_settled(g, now);
    if s.col > 0 {
        lemma_cursor_settled(g, s.row, s.col - 1);
    }
    if s.row > 0 {
        lemma_cursor_settled(g, s.row - 1, g.cols - 1);
    }
    lemma_cursor_settled(g, s.row, crate::grid::min((s.col / 8 + 1) * 8, g.cols - 1));
    lemma_cursor_settled(g, s.row, 0);
}

proof fn lemma_alt_settled(g: GridView)
    requires
        g.settled(),
    ensures
        g.in_alt_screen().settled(),
        g.out_of_alt_screen().settled(),
        g.in_alt_screen().cols == g.cols,
        g.out_of_alt_screen().cols == g.cols,
{
}

proof fn lemma_restored_sound(t: TermView)
    requires
        sound(t),
    ensures
        sound(t.cursor_restored()),
{
    reveal(sound);
    match t.grid.saved_cursor {
        Some(c) => {
            lemma_cursor_settled(
                t.grid,
                crate::grid::min(c.row as int, t.grid.rows - 1),
                crate::grid::min(c.col as int, t.grid.cols - 1),
            );
        },
        None => {},
    }
}

proof fn lemma_same_grid_sound(t: TermView, s: TermView)
    requires
        sound(t),
        s.grid == t.grid,
    ensures
        sound(s),
{
    reveal(sound);
}

/// Modes, title and saved cursor have no part in soundness.
proof fn lemma_same_screen_sound(t: TermView, g: GridView)
    requires
        sound(t),
        g.screen == t.grid.screen,
        g.saved == t.grid.saved,
        g.rows == t.grid.rows,
        g.cols == t.grid.cols,
        g.max_history == t.grid.max_history,
        g.blocks == t.grid.blocks,
        g.offset == t.grid.offset,
    ensures
        sound(t.with_grid(g)),
{
    reveal(sound);
}

proof fn lemma_at_sound(t: TermView, row: int, col: int)
    requires
        sound(t),
        0 <= row < t.grid.rows,
        0 <= col < t.grid.cols,
    ensures
        sound(t.moved(row, col)),
{
    reveal(sound);
    lemma_cursor_settled(t.grid, row, col);
}

proof fn lemma_alt_sound(t: TermView)
    requires
        sound(t),
    ensures
        sound(t.with_grid(t.grid.in_alt_screen())),
        sound(t.with_grid(t.grid.out_of_alt_screen())),
{
    reveal(sound);
    lemma_alt_settled(t.grid);
}

proof fn lemma_saved_sound(t: TermView)
    requires
        sound(t),
    ensures
        sound(t.cursor_saved()),
{
    lemma_same_screen_sound(t, t.cursor_saved().grid);
}

proof fn lemma_mode_set_sound(t: TermView, mode: u16)
    requires
        sound(t),
    ensures
        sound(t.mode_set(mode)),
{
    reveal(TermView::mode_set);
    let g = t.grid;
    if mode == 6 {
        assert(0 <= g.screen.top < g.rows && 0 < g.cols) by {
            reveal(sound);
        }
        lemma_at_sound(t, g.screen.top, 0);
        lemma_same_screen_sound(t.moved(g.screen.top, 0), t.mode_set(mode).grid);
    } else if mode == 47 || mode == 1047 {
        lemma_alt_sound(t);
    } else if mode == 1048 {
        lemma_saved_sound(t);
    } else if mode == 1049 {
        lemma_saved_sound(t);
        lemma_alt_sound(t.cursor_saved());
    } else {
        lemma_same_screen_sound(t, t.mode_set(mode).grid);
        lemma_same_grid_sound(t.with_grid(t.mode_set(mode).grid), t.mode_set(mode));
    }
}

proof fn lemma_mode_reset_sound(t: TermView, mode: u16)
    requires
        sound(t),
    ensures
        sound(t.mode_reset(mode)),
{
    reveal(TermView::mode_reset);
    let g = t.grid;
    if mode == 6 {
        assert(0 < g.rows && 0 < g.cols) by {
            reveal(sound);
        }
        lemma_at_sound(t, 0, 0);
        lemma_same_screen_sound(t.moved(0, 0), t.mode_reset(mode).grid);
    } else if mode == 47 || mode == 1047 {
        lemma_alt_sound(t);
    } else if mode == 1048 {
        lemma_restored_sound(t);
    } else if mode == 1049 {
        lemma_alt_sound(t);
        lemma_restored_sound(t.with_grid(g.out_of_alt_screen()));
    } else {
        lemma_same_screen_sound(t, t.mode_reset(mode).grid);
        lemma_same_grid_sound(t.with_grid(t.mode_reset(mode).grid), t.mode_reset(mode));
    }
}

proof fn lemma_modes_sound(t: TermView, p: Seq<u16>, i: int, on: bool)
    requires
        sound(t),
        0 <= i,
    ensures
        sound(t.modes_changed(p, i, on)),
    decreases p.len() - i,
{
    if i < p.len() {
        lemma_mode_set_sound(t, p[i]);
        lemma_mode_reset_sound(t, p[i]);
        if on {
            lemma_modes_sound(t.mode_set(p[i]), p, i + 1, on);
        } else {
            lemma_modes_sound(t.mode_reset(p[i]), p, i + 1, on);
        }
    }
}

proof fn lemma_display_sound(t: TermView, mode: u16, now: [u8; 8])
    requires
        sound(t),
        t.grid.blocks.next_id < u64::MAX,
    ensures
        t.display_erased(mode, now) matches Some(s) && sound(s),
{
    reveal(GridView::erased_below);
    reveal(GridView::erased_above);
    reveal(GridView::erased_all);
    reveal(TermView::display_erased);
    reveal(sound);
    let g = t.grid;
    let c = t.pen.erased_cell();
    let row = g.screen.row;
    let col = g.screen.col;
    assert(g.screen.lines[row].len() == g.cols);
    if mode == 0 {
        lemma_part_settled(g, row, col, g.cols, c);
        lemma_rows_settled(g.erased_right(c), row + 1, g.rows, c);
    } else if mode == 1 {
        lemma_rows_settled(g, 0, row, c);
        let h = g.rows_cleared(0, row, c);
        lemma_part_settled(h, row, 0, col + 1, c);
    } else if mode == 2 || mode == 3 {
        lemma_rows_settled(g, 0, g.rows, c);
        let h = g.rows_cleared(0, g.rows, c);
        let clean = h.with_screen(h.screen.unwrapped(0, g.rows));
        assert(clean.settled());
    }
}

proof fn lemma_line_sound(t: TermView, mode: u16)
    requires
        sound(t),
    ensures
        sound(t.line_erased(mode)),
{
    reveal(TermView::line_erased);
    reveal(sound);
    let g = t.grid;
    let c = t.pen.erased_cell();
    let row = g.screen.row;
    let col = g.screen.col;
    assert(g.screen.lines[row].len() == g.cols);
    lemma_part_settled(g, row, col, g.cols, c);
    lemma_part_settled(g, row, 0, col + 1, c);
    lemma_part_settled(g, row, 0, g.cols, c);
}

proof fn lemma_lines_moved_sound(t: TermView, n: int)
    requires
        sound(t),
        n >= 1,
    ensures
        sound(t.with_grid(t.grid.lines_inserted(n))),
        sound(t.with_grid(t.grid.lines_deleted(n))),
{
    reveal(GridView::lines_inserted);
    reveal(GridView::lines_deleted);
    reveal(sound);
}

proof fn lemma_chars_moved_sound(t: TermView, n: int, c: Cell)
    requires
        sound(t),
        n >= 1,
    ensures
        sound(t.with_grid(t.grid.chars_inserted(n))),
        sound(t.with_grid(t.grid.chars_deleted(n))),
        sound(t.with_grid(t.grid.chars_erased(n, c))),
{
    reveal(GridView::chars_inserted);
    reveal(GridView::chars_deleted);
    reveal(GridView::chars_erased);
    reveal(sound);
    let g = t.grid;
    assert(g.screen.lines[g.screen.row].len() == g.cols);
    lemma_part_settled(
        g,
        g.screen.row,
        g.screen.col,
        g.screen.col + crate::grid::min(n, g.cols - g.screen.col),
        c,
    );
}

proof fn lemma_moved_sound(t: TermView, p: Seq<u16>, action: char)
    requires
        sound(t),
    ensures
        sound(t.cursor_moved(p, action)),
{
    reveal(sound);
    let (row, col) = t.cursor_target(p, action);
    lemma_cursor_settled(t.grid, row, col);
}

proof fn lemma_margins_sound(t: TermView, p: Seq<u16>)
    requires
        sound(t),
    ensures
        sound(t.margins_set(p)),
{
    reveal(sound);
}

/// A sound terminal carries out every control sequence and stays sound, as long as there is a
/// block ID left.
pub proof fn law_csi_sound(
    t: TermView,
    params: Seq<Seq<u16>>,
    intermediates: Seq<u8>,
    action: char,
    now: [u8; 8],
)
    requires
        sound(t),
        t.grid.blocks.next_id < u64::MAX,
    ensures
        t.csi(params, intermediates, action, now) matches Some(s) && sound(s),
{
    let p = crate::term::first_params(params);
    let s = TermView { in_ground: true, pending_wrap: false, ..t };
    let private = intermediates.len() > 0 && intermediates[0] == 63;
    lemma_same_grid_sound(t, s);
    if action == 'J' {
        lemma_display_sound(s, crate::term::arg(p, 0, 0), now);
    } else if private {
        lemma_modes_sound(s, p, 0, true);
        lemma_modes_sound(s, p, 0, false);
    } else {
        lemma_public_sound(s, p, intermediates, action, now);
    }
}

proof fn lemma_scrolled_sound(t: TermView, n: int, now: [u8; 8])
    requires
        sound(t),
    ensures
        sound(t.with_grid(t.grid.scrolled_up(n, now))),
        sound(t.with_grid(t.grid.scrolled_down(n))),
{
    reveal(sound);
    law_scroll_settled(t.grid, n, now);
    crate::term::law_scroll_keeps_frame(t.grid, n, now);
}

#[verifier::spinoff_prover]
#[verifier::rlimit(60)]
proof fn lemma_public_sound(
    s: TermView,
    p: Seq<u16>,
    intermediates: Seq<u8>,
    action: char,
    now: [u8; 8],
)
    requires
        sound(s),
    ensures
        sound(s.csi_public(p, intermediates, action, now)),
{
    reveal(TermView::csi_public);
    let n = crate::term::count(p, 0);
    match action {
        'K' => lemma_line_sound(s, crate::term::arg(p, 0, 0)),
        'L' | 'M' => lemma_lines_moved_sound(s, n),
        'S' | 'T' => lemma_scrolled_sound(s, n, now),
        '@' | 'P' | 'X' => lemma_chars_moved_sound(s, n, s.pen.erased_cell()),
        'r' => lemma_margins_sound(s, p),
        's' => lemma_saved_sound(s),
        'u' => lemma_restored_sound(s),
        'm' => lemma_same_grid_sound(s, TermView { pen: s.pen.after(p), ..s }),
        'n' => lemma_same_grid_sound(s, s.status_reported(crate::term::arg(p, 0, 0))),
        'c' => lemma_same_grid_sound(s, s.attributes_reported(crate::term::arg(p, 0, 0))),
        'q' => lemma_same_screen_sound(
            s,
            GridView { style: crate::term::style_of(crate::term::arg(p, 0, 0)), ..s.grid },
        ),
        _ => lemma_moved_sound(s, p, action),
    }
}

/// An escape sequence leaves a sound terminal sound.
pub proof fn law_esc_sound(t: TermView, intermediates: Seq<u8>, byte: u8, now: [u8; 8])
    requires
        sound(t),
    ensures
        sound(t.esc(intermediates, byte, now)),
{
    reveal(sound);
    let g = t.grid;
    law_scroll_settled(g, 1, now);
    crate::term::law_scroll_keeps_frame(g, 1, now);
    lemma_line_fed_settled(g, now);
    lemma_cursor_settled(g, g.screen.row, 0);
    lemma_line_fed_settled(g.at(g.screen.row, 0), now);
    lemma_restored_sound(TermView { in_ground: true, pending_wrap: false, ..t });
    if g.screen.row > 0 {
        lemma_cursor_settled(g, g.screen.row - 1, g.screen.col);
    }
}

/// A terminal with other blocks is sound as long as they are well-formed.
proof fn lemma_blocks_sound(t: TermView, b: crate::blocks::BlocksView)
    requires
        sound(t),
        b.wf(),
    ensures
        sound(t.with_blocks(b)),
{
    reveal(sound);
}

proof fn lemma_started_wf(b: crate::blocks::BlocksView, row: int, now: [u8; 8])
    requires
        b.wf(),
        b.next_id < u64::MAX,
    ensures
        b.has_room(crate::blocks::BlockTrigger::Osc133A, row),
        b.started(crate::blocks::BlockTrigger::Osc133A, row, now).wf(),
{
}

proof fn lemma_marks_wf(b: crate::blocks::BlocksView, col: int, code: Option<i32>)
    requires
        b.wf(),
    ensures
        b.executing(col).wf(),
        b.completed(code).wf(),
{
}

proof fn lemma_marked_sound(t: TermView, params: Seq<Seq<u8>>, now: [u8; 8])
    requires
        sound(t),
        t.grid.blocks.next_id < u64::MAX,
    ensures
        t.marked(params, now) matches Some(s) && sound(s),
{
    let b = t.grid.blocks;
    let row = t.grid.cursor_abs();
    let col = t.grid.screen.col;
    assert(b.wf()) by {
        reveal(sound);
    }
    lemma_started_wf(b, row, now);
    lemma_marks_wf(b, col, crate::osc::exit_code(params));
    lemma_blocks_sound(t, b.started(crate::blocks::BlockTrigger::Osc133A, row, now));
    lemma_blocks_sound(t, b.executing(col));
    lemma_blocks_sound(t, b.completed(crate::osc::exit_code(params)));
}

/// A sound terminal carries out every operating system command and stays sound, as long as
/// there is a block ID left.
pub proof fn law_osc_sound(t: TermView, params: Seq<Seq<u8>>, bell_terminated: bool, now: [u8; 8])
    requires
        sound(t),
        t.grid.blocks.next_id < u64::MAX,
    ensures
        t.osc(params, bell_terminated, now) matches Some(s) && sound(s),
{
    let s = TermView { in_ground: t.in_ground || bell_terminated, ..t };
    lemma_same_grid_sound(t, s);
    lemma_marked_sound(s, params, now);
    lemma_same_screen_sound(
        s,
        GridView { title: vstd::utf8::decode_utf8(params[1]), ..s.grid },
    );
}

/// A sound terminal carries out whatever the host sends and stays sound, as long as there is a
/// block ID left.
pub proof fn law_event_sound(t: TermView, e: EventView, now: [u8; 8])
    requires
        sound(t),
        t.grid.blocks.next_id < u64::MAX,
    ensures
        t.performed(e, now) matches Some(s) && sound(s),
{
    match e {
        EventView::Print(c) => law_print_sound(t, c, crate::width::printed_width(c), now),
        EventView::Execute(b) => law_execute_sound(t, b, now),
        EventView::Csi(params, intermediates, _, action) => law_csi_sound(
            t,
            params,
            intermediates,
            action,
            now,
        ),
        EventView::Esc(intermediates, _, byte) => law_esc_sound(t, intermediates, byte, now),
        EventView::Osc(params, bell) => law_osc_sound(t, params, bell, now),
        _ => lemma_same_grid_sound(t, t.performed(e, now).unwrap()),
    }
}

/// A block ID is left before each of the events.
pub open spec fn ids_last(t: TermView, events: Seq<EventView>, now: [u8; 8]) -> bool
    decreases events.len(),
{
    events.len() > 0 ==> {
        &&& t.grid.blocks.next_id < u64::MAX
        &&& t.performed(events[0], now) matches Some(s) ==> ids_last(s, events.skip(1), now)
    }
}

/// A block ID is left before each of the events that the bytes amount to.
pub open spec fn input_ids_last(s: InputView, data: Seq<u8>, now: [u8; 8]) -> bool
    decreases data.len(),
{
    data.len() > 0 ==> {
        &&& ids_last(
            TermView { in_ground: false, ..s.term },
            crate::vt::vte_events(s.fed, data[0]),
            now,
        )
        &&& s.after_byte(data[0], now) matches Some(r) ==> input_ids_last(r, data.skip(1), now)
    }
}

/// A sound terminal carries out any events, one after the other, and stays sound, as long as
/// there is a block ID left.
pub proof fn law_events_sound(t: TermView, events: Seq<EventView>, now: [u8; 8])
    requires
        sound(t),
        ids_last(t, events, now),
    ensures
        t.performed_all(events, now) matches Some(s) && sound(s),
    decreases events.len(),
{
    if events.len() > 0 {
        law_event_sound(t, events[0], now);
        law_events_sound(t.performed(events[0], now).unwrap(), events.skip(1), now);
    }
}

/// A new terminal is sound.
pub proof fn law_fresh_sound(cols: int, rows: int)
    requires
        0 < cols <= crate::grid::size_limit(),
        0 < rows <= crate::grid::size_limit(),
    ensures
        sound(TermView::fresh(cols, rows)),
{
    reveal(sound);
}

/// A sound terminal takes whatever bytes the host sends, never fails, and stays sound, as long as
/// there is a block ID left: its cursor and margins stay inside, and every row keeps its width.
pub proof fn law_input_sound(s: InputView, data: Seq<u8>, now: [u8; 8])
    requires
        sound(s.term),
        input_ids_last(s, data, now),
    ensures
        s.after(data, now) matches Some(r) && sound(r.term),
    decreases data.len(),
{
    if data.len() > 0 {
        reveal(InputView::after_byte);
        let b = data[0];
        if s.term.in_ground && crate::vt::printable(b) {
            law_print_sound(s.term, b as char, 1, now);
        } else {
            let t = TermView { in_ground: false, ..s.term };
            lemma_same_grid_sound(s.term, t);
            law_events_sound(t, crate::vt::vte_events(s.fed, b), now);
        }
        law_input_sound(s.after_byte(b, now).unwrap(), data.skip(1), now);
    }
}

/// Resizing leaves the terminal sound, whatever screen is shown.
pub proof fn law_resize_sound(t: TermView, cols: int, rows: int)
    requires
        sound(t),
        1 <= cols <= crate::grid::size_limit(),
        1 <= rows <= crate::grid::size_limit(),
    ensures
        sound(t.with_grid(t.grid.resized(cols, rows))),
{
    reveal(sound);
    crate::resize::lemma_resized_wf(t.grid, cols, rows);
}

/// Leaving the alternate screen brings back the primary one as it was, whatever happened in
/// between to the rest of the terminal, as long as the size and the screen set aside stayed.
pub proof fn law_alt_screen_keeps_primary(g: GridView, later: GridView)
    requires
        g.settled(),
        !g.is_alt,
        later.is_alt,
        later.saved == g.in_alt_screen().saved,
        later.rows == g.rows,
        later.cols == g.cols,
    ensures
        later.out_of_alt_screen().screen == g.screen,
        !later.out_of_alt_screen().is_alt,
        later.out_of_alt_screen() == (GridView {
            screen: g.screen,
            saved: None,
            is_alt: false,
            ..later
        }),
        g.in_alt_screen().is_alt,
        g.in_alt_screen().screen == ScreenView::blank(g.rows, g.cols),
{
}

/// A resize while the alternate screen is shown reaches the primary one: leaving comes back to
/// the primary screen as if it had been resized itself.
pub proof fn law_resize_reaches_primary(g: GridView, shown: ScreenView, cols: int, rows: int)
    requires
        g.settled(),
        !g.is_alt,
        0 <= cols <= crate::grid::size_limit(),
        0 <= rows <= crate::grid::size_limit(),
    ensures
        ({
            let alt = g.in_alt_screen().with_screen(shown);
            &&& alt.resized(cols, rows).out_of_alt_screen().screen == g.resized(cols, rows).screen
            &&& alt.resized(cols, rows).out_of_alt_screen().blocks == g.resized(cols, rows).blocks
        }),
{
    crate::resize::lemma_reflowed_fits(g.screen, cols, rows, g.max_history, g.batch);
}

/// Restoring brings the cursor and the pen back to where they were saved, from any later state
/// of the same size that still has the saved cursor.
pub proof fn law_cursor_comes_back(t: TermView, later: TermView)
    requires
        sound(t),
        later.grid.saved_cursor == t.cursor_saved().grid.saved_cursor,
        later.grid.rows == t.grid.rows,
        later.grid.cols == t.grid.cols,
    ensures
        later.cursor_restored() == (TermView {
            grid: later.grid.at(t.grid.screen.row, t.grid.screen.col),
            pen: t.pen,
            ..later
        }),
{
    reveal(sound);
}

/// A full-screen scroll of a terminal whose history has room moves the top line to the end of
/// the history and adds a blank line at the bottom: no line is lost and none changes place.
pub proof fn law_scroll_keeps_lines(g: GridView, now: [u8; 8])
    requires
        g.settled(),
        g.keeps_history(),
        g.screen.history.len() < g.max_history,
    ensures
        ({
            let h = g.scrolled_up(1, now);
            &&& h.screen.history == g.screen.history.push(g.screen.lines[0])
            &&& h.screen.lines == g.screen.lines.skip(1).push(lines::blank_line(g.cols))
            &&& h.screen.history + h.screen.lines == (g.screen.history + g.screen.lines).push(
                lines::blank_line(g.cols),
            )
            &&& h.blocks == g.blocks
        }),
{
    reveal(GridView::scrolled_up);
    let bot = g.rows - 1;
    let turned = g.with_screen(g.screen.turned_up(0, bot, 1));
    let h = g.scrolled_up(1, now);
    assert(turned.all_retired(bot + 1, bot + 1, now) == turned);
    assert(h == turned.retired(bot, now).all_retired(bot + 1, bot + 1, now));
    assert(h == turned.retired(bot, now));
    assert(turned.screen.lines[bot] == g.screen.lines[0]);
    assert(g.screen.history.skip(0) =~= g.screen.history);
    assert(h.screen.lines =~= g.screen.lines.skip(1).push(lines::blank_line(g.cols)));
    assert(h.screen.history + h.screen.lines =~= (g.screen.history + g.screen.lines).push(
        lines::blank_line(g.cols),
    ));
}

/// A history that is full stays as long as it is: the oldest line goes as a new one comes, and
/// the blocks move up by the row that went.
pub proof fn law_full_history_slides(g: GridView, now: [u8; 8])
    requires
        g.settled(),
        g.keeps_history(),
        g.screen.history.len() >= g.max_history,
        g.screen.history.len() > 0,
    ensures
        ({
            let h = g.scrolled_up(1, now);
            &&& h.screen.history == g.screen.history.skip(1).push(g.screen.lines[0])
            &&& h.screen.history.len() == g.screen.history.len()
            &&& h.blocks == g.blocks.evicted(1)
        }),
{
    reveal(GridView::scrolled_up);
    let bot = g.rows - 1;
    let turned = g.with_screen(g.screen.turned_up(0, bot, 1));
    let h = g.scrolled_up(1, now);
    assert(h == turned.retired(bot, now).all_retired(bot + 1, bot + 1, now));
    assert(h == turned.retired(bot, now));
    assert(turned.screen.lines[bot] == g.screen.lines[0]);
}

/// A row that has been touched in a batch carries a timestamp.
pub proof fn law_touched_row_is_stamped(g: GridView, row: int)
    requires
        g.wf(),
        0 <= row < g.screen.lines.len(),
        clock::is_time(g.batch),
    ensures
        g.with_screen(g.screen.touched(row, g.batch)).stamp_of(g.screen.history.len() + row)
            is Some,
{
    clock::law_time_is_set(g.batch);
}

/// A row is never both a continuation and a phantom, and one of the two where its wrap flag is
/// set.
pub proof fn law_wrap_flag_splits(s: ScreenView, abs: int)
    ensures
        !(s.continues(abs) && s.phantom(abs)),
        s.wrap_flag(abs) == (s.continues(abs) || s.phantom(abs)),
{
}

/// Printing a run of ASCII in one go is printing its characters one by one, given that the
/// width tables give each of them one column.
pub proof fn law_run_is_prints(t: TermView, bytes: Seq<u8>, now: [u8; 8])
    requires
        t.in_ground,
        forall|i: int|
            0 <= i < bytes.len() ==> crate::width::printed_width(
                #[trigger] bytes[i] as char,
            ) == 1,
    ensures
        t.performed_all(bytes.map_values(|b: u8| EventView::Print(b as char)), now) == Some(
            t.run_placed(bytes, now),
        ),
    decreases bytes.len(),
{
    let prints = bytes.map_values(|b: u8| EventView::Print(b as char));
    if bytes.len() > 0 {
        assert(prints[0] == EventView::Print(bytes[0] as char));
        assert(prints.skip(1) =~= bytes.skip(1).map_values(|b: u8| EventView::Print(b as char)));
        assert(TermView { in_ground: true, ..t } == t);
        assert(crate::width::printed_width(bytes[0] as char) == 1);
        law_run_is_prints(t.placed(bytes[0] as char, 1, now), bytes.skip(1), now);
    }
}

/// A run of characters that fits on the line is read back from it: each cell holds its character
/// in the pen's colours, every other cell is as it was, and the cursor stands behind the run, or
/// in the last column.
pub proof fn law_run_reads_back(t: TermView, bytes: Seq<u8>, now: [u8; 8])
    requires
        sound(t),
        !t.pending_wrap,
        t.grid.screen.col + bytes.len() <= t.grid.cols,
    ensures
        ({
            let s = t.run_placed(bytes, now);
            let (row, col) = (t.grid.screen.row, t.grid.screen.col);
            let (old_lines, lines) = (t.grid.screen.lines, s.grid.screen.lines);
            &&& lines.len() == old_lines.len()
            &&& forall|r: int|
                0 <= r < lines.len() ==> (#[trigger] lines[r]).len() == old_lines[r].len()
            &&& forall|r: int, c: int|
                0 <= r < lines.len() && 0 <= c < lines[r].len() ==> #[trigger] lines[r][c] == if r
                    == row && col <= c < col + bytes.len() {
                    t.pen.printed(bytes[c - col] as char)
                } else {
                    old_lines[r][c]
                }
            &&& s.grid.screen.row == row
            &&& s.grid.screen.col == crate::grid::min(col + bytes.len(), t.grid.cols - 1)
        }),
    decreases bytes.len(),
{
    reveal(sound);
    if bytes.len() > 0 {
        let (row, col) = (t.grid.screen.row, t.grid.screen.col);
        let old_lines = t.grid.screen.lines;
        law_print_sound(t, bytes[0] as char, 1, now);
        assert(old_lines[row].len() == t.grid.cols);
        let s = t.placed(bytes[0] as char, 1, now);
        let first = old_lines[row].update(col, t.pen.printed(bytes[0] as char));
        assert(s.grid.screen.lines =~= old_lines.update(row, first));
        assert(s.pen == t.pen);
        if bytes.len() > 1 {
            law_run_reads_back(s, bytes.skip(1), now);
            let end = s.run_placed(bytes.skip(1), now);
            let lines = end.grid.screen.lines;
            assert forall|r: int, c: int|
                0 <= r < lines.len() && 0 <= c < lines[r].len() implies #[trigger] lines[r][c] == if r
                == row && col <= c < col + bytes.len() {
                t.pen.printed(bytes[c - col] as char)
            } else {
                old_lines[r][c]
            } by {
                assert(lines[r].len() == s.grid.screen.lines[r].len());
                if r == row && col < c < col + bytes.len() {
                    assert(bytes.skip(1)[c - col - 1] == bytes[c - col]);
                }
            }
        } else {
            assert(bytes.skip(1) =~= Seq::empty());
            assert(t.run_placed(bytes, now) == s);
        }
    }
}

/// The grids differ at most in what the screen that is shown holds and in their blocks.
pub open spec fn same_but_screen(g: GridView, h: GridView) -> bool {
    h == GridView { screen: h.screen, blocks: h.blocks, ..g }
}

proof fn lemma_retired_rest(g: GridView, i: int, end: int, now: [u8; 8])
    ensures
        same_but_screen(g, g.all_retired(i, end, now)),
    decreases end - i,
{
    if i < end {
        lemma_retired_rest(g.retired(i, now), i + 1, end, now);
    }
}

proof fn lemma_scrolled_rest(g: GridView, n: int, now: [u8; 8])
    ensures
        same_but_screen(g, g.scrolled_up(n, now)),
        same_but_screen(g, g.scrolled_down(n)),
{
    reveal(GridView::scrolled_up);
    reveal(GridView::scrolled_down);
    let top = g.screen.top;
    let bot = g.last_scrolled();
    let k = crate::grid::min(n, bot - top + 1);
    lemma_retired_rest(
        g.with_screen(g.screen.turned_up(top, bot, k)),
        bot - k + 1,
        bot + 1,
        now,
    );
}

proof fn lemma_fed_rest(g: GridView, now: [u8; 8])
    ensures
        same_but_screen(g, g.line_fed(now)),
        same_but_screen(g, g.soft_broken(now)),
        same_but_screen(g, g.reverse_indexed()),
{
    lemma_scrolled_rest(g, 1, now);
    lemma_scrolled_rest(g.at(g.screen.row, 0), 1, now);
}

proof fn lemma_placed_rest(t: TermView, c: char, width: int, now: [u8; 8])
    ensures
        same_but_screen(t.grid, t.placed(c, width, now).grid),
{
    lemma_fed_rest(t.grid, now);
    let s = t.readied(now);
    assert(same_but_screen(t.grid, s.grid));
    lemma_fed_rest(s.grid, now);
}

proof fn lemma_executed_rest(t: TermView, byte: u8, now: [u8; 8])
    ensures
        same_but_screen(t.grid, t.executed(byte, now).grid),
{
    lemma_fed_rest(t.grid, now);
}

proof fn lemma_display_rest(t: TermView, mode: u16, now: [u8; 8])
    ensures
        t.display_erased(mode, now) matches Some(s) ==> same_but_screen(t.grid, s.grid),
{
    reveal(TermView::display_erased);
    reveal(GridView::erased_below);
    reveal(GridView::erased_above);
    reveal(GridView::erased_all);
}

proof fn lemma_edited_rest(g: GridView, n: int, c: Cell)
    ensures
        same_but_screen(g, g.lines_inserted(n)),
        same_but_screen(g, g.lines_deleted(n)),
        same_but_screen(g, g.chars_inserted(n)),
        same_but_screen(g, g.chars_deleted(n)),
        same_but_screen(g, g.chars_erased(n, c)),
{
    reveal(GridView::lines_inserted);
    reveal(GridView::lines_deleted);
    reveal(GridView::chars_inserted);
    reveal(GridView::chars_deleted);
    reveal(GridView::chars_erased);
}

/// The grids have the same size, show the same of the two screens and have the same screen set
/// aside.
pub open spec fn same_aside(g: GridView, h: GridView) -> bool {
    h.rows == g.rows && h.cols == g.cols && h.is_alt == g.is_alt && h.saved == g.saved
}

/// The grids have the same size and the same saved cursor.
pub open spec fn same_saved_cursor(g: GridView, h: GridView) -> bool {
    h.rows == g.rows && h.cols == g.cols && h.saved_cursor == g.saved_cursor
}

/// The event makes the terminal leave the alternate screen: by a private mode, or by a full reset.
pub open spec fn leaves_alt_screen(e: EventView) -> bool {
    match e {
        EventView::Csi(params, intermediates, _, action) => {
            &&& action == 'l'
            &&& intermediates.len() > 0 && intermediates[0] == 63
            &&& has_alt_mode(crate::term::first_params(params))
        },
        EventView::Esc(intermediates, _, byte) => intermediates.len() == 0 && byte == 99,
        _ => false,
    }
}

/// One of the private modes shows the alternate screen.
pub open spec fn has_alt_mode(p: Seq<u16>) -> bool {
    exists|i: int| 0 <= i < p.len() && shows_alt_screen(#[trigger] p[i])
}

/// One of the private modes saves the cursor.
pub open spec fn has_saving_mode(p: Seq<u16>) -> bool {
    exists|i: int| 0 <= i < p.len() && mode_saves_cursor(#[trigger] p[i])
}

/// The private mode shows the alternate screen.
pub open spec fn shows_alt_screen(mode: u16) -> bool {
    mode == 47 || mode == 1047 || mode == 1049
}

/// The event saves the cursor, or forgets it by a full reset.
pub open spec fn saves_cursor(e: EventView) -> bool {
    match e {
        EventView::Csi(params, intermediates, _, action) => {
            let private = intermediates.len() > 0 && intermediates[0] == 63;
            ||| action == 's' && !private
            ||| action == 'h' && private && has_saving_mode(crate::term::first_params(params))
        },
        EventView::Esc(intermediates, _, byte) => intermediates.len() == 0 && (byte == 55 || byte
            == 99),
        _ => false,
    }
}

/// The private mode saves the cursor.
pub open spec fn mode_saves_cursor(mode: u16) -> bool {
    mode == 1048 || mode == 1049
}

/// The grids agree in size and in what is saved.
#[verifier::opaque]
spec fn same_saved(g: GridView, h: GridView) -> bool {
    same_aside(g, h) && same_saved_cursor(g, h)
}

proof fn lemma_rest_saved(g: GridView, h: GridView)
    requires
        same_but_screen(g, h),
    ensures
        same_saved(g, h),
{
    reveal(same_saved);
}

proof fn lemma_line_erased_rest(t: TermView, mode: u16)
    ensures
        same_saved(t.grid, t.line_erased(mode).grid),
{
    reveal(TermView::line_erased);
    reveal(same_saved);
}

proof fn lemma_restored_rest(t: TermView, mode: u16)
    ensures
        same_saved(t.grid, t.cursor_restored().grid),
        same_aside(t.grid, t.cursor_saved().grid),
        same_saved(t.grid, t.status_reported(mode).grid),
        same_saved(t.grid, t.attributes_reported(mode).grid),
        same_saved(t.grid, t.grid),
{
    reveal(same_saved);
}

proof fn lemma_moved_rest(t: TermView, p: Seq<u16>, action: char, style: crate::cell::CursorStyle)
    ensures
        same_saved(t.grid, t.cursor_moved(p, action).grid),
        same_saved(t.grid, t.margins_set(p).grid),
        same_saved(t.grid, GridView { style, ..t.grid }),
{
    reveal(same_saved);
}

#[verifier::spinoff_prover]
#[verifier::rlimit(60)]
proof fn lemma_public_saved(
    t: TermView,
    p: Seq<u16>,
    intermediates: Seq<u8>,
    action: char,
    now: [u8; 8],
)
    requires
        action != 's',
    ensures
        same_saved(t.grid, t.csi_public(p, intermediates, action, now).grid),
{
    reveal(TermView::csi_public);
    let n = crate::term::count(p, 0);
    let a = crate::term::arg(p, 0, 0);
    let c = t.pen.erased_cell();
    let g = t.grid;
    match action {
        'K' => lemma_line_erased_rest(t, a),
        'L' => {
            lemma_edited_rest(g, n, c);
            lemma_rest_saved(g, g.lines_inserted(n));
        },
        'M' => {
            lemma_edited_rest(g, n, c);
            lemma_rest_saved(g, g.lines_deleted(n));
        },
        'S' => {
            lemma_scrolled_rest(g, n, now);
            lemma_rest_saved(g, g.scrolled_up(n, now));
        },
        'T' => {
            lemma_scrolled_rest(g, n, now);
            lemma_rest_saved(g, g.scrolled_down(n));
        },
        '@' => {
            lemma_edited_rest(g, n, c);
            lemma_rest_saved(g, g.chars_inserted(n));
        },
        'P' => {
            lemma_edited_rest(g, n, c);
            lemma_rest_saved(g, g.chars_deleted(n));
        },
        'X' => {
            lemma_edited_rest(g, n, c);
            lemma_rest_saved(g, g.chars_erased(n, c));
        },
        'm' | 'u' | 'n' | 'c' => lemma_restored_rest(t, a),
        'q' => {
            lemma_restored_rest(t, a);
            lemma_moved_rest(t, p, action, crate::term::style_of(a));
        },
        _ => lemma_moved_rest(t, p, action, crate::term::style_of(a)),
    }
}

proof fn lemma_public_rest(
    t: TermView,
    p: Seq<u16>,
    intermediates: Seq<u8>,
    action: char,
    now: [u8; 8],
)
    ensures
        same_aside(t.grid, t.csi_public(p, intermediates, action, now).grid),
        action != 's' ==> same_saved_cursor(
            t.grid,
            t.csi_public(p, intermediates, action, now).grid,
        ),
{
    if action == 's' {
        assert(t.csi_public(p, intermediates, 's', now) == t.cursor_saved()) by {
            reveal(TermView::csi_public);
        }
        lemma_restored_rest(t, 0);
    } else {
        lemma_public_saved(t, p, intermediates, action, now);
        reveal(same_saved);
    }
}

proof fn lemma_mode_rest(t: TermView, mode: u16)
    ensures
        t.grid.is_alt ==> same_aside(t.grid, t.mode_set(mode).grid),
        !shows_alt_screen(mode) ==> same_aside(t.grid, t.mode_reset(mode).grid),
        !mode_saves_cursor(mode) ==> same_saved_cursor(t.grid, t.mode_set(mode).grid),
        same_saved_cursor(t.grid, t.mode_reset(mode).grid),
{
    reveal(TermView::mode_set);
    reveal(TermView::mode_reset);
}

proof fn lemma_modes_keep_aside(t: TermView, p: Seq<u16>, i: int, on: bool)
    requires
        t.grid.is_alt,
        on || !has_alt_mode(p),
    ensures
        same_aside(t.grid, t.modes_changed(p, i, on).grid),
    decreases p.len() - i,
{
    if 0 <= i < p.len() {
        lemma_mode_rest(t, p[i]);
        if on {
            lemma_modes_keep_aside(t.mode_set(p[i]), p, i + 1, on);
        } else {
            lemma_modes_keep_aside(t.mode_reset(p[i]), p, i + 1, on);
        }
    }
}

proof fn lemma_modes_keep_cursor(t: TermView, p: Seq<u16>, i: int, on: bool)
    requires
        !on || !has_saving_mode(p),
    ensures
        same_saved_cursor(t.grid, t.modes_changed(p, i, on).grid),
    decreases p.len() - i,
{
    if 0 <= i < p.len() {
        lemma_mode_rest(t, p[i]);
        if on {
            lemma_modes_keep_cursor(t.mode_set(p[i]), p, i + 1, on);
        } else {
            lemma_modes_keep_cursor(t.mode_reset(p[i]), p, i + 1, on);
        }
    }
}

proof fn lemma_csi_keeps(
    t: TermView,
    params: Seq<Seq<u16>>,
    intermediates: Seq<u8>,
    ignore: bool,
    action: char,
    now: [u8; 8],
)
    ensures
        ({
            let e = EventView::Csi(params, intermediates, ignore, action);
            t.csi(params, intermediates, action, now) matches Some(s) ==> {
                &&& t.grid.is_alt && !leaves_alt_screen(e) ==> same_aside(t.grid, s.grid)
                &&& !saves_cursor(e) ==> same_saved_cursor(t.grid, s.grid)
            }
        }),
{
    let p = crate::term::first_params(params);
    let e = EventView::Csi(params, intermediates, ignore, action);
    let s = TermView { in_ground: true, pending_wrap: false, ..t };
    let private = intermediates.len() > 0 && intermediates[0] == 63;
    if action == 'J' {
        lemma_display_rest(s, crate::term::arg(p, 0, 0), now);
    } else if private {
        if action == 'h' {
            if t.grid.is_alt {
                lemma_modes_keep_aside(s, p, 0, true);
            }
            if !saves_cursor(e) {
                lemma_modes_keep_cursor(s, p, 0, true);
            }
        } else if action == 'l' {
            if t.grid.is_alt && !leaves_alt_screen(e) {
                lemma_modes_keep_aside(s, p, 0, false);
            }
            lemma_modes_keep_cursor(s, p, 0, false);
        }
    } else {
        lemma_public_rest(s, p, intermediates, action, now);
    }
}

proof fn lemma_esc_keeps(
    t: TermView,
    intermediates: Seq<u8>,
    ignore: bool,
    byte: u8,
    now: [u8; 8],
)
    ensures
        ({
            let e = EventView::Esc(intermediates, ignore, byte);
            let s = t.esc(intermediates, byte, now);
            &&& t.grid.is_alt && !leaves_alt_screen(e) ==> same_aside(t.grid, s.grid)
            &&& !saves_cursor(e) ==> same_saved_cursor(t.grid, s.grid)
        }),
{
    let s = TermView { in_ground: true, pending_wrap: false, ..t };
    lemma_fed_rest(s.grid, now);
    lemma_fed_rest(s.grid.at(s.grid.screen.row, 0), now);
}

proof fn lemma_osc_keeps(t: TermView, params: Seq<Seq<u8>>, bell_terminated: bool, now: [u8; 8])
    ensures
        t.osc(params, bell_terminated, now) matches Some(s) ==> same_aside(t.grid, s.grid)
            && same_saved_cursor(t.grid, s.grid),
{
}

/// While the alternate screen is shown, an event that does not leave it keeps the screen set
/// aside, entering it again included; and an event that does not save the cursor keeps the saved
/// one, on either screen.
pub proof fn law_events_keep_what_is_saved(t: TermView, e: EventView, now: [u8; 8])
    ensures
        t.performed(e, now) matches Some(s) ==> {
            &&& t.grid.is_alt && !leaves_alt_screen(e) ==> same_aside(t.grid, s.grid)
            &&& !saves_cursor(e) ==> same_saved_cursor(t.grid, s.grid)
        },
{
    match e {
        EventView::Print(c) => lemma_placed_rest(
            TermView { in_ground: true, ..t },
            c,
            crate::width::printed_width(c),
            now,
        ),
        EventView::Execute(b) => lemma_executed_rest(t, b, now),
        EventView::Csi(params, intermediates, ignore, action) => lemma_csi_keeps(
            t,
            params,
            intermediates,
            ignore,
            action,
            now,
        ),
        EventView::Esc(intermediates, ignore, byte) => lemma_esc_keeps(
            t,
            intermediates,
            ignore,
            byte,
            now,
        ),
        EventView::Osc(params, bell) => lemma_osc_keeps(t, params, bell, now),
        _ => {},
    }
}

proof fn lemma_events_keep_aside(t: TermView, events: Seq<EventView>, now: [u8; 8])
    requires
        t.grid.is_alt,
        forall|i: int| 0 <= i < events.len() ==> !leaves_alt_screen(#[trigger] events[i]),
    ensures
        t.performed_all(events, now) matches Some(s) ==> same_aside(t.grid, s.grid),
    decreases events.len(),
{
    if events.len() > 0 {
        law_events_keep_what_is_saved(t, events[0], now);
        match t.performed(events[0], now) {
            Some(s) => {
                assert forall|i: int| 0 <= i < events.skip(1).len() implies !leaves_alt_screen(
                    #[trigger] events.skip(1)[i],
                ) by {
                    assert(events.skip(1)[i] == events[i + 1]);
                }
                assert(!leaves_alt_screen(events[0]));
                lemma_events_keep_aside(s, events.skip(1), now);
            },
            None => {},
        }
    }
}

proof fn lemma_events_keep_cursor(t: TermView, events: Seq<EventView>, now: [u8; 8])
    requires
        forall|i: int| 0 <= i < events.len() ==> !saves_cursor(#[trigger] events[i]),
    ensures
        t.performed_all(events, now) matches Some(s) ==> same_saved_cursor(t.grid, s.grid),
    decreases events.len(),
{
    if events.len() > 0 {
        law_events_keep_what_is_saved(t, events[0], now);
        match t.performed(events[0], now) {
            Some(s) => {
                assert forall|i: int| 0 <= i < events.skip(1).len() implies !saves_cursor(
                    #[trigger] events.skip(1)[i],
                ) by {
                    assert(events.skip(1)[i] == events[i + 1]);
                }
                assert(!saves_cursor(events[0]));
                lemma_events_keep_cursor(s, events.skip(1), now);
            },
            None => {},
        }
    }
}

/// Entering the alternate screen, then whatever the host sends but what leaves it, then leaving it
/// gives back the primary screen as it was: its cells, its history, their timestamps and wrap
/// flags, the cursor and the margins. Leaving once more changes nothing.
pub proof fn law_alt_screen_round_trip(t: TermView, events: Seq<EventView>, now: [u8; 8])
    requires
        t.grid.settled(),
        !t.grid.is_alt,
        forall|i: int| 0 <= i < events.len() ==> !leaves_alt_screen(#[trigger] events[i]),
    ensures
        t.with_grid(t.grid.in_alt_screen()).performed_all(events, now) matches Some(later) ==> {
            let back = later.grid.out_of_alt_screen();
            &&& later.grid.is_alt
            &&& back.screen == t.grid.screen
            &&& !back.is_alt
            &&& back == (GridView { screen: t.grid.screen, saved: None, is_alt: false, ..later.grid })
            &&& back.out_of_alt_screen() == back
        },
{
    lemma_events_keep_aside(t.with_grid(t.grid.in_alt_screen()), events, now);
    match t.with_grid(t.grid.in_alt_screen()).performed_all(events, now) {
        Some(later) => law_alt_screen_keeps_primary(t.grid, later.grid),
        None => {},
    }
}

/// Saving the cursor, then whatever the host sends but what saves it again or resets the
/// terminal, then restoring it gives back the cursor and the pen as they were saved. Restoring
/// changes no cell and nothing in the history.
pub proof fn law_saved_cursor_round_trip(
    t: TermView,
    events: Seq<EventView>,
    saved_at: [u8; 8],
    now: [u8; 8],
)
    requires
        sound(t),
        forall|i: int| 0 <= i < events.len() ==> !saves_cursor(#[trigger] events[i]),
    ensures
        t.esc(Seq::empty(), 55, saved_at).performed_all(events, now) matches Some(later) ==> {
            let back = later.esc(Seq::empty(), 56, now);
            &&& back.grid.screen.row == t.grid.screen.row
            &&& back.grid.screen.col == t.grid.screen.col
            &&& back.pen == t.pen
            &&& back.grid == later.grid.at(t.grid.screen.row, t.grid.screen.col)
        },
{
    let first = t.esc(Seq::empty(), 55, saved_at);
    lemma_events_keep_cursor(first, events, now);
    match first.performed_all(events, now) {
        Some(later) => {
            let s = TermView { in_ground: true, pending_wrap: false, ..t };
            lemma_same_grid_sound(t, s);
            law_cursor_comes_back(
                s,
                TermView { in_ground: true, pending_wrap: false, ..later },
            );
        },
        None => {},
    }
}

} // verus!
