//! How input is cut into pieces has no part in what the terminal becomes, timestamps aside.

use crate::blocks::{Block, BlockTrigger, BlocksView};
use crate::cell::Cell;
use crate::grid::{GridView, ScreenView};
use crate::term::TermView;
use crate::vt::{EventView, InputView};
use vstd::prelude::*;

verus! {

/// The buffers are the same but for their timestamps.
pub open spec fn alike_screens(a: ScreenView, b: ScreenView) -> bool {
    a == ScreenView { stamps: a.stamps, history_stamps: a.history_stamps, ..b }
}

/// The blocks are the same but for the times at which they were created.
#[verifier::opaque]
pub open spec fn alike_blocks(a: BlocksView, b: BlocksView) -> bool {
    &&& a.next_id == b.next_id
    &&& a.has_osc133 == b.has_osc133
    &&& a.blocks.len() == b.blocks.len()
    &&& forall|i: int|
        0 <= i < a.blocks.len() ==> #[trigger] a.blocks[i] == (Block {
            created_at: a.blocks[i].created_at,
            ..b.blocks[i]
        })
}

/// The grids are the same but for timestamps.
pub open spec fn alike_grids(a: GridView, b: GridView) -> bool {
    &&& a == GridView { screen: a.screen, saved: a.saved, batch: a.batch, blocks: a.blocks, ..b }
    &&& alike_screens(a.screen, b.screen)
    &&& match (a.saved, b.saved) {
        (Some(s), Some(t)) => alike_screens(s, t),
        (None, None) => true,
        _ => false,
    }
    &&& alike_blocks(a.blocks, b.blocks)
}

/// The terminals are the same but for timestamps.
#[verifier::opaque]
pub open spec fn alike(t: TermView, u: TermView) -> bool {
    t == TermView { grid: t.grid, ..u } && alike_grids(t.grid, u.grid)
}

/// Both are missing, or both are there and alike.
pub open spec fn both_alike(t: Option<TermView>, u: Option<TermView>) -> bool {
    match (t, u) {
        (Some(a), Some(b)) => alike(a, b),
        (None, None) => true,
        _ => false,
    }
}

/// The parsers have been given the same, and the terminals are alike.
pub open spec fn alike_inputs(s: InputView, t: InputView) -> bool {
    s.fed == t.fed && alike(s.term, t.term)
}

/// Both are missing, or both are there and alike.
pub open spec fn both_inputs_alike(s: Option<InputView>, t: Option<InputView>) -> bool {
    match (s, t) {
        (Some(a), Some(b)) => alike_inputs(a, b),
        (None, None) => true,
        _ => false,
    }
}

proof fn lemma_kept_blocks(a: Seq<Block>, b: Seq<Block>, n: int)
    requires
        a.len() == b.len(),
        forall|i: int|
            0 <= i < a.len() ==> #[trigger] a[i] == (Block {
                created_at: a[i].created_at,
                ..b[i]
            }),
    ensures
        ({
            let p = |b: Block| n <= b.start_row;
            let (x, y) = (a.filter(p), b.filter(p));
            &&& x.len() == y.len()
            &&& forall|i: int|
                0 <= i < x.len() ==> #[trigger] x[i] == (Block {
                    created_at: x[i].created_at,
                    ..y[i]
                })
        }),
    decreases a.len(),
{
    reveal(Seq::filter);
    if a.len() > 0 {
        assert(a[a.len() - 1] == (Block { created_at: a[a.len() - 1].created_at, ..b[b.len() - 1] }));
        assert forall|i: int| 0 <= i < a.drop_last().len() implies #[trigger] a.drop_last()[i] == (
        Block { created_at: a.drop_last()[i].created_at, ..b.drop_last()[i] }) by {
            assert(a[i] == (Block { created_at: a[i].created_at, ..b[i] }));
        }
        lemma_kept_blocks(a.drop_last(), b.drop_last(), n);
    }
}

proof fn lemma_evicted_alike(a: BlocksView, b: BlocksView, n: int)
    requires
        alike_blocks(a, b),
    ensures
        alike_blocks(a.evicted(n), b.evicted(n)),
{
    reveal(alike_blocks);
    lemma_kept_blocks(a.blocks, b.blocks, n);
    let p = |b: Block| n <= b.start_row;
    let (x, y) = (a.blocks.filter(p), b.blocks.filter(p));
    assert forall|i: int| 0 <= i < a.evicted(n).blocks.len() implies #[trigger] a.evicted(
        n,
    ).blocks[i] == (Block {
        created_at: a.evicted(n).blocks[i].created_at,
        ..b.evicted(n).blocks[i]
    }) by {
        assert(x[i] == (Block { created_at: x[i].created_at, ..y[i] }));
    }
}

proof fn lemma_marks_alike(
    a: BlocksView,
    b: BlocksView,
    trigger: BlockTrigger,
    row: int,
    code: Option<i32>,
    m: [u8; 8],
    n: [u8; 8],
)
    requires
        alike_blocks(a, b),
    ensures
        alike_blocks(a.started(trigger, row, m), b.started(trigger, row, n)),
        a.has_room(trigger, row) == b.has_room(trigger, row),
        a.next_id == b.next_id,
        alike_blocks(a.reset(row, m), b.reset(row, n)),
        alike_blocks(a.executing(row), b.executing(row)),
        alike_blocks(a.completed(code), b.completed(code)),
{
    reveal(alike_blocks);
    if a.blocks.len() > 0 {
        let k = a.blocks.len() - 1;
        assert(a.blocks[k] == (Block { created_at: a.blocks[k].created_at, ..b.blocks[k] }));
    }
}

proof fn lemma_retired_alike(g: GridView, h: GridView, i: int, m: [u8; 8], n: [u8; 8])
    requires
        alike_grids(g, h),
    ensures
        alike_grids(g.retired(i, m), h.retired(i, n)),
{
    lemma_evicted_alike(g.blocks, h.blocks, 1);
}

proof fn lemma_all_retired_alike(
    g: GridView,
    h: GridView,
    i: int,
    end: int,
    m: [u8; 8],
    n: [u8; 8],
)
    requires
        alike_grids(g, h),
    ensures
        alike_grids(g.all_retired(i, end, m), h.all_retired(i, end, n)),
    decreases end - i,
{
    if i < end {
        lemma_retired_alike(g, h, i, m, n);
        lemma_all_retired_alike(g.retired(i, m), h.retired(i, n), i + 1, end, m, n);
    }
}

proof fn lemma_scrolled_alike(g: GridView, h: GridView, k: int, m: [u8; 8], n: [u8; 8])
    requires
        alike_grids(g, h),
    ensures
        alike_grids(g.scrolled_up(k, m), h.scrolled_up(k, n)),
        alike_grids(g.scrolled_down(k), h.scrolled_down(k)),
{
    reveal(GridView::scrolled_up);
    reveal(GridView::scrolled_down);
    let top = g.screen.top;
    let bot = g.last_scrolled();
    let c = crate::grid::min(k, bot - top + 1);
    let (x, y) = (
        g.with_screen(g.screen.turned_up(top, bot, c)),
        h.with_screen(h.screen.turned_up(top, bot, c)),
    );
    assert(alike_grids(x, y));
    lemma_all_retired_alike(x, y, bot - c + 1, bot + 1, m, n);
}

proof fn lemma_moved_alike(g: GridView, h: GridView, row: int, col: int)
    requires
        alike_grids(g, h),
    ensures
        alike_grids(g.at(row, col), h.at(row, col)),
        alike_grids(g.row_touched(), h.row_touched()),
{
}

proof fn lemma_stamped_alike(g: GridView, h: GridView, row: int, on: bool)
    requires
        alike_grids(g, h),
    ensures
        alike_grids(
            g.with_screen(g.screen.flagged(row, on)),
            h.with_screen(h.screen.flagged(row, on)),
        ),
        alike_grids(
            g.with_screen(g.screen.touched(row, g.batch)),
            h.with_screen(h.screen.touched(row, h.batch)),
        ),
        alike_grids(
            g.with_screen(g.screen.flagged(row, on).touched(row, g.batch)),
            h.with_screen(h.screen.flagged(row, on).touched(row, h.batch)),
        ),
{
}

proof fn lemma_line_fed_alike(g: GridView, h: GridView, m: [u8; 8], n: [u8; 8])
    requires
        alike_grids(g, h),
    ensures
        alike_grids(g.line_fed(m), h.line_fed(n)),
{
    lemma_scrolled_alike(g, h, 1, m, n);
    lemma_moved_alike(g, h, g.screen.row + 1, g.screen.col);
    let (x, y) = (g.lowered(m), h.lowered(n));
    assert(alike_grids(x, y));
    lemma_stamped_alike(x, y, x.screen.row, false);
}

proof fn lemma_fed_alike(g: GridView, h: GridView, m: [u8; 8], n: [u8; 8])
    requires
        alike_grids(g, h),
    ensures
        alike_grids(g.line_fed(m), h.line_fed(n)),
        alike_grids(g.soft_broken(m), h.soft_broken(n)),
        alike_grids(g.reverse_indexed(), h.reverse_indexed()),
        alike_grids(g.row_touched(), h.row_touched()),
{
    lemma_line_fed_alike(g, h, m, n);
    lemma_scrolled_alike(g, h, 1, m, n);
    lemma_moved_alike(g, h, g.screen.row - 1, g.screen.col);
    lemma_moved_alike(g, h, g.screen.row, 0);
    let (x, y) = (g.at(g.screen.row, 0).line_fed(m), h.at(h.screen.row, 0).line_fed(n));
    lemma_line_fed_alike(g.at(g.screen.row, 0), h.at(h.screen.row, 0), m, n);
    lemma_stamped_alike(x, y, x.screen.row, true);
}

proof fn lemma_readied_alike(t: TermView, u: TermView, m: [u8; 8], n: [u8; 8])
    requires
        alike(t, u),
    ensures
        alike(t.readied(m), u.readied(n)),
        alike(t.wrapped_on(m), u.wrapped_on(n)),
{
    reveal(alike);
    lemma_fed_alike(t.grid, u.grid, m, n);
    lemma_fed_alike(t.wrapped_on(m).grid, u.wrapped_on(n).grid, m, n);
}

proof fn lemma_written_alike(t: TermView, u: TermView, c: char)
    requires
        alike(t, u),
    ensures
        alike(t.narrow_written(c), u.narrow_written(c)),
        alike(t.wide_written(c), u.wide_written(c)),
{
    reveal(alike);
}

proof fn lemma_placed_alike(
    t: TermView,
    u: TermView,
    c: char,
    width: int,
    m: [u8; 8],
    n: [u8; 8],
)
    requires
        alike(t, u),
    ensures
        alike(t.placed(c, width, m), u.placed(c, width, n)),
{
    reveal(alike);
    lemma_readied_alike(t, u, m, n);
    let (x, y) = (t.readied(m), u.readied(n));
    lemma_written_alike(x, y, c);
    lemma_readied_alike(x, y, m, n);
    lemma_written_alike(x.wrapped_on(m), y.wrapped_on(n), c);
}

proof fn lemma_executed_alike(t: TermView, u: TermView, byte: u8, m: [u8; 8], n: [u8; 8])
    requires
        alike(t, u),
    ensures
        alike(t.executed(byte, m), u.executed(byte, n)),
{
    reveal(alike);
    lemma_fed_alike(t.grid, u.grid, m, n);
}

#[verifier::spinoff_prover]
proof fn lemma_erased_alike(g: GridView, h: GridView, c: Cell)
    requires
        alike_grids(g, h),
    ensures
        alike_grids(g.erased_right(c), h.erased_right(c)),
        alike_grids(g.erased_left(c), h.erased_left(c)),
        alike_grids(g.erased_line(c), h.erased_line(c)),
        alike_grids(g.erased_below(c), h.erased_below(c)),
        alike_grids(g.erased_above(c), h.erased_above(c)),
{
    reveal(GridView::erased_below);
    reveal(GridView::erased_above);
}

proof fn lemma_erased_all_alike(g: GridView, h: GridView, c: Cell, m: [u8; 8], n: [u8; 8])
    requires
        alike_grids(g, h),
    ensures
        match (g.erased_all(c, m), h.erased_all(c, n)) {
            (Some(x), Some(y)) => alike_grids(x, y),
            (None, None) => true,
            _ => false,
        },
{
    reveal(GridView::erased_all);
    lemma_marks_alike(
        g.blocks,
        h.blocks,
        BlockTrigger::Initial,
        g.cursor_abs(),
        None,
        m,
        n,
    );
}

proof fn lemma_edited_alike(g: GridView, h: GridView, k: int, c: Cell)
    requires
        alike_grids(g, h),
    ensures
        alike_grids(g.lines_inserted(k), h.lines_inserted(k)),
        alike_grids(g.lines_deleted(k), h.lines_deleted(k)),
        alike_grids(g.chars_inserted(k), h.chars_inserted(k)),
        alike_grids(g.chars_deleted(k), h.chars_deleted(k)),
        alike_grids(g.chars_erased(k, c), h.chars_erased(k, c)),
{
    reveal(GridView::lines_inserted);
    reveal(GridView::lines_deleted);
    reveal(GridView::chars_inserted);
    reveal(GridView::chars_deleted);
    reveal(GridView::chars_erased);
}

proof fn lemma_grid_alike(t: TermView, u: TermView, g: GridView, h: GridView)
    requires
        alike(t, u),
        alike_grids(g, h),
    ensures
        alike(t.with_grid(g), u.with_grid(h)),
{
    reveal(alike);
}

#[verifier::spinoff_prover]
proof fn lemma_saved_alike(t: TermView, u: TermView)
    requires
        alike(t, u),
    ensures
        alike(t.cursor_saved(), u.cursor_saved()),
        alike(t.cursor_restored(), u.cursor_restored()),
        alike(t.with_grid(t.grid.in_alt_screen()), u.with_grid(u.grid.in_alt_screen())),
        alike(t.with_grid(t.grid.out_of_alt_screen()), u.with_grid(u.grid.out_of_alt_screen())),
{
    reveal(alike);
}

#[verifier::spinoff_prover]
proof fn lemma_switched_alike(g: GridView, h: GridView, mode: u16, on: bool)
    requires
        alike_grids(g, h),
    ensures
        alike_grids(g.switched(mode, on), h.switched(mode, on)),
{
}

#[verifier::spinoff_prover]
proof fn lemma_cursor_moved_alike(t: TermView, u: TermView, p: Seq<u16>, action: char)
    requires
        alike(t, u),
    ensures
        alike(t.cursor_moved(p, action), u.cursor_moved(p, action)),
        alike(t.margins_set(p), u.margins_set(p)),
{
    reveal(alike);
}

proof fn lemma_replied_alike(t: TermView, u: TermView, s: Seq<u8>)
    requires
        alike(t, u),
    ensures
        alike(t.replied(s), u.replied(s)),
{
    reveal(alike);
}

proof fn lemma_reported_alike(t: TermView, u: TermView, mode: u16)
    requires
        alike(t, u),
    ensures
        alike(t.status_reported(mode), u.status_reported(mode)),
        alike(t.attributes_reported(mode), u.attributes_reported(mode)),
{
    let row = t.grid.screen.row;
    let col = t.grid.screen.col;
    assert(u.grid.screen.row == row && u.grid.screen.col == col) by {
        reveal(alike);
    }
    lemma_replied_alike(t, u, seq![27u8, 91u8, 48u8, 110u8]);
    lemma_replied_alike(t, u, crate::term::position_report(row, col));
    lemma_replied_alike(
        t,
        u,
        seq![27u8, 91u8, 63u8, 54u8, 50u8, 59u8, 50u8, 50u8, 99u8],
    );
}

proof fn lemma_origin_alike(t: TermView, u: TermView)
    requires
        alike(t, u),
    ensures
        alike(t.mode_set(6), u.mode_set(6)),
        alike(t.mode_reset(6), u.mode_reset(6)),
{
    reveal(TermView::mode_set);
    reveal(TermView::mode_reset);
    assert(alike_grids(t.grid, u.grid)) by {
        reveal(alike);
    }
    let (g, h) = (t.grid, u.grid);
    lemma_moved_alike(g, h, g.screen.top, 0);
    lemma_moved_alike(g, h, 0, 0);
    lemma_grid_alike(
        t,
        u,
        GridView { origin_mode: true, ..g.at(g.screen.top, 0) },
        GridView { origin_mode: true, ..h.at(h.screen.top, 0) },
    );
    lemma_grid_alike(
        t,
        u,
        GridView { origin_mode: false, ..g.at(0, 0) },
        GridView { origin_mode: false, ..h.at(0, 0) },
    );
}

proof fn lemma_mode_alike(t: TermView, u: TermView, mode: u16)
    requires
        alike(t, u),
    ensures
        alike(t.mode_set(mode), u.mode_set(mode)),
        alike(t.mode_reset(mode), u.mode_reset(mode)),
{
    if mode == 6 {
        lemma_origin_alike(t, u);
    } else if mode == 47 || mode == 1047 || mode == 1048 {
        reveal(TermView::mode_set);
        reveal(TermView::mode_reset);
        lemma_saved_alike(t, u);
    } else if mode == 1049 {
        reveal(TermView::mode_set);
        reveal(TermView::mode_reset);
        lemma_saved_alike(t, u);
        lemma_saved_alike(t.cursor_saved(), u.cursor_saved());
        lemma_saved_alike(
            t.with_grid(t.grid.out_of_alt_screen()),
            u.with_grid(u.grid.out_of_alt_screen()),
        );
    } else {
        reveal(TermView::mode_set);
        reveal(TermView::mode_reset);
        assert(alike_grids(t.grid, u.grid)) by {
            reveal(alike);
        }
        lemma_switched_alike(t.grid, u.grid, mode, true);
        lemma_switched_alike(t.grid, u.grid, mode, false);
        lemma_grid_alike(t, u, t.grid.switched(mode, true), u.grid.switched(mode, true));
        lemma_grid_alike(t, u, t.grid.switched(mode, false), u.grid.switched(mode, false));
    }
}

proof fn lemma_modes_alike(t: TermView, u: TermView, p: Seq<u16>, i: int, on: bool)
    requires
        alike(t, u),
    ensures
        alike(t.modes_changed(p, i, on), u.modes_changed(p, i, on)),
    decreases p.len() - i,
{
    if 0 <= i < p.len() {
        lemma_mode_alike(t, u, p[i]);
        if on {
            lemma_modes_alike(t.mode_set(p[i]), u.mode_set(p[i]), p, i + 1, on);
        } else {
            lemma_modes_alike(t.mode_reset(p[i]), u.mode_reset(p[i]), p, i + 1, on);
        }
    }
}

proof fn lemma_line_erased_alike(t: TermView, u: TermView, mode: u16)
    requires
        alike(t, u),
    ensures
        alike(t.line_erased(mode), u.line_erased(mode)),
{
    reveal(alike);
    reveal(TermView::line_erased);
    lemma_erased_alike(t.grid, u.grid, t.pen.erased_cell());
}

/// A grid put in place of another in terminals that are alike.
/// The control sequence does more than to move the cursor.
spec fn edits(action: char) -> bool {
    match action {
        'K' | 'm' | 'L' | 'M' | 'S' | 'T' | '@' | 'P' | 'X' | 'r' | 's' | 'u' | 'n' | 'c' | 'q' => true,
        _ => false,
    }
}

proof fn lemma_styled_alike(t: TermView, u: TermView, p: Seq<u16>, v: u16)
    requires
        alike(t, u),
    ensures
        alike(TermView { pen: t.pen.after(p), ..t }, TermView { pen: u.pen.after(p), ..u }),
        alike(
            t.with_grid(GridView { style: crate::term::style_of(v), ..t.grid }),
            u.with_grid(GridView { style: crate::term::style_of(v), ..u.grid }),
        ),
{
    reveal(alike);
}

proof fn lemma_insert_lines_alike(
    t: TermView,
    u: TermView,
    p: Seq<u16>,
    intermediates: Seq<u8>,
    action: char,
    m: [u8; 8],
    n: [u8; 8],
)
    requires
        alike(t, u),
        action == 'L',
    ensures
        alike(
            t.csi_public(p, intermediates, action, m),
            u.csi_public(p, intermediates, action, n),
        ),
{
    let k = crate::term::count(p, 0);
    assert(t.csi_public(p, intermediates, 'L', m) == t.with_grid(t.grid.lines_inserted(k))) by {
        reveal(TermView::csi_public);
    }
    assert(u.csi_public(p, intermediates, 'L', n) == u.with_grid(u.grid.lines_inserted(k))) by {
        reveal(TermView::csi_public);
    }
    assert(alike_grids(t.grid, u.grid) && u.pen == t.pen) by {
        reveal(alike);
    }
    lemma_edited_alike(t.grid, u.grid, k, t.pen.erased_cell());
    lemma_grid_alike(t, u, t.grid.lines_inserted(k), u.grid.lines_inserted(k));
}

proof fn lemma_delete_lines_alike(
    t: TermView,
    u: TermView,
    p: Seq<u16>,
    intermediates: Seq<u8>,
    action: char,
    m: [u8; 8],
    n: [u8; 8],
)
    requires
        alike(t, u),
        action == 'M',
    ensures
        alike(
            t.csi_public(p, intermediates, action, m),
            u.csi_public(p, intermediates, action, n),
        ),
{
    let k = crate::term::count(p, 0);
    assert(t.csi_public(p, intermediates, 'M', m) == t.with_grid(t.grid.lines_deleted(k))) by {
        reveal(TermView::csi_public);
    }
    assert(u.csi_public(p, intermediates, 'M', n) == u.with_grid(u.grid.lines_deleted(k))) by {
        reveal(TermView::csi_public);
    }
    assert(alike_grids(t.grid, u.grid) && u.pen == t.pen) by {
        reveal(alike);
    }
    lemma_edited_alike(t.grid, u.grid, k, t.pen.erased_cell());
    lemma_grid_alike(t, u, t.grid.lines_deleted(k), u.grid.lines_deleted(k));
}

proof fn lemma_insert_chars_alike(
    t: TermView,
    u: TermView,
    p: Seq<u16>,
    intermediates: Seq<u8>,
    action: char,
    m: [u8; 8],
    n: [u8; 8],
)
    requires
        alike(t, u),
        action == '@',
    ensures
        alike(
            t.csi_public(p, intermediates, action, m),
            u.csi_public(p, intermediates, action, n),
        ),
{
    let k = crate::term::count(p, 0);
    assert(t.csi_public(p, intermediates, '@', m) == t.with_grid(t.grid.chars_inserted(k))) by {
        reveal(TermView::csi_public);
    }
    assert(u.csi_public(p, intermediates, '@', n) == u.with_grid(u.grid.chars_inserted(k))) by {
        reveal(TermView::csi_public);
    }
    assert(alike_grids(t.grid, u.grid) && u.pen == t.pen) by {
        reveal(alike);
    }
    lemma_edited_alike(t.grid, u.grid, k, t.pen.erased_cell());
    lemma_grid_alike(t, u, t.grid.chars_inserted(k), u.grid.chars_inserted(k));
}

proof fn lemma_delete_chars_alike(
    t: TermView,
    u: TermView,
    p: Seq<u16>,
    intermediates: Seq<u8>,
    action: char,
    m: [u8; 8],
    n: [u8; 8],
)
    requires
        alike(t, u),
        action == 'P',
    ensures
        alike(
            t.csi_public(p, intermediates, action, m),
            u.csi_public(p, intermediates, action, n),
        ),
{
    let k = crate::term::count(p, 0);
    assert(t.csi_public(p, intermediates, 'P', m) == t.with_grid(t.grid.chars_deleted(k))) by {
        reveal(TermView::csi_public);
    }
    assert(u.csi_public(p, intermediates, 'P', n) == u.with_grid(u.grid.chars_deleted(k))) by {
        reveal(TermView::csi_public);
    }
    assert(alike_grids(t.grid, u.grid) && u.pen == t.pen) by {
        reveal(alike);
    }
    lemma_edited_alike(t.grid, u.grid, k, t.pen.erased_cell());
    lemma_grid_alike(t, u, t.grid.chars_deleted(k), u.grid.chars_deleted(k));
}

proof fn lemma_erase_chars_alike(
    t: TermView,
    u: TermView,
    p: Seq<u16>,
    intermediates: Seq<u8>,
    action: char,
    m: [u8; 8],
    n: [u8; 8],
)
    requires
        alike(t, u),
        action == 'X',
    ensures
        alike(
            t.csi_public(p, intermediates, action, m),
            u.csi_public(p, intermediates, action, n),
        ),
{
    let k = crate::term::count(p, 0);
    assert(t.csi_public(p, intermediates, 'X', m) == t.with_grid(t.grid.chars_erased(k, t.pen.erased_cell()))) by {
        reveal(TermView::csi_public);
    }
    assert(u.csi_public(p, intermediates, 'X', n) == u.with_grid(u.grid.chars_erased(k, u.pen.erased_cell()))) by {
        reveal(TermView::csi_public);
    }
    assert(alike_grids(t.grid, u.grid) && u.pen == t.pen) by {
        reveal(alike);
    }
    lemma_edited_alike(t.grid, u.grid, k, t.pen.erased_cell());
    lemma_grid_alike(t, u, t.grid.chars_erased(k, t.pen.erased_cell()), u.grid.chars_erased(k, u.pen.erased_cell()));
}

proof fn lemma_scroll_up_alike(
    t: TermView,
    u: TermView,
    p: Seq<u16>,
    intermediates: Seq<u8>,
    action: char,
    m: [u8; 8],
    n: [u8; 8],
)
    requires
        alike(t, u),
        action == 'S',
    ensures
        alike(
            t.csi_public(p, intermediates, action, m),
            u.csi_public(p, intermediates, action, n),
        ),
{
    let k = crate::term::count(p, 0);
    assert(t.csi_public(p, intermediates, 'S', m) == t.with_grid(t.grid.scrolled_up(k, m))) by {
        reveal(TermView::csi_public);
    }
    assert(u.csi_public(p, intermediates, 'S', n) == u.with_grid(u.grid.scrolled_up(k, n))) by {
        reveal(TermView::csi_public);
    }
    assert(alike_grids(t.grid, u.grid) && u.pen == t.pen) by {
        reveal(alike);
    }
    lemma_scrolled_alike(t.grid, u.grid, k, m, n);
    lemma_grid_alike(t, u, t.grid.scrolled_up(k, m), u.grid.scrolled_up(k, n));
}

proof fn lemma_scroll_down_alike(
    t: TermView,
    u: TermView,
    p: Seq<u16>,
    intermediates: Seq<u8>,
    action: char,
    m: [u8; 8],
    n: [u8; 8],
)
    requires
        alike(t, u),
        action == 'T',
    ensures
        alike(
            t.csi_public(p, intermediates, action, m),
            u.csi_public(p, intermediates, action, n),
        ),
{
    let k = crate::term::count(p, 0);
    assert(t.csi_public(p, intermediates, 'T', m) == t.with_grid(t.grid.scrolled_down(k))) by {
        reveal(TermView::csi_public);
    }
    assert(u.csi_public(p, intermediates, 'T', n) == u.with_grid(u.grid.scrolled_down(k))) by {
        reveal(TermView::csi_public);
    }
    assert(alike_grids(t.grid, u.grid) && u.pen == t.pen) by {
        reveal(alike);
    }
    lemma_scrolled_alike(t.grid, u.grid, k, m, n);
    lemma_grid_alike(t, u, t.grid.scrolled_down(k), u.grid.scrolled_down(k));
}

proof fn lemma_erase_line_alike(
    t: TermView,
    u: TermView,
    p: Seq<u16>,
    intermediates: Seq<u8>,
    action: char,
    m: [u8; 8],
    n: [u8; 8],
)
    requires
        alike(t, u),
        action == 'K',
    ensures
        alike(
            t.csi_public(p, intermediates, action, m),
            u.csi_public(p, intermediates, action, n),
        ),
{
    let a = crate::term::arg(p, 0, 0);
    assert(t.csi_public(p, intermediates, 'K', m) == t.line_erased(a)) by {
        reveal(TermView::csi_public);
    }
    assert(u.csi_public(p, intermediates, 'K', n) == u.line_erased(a)) by {
        reveal(TermView::csi_public);
    }
    lemma_line_erased_alike(t, u, a);
}

proof fn lemma_save_alike(
    t: TermView,
    u: TermView,
    p: Seq<u16>,
    intermediates: Seq<u8>,
    action: char,
    m: [u8; 8],
    n: [u8; 8],
)
    requires
        alike(t, u),
        action == 's',
    ensures
        alike(
            t.csi_public(p, intermediates, action, m),
            u.csi_public(p, intermediates, action, n),
        ),
{
    let a = crate::term::arg(p, 0, 0);
    assert(t.csi_public(p, intermediates, 's', m) == t.cursor_saved()) by {
        reveal(TermView::csi_public);
    }
    assert(u.csi_public(p, intermediates, 's', n) == u.cursor_saved()) by {
        reveal(TermView::csi_public);
    }
    lemma_saved_alike(t, u);
}

proof fn lemma_restore_alike(
    t: TermView,
    u: TermView,
    p: Seq<u16>,
    intermediates: Seq<u8>,
    action: char,
    m: [u8; 8],
    n: [u8; 8],
)
    requires
        alike(t, u),
        action == 'u',
    ensures
        alike(
            t.csi_public(p, intermediates, action, m),
            u.csi_public(p, intermediates, action, n),
        ),
{
    let a = crate::term::arg(p, 0, 0);
    assert(t.csi_public(p, intermediates, 'u', m) == t.cursor_restored()) by {
        reveal(TermView::csi_public);
    }
    assert(u.csi_public(p, intermediates, 'u', n) == u.cursor_restored()) by {
        reveal(TermView::csi_public);
    }
    lemma_saved_alike(t, u);
}

proof fn lemma_status_alike(
    t: TermView,
    u: TermView,
    p: Seq<u16>,
    intermediates: Seq<u8>,
    action: char,
    m: [u8; 8],
    n: [u8; 8],
)
    requires
        alike(t, u),
        action == 'n',
    ensures
        alike(
            t.csi_public(p, intermediates, action, m),
            u.csi_public(p, intermediates, action, n),
        ),
{
    let a = crate::term::arg(p, 0, 0);
    assert(t.csi_public(p, intermediates, 'n', m) == t.status_reported(a)) by {
        reveal(TermView::csi_public);
    }
    assert(u.csi_public(p, intermediates, 'n', n) == u.status_reported(a)) by {
        reveal(TermView::csi_public);
    }
    lemma_reported_alike(t, u, a);
}

proof fn lemma_attributes_alike(
    t: TermView,
    u: TermView,
    p: Seq<u16>,
    intermediates: Seq<u8>,
    action: char,
    m: [u8; 8],
    n: [u8; 8],
)
    requires
        alike(t, u),
        action == 'c',
    ensures
        alike(
            t.csi_public(p, intermediates, action, m),
            u.csi_public(p, intermediates, action, n),
        ),
{
    let a = crate::term::arg(p, 0, 0);
    assert(t.csi_public(p, intermediates, 'c', m) == t.attributes_reported(a)) by {
        reveal(TermView::csi_public);
    }
    assert(u.csi_public(p, intermediates, 'c', n) == u.attributes_reported(a)) by {
        reveal(TermView::csi_public);
    }
    lemma_reported_alike(t, u, a);
}

proof fn lemma_rendition_alike(
    t: TermView,
    u: TermView,
    p: Seq<u16>,
    intermediates: Seq<u8>,
    action: char,
    m: [u8; 8],
    n: [u8; 8],
)
    requires
        alike(t, u),
        action == 'm',
    ensures
        alike(
            t.csi_public(p, intermediates, action, m),
            u.csi_public(p, intermediates, action, n),
        ),
{
    let a = crate::term::arg(p, 0, 0);
    assert(t.csi_public(p, intermediates, 'm', m) == (TermView { pen: t.pen.after(p), ..t })) by {
        reveal(TermView::csi_public);
    }
    assert(u.csi_public(p, intermediates, 'm', n) == (TermView { pen: u.pen.after(p), ..u })) by {
        reveal(TermView::csi_public);
    }
    lemma_styled_alike(t, u, p, a);
}

proof fn lemma_margins_alike(
    t: TermView,
    u: TermView,
    p: Seq<u16>,
    intermediates: Seq<u8>,
    action: char,
    m: [u8; 8],
    n: [u8; 8],
)
    requires
        alike(t, u),
        action == 'r',
    ensures
        alike(
            t.csi_public(p, intermediates, action, m),
            u.csi_public(p, intermediates, action, n),
        ),
{
    let a = crate::term::arg(p, 0, 0);
    assert(t.csi_public(p, intermediates, 'r', m) == t.margins_set(p)) by {
        reveal(TermView::csi_public);
    }
    assert(u.csi_public(p, intermediates, 'r', n) == u.margins_set(p)) by {
        reveal(TermView::csi_public);
    }
    lemma_cursor_moved_alike(t, u, p, action);
}

proof fn lemma_style_alike(
    t: TermView,
    u: TermView,
    p: Seq<u16>,
    intermediates: Seq<u8>,
    action: char,
    m: [u8; 8],
    n: [u8; 8],
)
    requires
        alike(t, u),
        action == 'q',
    ensures
        alike(
            t.csi_public(p, intermediates, action, m),
            u.csi_public(p, intermediates, action, n),
        ),
{
    let a = crate::term::arg(p, 0, 0);
    assert(t.csi_public(p, intermediates, 'q', m) == (if intermediates.len() > 0 && intermediates[0] == 32 {
        t.with_grid(GridView { style: crate::term::style_of(a), ..t.grid })
    } else {
        t
    })) by {
        reveal(TermView::csi_public);
    }
    assert(u.csi_public(p, intermediates, 'q', n) == (if intermediates.len() > 0 && intermediates[0] == 32 {
        u.with_grid(GridView { style: crate::term::style_of(a), ..u.grid })
    } else {
        u
    })) by {
        reveal(TermView::csi_public);
    }
    lemma_styled_alike(t, u, p, a);
}

proof fn lemma_move_alike(
    t: TermView,
    u: TermView,
    p: Seq<u16>,
    intermediates: Seq<u8>,
    action: char,
    m: [u8; 8],
    n: [u8; 8],
)
    requires
        alike(t, u),
        !edits(action),
    ensures
        alike(
            t.csi_public(p, intermediates, action, m),
            u.csi_public(p, intermediates, action, n),
        ),
{
    reveal(TermView::csi_public);
    lemma_cursor_moved_alike(t, u, p, action);
}

proof fn lemma_public_alike(
    t: TermView,
    u: TermView,
    p: Seq<u16>,
    intermediates: Seq<u8>,
    action: char,
    m: [u8; 8],
    n: [u8; 8],
)
    requires
        alike(t, u),
    ensures
        alike(
            t.csi_public(p, intermediates, action, m),
            u.csi_public(p, intermediates, action, n),
        ),
{
    match action {
        'L' => lemma_insert_lines_alike(t, u, p, intermediates, action, m, n),
        'M' => lemma_delete_lines_alike(t, u, p, intermediates, action, m, n),
        '@' => lemma_insert_chars_alike(t, u, p, intermediates, action, m, n),
        'P' => lemma_delete_chars_alike(t, u, p, intermediates, action, m, n),
        'X' => lemma_erase_chars_alike(t, u, p, intermediates, action, m, n),
        'S' => lemma_scroll_up_alike(t, u, p, intermediates, action, m, n),
        'T' => lemma_scroll_down_alike(t, u, p, intermediates, action, m, n),
        'K' => lemma_erase_line_alike(t, u, p, intermediates, action, m, n),
        's' => lemma_save_alike(t, u, p, intermediates, action, m, n),
        'u' => lemma_restore_alike(t, u, p, intermediates, action, m, n),
        'n' => lemma_status_alike(t, u, p, intermediates, action, m, n),
        'c' => lemma_attributes_alike(t, u, p, intermediates, action, m, n),
        'm' => lemma_rendition_alike(t, u, p, intermediates, action, m, n),
        'r' => lemma_margins_alike(t, u, p, intermediates, action, m, n),
        'q' => lemma_style_alike(t, u, p, intermediates, action, m, n),
        _ => lemma_move_alike(t, u, p, intermediates, action, m, n),
    }
}

proof fn lemma_flags_alike(t: TermView, u: TermView, ground: bool)
    requires
        alike(t, u),
    ensures
        alike(TermView { in_ground: ground, ..t }, TermView { in_ground: ground, ..u }),
        alike(
            TermView { in_ground: ground, pending_wrap: false, ..t },
            TermView { in_ground: ground, pending_wrap: false, ..u },
        ),
        t.in_ground == u.in_ground,
{
    reveal(alike);
}

proof fn lemma_display_alike(t: TermView, u: TermView, mode: u16, m: [u8; 8], n: [u8; 8])
    requires
        alike(t, u),
    ensures
        both_alike(t.display_erased(mode, m), u.display_erased(mode, n)),
{
    reveal(alike);
    reveal(TermView::display_erased);
    lemma_erased_alike(t.grid, u.grid, t.pen.erased_cell());
    lemma_erased_all_alike(t.grid, u.grid, t.pen.erased_cell(), m, n);
}

proof fn lemma_csi_alike(
    t: TermView,
    u: TermView,
    params: Seq<Seq<u16>>,
    intermediates: Seq<u8>,
    action: char,
    m: [u8; 8],
    n: [u8; 8],
)
    requires
        alike(t, u),
    ensures
        both_alike(
            t.csi(params, intermediates, action, m),
            u.csi(params, intermediates, action, n),
        ),
{
    let p = crate::term::first_params(params);
    let (x, y) = (
        TermView { in_ground: true, pending_wrap: false, ..t },
        TermView { in_ground: true, pending_wrap: false, ..u },
    );
    lemma_flags_alike(t, u, true);
    if action == 'J' {
        lemma_display_alike(x, y, crate::term::arg(p, 0, 0), m, n);
    } else if intermediates.len() > 0 && intermediates[0] == 63 {
        lemma_modes_alike(x, y, p, 0, true);
        lemma_modes_alike(x, y, p, 0, false);
    } else {
        lemma_public_alike(x, y, p, intermediates, action, m, n);
    }
}

proof fn lemma_esc_alike(
    t: TermView,
    u: TermView,
    intermediates: Seq<u8>,
    byte: u8,
    m: [u8; 8],
    n: [u8; 8],
)
    requires
        alike(t, u),
    ensures
        alike(t.esc(intermediates, byte, m), u.esc(intermediates, byte, n)),
{
    reveal(alike);
    let (x, y) = (
        TermView { in_ground: true, pending_wrap: false, ..t },
        TermView { in_ground: true, pending_wrap: false, ..u },
    );
    assert(alike(x, y));
    lemma_fed_alike(x.grid, y.grid, m, n);
    let (g, h) = (x.grid.at(x.grid.screen.row, 0), y.grid.at(y.grid.screen.row, 0));
    assert(alike_grids(g, h));
    lemma_fed_alike(g, h, m, n);
    lemma_saved_alike(x, y);
    assert(alike_blocks(x.full_reset().grid.blocks, y.full_reset().grid.blocks)) by {
        reveal(alike_blocks);
    }
}

proof fn lemma_marked_alike(
    t: TermView,
    u: TermView,
    params: Seq<Seq<u8>>,
    m: [u8; 8],
    n: [u8; 8],
)
    requires
        alike(t, u),
    ensures
        both_alike(t.marked(params, m), u.marked(params, n)),
{
    reveal(alike);
    let (a, b) = (t.grid.blocks, u.grid.blocks);
    let code = crate::osc::exit_code(params);
    let row = t.grid.cursor_abs();
    lemma_marks_alike(a, b, BlockTrigger::Osc133A, row, code, m, n);
    lemma_marks_alike(a, b, BlockTrigger::Osc133A, t.grid.screen.col, code, m, n);
    lemma_blocks_alike(
        t,
        u,
        a.started(BlockTrigger::Osc133A, row, m),
        b.started(BlockTrigger::Osc133A, row, n),
    );
    lemma_blocks_alike(t, u, a.executing(t.grid.screen.col), b.executing(t.grid.screen.col));
    lemma_blocks_alike(t, u, a.completed(code), b.completed(code));
}

proof fn lemma_blocks_alike(t: TermView, u: TermView, a: BlocksView, b: BlocksView)
    requires
        alike(t, u),
        alike_blocks(a, b),
    ensures
        alike(t.with_blocks(a), u.with_blocks(b)),
{
    reveal(alike);
}

proof fn lemma_osc_alike(
    t: TermView,
    u: TermView,
    params: Seq<Seq<u8>>,
    bell: bool,
    m: [u8; 8],
    n: [u8; 8],
)
    requires
        alike(t, u),
    ensures
        both_alike(t.osc(params, bell, m), u.osc(params, bell, n)),
{
    reveal(alike);
    let (x, y) = (
        TermView { in_ground: t.in_ground || bell, ..t },
        TermView { in_ground: u.in_ground || bell, ..u },
    );
    assert(alike(x, y));
    lemma_marked_alike(x, y, params, m, n);
}

proof fn lemma_performed_alike(t: TermView, u: TermView, e: EventView, m: [u8; 8], n: [u8; 8])
    requires
        alike(t, u),
    ensures
        both_alike(t.performed(e, m), u.performed(e, n)),
{
    lemma_flags_alike(t, u, true);
    lemma_flags_alike(t, u, false);
    match e {
        EventView::Print(c) => {
            lemma_placed_alike(
                TermView { in_ground: true, ..t },
                TermView { in_ground: true, ..u },
                c,
                crate::width::printed_width(c),
                m,
                n,
            );
        },
        EventView::Execute(b) => lemma_executed_alike(t, u, b, m, n),
        EventView::Csi(params, intermediates, _, action) => lemma_csi_alike(
            t,
            u,
            params,
            intermediates,
            action,
            m,
            n,
        ),
        EventView::Esc(intermediates, _, byte) => lemma_esc_alike(
            t,
            u,
            intermediates,
            byte,
            m,
            n,
        ),
        EventView::Osc(params, bell) => lemma_osc_alike(t, u, params, bell, m, n),
        _ => {},
    }
}

proof fn lemma_all_performed_alike(
    t: TermView,
    u: TermView,
    events: Seq<EventView>,
    m: [u8; 8],
    n: [u8; 8],
)
    requires
        alike(t, u),
    ensures
        both_alike(t.performed_all(events, m), u.performed_all(events, n)),
    decreases events.len(),
{
    if events.len() > 0 {
        lemma_performed_alike(t, u, events[0], m, n);
        match (t.performed(events[0], m), u.performed(events[0], n)) {
            (Some(a), Some(b)) => lemma_all_performed_alike(a, b, events.skip(1), m, n),
            _ => {},
        }
    }
}

/// The time at which bytes come has no part in what terminals that are alike become, timestamps
/// aside.
pub proof fn law_time_leaves_alike(
    s: InputView,
    t: InputView,
    data: Seq<u8>,
    m: [u8; 8],
    n: [u8; 8],
)
    requires
        alike_inputs(s, t),
    ensures
        both_inputs_alike(s.after(data, m), t.after(data, n)),
    decreases data.len(),
{
    if data.len() > 0 {
        reveal(InputView::after_byte);
        let b = data[0];
        lemma_flags_alike(s.term, t.term, false);
        if s.term.in_ground && crate::vt::printable(b) {
            lemma_placed_alike(s.term, t.term, b as char, 1, m, n);
        } else {
            lemma_all_performed_alike(
                TermView { in_ground: false, ..s.term },
                TermView { in_ground: false, ..t.term },
                crate::vt::vte_events(s.fed, b),
                m,
                n,
            );
        }
        match (s.after_byte(b, m), t.after_byte(b, n)) {
            (Some(x), Some(y)) => law_time_leaves_alike(x, y, data.skip(1), m, n),
            _ => {},
        }
    }
}

/// Two calls leave what one call on the joined bytes leaves, timestamps aside, wherever the bytes
/// are cut: in the middle of an escape sequence or of a character too.
pub proof fn law_two_calls_are_one(
    s: InputView,
    t: InputView,
    a: Seq<u8>,
    b: Seq<u8>,
    first: [u8; 8],
    second: [u8; 8],
    once: [u8; 8],
)
    requires
        alike_inputs(s, t),
    ensures
        both_inputs_alike(
            match s.after_batch(a, first) {
                Some(x) => x.after_batch(b, second),
                None => None,
            },
            t.after_batch(a + b, once),
        ),
{
    reveal(alike);
    let x = InputView {
        term: s.term.with_grid(GridView { batch: first, ..s.term.grid }),
        ..s
    };
    let y = InputView { term: t.term.with_grid(GridView { batch: once, ..t.term.grid }), ..t };
    assert(alike_inputs(x, y));
    law_time_leaves_alike(x, y, a, first, once);
    crate::vt::law_input_pieces(y, a, b, once);
    match (x.after(a, first), y.after(a, once)) {
        (Some(p), Some(q)) => {
            let r = InputView {
                term: p.term.with_grid(GridView { batch: second, ..p.term.grid }),
                ..p
            };
            assert(alike_inputs(r, q));
            law_time_leaves_alike(r, q, b, second, once);
        },
        _ => {},
    }
}

} // verus!
