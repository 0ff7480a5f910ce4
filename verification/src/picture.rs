//! What stands on the screen: colours, and the quads of cells, cursors and folds.

use crate::cell::{Cell, CellAttrs, Color, CursorStyle, Selection};
use crate::scene::{cell_in, in_theme, Ink, Look, Quad, RowItem, Shape, Walk};
use crate::theme::ThemeBytes;
use vstd::prelude::*;

verus! {

/// A direct colour is drawn as it was given, opaque, in any theme.
pub proof fn law_direct_colour(t: ThemeBytes, r: u8, g: u8, b: u8, is_fg: bool)
    ensures
        in_theme(t, Color::Rgb(r, g, b), is_fg) == (r, g, b, 255u8),
{
}

/// The palette: the default colours and the first sixteen are the theme's, then come a cube of
/// six steps for red, green and blue and a ramp of 24 greys, opaque and the same in any theme.
pub proof fn law_palette(t: ThemeBytes, i: u8, r: u8, g: u8, b: u8, k: u8, is_fg: bool)
    requires
        i < 16,
        r < 6,
        g < 6,
        b < 6,
        k < 24,
    ensures
        in_theme(t, Color::Default, true) == t.fg,
        in_theme(t, Color::Default, false) == t.bg,
        in_theme(t, Color::Indexed(i), is_fg) == (
            t.ansi@[i as int].0,
            t.ansi@[i as int].1,
            t.ansi@[i as int].2,
            255u8,
        ),
        ({
            let c = in_theme(t, Color::Indexed((16 + 36 * r + 6 * g + b) as u8), is_fg);
            c.0 == 51 * r && c.1 == 51 * g && c.2 == 51 * b && c.3 == 255
        }),
        ({
            let c = in_theme(t, Color::Indexed((232 + k) as u8), is_fg);
            c.0 == 8 + 10 * k && c.1 == c.0 && c.2 == c.0 && c.3 == 255
        }),
{
    let n = 36 * r + 6 * g + b;
    assert(n / 36 == r);
    assert(n / 6 == 6 * r + g);
    assert((6 * r + g) % 6 == g);
    assert(n % 6 == b);
}

/// A selection from one cell on to a later one covers the cells from the first to the second in
/// reading order: in one row the columns between, in several rows the rest of the first, all of
/// those between, and the beginning of the last.
pub proof fn law_selection_in_reading_order(s: Selection, row: int, col: int)
    requires
        s.start_row < s.end_row || s.start_row == s.end_row && s.start_col <= s.end_col,
    ensures
        s.covers(row, col) == (s.start_row <= row <= s.end_row && (row == s.start_row ==> col
            >= s.start_col) && (row == s.end_row ==> col <= s.end_col)),
{
}

/// The cell is selected.
pub open spec fn selected(look: Look, abs: int, col: int) -> bool {
    look.g.selection matches Some(s) && s.covers(abs, col)
}

/// The cell is under a block cursor: that shows, in a pane that is not scrolled back.
pub open spec fn under_cursor(look: Look, abs: int, col: int) -> bool {
    &&& look.show_cursor
    &&& look.g.offset == 0
    &&& look.g.style == CursorStyle::Block
    &&& abs == look.g.screen.history.len() + look.g.screen.row
    &&& col == look.g.screen.col
}

/// A colour of the theme as it is drawn.
pub open spec fn drawn(t: ThemeBytes, c: Color, is_fg: bool) -> Ink {
    let b = in_theme(t, c, is_fg);
    Ink::Rgba(b.0, b.1, b.2, b.3)
}

/// The quad of a cell: it stands in the cell's column behind the gutter, shows the cell's
/// character unless that is blank, and has these colours.
pub open spec fn cell_drawn(
    look: Look,
    q: Quad,
    cell: Cell,
    col: int,
    v: int,
    fg: Ink,
    bg: Ink,
) -> bool {
    &&& q.pane == look.pane
    &&& q.row == v
    &&& q.col == if look.log {
        20 + col
    } else {
        col
    }
    &&& q.shape == Shape::Cell
    &&& q.glyph == if cell.ch as int <= 32 {
        None::<char>
    } else {
        Some(cell.ch)
    }
    &&& q.fg == fg
    &&& q.bg == bg
    &&& q.wide == (cell.attrs.bits & 0x100 == 0x100)
}

/// A cell that is neither selected nor matched nor under the cursor is drawn in its own colours;
/// in the log view every other block has a lighter background. A selection changes its background,
/// a search match both colours, the current match too, and a block cursor swaps them.
#[verifier::rlimit(40)]
pub proof fn law_cell_colours(look: Look, cell: Cell, abs: int, col: int, v: int, block: int)
    requires
        0 <= v <= usize::MAX,
        0 <= col,
        20 + col <= usize::MAX,
        0 <= abs < usize::MAX,
        0 <= look.g.offset,
        0 <= block,
        0 <= look.g.screen.row,
        look.g.screen.history.len() + look.g.screen.row < usize::MAX,
    ensures
        ({
            let place = (abs as usize, col as usize);
            let matched = look.all.contains(place);
            let current = look.current.contains(place);
            let lighter = look.log && block % 2 == 1 && in_theme(look.theme, cell.bg, false)
                == look.theme.bg;
            let own = if lighter {
                Ink::Tint
            } else {
                drawn(look.theme, cell.bg, false)
            };
            let s = look.theme.selection_bg;
            let fg = drawn(look.theme, cell.fg, true);
            let q = look.cell_quad(cell, abs, col, v, block);
            let swapped = under_cursor(look, abs, col);
            &&& !selected(look, abs, col) && !matched && !current && !swapped ==> cell_drawn(
                look,
                q,
                cell,
                col,
                v,
                fg,
                own,
            )
            &&& selected(look, abs, col) && !matched && !current && !swapped ==> cell_drawn(
                look,
                q,
                cell,
                col,
                v,
                fg,
                Ink::Rgba(s.0, s.1, s.2, s.3),
            )
            &&& matched && !current && !swapped ==> cell_drawn(
                look,
                q,
                cell,
                col,
                v,
                Ink::MatchFg,
                Ink::MatchBg,
            )
            &&& current && !swapped ==> cell_drawn(
                look,
                q,
                cell,
                col,
                v,
                Ink::CurrentFg,
                Ink::CurrentBg,
            )
            &&& swapped && !selected(look, abs, col) && !matched && !current ==> cell_drawn(
                look,
                q,
                cell,
                col,
                v,
                own,
                fg,
            )
            &&& swapped && current ==> cell_drawn(
                look,
                q,
                cell,
                col,
                v,
                Ink::CurrentBg,
                Ink::CurrentFg,
            )
            &&& swapped && matched && !current ==> cell_drawn(
                look,
                q,
                cell,
                col,
                v,
                Ink::MatchBg,
                Ink::MatchFg,
            )
            &&& swapped && selected(look, abs, col) && !matched && !current ==> cell_drawn(
                look,
                q,
                cell,
                col,
                v,
                Ink::Rgba(s.0, s.1, s.2, s.3),
                fg,
            )
        }),
{
}

/// The quads of a row stand among those of all rows.
proof fn lemma_row_among(look: Look, items: Seq<RowItem>, v: int, q: Quad)
    requires
        0 <= v < items.len(),
        look.row_quads(items[v], v).contains(q),
    ensures
        look.rows_quads(items).contains(q),
    decreases items.len(),
{
    let before = look.rows_quads(items.drop_last());
    let last = look.row_quads(items.last(), items.len() - 1);
    let all = look.rows_quads(items);
    if v < items.len() - 1 {
        lemma_row_among(look, items.drop_last(), v, q);
        let k = choose|k: int| 0 <= k < before.len() && before[k] == q;
        assert(all[k] == q);
    } else {
        let k = choose|k: int| 0 <= k < last.len() && last[k] == q;
        assert(all[before.len() + k] == q);
    }
}

/// The quad of a cell stands among those of its row.
proof fn lemma_cell_among(
    look: Look,
    line: Seq<Cell>,
    abs: int,
    v: int,
    block: int,
    n: nat,
    col: int,
)
    requires
        0 <= col < n,
        !cell_in(line, col).attrs.has(CellAttrs::WIDE_TAIL),
    ensures
        look.cell_quads(line, abs, v, block, n).contains(
            look.cell_quad(cell_in(line, col), abs, col, v, block),
        ),
    decreases n,
{
    let q = look.cell_quad(cell_in(line, col), abs, col, v, block);
    let before = look.cell_quads(line, abs, v, block, (n - 1) as nat);
    let all = look.cell_quads(line, abs, v, block, n);
    if col < n - 1 {
        lemma_cell_among(look, line, abs, v, block, (n - 1) as nat, col);
        let k = choose|k: int| 0 <= k < before.len() && before[k] == q;
        assert(all[k] == q);
    } else {
        assert(all[before.len() as int] == q);
    }
}

/// Without a log view every cell of the rows in the viewport is drawn in its place: row `v` of
/// the pane shows the row `v` below the viewport's top, which lies `offset` rows above the first
/// row of the screen, column by column.
#[verifier::rlimit(40)]
pub proof fn law_every_cell_drawn(look: Look, v: int, col: int)
    requires
        !look.log,
        look.g.wf(),
        0 <= v < look.g.rows,
        0 <= col < look.g.cols,
        look.g.offset <= look.g.screen.history.len(),
        look.g.screen.total() < usize::MAX,
    ensures
        ({
            let s = look.g.screen;
            let abs = s.history.len() - look.g.offset + v;
            let line = if abs < s.history.len() {
                s.history[abs]
            } else {
                s.lines[abs - s.history.len()]
            };
            let cell = if col < line.len() {
                line[col]
            } else {
                Cell {
                    ch: ' ',
                    fg: Color::Default,
                    bg: Color::Default,
                    attrs: CellAttrs { bits: 0 },
                }
            };
            let place = (abs as usize, col as usize);
            cell.attrs.bits & 0x200 != 0x200 && !selected(look, abs, col) && !look.all.contains(
                place,
            ) && !look.current.contains(place) && !under_cursor(look, abs, col) ==> exists|q: Quad|
                #[trigger]
                look.quads().contains(q) && cell_drawn(
                    look,
                    q,
                    cell,
                    col,
                    v,
                    drawn(look.theme, cell.fg, true),
                    drawn(look.theme, cell.bg, false),
                )
        }),
{
    let s = look.g.screen;
    let abs = s.history.len() - look.g.offset + v;
    let line = s.line(abs).unwrap();
    let cell = cell_in(line, col);
    crate::scene::lemma_plain_items(look);
    assert(look.items().len() > v);
    crate::scene::law_plain_rows(look, v);
    if !cell.attrs.has(CellAttrs::WIDE_TAIL) {
        lemma_cell_among(look, line, abs, v, 0, look.g.cols as nat, col);
        law_cell_colours(look, cell, abs, col, v, 0);
        let q = look.cell_quad(cell, abs, col, v, 0);
        lemma_row_among(look, look.items(), v, q);
        let rows = look.rows_quads(look.items());
        let k = choose|k: int| 0 <= k < rows.len() && rows[k] == q;
        assert(look.quads()[k] == q);
        assert(look.quads().contains(q));
    }
}

/// A cursor that is no block is drawn once, in the theme's colour for it, as a line below or left
/// of its cell, and where no cursor shows there is none.
#[verifier::rlimit(40)]
pub proof fn law_line_cursor(look: Look)
    requires
        !look.log,
        look.g.wf(),
        look.g.offset == 0,
        look.g.rows >= 1,
        look.g.screen.total() < usize::MAX,
    ensures
        ({
            let s = look.g.screen;
            let c = look.theme.cursor_bg;
            let over = look.overlay(look.items());
            &&& !look.show_cursor || look.g.style == CursorStyle::Block ==> over.len() == 0
            &&& look.show_cursor && look.g.style != CursorStyle::Block ==> {
                &&& over.len() == 1
                &&& over[0].pane == look.pane
                &&& over[0].row == s.row
                &&& over[0].col == s.col
                &&& over[0].glyph == None::<char>
                &&& over[0].fg == Ink::Rgba(c.0, c.1, c.2, c.3)
                &&& look.g.style == CursorStyle::Underline ==> over[0].shape
                    == Shape::CursorUnderline
                &&& look.g.style == CursorStyle::Bar ==> over[0].shape == Shape::CursorBar
                &&& look.quads().last() == over[0]
            }
        }),
{
    crate::scene::lemma_plain_items(look);
    lemma_cursor_found(look, look.items(), look.g.screen.row);
}

proof fn lemma_cursor_found(look: Look, items: Seq<RowItem>, v: int)
    requires
        0 <= v < items.len(),
        items[v] matches RowItem::Line { abs, .. } && abs == look.cursor(),
        forall|i: int|
            v < i < items.len() ==> (#[trigger] items[i] matches RowItem::Line { abs, .. } ==> abs
                != look.cursor()),
    ensures
        look.cursor_place(items) == Some(v),
    decreases items.len(),
{
    if v < items.len() - 1 {
        assert(items[items.len() - 1] == items.last());
        lemma_cursor_found(look, items.drop_last(), v);
    }
}

/// No row is lost in the log view: between two rows of the pane that follow each other there are
/// only rows that hold nothing any more, what once was wrapped into them being gone.
pub proof fn law_rows_follow(look: Look, w: Walk, v: nat, i: int, abs: int)
    requires
        0 <= i,
        i + 1 < look.layout(w, v).len(),
        crate::scene::item_end(look.layout(w, v)[i]) <= abs,
        abs < crate::scene::item_start(look.layout(w, v)[i + 1]),
    ensures
        look.log,
        look.g.screen.wrap_flag(abs),
        abs != look.cursor(),
    decreases crate::blocks::monus(look.g.screen.total(), w.abs),
{
    let items = look.layout(w, v);
    if look.skips(w) {
        law_rows_follow(look, Walk { abs: w.abs + 1, ..w }, v, i, abs);
    } else {
        let e = look.entered(w);
        let (item, next) = if look.folds_here(e) {
            (
                RowItem::Summary { from: e.abs, to: look.fold_to(e) },
                Walk { abs: look.fold_to(e), ..e },
            )
        } else {
            (look.line_item(e), Walk { abs: e.abs + 1, line: look.line_after(e), ..e })
        };
        let rest = look.layout(next, v + 1);
        assert(items =~= seq![item] + rest);
        if i > 0 {
            assert(items[i] == rest[i - 1]);
            assert(items[i + 1] == rest[i]);
            law_rows_follow(look, next, v + 1, i - 1, abs);
        } else {
            assert(items[1] == rest[0]);
            lemma_first_after(look, next, v + 1, abs);
        }
    }
}

/// Rows before the first that is shown are left out.
proof fn lemma_first_after(look: Look, w: Walk, v: nat, abs: int)
    requires
        look.layout(w, v).len() > 0,
        w.abs <= abs < crate::scene::item_start(look.layout(w, v)[0]),
    ensures
        look.log,
        look.g.screen.wrap_flag(abs),
        abs != look.cursor(),
    decreases crate::blocks::monus(look.g.screen.total(), w.abs),
{
    if look.skips(w) {
        if abs > w.abs {
            lemma_first_after(look, Walk { abs: w.abs + 1, ..w }, v, abs);
        }
    } else {
        let e = look.entered(w);
        if look.folds_here(e) {
            assert(look.layout(w, v)[0] == RowItem::Summary { from: e.abs, to: look.fold_to(e) });
        } else {
            assert(look.layout(w, v)[0] == look.line_item(e));
        }
    }
}

/// The walk knows the block that its row is in, or one starts there.
spec fn knows_block(look: Look, w: Walk) -> bool {
    let b = look.g.blocks;
    &&& b.upper(w.abs) > 0
    &&& b.starts_at(w.abs) || (w.block == b.upper(w.abs) - 1 && w.id == b.blocks[w.block].id)
}

#[verifier::rlimit(40)]
proof fn lemma_next_known(look: Look, w: Walk, to: int)
    requires
        look.g.blocks.sorted(),
        look.g.blocks.upper(w.abs) > 0,
        w.block == look.g.blocks.upper(w.abs) - 1,
        w.id == look.g.blocks.blocks[w.block].id,
        w.abs < to,
        w.block + 1 < look.g.blocks.blocks.len() ==> to <= look.g.blocks.blocks[w.block
            + 1].start_row || to == w.abs + 1,
    ensures
        knows_block(look, Walk { abs: to, ..w }),
{
    let b = look.g.blocks;
    crate::blocks::law_upper_parts(b, w.abs);
    crate::blocks::law_upper_parts(b, to);
    let k = b.upper(w.abs);
    let m = b.upper(to);
    assert(b.blocks[k - 1].start_row <= w.abs);
    assert(k - 1 < m);
    if m > k {
        assert(b.blocks[k].start_row <= to);
        assert(b.blocks[m - 1].start_row <= to);
        assert(b.blocks[k].start_row > w.abs);
        assert(b.blocks[k].start_row <= b.blocks[m - 1].start_row);
    }
}

/// A click finds the row that is drawn there: the absolute row that is found for row `i` of the
/// log view is the one that row shows, or begins with rows above it that hold nothing any more.
/// The pane is not scrolled back, its blocks are in row order, none starts in a row that is marked
/// as going on from the one above, and one holds its first row.
pub proof fn law_click_finds_row(look: Look, i: int)
    requires
        look.log,
        look.g.offset == 0,
        look.g.blocks.sorted(),
        forall|j: int|
            0 <= j < look.g.blocks.blocks.len() ==> !look.g.screen.wrap_flag(
                (#[trigger] look.g.blocks.blocks[j]).start_row as int,
            ),
        look.g.cursor_abs() < usize::MAX,
        look.g.blocks.upper(look.start().abs) > 0,
        0 <= i < look.items().len(),
    ensures
        ({
            let abs = look.g.rows_below(look.g.first_shown(look.folds), i, look.folds);
            let first = crate::scene::item_start(look.items()[i]);
            &&& abs <= first
            &&& forall|k: int| abs <= k < first ==> #[trigger] look.g.screen.wrap_flag(k)
        }),
{
    assert(look.g.first_shown(look.folds) == look.start().abs);
    lemma_rows_agree(look, look.start(), 0, i);
}

#[verifier::rlimit(40)]
proof fn lemma_rows_agree(look: Look, w: Walk, v: nat, i: int)
    requires
        look.log,
        look.g.offset == 0,
        look.g.blocks.sorted(),
        forall|j: int|
            0 <= j < look.g.blocks.blocks.len() ==> !look.g.screen.wrap_flag(
                (#[trigger] look.g.blocks.blocks[j]).start_row as int,
            ),
        look.g.cursor_abs() < usize::MAX,
        knows_block(look, w),
        0 <= i < look.layout(w, v).len(),
    ensures
        ({
            let abs = look.g.rows_below(w.abs, i, look.folds);
            let first = crate::scene::item_start(look.layout(w, v)[i]);
            &&& abs <= first
            &&& forall|k: int| abs <= k < first ==> #[trigger] look.g.screen.wrap_flag(k)
        }),
    decreases crate::blocks::monus(look.g.screen.total(), w.abs),
{
    let b = look.g.blocks;
    let items = look.layout(w, v);
    let e = look.entered(w);
    assert(e.abs == w.abs && e.block == b.upper(w.abs) - 1 && e.id == b.blocks[e.block].id);
    crate::blocks::law_upper_parts(b, w.abs);
    if look.skips(w) {
        let next = Walk { abs: w.abs + 1, ..w };
        assert(!b.starts_at(w.abs)) by {
            if b.starts_at(w.abs) {
                assert(!look.g.screen.wrap_flag(b.blocks[b.upper(w.abs) - 1].start_row as int));
            }
        }
        lemma_next_known(look, w, w.abs + 1);
        lemma_rows_agree(look, next, v, i);
        if i == 0 {
            let first = crate::scene::item_start(items[0]);
            assert forall|k: int| w.abs <= k < first implies #[trigger] look.g.screen.wrap_flag(
                k,
            ) by {
                if k > w.abs {
                    assert(look.g.rows_below(next.abs, 0, look.folds) <= k);
                }
            }
        }
    } else {
        let folds = look.folds_here(e);
        let (item, next) = if folds {
            (
                RowItem::Summary { from: e.abs, to: look.fold_to(e) },
                Walk { abs: look.fold_to(e), ..e },
            )
        } else {
            (look.line_item(e), Walk { abs: e.abs + 1, line: look.line_after(e), ..e })
        };
        let rest = look.layout(next, v + 1);
        assert(items =~= seq![item] + rest);
        if i > 0 {
            assert(items[i] == rest[i - 1]);
            lemma_next_known(look, e, next.abs);
            assert(knows_block(look, next));
            lemma_rows_agree(look, next, v + 1, i - 1);
        }
    }
}

/// In the log view no row of a folded block is drawn but its first, and those from the cursor on.
/// The blocks are in row order, and none starts in a row that is marked as going on from the one
/// above.
pub proof fn law_folded_rows_hidden(look: Look, i: int, k: int)
    requires
        look.log,
        0 <= look.g.offset,
        look.g.blocks.sorted(),
        forall|j: int|
            0 <= j < look.g.blocks.blocks.len() ==> !look.g.screen.wrap_flag(
                (#[trigger] look.g.blocks.blocks[j]).start_row as int,
            ),
        look.g.blocks.upper(look.start().abs) > 0,
        0 <= i < look.items().len(),
        look.items()[i] is Line,
        0 <= k < look.g.blocks.blocks.len(),
        look.folds.contains(look.g.blocks.blocks[k].id),
        look.g.blocks.blocks[k].start_row < look.items()[i]->abs,
        k + 1 < look.g.blocks.blocks.len() ==> look.items()[i]->abs
            < look.g.blocks.blocks[k + 1].start_row,
        look.items()[i]->abs < look.g.screen.total(),
    ensures
        look.g.offset == 0,
        look.items()[i]->abs >= look.g.screen.history.len() + look.g.screen.row,
{
    lemma_folded_hidden(look, look.start(), 0, i, k);
}

#[verifier::rlimit(40)]
proof fn lemma_folded_hidden(look: Look, w: Walk, v: nat, i: int, k: int)
    requires
        look.log,
        look.g.blocks.sorted(),
        forall|j: int|
            0 <= j < look.g.blocks.blocks.len() ==> !look.g.screen.wrap_flag(
                (#[trigger] look.g.blocks.blocks[j]).start_row as int,
            ),
        knows_block(look, w),
        0 <= i < look.layout(w, v).len(),
        look.layout(w, v)[i] is Line,
        0 <= k < look.g.blocks.blocks.len(),
        look.folds.contains(look.g.blocks.blocks[k].id),
        look.g.blocks.blocks[k].start_row < look.layout(w, v)[i]->abs,
        k + 1 < look.g.blocks.blocks.len() ==> look.layout(w, v)[i]->abs
            < look.g.blocks.blocks[k + 1].start_row,
        look.layout(w, v)[i]->abs < look.g.screen.total(),
    ensures
        look.cursor() != usize::MAX && look.layout(w, v)[i]->abs >= look.cursor(),
    decreases crate::blocks::monus(look.g.screen.total(), w.abs),
{
    let b = look.g.blocks;
    let items = look.layout(w, v);
    let e = look.entered(w);
    crate::blocks::law_upper_parts(b, w.abs);
    if look.skips(w) {
        assert(!b.starts_at(w.abs)) by {
            if b.starts_at(w.abs) {
                assert(!look.g.screen.wrap_flag(b.blocks[b.upper(w.abs) - 1].start_row as int));
            }
        }
        lemma_next_known(look, w, w.abs + 1);
        lemma_folded_hidden(look, Walk { abs: w.abs + 1, ..w }, v, i, k);
    } else {
        let (item, next) = if look.folds_here(e) {
            (
                RowItem::Summary { from: e.abs, to: look.fold_to(e) },
                Walk { abs: look.fold_to(e), ..e },
            )
        } else {
            (look.line_item(e), Walk { abs: e.abs + 1, line: look.line_after(e), ..e })
        };
        let rest = look.layout(next, v + 1);
        assert(items =~= seq![item] + rest);
        if i > 0 {
            assert(items[i] == rest[i - 1]);
            lemma_next_known(look, e, next.abs);
            assert(knows_block(look, next));
            lemma_folded_hidden(look, next, v + 1, i - 1, k);
        } else {
            assert(items[0] == item);
            assert(b.upper(w.abs) == k + 1);
            assert(e.block == k);
        }
    }
}

/// A line that stands for folded rows says how many lines they are: as many as there are rows where
/// none goes on from the one above.
pub proof fn law_summary_counts(look: Look, from: int, to: int)
    requires
        from <= to,
        forall|k: int| from <= k < to ==> !#[trigger] look.g.screen.wrap_flag(k),
    ensures
        crate::scene::logical_lines(look.g, from, to) == to - from,
        look.summary_text(from, to) == "  --- "@ + crate::number::digits((to - from) as nat)
            + " lines folded ---"@,
    decreases to - from,
{
    if from < to {
        law_summary_counts(look, from, to - 1);
        assert(!look.g.screen.wrap_flag(to - 1));
    }
}

/// The gutter of a row that begins a line: the mark of a block's first row, open or folded, then
/// the line's number in four places, then its time, then a rule; of a row that goes on, a dot in
/// the number's place and no time.
pub proof fn law_gutter(look: Look, abs: int, id: u64, starts: bool, n: nat)
    requires
        n < 10000,
    ensures
        ({
            let t = look.gutter_text(abs, id, starts, n);
            let on = look.g.screen.continues(abs);
            let label = crate::number::spaced(n, 4);
            &&& t.len() >= 5
            &&& !on && starts && look.folds.contains(id) ==> t[0] == '>'
            &&& !on && starts && !look.folds.contains(id) ==> t[0] == 'v'
            &&& on || !starts ==> t[0] == ' '
            &&& !on ==> label.len() == 4 && t.subrange(1, 5) == label
            &&& on ==> t.subrange(1, 5) == seq![' ', ' ', ' ', '·']
        }),
{
    reveal_strlit("   ·");
    lemma_four_places(n);
    let t = look.gutter_text(abs, id, starts, n);
    let on = look.g.screen.continues(abs);
    if on {
        assert(t.subrange(1, 5) =~= seq![' ', ' ', ' ', '·']);
    } else {
        assert(t.subrange(1, 5) =~= crate::number::spaced(n, 4));
    }
}

proof fn lemma_four_places(n: nat)
    requires
        n < 10000,
    ensures
        crate::number::spaced(n, 4).len() == 4,
{
    reveal_with_fuel(crate::number::decimal, 5);
}

/// The time beside a row is that of the row: in the history the one it went there with, on the
/// screen the one of its first write, and none where it was not written.
pub proof fn law_time_beside_row(look: Look, abs: int, text: Seq<char>)
    requires
        look.g.wf(),
        0 <= abs < look.g.screen.total(),
        ({
            let s = look.g.screen;
            let ts = if abs < s.history.len() {
                s.history_stamps[abs]
            } else {
                s.stamps[abs - s.history.len()]
            };
            &&& ts@ == vstd::utf8::encode_utf8(text)
            &&& ts != crate::clock::unset()
        }),
    ensures
        look.time_text(abs) == text,
{
    vstd::utf8::encode_utf8_valid_utf8(text);
    vstd::utf8::encode_utf8_decode_utf8(text);
}

/// In the log view every cell of a row that is shown is drawn in that row of the pane, behind the
/// gutter, in its own colours where it is neither selected nor matched nor under the cursor; every
/// other block has the lighter background.
#[verifier::rlimit(40)]
pub proof fn law_every_logged_cell_drawn(look: Look, v: int, col: int)
    requires
        look.log,
        look.g.wf(),
        0 <= v < look.items().len(),
        look.items()[v] is Line,
        0 <= look.items()[v]->abs < look.g.screen.total() < usize::MAX,
        0 <= look.items()[v]->block,
        0 <= col < look.g.cols,
        20 + look.g.cols <= usize::MAX,
        look.g.screen.line(look.items()[v]->abs) matches Some(line) && col < line.len(),
    ensures
        ({
            let abs = look.items()[v]->abs;
            let cell = look.g.screen.line(abs).unwrap()[col];
            let place = (abs as usize, col as usize);
            let lighter = look.items()[v]->block % 2 == 1 && in_theme(look.theme, cell.bg, false)
                == look.theme.bg;
            cell.attrs.bits & 0x200 != 0x200 && !selected(look, abs, col) && !look.all.contains(
                place,
            ) && !look.current.contains(place) && !under_cursor(look, abs, col) ==> exists|q: Quad|
                #[trigger]
                look.quads().contains(q) && cell_drawn(
                    look,
                    q,
                    cell,
                    col,
                    v,
                    drawn(look.theme, cell.fg, true),
                    if lighter {
                        Ink::Tint
                    } else {
                        drawn(look.theme, cell.bg, false)
                    },
                )
        }),
{
    let item = look.items()[v];
    let abs = item->abs;
    let block = item->block;
    let line = look.g.screen.line(abs).unwrap();
    let cell = cell_in(line, col);
    lemma_items_fit(look);
    if !cell.attrs.has(CellAttrs::WIDE_TAIL) {
        lemma_cell_among(look, line, abs, v, block, look.g.cols as nat, col);
        law_cell_colours(look, cell, abs, col, v, block);
        let q = look.cell_quad(cell, abs, col, v, block);
        let cells = look.cell_quads(line, abs, v, block, look.g.cols as nat);
        let row = look.row_quads(item, v);
        let before = row.len() - cells.len();
        let c = choose|c: int| 0 <= c < cells.len() && cells[c] == q;
        assert(row[before + c] == q);
        lemma_row_among(look, look.items(), v, q);
        let rows = look.rows_quads(look.items());
        let k = choose|k: int| 0 <= k < rows.len() && rows[k] == q;
        assert(look.quads()[k] == q);
        assert(look.quads().contains(q));
    }
}

/// No more rows are shown than the pane has.
proof fn lemma_items_fit(look: Look)
    ensures
        look.items().len() > 0 ==> look.items().len() <= look.g.rows,
{
    if look.items().len() > 1 {
        crate::scene::law_rows_descend(look, look.start(), 0, 0, 1);
    } else if look.items().len() == 1 {
        assert(look.g.rows > 0);
    }
}

/// In the log view a cursor that is no block is drawn in the row that shows the cursor's, behind
/// the gutter.
pub proof fn law_line_cursor_in_log(look: Look, v: int)
    requires
        look.log,
        look.show_cursor,
        look.g.wf(),
        look.g.style != CursorStyle::Block,
        look.g.offset == 0,
        look.g.cursor_abs() < usize::MAX,
        20 + look.g.screen.col <= usize::MAX,
        0 <= v < look.items().len(),
        look.items()[v] is Line,
        look.items()[v]->abs == look.g.screen.history.len() + look.g.screen.row,
    ensures
        ({
            let over = look.overlay(look.items());
            &&& over.len() == 1
            &&& over[0].row == v
            &&& over[0].col == 20 + look.g.screen.col
            &&& look.quads().last() == over[0]
        }),
{
    let items = look.items();
    lemma_items_fit(look);
    assert forall|i: int| v < i < items.len() implies (#[trigger] items[i] matches RowItem::Line {
        abs,
        ..
    } ==> abs != look.cursor()) by {
        crate::scene::law_rows_descend(look, look.start(), 0, v, i);
    }
    lemma_cursor_found(look, items, v);
}

/// Without folds and wrapped rows the log view shows row after row from its first on, and the
/// number beside each is its place among all rows, counted from 1.
pub proof fn law_line_numbers(look: Look, i: int)
    requires
        look.log,
        look.folds == Set::<u64>::empty(),
        forall|k: int| !#[trigger] look.g.screen.wrap_flag(k),
        0 <= look.start().abs,
        0 <= i < look.items().len(),
    ensures
        ({
            let first = look.start().abs;
            look.items()[i] matches RowItem::Line { abs, number, .. } && abs == first + i && number
                == abs + 1
        }),
{
    lemma_lines_before(look, look.start().abs);
    lemma_line_numbers(look, look.start(), 0, i);
}

proof fn lemma_lines_before(look: Look, abs: int)
    requires
        forall|k: int| !#[trigger] look.g.screen.wrap_flag(k),
        0 <= abs,
    ensures
        crate::scene::logical_lines(look.g, 0, abs) == abs,
    decreases abs,
{
    if abs > 0 {
        lemma_lines_before(look, abs - 1);
        assert(!look.g.screen.wrap_flag(abs - 1));
    }
}

proof fn lemma_line_numbers(look: Look, w: Walk, v: nat, i: int)
    requires
        look.log,
        look.folds == Set::<u64>::empty(),
        forall|k: int| !#[trigger] look.g.screen.wrap_flag(k),
        w.line == w.abs,
        0 <= i < look.layout(w, v).len(),
    ensures
        look.layout(w, v)[i] matches RowItem::Line { abs, number, .. } && abs == w.abs + i
            && number == abs + 1,
    decreases i,
{
    assert(!look.g.screen.wrap_flag(w.abs));
    let e = look.entered(w);
    let next = Walk { abs: e.abs + 1, line: look.line_after(e), ..e };
    let rest = look.layout(next, v + 1);
    assert(look.layout(w, v) =~= seq![look.line_item(e)] + rest);
    if i > 0 {
        assert(look.layout(w, v)[i] == rest[i - 1]);
        lemma_line_numbers(look, next, v + 1, i - 1);
    }
}

} // verus!
