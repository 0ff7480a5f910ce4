//! Drawing a frame again in part gives what drawing it anew gives.

use crate::frame::{
    all_kept, all_lifted, kept, lifted, row_fits, spliced, starts_of, Frame, PrevFrame,
};
use crate::grid::GridView;
use crate::scene::{lemma_plain_items, Look, PanePlan, Quad};
use vstd::prelude::*;

verus! {

/// Everything that panes show, one pane after the other.
pub open spec fn whole(looks: Seq<Look>) -> Seq<Quad>
    decreases looks.len(),
{
    if looks.len() == 0 {
        Seq::empty()
    } else {
        whole(looks.drop_last()) + looks.last().quads()
    }
}

/// Panes without a log view.
pub open spec fn all_plain(looks: Seq<Look>) -> bool {
    forall|p: int|
        0 <= p < looks.len() ==> !(#[trigger] looks[p]).log && looks[p].g.rows >= 0
            && looks[p].g.cols >= 0
}

/// The frame holds what the panes show, and knows where each row begins.
pub open spec fn shows(prev: PrevFrame, looks: Seq<Look>) -> bool {
    &&& prev.quads@ == whole(looks)
    &&& prev.panes@.len() == looks.len()
    &&& forall|p: int|
        0 <= p < looks.len() ==> row_starts_of(
            looks[p],
            whole(looks.take(p)).len() as int,
            (#[trigger] prev.panes@[p]).row_starts@,
        )
}

/// Where the rows of a pane begin, and the pane ends.
pub open spec fn row_starts_of(look: Look, base: int, starts: Seq<usize>) -> bool {
    let items = look.items();
    &&& starts.len() == items.len() + 1
    &&& forall|v: int|
        0 <= v < items.len() ==> #[trigger] starts[v] == base + look.rows_quads(
            items.take(v),
        ).len()
    &&& starts[items.len() as int] == base + look.quads().len()
}

/// A pane in which at most the selection has moved.
pub open spec fn selection_moved(before: Look, after: Look) -> bool {
    after == (Look { g: GridView { selection: after.g.selection, ..before.g }, ..before })
}

/// A cell of the screen is selected.
pub open spec fn selected(look: Look, v: int, col: int) -> bool {
    look.g.selection matches Some(s) && s.covers(look.g.view_start() + v, col)
}

proof fn lemma_kept_all(quads: Seq<Quad>, spans: Seq<u32>)
    requires
        lifted(quads, spans).len() == 0,
    ensures
        kept(quads, spans) == quads,
    decreases quads.len(),
{
    if quads.len() > 0 {
        lemma_kept_all(quads.drop_last(), spans);
        assert(quads.drop_last().push(quads.last()) =~= quads);
    } else {
        assert(quads =~= Seq::empty());
    }
}

proof fn lemma_lifted_prefix(quads: Seq<Quad>, spans: Seq<u32>, n: int)
    requires
        lifted(quads, spans).len() == 0,
        0 <= n <= quads.len(),
    ensures
        lifted(quads.take(n), spans).len() == 0,
    decreases quads.len() - n,
{
    if n < quads.len() {
        lemma_lifted_prefix(quads, spans, n + 1);
        assert(quads.take(n + 1).drop_last() =~= quads.take(n));
    } else {
        assert(quads.take(n) =~= quads);
    }
}

proof fn lemma_all_kept(plans: Seq<PanePlan>, spans: Seq<Vec<u32>>, looks: Seq<Look>, n: nat)
    requires
        n <= plans.len() == looks.len(),
        forall|p: int| 0 <= p < plans.len() ==> (#[trigger] plans[p]).of(looks[p]),
        forall|p: int|
            0 <= p < plans.len() ==> lifted((#[trigger] plans[p]).quads@, spans[p]@).len() == 0,
    ensures
        all_kept(plans, spans, n) == whole(looks.take(n as int)),
        all_lifted(plans, spans, n) == Seq::<Quad>::empty(),
    decreases n,
{
    if n > 0 {
        lemma_all_kept(plans, spans, looks, (n - 1) as nat);
        let plan = plans[n - 1];
        assert(plan.of(looks[n - 1]));
        lemma_kept_all(plan.quads@, spans[n - 1]@);
        assert(looks.take(n as int).drop_last() =~= looks.take(n - 1));
        assert(lifted(plan.quads@, spans[n - 1]@) =~= Seq::empty());
        assert(all_lifted(plans, spans, n) =~= Seq::empty());
    } else {
        assert(looks.take(0) =~= Seq::empty());
        assert(all_lifted(plans, spans, 0) =~= Seq::<Quad>::empty());
    }
}

/// A frame that was planned anew, with no glyph that reaches beyond its cell, holds what its panes
/// show.
pub proof fn law_remembered_frame_shows(
    prev: PrevFrame,
    frame: Frame,
    plans: Seq<PanePlan>,
    spans: Seq<Vec<u32>>,
    looks: Seq<Look>,
)
    requires
        plans.len() == looks.len(),
        forall|p: int|
            0 <= p < plans.len() ==> (#[trigger] plans[p]).of(looks[p]) && plans[p].wf(),
        frame.of(plans, spans, plans.len()),
        frame.quads@ == all_kept(plans, spans, plans.len()) + all_lifted(
            plans,
            spans,
            plans.len(),
        ),
        forall|p: int| 0 <= p < plans.len() ==> !#[trigger] frame.has_overflow@[p],
        prev.quads@ == frame.quads@,
        prev.panes@.len() == plans.len(),
        forall|p: int|
            0 <= p < plans.len() ==> (#[trigger] prev.panes@[p]).row_starts@
                == frame.row_starts@[p]@,
    ensures
        shows(prev, looks),
{
    assert forall|p: int| 0 <= p < plans.len() implies lifted(
        (#[trigger] plans[p]).quads@,
        spans[p]@,
    ).len() == 0 by {
        assert(!frame.has_overflow@[p]);
    }
    lemma_all_kept(plans, spans, looks, plans.len());
    assert(looks.take(looks.len() as int) =~= looks);
    assert(prev.quads@ =~= whole(looks));
    assert forall|p: int| 0 <= p < looks.len() implies row_starts_of(
        looks[p],
        whole(looks.take(p)).len() as int,
        (#[trigger] prev.panes@[p]).row_starts@,
    ) by {
        let plan = plans[p];
        assert(plan.of(looks[p]));
        lemma_all_kept(plans, spans, looks, p as nat);
        let starts = frame.row_starts@[p]@;
        assert(starts_of(plan, spans[p]@, whole(looks.take(p)).len() as int, starts));
        assert forall|i: int| 0 <= i < starts.len() implies #[trigger] starts[i] == whole(
            looks.take(p),
        ).len() + plan.row_marks@[i] by {
            let n = plan.row_marks@[i] as int;
            lemma_lifted_prefix(plan.quads@, spans[p]@, n);
            lemma_kept_all(plan.quads@.take(n), spans[p]@);
        }
        let items = looks[p].items();
        assert forall|v: int| 0 <= v < items.len() implies #[trigger] starts[v] == whole(
            looks.take(p),
        ).len() + looks[p].rows_quads(items.take(v)).len() by {
            assert(plan.row_marks@[v] == looks[p].rows_quads(items.take(v)).len());
        }
    }
}

/// Pieces one after the other.
spec fn joined(parts: Seq<Seq<Quad>>) -> Seq<Quad>
    decreases parts.len(),
{
    if parts.len() == 0 {
        Seq::empty()
    } else {
        joined(parts.drop_last()) + parts.last()
    }
}

proof fn lemma_joined_add(a: Seq<Seq<Quad>>, b: Seq<Seq<Quad>>)
    ensures
        joined(a + b) == joined(a) + joined(b),
    decreases b.len(),
{
    if b.len() == 0 {
        assert(a + b =~= a);
        assert(joined(a) + joined(b) =~= joined(a));
    } else {
        lemma_joined_add(a, b.drop_last());
        assert((a + b).drop_last() =~= a + b.drop_last());
        assert(joined(a + b) =~= joined(a) + joined(b));
    }
}

/// Putting a piece in place of one of the same length.
proof fn lemma_joined_replace(parts: Seq<Seq<Quad>>, i: int, part: Seq<Quad>)
    requires
        0 <= i < parts.len(),
        part.len() == parts[i].len(),
    ensures
        ({
            let start = joined(parts.take(i)).len() as int;
            &&& start + part.len() <= joined(parts).len()
            &&& joined(parts.update(i, part)) == joined(parts).take(start) + part + joined(
                parts,
            ).skip(start + part.len())
        }),
    decreases parts.len(),
{
    let start = joined(parts.take(i)).len() as int;
    let less = parts.drop_last();
    if i == parts.len() - 1 {
        assert(parts.update(i, part).drop_last() =~= less);
        assert(parts.take(i) =~= less);
        assert(joined(parts).take(start) =~= joined(less));
        assert(joined(parts).skip(start + part.len()) =~= Seq::empty());
        assert(joined(parts.update(i, part)) =~= joined(less) + part);
    } else {
        lemma_joined_replace(less, i, part);
        assert(parts.update(i, part).drop_last() =~= less.update(i, part));
        assert(less.take(i) =~= parts.take(i));
        assert(joined(parts.update(i, part)) =~= joined(parts).take(start) + part + joined(
            parts,
        ).skip(start + part.len()));
    }
}

/// The rows of a pane, and its cursor.
spec fn pane_parts(look: Look) -> Seq<Seq<Quad>> {
    Seq::new(look.items().len(), |v: int| look.plain_quads(v)).push(look.overlay(look.items()))
}

spec fn frame_parts(looks: Seq<Look>) -> Seq<Seq<Quad>>
    decreases looks.len(),
{
    if looks.len() == 0 {
        Seq::empty()
    } else {
        frame_parts(looks.drop_last()) + pane_parts(looks.last())
    }
}

proof fn lemma_pane_joined(look: Look, k: int)
    requires
        !look.log,
        look.g.rows >= 0,
        0 <= k <= look.items().len(),
    ensures
        joined(pane_parts(look).take(k)) == look.rows_quads(look.items().take(k)),
    decreases k,
{
    let parts = pane_parts(look);
    let items = look.items();
    if k == 0 {
        assert(parts.take(0) =~= Seq::empty());
        assert(items.take(0) =~= Seq::empty());
    } else {
        lemma_pane_joined(look, k - 1);
        crate::scene::law_plain_rows(look, k - 1);
        assert(parts.take(k).drop_last() =~= parts.take(k - 1));
        assert(items.take(k).drop_last() =~= items.take(k - 1));
    }
}

proof fn lemma_pane_whole(look: Look)
    requires
        !look.log,
        look.g.rows >= 0,
    ensures
        joined(pane_parts(look)) == look.quads(),
{
    let n = look.items().len() as int;
    lemma_pane_joined(look, n);
    assert(pane_parts(look).drop_last() =~= pane_parts(look).take(n));
    assert(look.items().take(n) =~= look.items());
}

proof fn lemma_frame_whole(looks: Seq<Look>)
    requires
        all_plain(looks),
    ensures
        joined(frame_parts(looks)) == whole(looks),
    decreases looks.len(),
{
    if looks.len() > 0 {
        let less = looks.drop_last();
        assert forall|p: int| 0 <= p < less.len() implies !(#[trigger] less[p]).log
            && less[p].g.rows >= 0 && less[p].g.cols >= 0 by {
            assert(less[p] == looks[p]);
        }
        lemma_frame_whole(less);
        lemma_joined_add(frame_parts(less), pane_parts(looks.last()));
        assert(looks.last() == looks[looks.len() - 1]);
        lemma_pane_whole(looks.last());
    }
}

/// The place of a row among the pieces of a frame.
spec fn part_index(looks: Seq<Look>, p: int, v: int) -> int {
    frame_parts(looks.take(p)).len() + v
}

/// The pieces of a frame are those of its panes.
proof fn lemma_part_at(looks: Seq<Look>, p: int, v: int)
    requires
        0 <= p < looks.len(),
        0 <= v <= looks[p].items().len(),
    ensures
        part_index(looks, p, v) < frame_parts(looks).len(),
        frame_parts(looks)[part_index(looks, p, v)] == pane_parts(looks[p])[v],
        frame_parts(looks).take(part_index(looks, p, v)) == frame_parts(looks.take(p))
            + pane_parts(looks[p]).take(v),
    decreases looks.len(),
{
    let less = looks.drop_last();
    let at = part_index(looks, p, v);
    if p == looks.len() - 1 {
        assert(looks.take(p) =~= less);
        assert(frame_parts(looks).take(at) =~= frame_parts(less) + pane_parts(looks[p]).take(v));
    } else {
        lemma_part_at(less, p, v);
        assert(less.take(p) =~= looks.take(p));
        assert(less[p] == looks[p]);
        assert(frame_parts(looks).take(at) =~= frame_parts(less).take(at));
    }
}

/// Every piece of a frame belongs to a pane.
proof fn lemma_part_from(looks: Seq<Look>, i: int) -> (r: (int, int))
    requires
        0 <= i < frame_parts(looks).len(),
    ensures
        0 <= r.0 < looks.len(),
        0 <= r.1 <= looks[r.0].items().len(),
        i == part_index(looks, r.0, r.1),
    decreases looks.len(),
{
    let less = looks.drop_last();
    let n = frame_parts(less).len();
    if i < n {
        let (p, v) = lemma_part_from(less, i);
        assert(less.take(p) =~= looks.take(p));
        assert(less[p] == looks[p]);
        (p, v)
    } else {
        assert(looks.take(looks.len() - 1) =~= less);
        (looks.len() - 1, i - n)
    }
}

/// Where only the selection has moved, the rows are the same rows, and the cursor is where it was.
proof fn lemma_moved(before: Look, after: Look)
    requires
        !before.log,
        before.g.rows >= 0,
        selection_moved(before, after),
    ensures
        after.items().len() == before.items().len(),
        after.overlay(after.items()) == before.overlay(before.items()),
        forall|v: int| (#[trigger] after.plain_quads(v)).len() == before.plain_quads(v).len(),
{
    lemma_plain_items(before);
    lemma_plain_items(after);
    lemma_moved_cursor(before, after, after.items().len());
    assert(before.items().take(before.items().len() as int) =~= before.items());
    assert(after.items().take(after.items().len() as int) =~= after.items());
    assert forall|v: int| (#[trigger] after.plain_quads(v)).len() == before.plain_quads(v).len() by {
        let abs = before.g.view_start() + v;
        match before.g.screen.line(abs) {
            Some(line) => lemma_moved_cells(before, after, line, abs, v, before.g.cols as nat),
            None => {},
        }
    }
}

proof fn lemma_moved_cursor(before: Look, after: Look, n: nat)
    requires
        !before.log,
        before.g.rows >= 0,
        selection_moved(before, after),
        n <= before.items().len(),
        after.items().len() == before.items().len(),
    ensures
        after.cursor_place(after.items().take(n as int)) == before.cursor_place(
            before.items().take(n as int),
        ),
    decreases n,
{
    if n > 0 {
        lemma_plain_items(before);
        lemma_plain_items(after);
        lemma_moved_cursor(before, after, (n - 1) as nat);
        assert(after.items().take(n as int).drop_last() =~= after.items().take(n - 1));
        assert(before.items().take(n as int).drop_last() =~= before.items().take(n - 1));
        assert(after.items()[n - 1] is Line);
        assert(before.items()[n - 1] is Line);
    }
}

proof fn lemma_moved_cells(
    before: Look,
    after: Look,
    line: Seq<crate::cell::Cell>,
    abs: int,
    v: int,
    n: nat,
)
    requires
        selection_moved(before, after),
    ensures
        after.cell_quads(line, abs, v, 0, n).len() == before.cell_quads(line, abs, v, 0, n).len(),
    decreases n,
{
    if n > 0 {
        lemma_moved_cells(before, after, line, abs, v, (n - 1) as nat);
    }
}

/// A row in which no cell became selected or ceased to be looks as it did.
pub proof fn law_unmoved_row(before: Look, after: Look, v: int)
    requires
        selection_moved(before, after),
        before.g.cols >= 0,
        forall|col: int|
            0 <= col < before.g.cols ==> selected(after, v, col) == #[trigger] selected(
                before,
                v,
                col,
            ),
    ensures
        after.plain_quads(v) == before.plain_quads(v),
{
    let abs = before.g.view_start() + v;
    match before.g.screen.line(abs) {
        Some(line) => lemma_unmoved_cells(before, after, line, v, before.g.cols as nat),
        None => {},
    }
}

proof fn lemma_unmoved_cells(
    before: Look,
    after: Look,
    line: Seq<crate::cell::Cell>,
    v: int,
    n: nat,
)
    requires
        selection_moved(before, after),
        n <= before.g.cols,
        forall|col: int|
            0 <= col < before.g.cols ==> selected(after, v, col) == #[trigger] selected(
                before,
                v,
                col,
            ),
    ensures
        after.cell_quads(line, before.g.view_start() + v, v, 0, n) == before.cell_quads(
            line,
            before.g.view_start() + v,
            v,
            0,
            n,
        ),
    decreases n,
{
    if n > 0 {
        lemma_unmoved_cells(before, after, line, v, (n - 1) as nat);
        assert(selected(after, v, n - 1) == selected(before, v, n - 1));
    }
}

/// The pieces with the first `n` of the planned rows in place.
spec fn parts_spliced(
    looks: Seq<Look>,
    rows: Seq<(usize, usize)>,
    planned: Seq<Vec<Quad>>,
    n: nat,
) -> Seq<Seq<Quad>>
    decreases n,
{
    if n == 0 {
        frame_parts(looks)
    } else {
        parts_spliced(looks, rows, planned, (n - 1) as nat).update(
            part_index(looks, rows[n - 1].0 as int, rows[n - 1].1 as int),
            planned[n - 1]@,
        )
    }
}

/// A row of a pane.
pub open spec fn is_row(row: (usize, usize), p: int, v: int) -> bool {
    row.0 == p && row.1 == v
}

/// A row of a pane is among the rows.
pub open spec fn among(rows: Seq<(usize, usize)>, p: int, v: int) -> bool {
    exists|k: int| 0 <= k < rows.len() && is_row(#[trigger] rows[k], p, v)
}

/// The rows to draw again, and what is planned for them.
pub open spec fn planned_rows(
    looks: Seq<Look>,
    rows: Seq<(usize, usize)>,
    planned: Seq<Vec<Quad>>,
) -> bool {
    &&& planned.len() == rows.len()
    &&& forall|k: int|
        0 <= k < rows.len() ==> (#[trigger] rows[k]).0 < looks.len() && rows[k].1
            < looks[rows[k].0 as int].items().len() && planned[k]@
            == looks[rows[k].0 as int].plain_quads(rows[k].1 as int)
}

proof fn lemma_joined_lens(a: Seq<Seq<Quad>>, b: Seq<Seq<Quad>>)
    requires
        a.len() == b.len(),
        forall|i: int| 0 <= i < a.len() ==> (#[trigger] a[i]).len() == b[i].len(),
    ensures
        joined(a).len() == joined(b).len(),
    decreases a.len(),
{
    if a.len() > 0 {
        let (c, d) = (a.drop_last(), b.drop_last());
        assert forall|i: int| 0 <= i < c.len() implies (#[trigger] c[i]).len() == d[i].len() by {
            assert(c[i] == a[i]);
        }
        lemma_joined_lens(c, d);
        assert(a[a.len() - 1].len() == b[a.len() - 1].len());
    }
}

#[verifier::spinoff_prover]
proof fn lemma_spliced(
    prev: PrevFrame,
    before: Seq<Look>,
    after: Seq<Look>,
    rows: Seq<(usize, usize)>,
    planned: Seq<Vec<Quad>>,
    spans: Seq<Vec<u32>>,
    n: nat,
)
    requires
        shows(prev, before),
        all_plain(before),
        before.len() == after.len(),
        forall|p: int|
            0 <= p < before.len() ==> selection_moved(#[trigger] before[p], after[p]),
        planned_rows(after, rows, planned),
        forall|k: int|
            0 <= k < rows.len() ==> row_fits(prev, #[trigger] rows[k], planned[k]@, spans[k]@),
        n <= rows.len(),
    ensures
        spliced(prev, rows, planned, n) == joined(parts_spliced(before, rows, planned, n)),
        parts_spliced(before, rows, planned, n).len() == frame_parts(before).len(),
        forall|i: int|
            0 <= i < frame_parts(before).len() ==> (#[trigger] parts_spliced(
                before,
                rows,
                planned,
                n,
            )[i]).len() == frame_parts(before)[i].len(),
    decreases n,
{
    if n == 0 {
        lemma_frame_whole(before);
    } else {
        let m = (n - 1) as nat;
        lemma_spliced(prev, before, after, rows, planned, spans, m);
        let parts = parts_spliced(before, rows, planned, m);
        let (p, v) = (rows[n - 1].0 as int, rows[n - 1].1 as int);
        let look = before[p];
        let at = part_index(before, p, v);
        assert(selection_moved(before[p], after[p]));
        assert(row_fits(prev, rows[n - 1], planned[n - 1]@, spans[n - 1]@));
        lemma_moved(look, after[p]);
        lemma_part_at(before, p, v);
        assert(after[p].plain_quads(v).len() == look.plain_quads(v).len());
        assert(planned[n - 1]@.len() == frame_parts(before)[at].len());
        // the row begins after the pieces before it
        let pieces = frame_parts(before).take(at);
        lemma_joined_add(frame_parts(before.take(p)), pane_parts(look).take(v));
        lemma_pane_joined(look, v);
        assert(all_plain(before.take(p))) by {
            assert forall|q: int| 0 <= q < p implies !(#[trigger] before.take(p)[q]).log
                && before.take(p)[q].g.rows >= 0 && before.take(p)[q].g.cols >= 0 by {
                assert(before.take(p)[q] == before[q]);
            }
        }
        lemma_frame_whole(before.take(p));
        assert(row_starts_of(look, whole(before.take(p)).len() as int, prev.panes@[p].row_starts@));
        assert(prev.start_of(rows[n - 1]) == joined(pieces).len());
        assert forall|i: int| 0 <= i < at implies (#[trigger] parts.take(at)[i]).len()
            == pieces[i].len() by {
            assert(parts.take(at)[i] == parts[i]);
        }
        lemma_joined_lens(parts.take(at), pieces);
        assert(parts[at].len() == frame_parts(before)[at].len());
        lemma_joined_replace(parts, at, planned[n - 1]@);
    }
}

proof fn lemma_spliced_at(
    before: Seq<Look>,
    after: Seq<Look>,
    rows: Seq<(usize, usize)>,
    planned: Seq<Vec<Quad>>,
    n: nat,
    p: int,
    v: int,
)
    requires
        before.len() == after.len(),
        forall|q: int|
            0 <= q < before.len() ==> selection_moved(#[trigger] before[q], after[q]),
        all_plain(before),
        planned_rows(after, rows, planned),
        n <= rows.len(),
        0 <= p < before.len(),
        0 <= v <= before[p].items().len(),
    ensures
        parts_spliced(before, rows, planned, n).len() == frame_parts(before).len(),
        ({
            let part = parts_spliced(before, rows, planned, n)[part_index(before, p, v)];
            part == if among(rows.take(n as int), p, v) {
                after[p].plain_quads(v)
            } else {
                pane_parts(before[p])[v]
            }
        }),
    decreases n,
{
    lemma_part_at(before, p, v);
    let taken = rows.take(n as int);
    if n > 0 {
        lemma_spliced_at(before, after, rows, planned, (n - 1) as nat, p, v);
        let less = rows.take(n - 1);
        let (q, w) = (rows[n - 1].0 as int, rows[n - 1].1 as int);
        assert(selection_moved(before[q], after[q]));
        lemma_moved(before[q], after[q]);
        lemma_part_at(before, q, w);
        assert forall|k: int| 0 <= k < less.len() implies less[k] == #[trigger] taken[k] by {
        }
        if part_index(before, p, v) == part_index(before, q, w) {
            lemma_index_unique(before, p, v, q, w);
            assert(is_row(taken[n - 1], p, v));
        } else {
            assert(!is_row(taken[n - 1], p, v));
            if among(less, p, v) {
                let k = choose|k: int| 0 <= k < less.len() && is_row(#[trigger] less[k], p, v);
                assert(is_row(taken[k], p, v));
            }
            if among(taken, p, v) {
                let k = choose|k: int| 0 <= k < taken.len() && is_row(#[trigger] taken[k], p, v);
                assert(is_row(less[k], p, v));
            }
        }
    }
}

/// No two rows have the same place.
proof fn lemma_index_unique(looks: Seq<Look>, p: int, v: int, q: int, w: int)
    requires
        0 <= p < looks.len(),
        0 <= q < looks.len(),
        0 <= v <= looks[p].items().len(),
        0 <= w <= looks[q].items().len(),
        part_index(looks, p, v) == part_index(looks, q, w),
    ensures
        p == q,
        v == w,
{
    if p < q {
        lemma_parts_grow(looks, p, q);
    } else if q < p {
        lemma_parts_grow(looks, q, p);
    }
}

proof fn lemma_parts_grow(looks: Seq<Look>, p: int, q: int)
    requires
        0 <= p < q <= looks.len(),
    ensures
        frame_parts(looks.take(p)).len() + looks[p].items().len() + 1 <= frame_parts(
            looks.take(q),
        ).len(),
    decreases q,
{
    assert(looks.take(q).drop_last() =~= looks.take(q - 1));
    if p < q - 1 {
        lemma_parts_grow(looks, p, q - 1);
    }
}

/// Drawing again in part is drawing anew: where at most the selections have moved, and every row
/// in which a cell became selected or ceased to be is among those drawn again, the frame with
/// these rows in place of the old ones holds exactly what the panes show now.
pub proof fn law_redraw_is_rebuild(
    prev: PrevFrame,
    before: Seq<Look>,
    after: Seq<Look>,
    rows: Seq<(usize, usize)>,
    planned: Seq<Vec<Quad>>,
    spans: Seq<Vec<u32>>,
)
    requires
        shows(prev, before),
        all_plain(before),
        before.len() == after.len(),
        forall|p: int|
            0 <= p < before.len() ==> selection_moved(#[trigger] before[p], after[p]),
        planned_rows(after, rows, planned),
        forall|k: int|
            0 <= k < rows.len() ==> row_fits(prev, #[trigger] rows[k], planned[k]@, spans[k]@),
        forall|p: int, v: int, col: int|
            0 <= p < before.len() && 0 <= v < before[p].items().len() && 0 <= col
                < before[p].g.cols && selected(after[p], v, col) != #[trigger] selected(
                before[p],
                v,
                col,
            ) ==> among(rows, p, v),
    ensures
        spliced(prev, rows, planned, rows.len()) == whole(after),
{
    assert forall|p: int, v: int|
        0 <= p < before.len() && 0 <= v < before[p].items().len() && !among(rows, p, v) implies #[trigger] after[p].plain_quads(v) == before[p].plain_quads(v) by {
        assert(selection_moved(before[p], after[p]));
        assert forall|col: int| 0 <= col < before[p].g.cols implies selected(after[p], v, col)
            == #[trigger] selected(before[p], v, col) by {
        }
        law_unmoved_row(before[p], after[p], v);
    }
    lemma_spliced(prev, before, after, rows, planned, spans, rows.len());
    lemma_parts_done(before, after, rows, planned);
    assert(all_plain(after)) by {
        assert forall|p: int| 0 <= p < after.len() implies !(#[trigger] after[p]).log
            && after[p].g.rows >= 0 && after[p].g.cols >= 0 by {
            assert(selection_moved(before[p], after[p]));
        }
    }
    lemma_frame_whole(after);
}

#[verifier::spinoff_prover]
proof fn lemma_parts_done(
    before: Seq<Look>,
    after: Seq<Look>,
    rows: Seq<(usize, usize)>,
    planned: Seq<Vec<Quad>>,
)
    requires
        all_plain(before),
        before.len() == after.len(),
        forall|p: int|
            0 <= p < before.len() ==> selection_moved(#[trigger] before[p], after[p]),
        planned_rows(after, rows, planned),
        parts_spliced(before, rows, planned, rows.len()).len() == frame_parts(before).len(),
        forall|p: int, v: int|
            0 <= p < before.len() && 0 <= v < before[p].items().len() && !among(rows, p, v) ==> #[trigger] after[p].plain_quads(v) == before[p].plain_quads(v),
    ensures
        parts_spliced(before, rows, planned, rows.len()) == frame_parts(after),
{
    let n = rows.len();
    let parts = parts_spliced(before, rows, planned, n);
    lemma_same_shape(before, after, before.len());
    assert(before.take(before.len() as int) =~= before);
    assert(after.take(after.len() as int) =~= after);
    assert forall|i: int| 0 <= i < parts.len() implies #[trigger] parts[i] == frame_parts(
        after,
    )[i] by {
        let (p, v) = lemma_part_from(before, i);
        assert(selection_moved(before[p], after[p]));
        lemma_moved(before[p], after[p]);
        lemma_spliced_at(before, after, rows, planned, n, p, v);
        assert(rows.take(n as int) =~= rows);
        lemma_same_shape(before, after, p as nat);
        lemma_part_at(after, p, v);
        lemma_part_done(before[p], after[p], rows, planned, parts[i], p, v);
    }
    assert(parts =~= frame_parts(after));
}

proof fn lemma_part_done(
    before: Look,
    after: Look,
    rows: Seq<(usize, usize)>,
    planned: Seq<Vec<Quad>>,
    part: Seq<Quad>,
    p: int,
    v: int,
)
    requires
        0 <= v <= before.items().len(),
        after.items().len() == before.items().len(),
        after.overlay(after.items()) == before.overlay(before.items()),
        forall|k: int|
            0 <= k < rows.len() && (#[trigger] rows[k]).0 == p ==> rows[k].1 < before.items().len(),
        v < before.items().len() && !among(rows, p, v) ==> after.plain_quads(
            v,
        ) == before.plain_quads(v),
        ({
            part == if among(rows, p, v) {
                after.plain_quads(v)
            } else {
                pane_parts(before)[v]
            }
        }),
    ensures
        part == pane_parts(after)[v],
{
    if among(rows, p, v) {
        let k = choose|k: int| 0 <= k < rows.len() && is_row(#[trigger] rows[k], p, v);
        assert(rows[k].0 == p);
    }
}

proof fn lemma_same_shape(before: Seq<Look>, after: Seq<Look>, n: nat)
    requires
        all_plain(before),
        before.len() == after.len(),
        forall|p: int|
            0 <= p < before.len() ==> selection_moved(#[trigger] before[p], after[p]),
        n <= before.len(),
    ensures
        frame_parts(after.take(n as int)).len() == frame_parts(before.take(n as int)).len(),
    decreases n,
{
    if n > 0 {
        lemma_same_shape(before, after, (n - 1) as nat);
        assert(before.take(n as int).drop_last() =~= before.take(n - 1));
        assert(after.take(n as int).drop_last() =~= after.take(n - 1));
        assert(selection_moved(before[n - 1], after[n - 1]));
        lemma_moved(before[n - 1], after[n - 1]);
    } else {
        assert(before.take(0) =~= after.take(0));
    }
}

} // verus!
