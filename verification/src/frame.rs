//! A frame: putting the panes' quads in drawing order, drawing again only what has changed, and
//! handing the result to the graphics card in few pieces.

use crate::cell::{CursorStyle, Selection};
use crate::folds::{folds_of, folds_view, same_folds};
use crate::grid::Grid;
use crate::places::CellSet;
use crate::scene::{Ink, Look, Pane, PanePlan, Quad, Shape};
use crate::text;
use crate::theme::ThemeBytes;
use std::collections::{HashMap, HashSet};
use vstd::prelude::*;

verus! {

broadcast use vstd::std_specs::hash::group_hash_axioms;

/// A quad is drawn last: its glyph reaches beyond a cell that is one column wide.
pub open spec fn overflows(q: Quad, span: u32) -> bool {
    q.shape == Shape::Cell && !q.wide && span > 1
}

/// The quads that are drawn in order.
pub open spec fn kept(quads: Seq<Quad>, spans: Seq<u32>) -> Seq<Quad>
    decreases quads.len(),
{
    if quads.len() == 0 {
        Seq::empty()
    } else {
        let before = kept(quads.drop_last(), spans);
        if overflows(quads.last(), spans[quads.len() - 1]) {
            before
        } else {
            before.push(quads.last())
        }
    }
}

/// The quads that are drawn last.
pub open spec fn lifted(quads: Seq<Quad>, spans: Seq<u32>) -> Seq<Quad>
    decreases quads.len(),
{
    if quads.len() == 0 {
        Seq::empty()
    } else {
        let before = lifted(quads.drop_last(), spans);
        if overflows(quads.last(), spans[quads.len() - 1]) {
            before.push(quads.last())
        } else {
            before
        }
    }
}

/// The quads of the first `n` panes that are drawn in order.
pub open spec fn all_kept(plans: Seq<PanePlan>, spans: Seq<Vec<u32>>, n: nat) -> Seq<Quad>
    decreases n,
{
    if n == 0 {
        Seq::empty()
    } else {
        all_kept(plans, spans, (n - 1) as nat) + kept(plans[n - 1].quads@, spans[n - 1]@)
    }
}

/// The quads of the first `n` panes that are drawn last.
pub open spec fn all_lifted(plans: Seq<PanePlan>, spans: Seq<Vec<u32>>, n: nat) -> Seq<Quad>
    decreases n,
{
    if n == 0 {
        Seq::empty()
    } else {
        all_lifted(plans, spans, (n - 1) as nat) + lifted(plans[n - 1].quads@, spans[n - 1]@)
    }
}

/// All quads of a frame in drawing order, and where each pane's rows begin.
#[derive(Debug)]
pub struct Frame {
    pub quads: Vec<Quad>,
    /// For each pane, for each of its rows the place of the row's first quad, then of the first
    /// quad after the pane's.
    pub row_starts: Vec<Vec<usize>>,
    /// For each pane whether some of its quads are drawn last.
    pub has_overflow: Vec<bool>,
}

/// The starts of a pane's rows in a frame.
pub open spec fn starts_of(
    plan: PanePlan,
    spans: Seq<u32>,
    base: int,
    starts: Seq<usize>,
) -> bool {
    &&& starts.len() == plan.row_marks@.len()
    &&& forall|i: int|
        0 <= i < starts.len() ==> #[trigger] starts[i] == base + kept(
            plan.quads@.take(plan.row_marks@[i] as int),
            spans,
        ).len()
}

impl Frame {
    /// The frame is made of the first `n` plans.
    pub open spec fn of(self, plans: Seq<PanePlan>, spans: Seq<Vec<u32>>, n: nat) -> bool {
        &&& self.row_starts@.len() == n
        &&& self.has_overflow@.len() == n
        &&& forall|p: int|
            0 <= p < n ==> starts_of(
                plans[p],
                spans[p]@,
                all_kept(plans, spans, p as nat).len() as int,
                (#[trigger] self.row_starts@[p])@,
            )
        &&& forall|p: int|
            0 <= p < n ==> #[trigger] self.has_overflow@[p] == (lifted(
                plans[p].quads@,
                spans[p]@,
            ).len() > 0)
    }
}

proof fn lemma_step(quads: Seq<Quad>, spans: Seq<u32>, i: int)
    requires
        0 <= i < quads.len(),
    ensures
        kept(quads.take(i + 1), spans) == if overflows(quads[i], spans[i]) {
            kept(quads.take(i), spans)
        } else {
            kept(quads.take(i), spans).push(quads[i])
        },
        lifted(quads.take(i + 1), spans) == if overflows(quads[i], spans[i]) {
            lifted(quads.take(i), spans).push(quads[i])
        } else {
            lifted(quads.take(i), spans)
        },
{
    assert(quads.take(i + 1).drop_last() =~= quads.take(i));
}

proof fn lemma_kept_len(quads: Seq<Quad>, spans: Seq<u32>)
    ensures
        kept(quads, spans).len() + lifted(quads, spans).len() == quads.len(),
    decreases quads.len(),
{
    if quads.len() > 0 {
        lemma_kept_len(quads.drop_last(), spans);
    }
}

/// Sorts a pane's quads into those drawn in order and those drawn last. Returns where its rows
/// begin and whether some are drawn last.
fn arrange_pane(
    plan: &PanePlan,
    spans: &Vec<u32>,
    main: &mut Vec<Quad>,
    last: &mut Vec<Quad>,
) -> (r: (Vec<usize>, bool))
    requires
        plan.wf(),
        spans@.len() == plan.quads@.len(),
        old(main)@.len() + plan.quads@.len() <= usize::MAX,
    ensures
        final(main)@ == old(main)@ + kept(plan.quads@, spans@),
        final(last)@ == old(last)@ + lifted(plan.quads@, spans@),
        starts_of(*plan, spans@, old(main)@.len() as int, r.0@),
        r.1 == (lifted(plan.quads@, spans@).len() > 0),
{
    let ghost base = main@;
    let ghost base_last = last@;
    let first_last: usize = last.len();
    let mut counts: Vec<usize> = Vec::new();
    counts.push(main.len());
    let mut i: usize = 0;
    assert(plan.quads@.take(0) =~= Seq::empty());
    assert(main@ =~= base + kept(plan.quads@.take(0), spans@));
    assert(last@ =~= base_last + lifted(plan.quads@.take(0), spans@));
    while i < plan.quads.len()
        invariant
            i <= plan.quads@.len(),
            spans@.len() == plan.quads@.len(),
            main@ == base + kept(plan.quads@.take(i as int), spans@),
            last@ == base_last + lifted(plan.quads@.take(i as int), spans@),
            counts@.len() == i + 1,
            forall|k: int|
                0 <= k <= i ==> #[trigger] counts@[k] == base.len() + kept(
                    plan.quads@.take(k),
                    spans@,
                ).len(),
        decreases plan.quads@.len() - i,
    {
        let q: Quad = plan.quads[i];
        proof {
            lemma_step(plan.quads@, spans@, i as int);
        }
        if q.shape == Shape::Cell && !q.wide && spans[i] > 1 {
            last.push(q);
        } else {
            main.push(q);
        }
        i = i + 1;
        assert(main@ =~= base + kept(plan.quads@.take(i as int), spans@));
        assert(last@ =~= base_last + lifted(plan.quads@.take(i as int), spans@));
        counts.push(main.len());
    }
    assert(plan.quads@.take(i as int) =~= plan.quads@);
    let mut starts: Vec<usize> = Vec::new();
    let mut k: usize = 0;
    while k < plan.row_marks.len()
        invariant
            plan.wf(),
            k <= plan.row_marks@.len(),
            counts@.len() == plan.quads@.len() + 1,
            forall|j: int|
                0 <= j <= plan.quads@.len() ==> #[trigger] counts@[j] == base.len() + kept(
                    plan.quads@.take(j),
                    spans@,
                ).len(),
            starts@.len() == k,
            forall|j: int|
                0 <= j < k ==> #[trigger] starts@[j] == base.len() + kept(
                    plan.quads@.take(plan.row_marks@[j] as int),
                    spans@,
                ).len(),
        decreases plan.row_marks@.len() - k,
    {
        let mark: usize = plan.row_marks[k];
        starts.push(counts[mark]);
        k = k + 1;
    }
    let overflow: bool = last.len() > first_last;
    (starts, overflow)
}

/// Puts the quads of all panes in drawing order: pane by pane, with the glyphs that reach beyond
/// their cell after everything else. `spans` holds for each quad how many columns its glyph needs.
pub fn arrange(plans: &Vec<PanePlan>, spans: &Vec<Vec<u32>>) -> (r: Frame)
    requires
        spans@.len() == plans@.len(),
        forall|p: int|
            0 <= p < plans@.len() ==> (#[trigger] plans@[p]).wf() && spans@[p]@.len()
                == plans@[p].quads@.len(),
        total_quads(plans@, plans@.len()) <= usize::MAX,
    ensures
        r.quads@ == all_kept(plans@, spans@, plans@.len()) + all_lifted(
            plans@,
            spans@,
            plans@.len(),
        ),
        r.of(plans@, spans@, plans@.len()),
{
    let mut main: Vec<Quad> = Vec::new();
    let mut last: Vec<Quad> = Vec::new();
    let mut row_starts: Vec<Vec<usize>> = Vec::new();
    let mut has_overflow: Vec<bool> = Vec::new();
    let mut p: usize = 0;
    assert(main@ =~= all_kept(plans@, spans@, 0));
    assert(last@ =~= all_lifted(plans@, spans@, 0));
    while p < plans.len()
        invariant
            p <= plans@.len() == spans@.len(),
            forall|k: int|
                0 <= k < plans@.len() ==> (#[trigger] plans@[k]).wf() && spans@[k]@.len()
                    == plans@[k].quads@.len(),
            total_quads(plans@, plans@.len()) <= usize::MAX,
            main@ == all_kept(plans@, spans@, p as nat),
            last@ == all_lifted(plans@, spans@, p as nat),
            (Frame {
                quads: main,
                row_starts: row_starts,
                has_overflow: has_overflow,
            }).of(plans@, spans@, p as nat),
        decreases plans@.len() - p,
    {
        proof {
            lemma_all_kept_len(plans@, spans@, p as nat);
            lemma_total_grows(plans@, (p + 1) as nat);
            assert(plans@[p as int].wf());
        }
        let ghost starts_before = row_starts@;
        let ghost flags_before = has_overflow@;
        let (starts, overflow): (Vec<usize>, bool) = arrange_pane(
            &plans[p],
            &spans[p],
            &mut main,
            &mut last,
        );
        row_starts.push(starts);
        has_overflow.push(overflow);
        proof {
            assert forall|k: int| 0 <= k < p + 1 implies starts_of(
                plans@[k],
                spans@[k]@,
                all_kept(plans@, spans@, k as nat).len() as int,
                (#[trigger] row_starts@[k])@,
            ) by {
                if k < p {
                    assert(row_starts@[k] == starts_before[k]);
                }
            }
            assert forall|k: int| 0 <= k < p + 1 implies #[trigger] has_overflow@[k] == (lifted(
                plans@[k].quads@,
                spans@[k]@,
            ).len() > 0) by {
                if k < p {
                    assert(has_overflow@[k] == flags_before[k]);
                }
            }
        }
        p = p + 1;
    }
    let ghost main_before = main@;
    let mut i: usize = 0;
    while i < last.len()
        invariant
            i <= last@.len(),
            main@ == main_before + last@.take(i as int),
        decreases last@.len() - i,
    {
        main.push(last[i]);
        i = i + 1;
        assert(main@ =~= main_before + last@.take(i as int));
    }
    assert(last@.take(i as int) =~= last@);
    Frame { quads: main, row_starts, has_overflow }
}

/// The number of quads of the first `n` panes.
pub open spec fn total_quads(plans: Seq<PanePlan>, n: nat) -> int
    decreases n,
{
    if n == 0 {
        0
    } else {
        total_quads(plans, (n - 1) as nat) + plans[n - 1].quads@.len()
    }
}

proof fn lemma_total_grows(plans: Seq<PanePlan>, n: nat)
    requires
        n <= plans.len(),
    ensures
        total_quads(plans, n) <= total_quads(plans, plans.len()),
    decreases plans.len() - n,
{
    if n < plans.len() {
        lemma_total_grows(plans, n + 1);
    }
}

proof fn lemma_all_kept_len(plans: Seq<PanePlan>, spans: Seq<Vec<u32>>, n: nat)
    ensures
        all_kept(plans, spans, n).len() <= total_quads(plans, n),
    decreases n,
{
    if n > 0 {
        lemma_all_kept_len(plans, spans, (n - 1) as nat);
        lemma_kept_len(plans[n - 1].quads@, spans[n - 1]@);
    }
}

/// Nothing is lost and nothing drawn twice: a frame has as many quads as its panes together.
pub proof fn law_frame_complete(plans: Seq<PanePlan>, spans: Seq<Vec<u32>>, n: nat)
    ensures
        all_kept(plans, spans, n).len() + all_lifted(plans, spans, n).len() == total_quads(plans, n),
    decreases n,
{
    if n > 0 {
        law_frame_complete(plans, spans, (n - 1) as nat);
        lemma_kept_len(plans[n - 1].quads@, spans[n - 1]@);
    }
}

/// Where no glyph reaches beyond its cell, a pane's quads are drawn as they were planned.
pub proof fn law_no_overflow_keeps_order(quads: Seq<Quad>, spans: Seq<u32>)
    requires
        forall|i: int| 0 <= i < quads.len() ==> !overflows(#[trigger] quads[i], spans[i]),
    ensures
        kept(quads, spans) == quads,
        lifted(quads, spans) == Seq::<Quad>::empty(),
    decreases quads.len(),
{
    if quads.len() > 0 {
        let less = quads.drop_last();
        assert forall|i: int| 0 <= i < less.len() implies !overflows(#[trigger] less[i], spans[i]) by {
            assert(less[i] == quads[i]);
        }
        law_no_overflow_keeps_order(less, spans);
        assert(!overflows(quads[quads.len() - 1], spans[quads.len() - 1]));
        assert(less.push(quads.last()) =~= quads);
    } else {
        assert(quads =~= Seq::empty());
    }
}

/// What has changed in a pane's grid since the last frame.
#[derive(Debug)]
pub struct Damage {
    /// Everything.
    pub full: bool,
    /// Cells were written, not only the selection moved.
    pub cells_dirty: bool,
    /// For each row whether it has to be drawn again.
    pub lines: Vec<bool>,
}

impl Damage {
    /// A row has to be drawn again.
    pub open spec fn hits(self, row: int) -> bool {
        0 <= row < self.lines@.len() && self.lines@[row]
    }

    /// Something has to be drawn again.
    pub open spec fn any(self) -> bool {
        self.full || exists|row: int| #[trigger] self.hits(row)
    }

    /// Whether something has to be drawn again.
    pub fn is_damaged(&self) -> (r: bool)
        ensures
            r == self.any(),
    {
        if self.full {
            return true;
        }
        let mut i: usize = 0;
        while i < self.lines.len()
            invariant
                i <= self.lines@.len(),
                forall|j: int| 0 <= j < i ==> !#[trigger] self.hits(j),
            decreases self.lines@.len() - i,
        {
            if self.lines[i] {
                assert(self.hits(i as int));
                return true;
            }
            assert(!self.hits(i as int));
            i = i + 1;
        }
        false
    }
}

/// Per-pane state captured at the end of a full rebuild, by which the next frame tells whether the
/// layout is the same and finds each row's quads.
#[derive(Debug)]
pub struct PrevPaneState {
    pub pane_id: usize,
    pub cols: usize,
    pub rows: usize,
    /// The pane's corner in whole pixels.
    pub viewport_x_q: i32,
    pub viewport_y_q: i32,
    pub scroll_offset: usize,
    pub is_alt_screen: bool,
    pub cursor_row: usize,
    pub cursor_col: usize,
    pub cursor_style: CursorStyle,
    pub show_cursor: bool,
    pub selection: Option<Selection>,
    /// Where each row's quads begin in the frame.
    pub row_starts: Vec<usize>,
    pub has_overflow: bool,
}

/// The frame drawn last.
#[derive(Debug)]
pub struct PrevFrame {
    pub panes: Vec<PrevPaneState>,
    pub quads: Vec<Quad>,
    pub log_mode: bool,
    pub find_all: CellSet,
    pub find_current: CellSet,
    pub folds: HashMap<usize, HashSet<u64>>,
}

/// A pane as it is now.
pub struct PaneNow<'a> {
    pub pane_id: usize,
    pub grid: &'a Grid,
    pub viewport_x_q: i32,
    pub viewport_y_q: i32,
    pub focused: bool,
    pub damage: &'a Damage,
}

/// What is asked of the frame as a whole.
pub struct FrameNow<'a> {
    pub blink_on: bool,
    pub log_mode: bool,
    pub find_all: &'a CellSet,
    pub find_current: &'a CellSet,
    /// The folded blocks of each pane that has any.
    pub folds: &'a HashMap<usize, HashSet<u64>>,
}

/// What to do for a frame.
#[derive(Debug)]
pub enum Refresh {
    /// Plan everything anew.
    Rebuild,
    /// Draw the last frame once more.
    Unchanged,
    /// Put these rows, each of a pane, in place of the old ones.
    Rows(Vec<(usize, usize)>),
}

/// A pane's cursor shows.
pub open spec fn shows_cursor(now: PaneNow, blink_on: bool) -> bool {
    now.grid@.cursor_visible && blink_on && now.focused && now.grid@.offset == 0
}

/// A pane is laid out as in the last frame, and no cell of it was written.
pub open spec fn same_layout(prev: PrevPaneState, now: PaneNow, blink_on: bool) -> bool {
    &&& !prev.has_overflow
    &&& !now.damage.full
    &&& !now.damage.cells_dirty
    &&& now.pane_id == prev.pane_id
    &&& now.grid@.cols == prev.cols
    &&& now.grid@.rows == prev.rows
    &&& now.viewport_x_q == prev.viewport_x_q
    &&& now.viewport_y_q == prev.viewport_y_q
    &&& now.grid@.offset == prev.scroll_offset
    &&& now.grid@.is_alt == prev.is_alt_screen
    &&& now.grid@.screen.row == prev.cursor_row
    &&& now.grid@.screen.col == prev.cursor_col
    &&& now.grid@.style == prev.cursor_style
    &&& shows_cursor(now, blink_on) == prev.show_cursor
}

/// The last frame can be drawn again in part.
pub open spec fn reusable(prev: PrevFrame, panes: Seq<PaneNow>, f: FrameNow) -> bool {
    &&& prev.panes@.len() > 0
    &&& prev.quads@.len() > 0
    &&& panes.len() == prev.panes@.len()
    &&& !f.log_mode
    &&& !prev.log_mode
    &&& f.find_all@ == prev.find_all@
    &&& f.find_current@ == prev.find_current@
    &&& folds_view(f.folds@) == folds_view(prev.folds@)
    &&& forall|i: int|
        0 <= i < panes.len() ==> same_layout(
            prev.panes@[i],
            #[trigger] panes[i],
            f.blink_on,
        )
}

/// Something in a pane has to be drawn again.
pub open spec fn pane_changed(prev: PrevPaneState, now: PaneNow) -> bool {
    now.damage.any() || now.grid@.selection != prev.selection
}

/// Something has to be drawn again.
pub open spec fn changed(prev: PrevFrame, panes: Seq<PaneNow>) -> bool {
    exists|i: int| 0 <= i < panes.len() && pane_changed(prev.panes@[i], #[trigger] panes[i])
}

/// The first `n` rows of a pane that have to be drawn again, in order.
pub open spec fn hit_rows(p: int, damage: Damage, n: nat) -> Seq<(usize, usize)>
    decreases n,
{
    if n == 0 {
        Seq::empty()
    } else {
        let before = hit_rows(p, damage, (n - 1) as nat);
        if damage.hits(n - 1) {
            before.push((p as usize, (n - 1) as usize))
        } else {
            before
        }
    }
}

/// The rows of the first `n` panes that have to be drawn again, in order.
pub open spec fn rows_to_draw(panes: Seq<PaneNow>, n: nat) -> Seq<(usize, usize)>
    decreases n,
{
    if n == 0 {
        Seq::empty()
    } else {
        rows_to_draw(panes, (n - 1) as nat) + hit_rows(
            n - 1,
            *panes[n - 1].damage,
            panes[n - 1].grid@.rows as nat,
        )
    }
}

/// Each of the rows was drawn in the last frame.
pub open spec fn all_drawn(prev: PrevFrame, rows: Seq<(usize, usize)>) -> bool {
    forall|k: int|
        0 <= k < rows.len() ==> (#[trigger] rows[k]).1 + 1 < prev.panes@[rows[k].0 as int].row_starts@.len()
}

fn same_selection(a: &Option<Selection>, b: &Option<Selection>) -> (r: bool)
    ensures
        r == (*a == *b),
{
    match (a, b) {
        (Some(x), Some(y)) => *x == *y,
        (None, None) => true,
        _ => false,
    }
}

impl PrevPaneState {
    fn matches(&self, now: &PaneNow, blink_on: bool) -> (r: bool)
        ensures
            r == same_layout(*self, *now, blink_on),
    {
        proof {
            now.grid.lemma_fields();
        }
        if self.has_overflow || now.damage.full || now.damage.cells_dirty {
            return false;
        }
        let shows: bool = Pane::cursor_shows(now.grid, blink_on, now.focused);
        now.pane_id == self.pane_id && now.grid.cols == self.cols && now.grid.rows == self.rows
            && now.viewport_x_q == self.viewport_x_q && now.viewport_y_q == self.viewport_y_q
            && now.grid.scroll_offset == self.scroll_offset && now.grid.is_alt_screen
            == self.is_alt_screen && now.grid.cursor_row == self.cursor_row && now.grid.cursor_col
            == self.cursor_col && now.grid.cursor_style == self.cursor_style && shows
            == self.show_cursor
    }
}

fn all_match(prev: &Vec<PrevPaneState>, panes: &Vec<PaneNow>, blink_on: bool) -> (r: bool)
    requires
        prev@.len() == panes@.len(),
    ensures
        r == forall|i: int|
            0 <= i < panes@.len() ==> same_layout(prev@[i], #[trigger] panes@[i], blink_on),
{
    let mut i: usize = 0;
    while i < panes.len()
        invariant
            i <= panes@.len() == prev@.len(),
            forall|j: int|
                0 <= j < i ==> same_layout(prev@[j], #[trigger] panes@[j], blink_on),
        decreases panes@.len() - i,
    {
        if !prev[i].matches(&panes[i], blink_on) {
            assert(!same_layout(prev@[i as int], panes@[i as int], blink_on));
            return false;
        }
        i = i + 1;
    }
    true
}

fn any_changed(prev: &Vec<PrevPaneState>, panes: &Vec<PaneNow>) -> (r: bool)
    requires
        prev@.len() == panes@.len(),
    ensures
        r == exists|i: int|
            0 <= i < panes@.len() && pane_changed(prev@[i], #[trigger] panes@[i]),
{
    let mut i: usize = 0;
    while i < panes.len()
        invariant
            i <= panes@.len() == prev@.len(),
            forall|j: int| 0 <= j < i ==> !pane_changed(prev@[j], #[trigger] panes@[j]),
        decreases panes@.len() - i,
    {
        proof {
            panes@[i as int].grid.lemma_fields();
        }
        if panes[i].damage.is_damaged() || !same_selection(
            &panes[i].grid.selection,
            &prev[i].selection,
        ) {
            assert(pane_changed(prev@[i as int], panes@[i as int]));
            return true;
        }
        i = i + 1;
    }
    false
}

/// Appends a pane's rows that have to be drawn again.
fn push_hit_rows(out: &mut Vec<(usize, usize)>, p: usize, damage: &Damage, rows: usize)
    ensures
        final(out)@ == old(out)@ + hit_rows(p as int, *damage, rows as nat),
{
    let ghost base = out@;
    let mut v: usize = 0;
    assert(out@ =~= base + hit_rows(p as int, *damage, 0));
    while v < rows
        invariant
            v <= rows,
            out@ == base + hit_rows(p as int, *damage, v as nat),
        decreases rows - v,
    {
        if v < damage.lines.len() && damage.lines[v] {
            assert(damage.hits(v as int));
            out.push((p, v));
        } else {
            assert(!damage.hits(v as int));
        }
        v = v + 1;
        assert(out@ =~= base + hit_rows(p as int, *damage, v as nat));
    }
}

/// Whether each of the rows was drawn in the last frame.
fn were_drawn(prev: &PrevFrame, rows: &Vec<(usize, usize)>) -> (r: bool)
    requires
        forall|k: int| 0 <= k < rows@.len() ==> (#[trigger] rows@[k]).0 < prev.panes@.len(),
    ensures
        r == all_drawn(*prev, rows@),
{
    let mut k: usize = 0;
    while k < rows.len()
        invariant
            k <= rows@.len(),
            forall|j: int| 0 <= j < rows@.len() ==> (#[trigger] rows@[j]).0 < prev.panes@.len(),
            forall|j: int|
                0 <= j < k ==> (#[trigger] rows@[j]).1 + 1
                    < prev.panes@[rows@[j].0 as int].row_starts@.len(),
        decreases rows@.len() - k,
    {
        let (p, v): (usize, usize) = rows[k];
        let n: usize = prev.panes[p].row_starts.len();
        if n == 0 || v >= n - 1 {
            return false;
        }
        k = k + 1;
    }
    true
}

proof fn lemma_hit_rows_pane(p: int, damage: Damage, n: nat)
    requires
        0 <= p <= usize::MAX,
    ensures
        forall|k: int|
            0 <= k < hit_rows(p, damage, n).len() ==> (#[trigger] hit_rows(p, damage, n)[k]).0 == p,
    decreases n,
{
    if n > 0 {
        lemma_hit_rows_pane(p, damage, (n - 1) as nat);
        let less = hit_rows(p, damage, (n - 1) as nat);
        assert forall|k: int| 0 <= k < hit_rows(p, damage, n).len() implies (#[trigger] hit_rows(
            p,
            damage,
            n,
        )[k]).0 == p by {
            if k < less.len() {
                assert(less[k].0 == p);
            }
        }
    }
}

/// Decides what to do for a frame: where only the selection has moved, only the rows it has moved
/// over are drawn again; where nothing has changed, nothing is; in every other case all is planned
/// anew.
pub fn refresh(prev: &PrevFrame, panes: &Vec<PaneNow>, f: &FrameNow) -> (r: Refresh)
    requires
        prev.find_all.wf(),
        prev.find_current.wf(),
        f.find_all.wf(),
        f.find_current.wf(),
    ensures
        ({
            let rows = rows_to_draw(panes@, panes@.len());
            match r {
                Refresh::Rebuild => !reusable(*prev, panes@, *f) || (changed(*prev, panes@)
                    && !all_drawn(*prev, rows)),
                Refresh::Unchanged => reusable(*prev, panes@, *f) && !changed(*prev, panes@),
                Refresh::Rows(l) => reusable(*prev, panes@, *f) && changed(*prev, panes@)
                    && all_drawn(*prev, rows) && l@ == rows,
            }
        }),
{
    if prev.panes.len() == 0 || prev.quads.len() == 0 || panes.len() != prev.panes.len()
        || f.log_mode || prev.log_mode {
        return Refresh::Rebuild;
    }
    if !f.find_all.same(&prev.find_all) || !f.find_current.same(&prev.find_current)
        || !same_folds(f.folds, &prev.folds) {
        return Refresh::Rebuild;
    }
    if !all_match(&prev.panes, panes, f.blink_on) {
        return Refresh::Rebuild;
    }
    if !any_changed(&prev.panes, panes) {
        return Refresh::Unchanged;
    }
    let mut rows: Vec<(usize, usize)> = Vec::new();
    let mut p: usize = 0;
    assert(rows@ =~= rows_to_draw(panes@, 0));
    while p < panes.len()
        invariant
            p <= panes@.len() == prev.panes@.len(),
            rows@ == rows_to_draw(panes@, p as nat),
            forall|k: int| 0 <= k < rows@.len() ==> (#[trigger] rows@[k]).0 < prev.panes@.len(),
        decreases panes@.len() - p,
    {
        proof {
            panes@[p as int].grid.lemma_fields();
            lemma_hit_rows_pane(p as int, *panes@[p as int].damage, panes@[p as int].grid.rows as nat);
        }
        push_hit_rows(&mut rows, p, panes[p].damage, panes[p].grid.rows);
        p = p + 1;
    }
    if were_drawn(prev, &rows) {
        Refresh::Rows(rows)
    } else {
        Refresh::Rebuild
    }
}

/// A row fits in place of an old one: as many quads, and none that is drawn last.
pub open spec fn fits(row: Seq<Quad>, spans: Seq<u32>, start: int, end: int) -> bool {
    &&& row.len() == end - start
    &&& forall|i: int| 0 <= i < row.len() ==> !overflows(#[trigger] row[i], spans[i])
}

/// Puts a row in place of an old one, if it fits. Otherwise the frame has to be planned anew.
pub fn splice_row(
    quads: &mut Vec<Quad>,
    start: usize,
    end: usize,
    row: &Vec<Quad>,
    spans: &Vec<u32>,
) -> (ok: bool)
    requires
        start <= end <= old(quads)@.len(),
        spans@.len() == row@.len(),
    ensures
        ok == fits(row@, spans@, start as int, end as int),
        !ok ==> final(quads)@ == old(quads)@,
        ok ==> final(quads)@ == old(quads)@.take(start as int) + row@ + old(quads)@.skip(end as int),
{
    let ghost before = quads@;
    if row.len() != end - start {
        return false;
    }
    let mut i: usize = 0;
    while i < row.len()
        invariant
            i <= row@.len() == spans@.len(),
            forall|j: int| 0 <= j < i ==> !overflows(#[trigger] row@[j], spans@[j]),
        decreases row@.len() - i,
    {
        let q: Quad = row[i];
        if q.shape == Shape::Cell && !q.wide && spans[i] > 1 {
            assert(overflows(row@[i as int], spans@[i as int]));
            return false;
        }
        i = i + 1;
    }
    let mut k: usize = 0;
    while k < row.len()
        invariant
            k <= row@.len() == end - start,
            start <= end <= quads@.len(),
            quads@.len() == before.len(),
            forall|j: int|
                0 <= j < quads@.len() ==> #[trigger] quads@[j] == if start <= j < start + k {
                    row@[j - start]
                } else {
                    before[j]
                },
        decreases row@.len() - k,
    {
        let q: Quad = row[k];
        quads.set(start + k, q);
        k = k + 1;
    }
    assert(quads@ =~= before.take(start as int) + row@ + before.skip(end as int));
    true
}

/// The look of a pane of a frame. The log view is for panes that show the primary screen.
pub open spec fn look_in(panes: Seq<PaneNow>, f: FrameNow, theme: ThemeBytes, p: int) -> Look {
    Look {
        pane: p as usize,
        g: panes[p].grid@,
        theme,
        log: f.log_mode && !panes[p].grid@.is_alt,
        show_cursor: shows_cursor(panes[p], f.blink_on),
        folds: folds_of(folds_view(f.folds@), panes[p].pane_id),
        all: f.find_all@,
        current: f.find_current@,
    }
}

/// The panes, the marked cells and the theme are sound.
pub open spec fn can_plan(panes: Seq<PaneNow>, f: FrameNow, theme: ThemeBytes) -> bool {
    &&& theme.ansi@.len() == 16
    &&& f.find_all.wf()
    &&& f.find_current.wf()
    &&& forall|p: int| 0 <= p < panes.len() ==> (#[trigger] panes[p]).grid@.wf()
}

fn pane_in<'a>(
    panes: &'a Vec<PaneNow>,
    f: &'a FrameNow,
    theme: &'a ThemeBytes,
    none: &'a HashSet<u64>,
    p: usize,
) -> (r: Pane<'a>)
    requires
        can_plan(panes@, *f, *theme),
        p < panes@.len(),
        none@ == Set::<u64>::empty(),
    ensures
        r.wf(),
        r.look() == look_in(panes@, *f, *theme, p as int),
        r.log == r.look().log,
        r.grid == panes@[p as int].grid,
{
    let now: &PaneNow = &panes[p];
    proof {
        now.grid.lemma_fields();
        assert(panes@[p as int].grid@.wf());
        assert(folds_view(f.folds@).dom() =~= f.folds@.dom());
    }
    let folds: &HashSet<u64> = match f.folds.get(&now.pane_id) {
        Some(folds) => folds,
        None => none,
    };
    Pane {
        pane: p,
        grid: now.grid,
        theme,
        log: f.log_mode && !now.grid.is_alt_screen,
        show_cursor: Pane::cursor_shows(now.grid, f.blink_on, now.focused),
        folds,
        all: f.find_all,
        current: f.find_current,
    }
}

/// Plans every pane of a frame.
pub fn plan_panes(panes: &Vec<PaneNow>, f: &FrameNow, theme: &ThemeBytes) -> (r: Vec<PanePlan>)
    requires
        can_plan(panes@, *f, *theme),
        forall|p: int|
            0 <= p < panes@.len() ==> (#[trigger] look_in(panes@, *f, *theme, p)).countable(),
    ensures
        r@.len() == panes@.len(),
        forall|p: int|
            0 <= p < r@.len() ==> (#[trigger] r@[p]).of(look_in(panes@, *f, *theme, p))
                && r@[p].wf(),
{
    let none: HashSet<u64> = HashSet::new();
    let mut out: Vec<PanePlan> = Vec::new();
    let mut p: usize = 0;
    while p < panes.len()
        invariant
            p <= panes@.len(),
            can_plan(panes@, *f, *theme),
            none@ == Set::<u64>::empty(),
            forall|k: int|
                0 <= k < panes@.len() ==> (#[trigger] look_in(panes@, *f, *theme, k)).countable(),
            out@.len() == p,
            forall|k: int|
                0 <= k < p ==> (#[trigger] out@[k]).of(look_in(panes@, *f, *theme, k))
                    && out@[k].wf(),
        decreases panes@.len() - p,
    {
        let pane: Pane = pane_in(panes, f, theme, &none, p);
        assert(look_in(panes@, *f, *theme, p as int).countable());
        out.push(pane.plan());
        p = p + 1;
    }
    out
}

/// Plans single rows, each of a pane, of a frame without a log view.
pub fn plan_rows(
    panes: &Vec<PaneNow>,
    f: &FrameNow,
    theme: &ThemeBytes,
    rows: &Vec<(usize, usize)>,
) -> (r: Vec<Vec<Quad>>)
    requires
        can_plan(panes@, *f, *theme),
        !f.log_mode,
        forall|k: int|
            0 <= k < rows@.len() ==> (#[trigger] rows@[k]).0 < panes@.len()
                && panes@[rows@[k].0 as int].grid@.view_start() + rows@[k].1 <= usize::MAX,
    ensures
        r@.len() == rows@.len(),
        forall|k: int|
            0 <= k < r@.len() ==> (#[trigger] r@[k])@ == look_in(
                panes@,
                *f,
                *theme,
                rows@[k].0 as int,
            ).plain_quads(rows@[k].1 as int),
{
    let none: HashSet<u64> = HashSet::new();
    let mut out: Vec<Vec<Quad>> = Vec::new();
    let mut k: usize = 0;
    while k < rows.len()
        invariant
            k <= rows@.len(),
            can_plan(panes@, *f, *theme),
            !f.log_mode,
            none@ == Set::<u64>::empty(),
            forall|j: int|
                0 <= j < rows@.len() ==> (#[trigger] rows@[j]).0 < panes@.len()
                    && panes@[rows@[j].0 as int].grid@.view_start() + rows@[j].1 <= usize::MAX,
            out@.len() == k,
            forall|j: int|
                0 <= j < k ==> (#[trigger] out@[j])@ == look_in(
                    panes@,
                    *f,
                    *theme,
                    rows@[j].0 as int,
                ).plain_quads(rows@[j].1 as int),
        decreases rows@.len() - k,
    {
        let (p, v): (usize, usize) = rows[k];
        assert(rows@[k as int].0 < panes@.len());
        let pane: Pane = pane_in(panes, f, theme, &none, p);
        out.push(pane.plain_row(v));
        k = k + 1;
    }
    out
}

/// Keeps what the next frame needs to know of a frame that was planned anew.
pub fn remember(panes: &Vec<PaneNow>, f: &FrameNow, frame: &Frame) -> (r: PrevFrame)
    requires
        frame.row_starts@.len() == panes@.len(),
        frame.has_overflow@.len() == panes@.len(),
    ensures
        r.quads@ == frame.quads@,
        r.log_mode == f.log_mode,
        r.find_all.items@ == f.find_all.items@,
        r.find_current.items@ == f.find_current.items@,
        folds_view(r.folds@) == folds_view(f.folds@),
        r.panes@.len() == panes@.len(),
        forall|p: int|
            0 <= p < panes@.len() ==> (#[trigger] r.panes@[p]).of(panes@[p], f.blink_on)
                && r.panes@[p].row_starts@ == frame.row_starts@[p]@
                && r.panes@[p].has_overflow == frame.has_overflow@[p],
{
    let mut states: Vec<PrevPaneState> = Vec::new();
    let mut p: usize = 0;
    while p < panes.len()
        invariant
            p <= panes@.len() == frame.row_starts@.len() == frame.has_overflow@.len(),
            states@.len() == p,
            forall|k: int|
                0 <= k < p ==> (#[trigger] states@[k]).of(panes@[k], f.blink_on)
                    && states@[k].row_starts@ == frame.row_starts@[k]@ && states@[k].has_overflow
                    == frame.has_overflow@[k],
        decreases panes@.len() - p,
    {
        let starts: Vec<usize> = frame.row_starts[p].clone();
        assert(starts@ =~= frame.row_starts@[p as int]@);
        states.push(PrevPaneState::capture(&panes[p], f.blink_on, starts, frame.has_overflow[p]));
        p = p + 1;
    }
    let mut quads: Vec<Quad> = Vec::new();
    let mut i: usize = 0;
    while i < frame.quads.len()
        invariant
            i <= frame.quads@.len(),
            quads@ == frame.quads@.take(i as int),
        decreases frame.quads@.len() - i,
    {
        quads.push(frame.quads[i]);
        i = i + 1;
        assert(quads@ =~= frame.quads@.take(i as int));
    }
    assert(frame.quads@.take(i as int) =~= frame.quads@);
    PrevFrame {
        panes: states,
        quads,
        log_mode: f.log_mode,
        find_all: f.find_all.copy(),
        find_current: f.find_current.copy(),
        folds: f.folds.clone(),
    }
}

/// A planned row fits in place of the one that a frame holds.
pub open spec fn row_fits(
    prev: PrevFrame,
    at: (usize, usize),
    row: Seq<Quad>,
    spans: Seq<u32>,
) -> bool {
    &&& prev.start_of(at) <= prev.end_of(at) <= prev.quads@.len()
    &&& fits(row, spans, prev.start_of(at), prev.end_of(at))
}

/// A frame's quads with the first `n` of the planned rows in place of the old ones.
pub open spec fn spliced(
    prev: PrevFrame,
    rows: Seq<(usize, usize)>,
    planned: Seq<Vec<Quad>>,
    n: nat,
) -> Seq<Quad>
    decreases n,
{
    if n == 0 {
        prev.quads@
    } else {
        let before = spliced(prev, rows, planned, (n - 1) as nat);
        before.take(prev.start_of(rows[n - 1])) + planned[n - 1]@ + before.skip(
            prev.end_of(rows[n - 1]),
        )
    }
}

impl PrevFrame {
    /// The place of a row's first quad.
    pub open spec fn start_of(self, at: (usize, usize)) -> int {
        self.panes@[at.0 as int].row_starts@[at.1 as int] as int
    }

    /// The place after a row's last quad.
    pub open spec fn end_of(self, at: (usize, usize)) -> int {
        self.panes@[at.0 as int].row_starts@[at.1 + 1] as int
    }

    fn row_fits(&self, at: (usize, usize), row: &Vec<Quad>, spans: &Vec<u32>) -> (r: bool)
        requires
            at.0 < self.panes@.len(),
            at.1 + 1 < self.panes@[at.0 as int].row_starts@.len(),
            spans@.len() == row@.len(),
        ensures
            r == row_fits(*self, at, row@, spans@),
    {
        let starts: &Vec<usize> = &self.panes[at.0].row_starts;
        assert(at.1 + 1 < starts.len());
        let start: usize = starts[at.1];
        let end: usize = starts[at.1 + 1];
        if start > end || end > self.quads.len() || row.len() != end - start {
            return false;
        }
        let mut i: usize = 0;
        while i < row.len()
            invariant
                i <= row@.len() == spans@.len(),
                forall|j: int| 0 <= j < i ==> !overflows(#[trigger] row@[j], spans@[j]),
            decreases row@.len() - i,
        {
            let q: Quad = row[i];
            if q.shape == Shape::Cell && !q.wide && spans[i] > 1 {
                assert(overflows(row@[i as int], spans@[i as int]));
                return false;
            }
            i = i + 1;
        }
        true
    }

    /// Puts planned rows in place of the old ones and takes over the panes' selections, if every
    /// row fits. Otherwise nothing changes, and the frame has to be planned anew.
    pub fn redraw(
        &mut self,
        panes: &Vec<PaneNow>,
        rows: &Vec<(usize, usize)>,
        planned: &Vec<Vec<Quad>>,
        spans: &Vec<Vec<u32>>,
    ) -> (ok: bool)
        requires
            panes@.len() == old(self).panes@.len(),
            planned@.len() == rows@.len(),
            spans@.len() == rows@.len(),
            forall|k: int|
                0 <= k < rows@.len() ==> (#[trigger] spans@[k])@.len() == planned@[k]@.len(),
            forall|k: int| 0 <= k < rows@.len() ==> (#[trigger] rows@[k]).0 < panes@.len(),
            all_drawn(*old(self), rows@),
        ensures
            ok == forall|k: int|
                0 <= k < rows@.len() ==> row_fits(
                    *old(self),
                    #[trigger] rows@[k],
                    planned@[k]@,
                    spans@[k]@,
                ),
            !ok ==> *final(self) == *old(self),
            ok ==> final(self).quads@ == spliced(*old(self), rows@, planned@, rows@.len()),
            ok ==> final(self).panes@.len() == panes@.len(),
            ok ==> forall|p: int|
                0 <= p < panes@.len() ==> #[trigger] final(self).panes@[p] == (PrevPaneState {
                    selection: panes@[p].grid@.selection,
                    ..old(self).panes@[p]
                }),
            ok ==> *final(self) == (PrevFrame {
                quads: final(self).quads,
                panes: final(self).panes,
                ..*old(self)
            }),
    {
        let ghost before = *self;
        let mut k: usize = 0;
        while k < rows.len()
            invariant
                *self == before,
                k <= rows@.len() == planned@.len() == spans@.len(),
                panes@.len() == before.panes@.len(),
                forall|j: int|
                    0 <= j < rows@.len() ==> (#[trigger] spans@[j])@.len() == planned@[j]@.len(),
                forall|j: int| 0 <= j < rows@.len() ==> (#[trigger] rows@[j]).0 < panes@.len(),
                all_drawn(before, rows@),
                forall|j: int|
                    0 <= j < k ==> row_fits(
                        before,
                        #[trigger] rows@[j],
                        planned@[j]@,
                        spans@[j]@,
                    ),
            decreases rows@.len() - k,
        {
            assert(rows@[k as int].0 < panes@.len());
            assert(spans@[k as int]@.len() == planned@[k as int]@.len());
            if !self.row_fits(rows[k], &planned[k], &spans[k]) {
                assert(!row_fits(before, rows@[k as int], planned@[k as int]@, spans@[k as int]@));
                return false;
            }
            k = k + 1;
        }
        let mut n: usize = 0;
        while n < rows.len()
            invariant
                n <= rows@.len() == planned@.len() == spans@.len(),
                panes@.len() == before.panes@.len(),
                *self == (PrevFrame { quads: self.quads, ..before }),
                self.quads@ == spliced(before, rows@, planned@, n as nat),
                self.quads@.len() == before.quads@.len(),
                forall|j: int|
                    0 <= j < rows@.len() ==> (#[trigger] spans@[j])@.len() == planned@[j]@.len(),
                forall|j: int| 0 <= j < rows@.len() ==> (#[trigger] rows@[j]).0 < panes@.len(),
                all_drawn(before, rows@),
                forall|j: int|
                    0 <= j < rows@.len() ==> row_fits(
                        before,
                        #[trigger] rows@[j],
                        planned@[j]@,
                        spans@[j]@,
                    ),
            decreases rows@.len() - n,
        {
            let (p, v): (usize, usize) = rows[n];
            assert(rows@[n as int].0 < panes@.len());
            assert(spans@[n as int]@.len() == planned@[n as int]@.len());
            assert(row_fits(before, rows@[n as int], planned@[n as int]@, spans@[n as int]@));
            let starts: &Vec<usize> = &self.panes[p].row_starts;
            assert(v + 1 < starts.len());
            let start: usize = starts[v];
            let end: usize = starts[v + 1];
            let ok: bool = splice_row(&mut self.quads, start, end, &planned[n], &spans[n]);
            assert(ok);
            n = n + 1;
        }
        let mut i: usize = 0;
        while i < panes.len()
            invariant
                i <= panes@.len() == before.panes@.len() == self.panes@.len(),
                *self == (PrevFrame { quads: self.quads, panes: self.panes, ..before }),
                self.quads@ == spliced(before, rows@, planned@, rows@.len()),
                forall|p: int|
                    0 <= p < panes@.len() ==> #[trigger] self.panes@[p] == if p < i {
                        PrevPaneState { selection: panes@[p].grid@.selection, ..before.panes@[p] }
                    } else {
                        before.panes@[p]
                    },
            decreases panes@.len() - i,
        {
            proof {
                panes@[i as int].grid.lemma_fields();
            }
            self.panes[i].selection = panes[i].grid.selection;
            i = i + 1;
        }
        true
    }
}

impl PrevPaneState {
    /// The state is that of a pane, but for where its rows begin and which glyphs are drawn last.
    pub open spec fn of(self, now: PaneNow, blink_on: bool) -> bool {
        &&& self.pane_id == now.pane_id
        &&& self.cols == now.grid@.cols
        &&& self.rows == now.grid@.rows
        &&& self.viewport_x_q == now.viewport_x_q
        &&& self.viewport_y_q == now.viewport_y_q
        &&& self.scroll_offset == now.grid@.offset
        &&& self.is_alt_screen == now.grid@.is_alt
        &&& self.cursor_row == now.grid@.screen.row
        &&& self.cursor_col == now.grid@.screen.col
        &&& self.cursor_style == now.grid@.style
        &&& self.show_cursor == shows_cursor(now, blink_on)
        &&& self.selection == now.grid@.selection
    }

    /// What the next frame needs to know of a pane that was drawn.
    pub fn capture(
        now: &PaneNow,
        blink_on: bool,
        row_starts: Vec<usize>,
        has_overflow: bool,
    ) -> (r: PrevPaneState)
        ensures
            r.of(*now, blink_on),
            r.row_starts == row_starts,
            r.has_overflow == has_overflow,
    {
        proof {
            now.grid.lemma_fields();
        }
        PrevPaneState {
            pane_id: now.pane_id,
            cols: now.grid.cols,
            rows: now.grid.rows,
            viewport_x_q: now.viewport_x_q,
            viewport_y_q: now.viewport_y_q,
            scroll_offset: now.grid.scroll_offset,
            is_alt_screen: now.grid.is_alt_screen,
            cursor_row: now.grid.cursor_row,
            cursor_col: now.grid.cursor_col,
            cursor_style: now.grid.cursor_style,
            show_cursor: Pane::cursor_shows(now.grid, blink_on, now.focused),
            selection: now.grid.selection,
            row_starts,
            has_overflow,
        }
    }
}

/// The quads of the first `n` rows of a terminal that fills the window.
pub open spec fn terminal_rows(look: Look, n: nat) -> Seq<Quad>
    decreases n,
{
    if n == 0 {
        Seq::empty()
    } else {
        terminal_rows(look, (n - 1) as nat) + look.plain_quads(n - 1)
    }
}

/// The line of a cursor that is no block, in a terminal that fills the window.
pub open spec fn terminal_cursor(look: Look) -> Option<Quad> {
    if look.show_cursor && look.g.style != CursorStyle::Block {
        Some(
            crate::scene::flat_quad(
                look.pane,
                look.g.screen.row,
                look.g.screen.col,
                if look.g.style == CursorStyle::Underline {
                    Shape::CursorUnderline
                } else {
                    Shape::CursorBar
                },
                crate::scene::ink(look.theme.cursor_bg),
            ),
        )
    } else {
        None
    }
}

/// Plans a terminal that fills the window: its rows, and the line of a cursor that is no block.
pub fn plan_terminal(pane: &Pane) -> (r: (Vec<Quad>, Option<Quad>))
    requires
        pane.wf(),
        !pane.log,
        pane.grid@.view_start() + pane.grid@.rows <= usize::MAX,
    ensures
        r.0@ == terminal_rows(pane.look(), pane.grid@.rows as nat),
        r.1 == terminal_cursor(pane.look()),
{
    proof {
        pane.grid.lemma_fields();
    }
    let mut out: Vec<Quad> = Vec::new();
    let mut v: usize = 0;
    assert(out@ =~= terminal_rows(pane.look(), 0));
    while v < pane.grid.rows
        invariant
            pane.wf(),
            !pane.log,
            pane.grid.rows == pane.grid@.rows,
            pane.grid@.view_start() + pane.grid@.rows <= usize::MAX,
            v <= pane.grid.rows,
            out@ == terminal_rows(pane.look(), v as nat),
        decreases pane.grid.rows - v,
    {
        let mut row: Vec<Quad> = pane.plain_row(v);
        out.append(&mut row);
        v = v + 1;
        assert(out@ =~= terminal_rows(pane.look(), v as nat));
    }
    let cursor: Option<Quad> = if pane.show_cursor && pane.grid.cursor_style != CursorStyle::Block {
        let c: (u8, u8, u8, u8) = pane.theme.cursor_bg;
        let i: Ink = Ink::Rgba(c.0, c.1, c.2, c.3);
        Some(
            Quad {
                pane: pane.pane,
                row: pane.grid.cursor_row,
                col: pane.grid.cursor_col,
                shape: if pane.grid.cursor_style == CursorStyle::Underline {
                    Shape::CursorUnderline
                } else {
                    Shape::CursorBar
                },
                glyph: None,
                fg: i,
                bg: i,
                wide: false,
            },
        )
    } else {
        None
    };
    (out, cursor)
}

/// Puts the quads of a terminal that fills the window in drawing order: the glyphs that reach
/// beyond their cell after the others, the cursor's line last.
pub fn arrange_terminal(quads: &Vec<Quad>, spans: &Vec<u32>, cursor: Option<Quad>) -> (r: Vec<Quad>)
    requires
        spans@.len() == quads@.len(),
    ensures
        r@ == kept(quads@, spans@) + lifted(quads@, spans@) + match cursor {
            Some(q) => seq![q],
            None => Seq::empty(),
        },
{
    let mut main: Vec<Quad> = Vec::new();
    let mut last: Vec<Quad> = Vec::new();
    let mut i: usize = 0;
    assert(quads@.take(0) =~= Seq::empty());
    while i < quads.len()
        invariant
            i <= quads@.len() == spans@.len(),
            main@ == kept(quads@.take(i as int), spans@),
            last@ == lifted(quads@.take(i as int), spans@),
        decreases quads@.len() - i,
    {
        let q: Quad = quads[i];
        proof {
            lemma_step(quads@, spans@, i as int);
        }
        if q.shape == Shape::Cell && !q.wide && spans[i] > 1 {
            last.push(q);
        } else {
            main.push(q);
        }
        i = i + 1;
    }
    assert(quads@.take(i as int) =~= quads@);
    main.append(&mut last);
    if let Some(q) = cursor {
        main.push(q);
    }
    assert(main@ =~= kept(quads@, spans@) + lifted(quads@, spans@) + match cursor {
        Some(q) => seq![q],
        None => Seq::empty(),
    });
    main
}

/// A tab's title in the tab bar, with a space on either side.
pub open spec fn tab_text(title: Seq<char>) -> Seq<char> {
    seq![' '] + title + seq![' ']
}

/// The column where the tab at place `n` begins: one column from the left, and one between tabs.
pub open spec fn tab_column(tabs: Seq<(String, bool)>, n: nat) -> int
    decreases n,
{
    if n == 0 {
        1
    } else {
        tab_column(tabs, (n - 1) as nat) + tab_text(tabs[n - 1].0@).len() + 1
    }
}

/// A quad of the tab bar.
pub open spec fn tab_quad(col: int, c: char, fg: Ink, active: bool) -> Quad {
    Quad {
        pane: 0,
        row: 0,
        col: col as usize,
        shape: Shape::Label,
        glyph: crate::scene::glyph_of(c),
        fg,
        bg: if active {
            Ink::TabActive
        } else {
            Ink::TabBar
        },
        wide: false,
    }
}

/// The quads of the titles of the first `n` tabs.
pub open spec fn title_quads(tabs: Seq<(String, bool)>, fg: Ink, n: nat) -> Seq<Quad>
    decreases n,
{
    if n == 0 {
        Seq::empty()
    } else {
        let t = tab_text(tabs[n - 1].0@);
        let start = tab_column(tabs, (n - 1) as nat);
        title_quads(tabs, fg, (n - 1) as nat) + Seq::new(
            t.len(),
            |i: int| tab_quad(start + i, t[i], fg, tabs[n - 1].1),
        )
    }
}

/// The quads of the tab bar: its background from edge to edge, then the titles.
pub open spec fn tab_bar_quads(tabs: Seq<(String, bool)>, fg: Ink, cols: nat) -> Seq<Quad> {
    Seq::new(cols, |i: int| crate::scene::flat_quad(0, 0, i, Shape::Label, Ink::TabBar)) + title_quads(
        tabs,
        fg,
        tabs.len(),
    )
}

/// Plans the tab bar: a background of `cols` columns and the tabs' titles, each with whether it is
/// the active one.
pub fn plan_tab_bar(tabs: &Vec<(String, bool)>, fg: Ink, cols: usize) -> (r: Vec<Quad>)
    requires
        tab_column(tabs@, tabs@.len()) <= usize::MAX,
    ensures
        r@ == tab_bar_quads(tabs@, fg, cols as nat),
{
    let mut out: Vec<Quad> = Vec::new();
    let mut i: usize = 0;
    let ghost ground = Seq::new(
        cols as nat,
        |i: int| crate::scene::flat_quad(0, 0, i, Shape::Label, Ink::TabBar),
    );
    while i < cols
        invariant
            i <= cols,
            ground == Seq::new(
                cols as nat,
                |i: int| crate::scene::flat_quad(0, 0, i, Shape::Label, Ink::TabBar),
            ),
            out@ == ground.take(i as int),
        decreases cols - i,
    {
        out.push(
            Quad {
                pane: 0,
                row: 0,
                col: i,
                shape: Shape::Label,
                glyph: None,
                fg: Ink::TabBar,
                bg: Ink::TabBar,
                wide: false,
            },
        );
        i = i + 1;
        assert(out@ =~= ground.take(i as int));
    }
    assert(out@ =~= ground + title_quads(tabs@, fg, 0));
    let mut col: usize = 1;
    let mut n: usize = 0;
    while n < tabs.len()
        invariant
            n <= tabs@.len(),
            tab_column(tabs@, tabs@.len()) <= usize::MAX,
            col == tab_column(tabs@, n as nat),
            out@ == ground + title_quads(tabs@, fg, n as nat),
        decreases tabs@.len() - n,
    {
        proof {
            lemma_columns_grow(tabs@, (n + 1) as nat);
        }
        let ghost before = out@;
        let ghost t = tab_text(tabs@[n as int].0@);
        let ghost want = Seq::new(
            t.len(),
            |i: int| tab_quad(col + i, t[i], fg, tabs@[n as int].1),
        );
        let mut chars: Vec<char> = Vec::new();
        chars.push(' ');
        let title: Vec<char> = text::to_chars(tabs[n].0.as_str());
        text::push_joined(&mut chars, true, ' ', &title);
        chars.push(' ');
        assert(chars@ =~= t);
        let mut k: usize = 0;
        while k < chars.len()
            invariant
                k <= chars@.len(),
                n < tabs@.len(),
                chars@ == t,
                col + t.len() <= usize::MAX,
                want == Seq::new(t.len(), |i: int| tab_quad(col + i, t[i], fg, tabs@[n as int].1)),
                out@ == before + want.take(k as int),
            decreases chars@.len() - k,
        {
            let c: char = chars[k];
            out.push(
                Quad {
                    pane: 0,
                    row: 0,
                    col: col + k,
                    shape: Shape::Label,
                    glyph: if c > ' ' {
                        Some(c)
                    } else {
                        None
                    },
                    fg,
                    bg: if tabs[n].1 {
                        Ink::TabActive
                    } else {
                        Ink::TabBar
                    },
                    wide: false,
                },
            );
            k = k + 1;
            assert(out@ =~= before + want.take(k as int));
        }
        assert(want.take(k as int) =~= want);
        col = col + chars.len() + 1;
        n = n + 1;
        assert(out@ =~= ground + title_quads(tabs@, fg, n as nat));
    }
    out
}

proof fn lemma_columns_grow(tabs: Seq<(String, bool)>, n: nat)
    requires
        n <= tabs.len(),
    ensures
        tab_column(tabs, n) <= tab_column(tabs, tabs.len()),
    decreases tabs.len() - n,
{
    if n < tabs.len() {
        lemma_columns_grow(tabs, n + 1);
    }
}

/// Tabs stand side by side, one column from the left and one between two, and never overlap.
pub proof fn law_tabs_side_by_side(tabs: Seq<(String, bool)>, i: nat, j: nat)
    requires
        i <= j,
    ensures
        tab_column(tabs, 0) == 1,
        tab_column(tabs, i) >= 1,
        i < j ==> tab_column(tabs, i) + tabs[i as int].0@.len() + 2 < tab_column(tabs, j),
        i + 1 == j ==> tab_column(tabs, j) == tab_column(tabs, i) + tabs[i as int].0@.len() + 3,
    decreases j,
{
    if j > 0 {
        if i < j - 1 {
            law_tabs_side_by_side(tabs, i, (j - 1) as nat);
        } else if i == j {
            law_tabs_side_by_side(tabs, (i - 1) as nat, (j - 1) as nat);
        } else {
            law_tabs_side_by_side(tabs, i, i);
        }
        law_tabs_side_by_side(tabs, (j - 1) as nat, (j - 1) as nat);
    }
}

/// Every character of every title is drawn, in its tab's place and before the background of its
/// tab, which is another for the active one.
pub proof fn law_titles_drawn(tabs: Seq<(String, bool)>, fg: Ink, n: nat, i: int, k: int)
    requires
        0 <= i < n <= tabs.len(),
        0 <= k < tabs[i].0@.len(),
        tab_column(tabs, n) <= usize::MAX,
    ensures
        title_quads(tabs, fg, n).contains(
            Quad {
                pane: 0,
                row: 0,
                col: (tab_column(tabs, i as nat) + 1 + k) as usize,
                shape: Shape::Label,
                glyph: if tabs[i].0@[k] as int <= 32 {
                    None
                } else {
                    Some(tabs[i].0@[k])
                },
                fg,
                bg: if tabs[i].1 {
                    Ink::TabActive
                } else {
                    Ink::TabBar
                },
                wide: false,
            },
        ),
    decreases n,
{
    let t = tab_text(tabs[n - 1].0@);
    let start = tab_column(tabs, (n - 1) as nat);
    let before = title_quads(tabs, fg, (n - 1) as nat);
    let mine = Seq::new(t.len(), |i: int| tab_quad(start + i, t[i], fg, tabs[n - 1].1));
    let all = title_quads(tabs, fg, n);
    assert(all == before + mine);
    if i < n - 1 {
        law_titles_drawn(tabs, fg, (n - 1) as nat, i, k);
        let q = tab_quad(
            tab_column(tabs, i as nat) + 1 + k,
            tabs[i].0@[k],
            fg,
            tabs[i].1,
        );
        let m = choose|m: int| 0 <= m < before.len() && before[m] == q;
        assert(all[m] == q);
    } else {
        assert(t[k + 1] == tabs[i].0@[k]);
        assert(mine[k + 1] == tab_quad(start + (k + 1), t[k + 1], fg, tabs[n - 1].1));
        assert(all[before.len() + k + 1] == mine[k + 1]);
    }
}

/// A frame is drawn once more as it is, or in part, only where nothing that it shows can have
/// changed but the selections and the rows that are known to be damaged: the panes, their sizes and
/// places, how far they are scrolled, which screen they show, their cursors, the matches and the
/// folds are what they were, and no cell was written.
pub proof fn law_reused_frame_is_current(prev: PrevFrame, panes: Seq<PaneNow>, f: FrameNow, i: int)
    requires
        reusable(prev, panes, f),
        0 <= i < panes.len(),
    ensures
        ({
            let (p, n) = (prev.panes@[i], panes[i]);
            let g = n.grid@;
            &&& panes.len() == prev.panes@.len()
            &&& p.pane_id == n.pane_id
            &&& p.cols == g.cols && p.rows == g.rows
            &&& p.viewport_x_q == n.viewport_x_q && p.viewport_y_q == n.viewport_y_q
            &&& p.scroll_offset == g.offset
            &&& p.is_alt_screen == g.is_alt
            &&& p.cursor_row == g.screen.row && p.cursor_col == g.screen.col
            &&& p.cursor_style == g.style
            &&& p.show_cursor == (g.cursor_visible && f.blink_on && n.focused && g.offset == 0)
            &&& !n.damage.full && !n.damage.cells_dirty
            &&& !prev.log_mode && !f.log_mode
            &&& prev.find_all@ == f.find_all@ && prev.find_current@ == f.find_current@
            &&& folds_view(prev.folds@) == folds_view(f.folds@)
            &&& !changed(prev, panes) ==> g.selection == p.selection
        }),
{
    assert(same_layout(prev.panes@[i], panes[i], f.blink_on));
    if !changed(prev, panes) {
        assert(!pane_changed(prev.panes@[i], panes[i]));
    }
}

} // verus!
