//! A screen buffer in another size.

use crate::cell::Cell;
use crate::clock;
use crate::grid::{max, min, AltScreenSaved, GridView, ScreenView};
use crate::lines;
use crate::reflow;
use crate::reflow::{Row, RowView};
use vstd::prelude::*;

verus! {

/// Rows put together from their cells, timestamps and wrap flags.
pub open spec fn rows_of(cells: Seq<Seq<Cell>>, stamps: Seq<[u8; 8]>, flags: Seq<bool>) -> Seq<
    RowView,
> {
    Seq::new(
        cells.len(),
        |i: int| RowView { cells: cells[i], stamp: stamps[i], wrapped: flags[i] },
    )
}

/// A row for the history: it has a timestamp.
pub open spec fn stamped(r: RowView, stamp: [u8; 8]) -> RowView {
    if r.stamp == clock::unset() {
        RowView { stamp, ..r }
    } else {
        r
    }
}

impl ScreenView {
    /// The rows of the screen.
    pub open spec fn rows(self) -> Seq<RowView> {
        rows_of(self.lines, self.stamps, self.wrapped)
    }

    /// The rows of the history.
    pub open spec fn history_rows(self) -> Seq<RowView> {
        rows_of(self.history, self.history_stamps, self.history_wrapped)
    }

    /// What history and screen show, cell by cell, without the blanks.
    pub open spec fn reading(self) -> Seq<Cell> {
        reflow::reading(self.history_rows() + self.rows())
    }

    /// Where the cursor comes to stand among the rows of the other width.
    pub open spec fn cursor_moved(self, cols: int) -> (int, int) {
        if self.lines.len() == 0 {
            (0, 0)
        } else {
            reflow::place(self.rows(), cols, self.row, self.col)
        }
    }

    /// The screen's rows in the other width, without blank rows below the cursor that there is
    /// no room for.
    pub open spec fn flow(self, cols: int, rows: int) -> Seq<RowView> {
        reflow::shortened(
            reflow::flowed(reflow::joined(self.rows()), cols),
            self.cursor_moved(cols).0,
            rows,
        )
    }

    /// How many rows leave the screen at its top.
    pub open spec fn risen(self, cols: int, rows: int) -> int {
        crate::blocks::monus(self.flow(cols, rows).len() as int, rows)
    }

    /// The history with the rows that leave the screen.
    pub open spec fn grown_history(self, cols: int, rows: int, stamp: [u8; 8]) -> Seq<RowView> {
        self.history_rows() + self.flow(cols, rows).take(self.risen(cols, rows)).map_values(
            |r: RowView| stamped(r, stamp),
        )
    }

    /// How many rows the history has to give up.
    pub open spec fn given_up(self, cols: int, rows: int, max_history: int) -> int {
        crate::blocks::monus(
            self.history.len() as int + self.risen(cols, rows),
            max(max_history, 1),
        )
    }

    /// On which of the rows of the other width each row of the screen starts.
    pub open spec fn places(self, cols: int, rows: int) -> Seq<int> {
        Seq::new(
            self.lines.len(),
            |r: int|
                min(
                    reflow::place(self.rows(), cols, r, 0).0,
                    self.flow(cols, rows).len() - 1,
                ),
        )
    }

    /// The buffer in another size. Its lines are reflowed along their wrap flags; rows that do
    /// not fit go into the history, where they have the timestamp `stamp` if they had none, and
    /// rows that are missing are blank. The lower margin is at the new bottom.
    pub open spec fn reflowed(
        self,
        cols: int,
        rows: int,
        max_history: int,
        stamp: [u8; 8],
    ) -> ScreenView {
        let shown = self.flow(cols, rows).skip(self.risen(cols, rows));
        let past = self.grown_history(cols, rows, stamp).skip(
            self.given_up(cols, rows, max_history),
        );
        ScreenView {
            lines: lines::resized(
                shown.map_values(|r: RowView| r.cells),
                rows,
                lines::blank_line(cols),
            ),
            stamps: lines::resized(
                shown.map_values(|r: RowView| r.stamp),
                rows,
                clock::unset(),
            ),
            wrapped: lines::resized(shown.map_values(|r: RowView| r.wrapped), rows, false),
            history: past.map_values(|r: RowView| r.cells),
            history_stamps: past.map_values(|r: RowView| r.stamp),
            history_wrapped: past.map_values(|r: RowView| r.wrapped),
            row: crate::blocks::monus(self.cursor_moved(cols).0, self.risen(cols, rows)),
            col: self.cursor_moved(cols).1,
            top: if self.top <= crate::blocks::monus(rows, 1) {
                self.top
            } else {
                0
            },
            bottom: crate::blocks::monus(rows, 1),
        }
    }
}

/// The buffer in another size is a matrix of that size, with the cursor and the margins inside.
pub proof fn lemma_reflowed_fits(
    s: ScreenView,
    cols: int,
    rows: int,
    max_history: int,
    stamp: [u8; 8],
)
    requires
        s.wf(max_history),
        0 <= s.row <= crate::blocks::monus(s.lines.len() as int, 1),
        0 <= s.col,
        0 <= s.top,
        0 <= cols,
        0 <= rows,
    ensures
        s.reflowed(cols, rows, max_history, stamp).wf(max_history),
        s.reflowed(cols, rows, max_history, stamp).fits(rows, cols),
{
    let r = s.reflowed(cols, rows, max_history, stamp);
    let all = reflow::flowed(reflow::joined(s.rows()), cols);
    let keep = s.cursor_moved(cols).0;
    let flow = s.flow(cols, rows);
    let over = s.risen(cols, rows);
    reflow::lemma_flowed_shape(reflow::joined(s.rows()), cols);
    reflow::lemma_shortened(all, keep, rows);
    if s.lines.len() > 0 {
        reflow::lemma_place_inside(s.rows(), cols, s.row, s.col);
    } else {
        assert(s.rows() =~= Seq::empty());
        assert(all =~= Seq::empty());
    }
    assert forall|i: int| 0 <= i < rows implies (#[trigger] r.lines[i]).len() == cols by {
        if i < flow.len() - over {
            assert(flow[i + over] == all[i + over]);
        }
    }
}

proof fn lemma_stamped_reading(rows: Seq<RowView>, stamp: [u8; 8])
    ensures
        reflow::reading(rows.map_values(|r: RowView| stamped(r, stamp))) == reflow::reading(rows),
    decreases rows.len(),
{
    let m = rows.map_values(|r: RowView| stamped(r, stamp));
    if rows.len() > 0 {
        lemma_stamped_reading(rows.drop_last(), stamp);
        assert(m.drop_last() =~= rows.drop_last().map_values(|r: RowView| stamped(r, stamp)));
    }
}

proof fn lemma_blank_reading(n: nat, cols: int, stamp: [u8; 8])
    ensures
        reflow::reading(
            Seq::new(
                n,
                |i: int| RowView { cells: lines::blank_line(cols), stamp, wrapped: false },
            ),
        ) == Seq::<Cell>::empty(),
    decreases n,
{
    let s = Seq::new(n, |i: int| RowView { cells: lines::blank_line(cols), stamp, wrapped: false });
    if n > 0 {
        lemma_blank_reading((n - 1) as nat, cols, stamp);
        assert(s.drop_last() =~= Seq::new(
            (n - 1) as nat,
            |i: int| RowView { cells: lines::blank_line(cols), stamp, wrapped: false },
        ));
        reflow::lemma_hidden_invisible(lines::blank_line(cols));
        assert(reflow::reading(s) =~= Seq::<Cell>::empty());
    }
}

/// A buffer in another size, as long as it has columns, shows what it showed, in the same order
/// and in the same colours, less what the rows show that a full history gives up.
pub proof fn law_reflow_keeps_reading(
    s: ScreenView,
    cols: int,
    rows: int,
    max_history: int,
    stamp: [u8; 8],
)
    requires
        s.wf(max_history),
        cols >= 1,
        rows >= 0,
    ensures
        s.reading() == reflow::reading(
            s.grown_history(cols, rows, stamp).take(s.given_up(cols, rows, max_history)),
        ) + s.reflowed(cols, rows, max_history, stamp).reading(),
        s.given_up(cols, rows, max_history) == 0 ==> s.reflowed(
            cols,
            rows,
            max_history,
            stamp,
        ).reading() == s.reading(),
{
    let r = s.reflowed(cols, rows, max_history, stamp);
    let all = reflow::flowed(reflow::joined(s.rows()), cols);
    let flow = s.flow(cols, rows);
    let over = s.risen(cols, rows);
    let grown = s.grown_history(cols, rows, stamp);
    let e = s.given_up(cols, rows, max_history);
    let up = flow.take(over);
    let shown = flow.skip(over);
    reflow::lemma_joined_reading(s.rows());
    reflow::lemma_flowed_reading(reflow::joined(s.rows()), cols);
    reflow::lemma_shortened(all, s.cursor_moved(cols).0, rows);
    assert(reflow::reading(flow) == reflow::reading(s.rows()));
    assert(up + shown =~= flow);
    reflow::lemma_reading_add(up, shown);
    lemma_stamped_reading(up, stamp);
    reflow::lemma_reading_add(
        s.history_rows(),
        up.map_values(|r: RowView| stamped(r, stamp)),
    );
    reflow::lemma_reading_add(s.history_rows(), s.rows());
    assert(s.reading() =~= reflow::reading(grown) + reflow::reading(shown));
    let past = grown.skip(e);
    assert(grown.take(e) + past =~= grown);
    reflow::lemma_reading_add(grown.take(e), past);
    assert(r.history_rows() =~= past);
    let pad = Seq::new(
        (rows - shown.len()) as nat,
        |i: int|
            RowView { cells: lines::blank_line(cols), stamp: clock::unset(), wrapped: false },
    );
    assert(r.rows() =~= shown + pad);
    reflow::lemma_reading_add(shown, pad);
    lemma_blank_reading((rows - shown.len()) as nat, cols, clock::unset());
    reflow::lemma_reading_add(past, r.rows());
    assert(r.reading() =~= reflow::reading(past) + reflow::reading(shown));
    assert(s.reading() =~= reflow::reading(grown.take(e)) + r.reading());
    if e == 0 {
        assert(grown.take(0) =~= Seq::empty());
        assert(reflow::reading(grown.take(0)) =~= Seq::empty());
        assert(s.reading() =~= r.reading());
    }
}

/// A grid in another size is well-formed, and its screens show what they showed, as far as their
/// histories have room.
pub proof fn lemma_resized_wf(g: GridView, cols: int, rows: int)
    requires
        g.wf(),
        0 <= cols <= crate::grid::size_limit(),
        0 <= rows <= crate::grid::size_limit(),
    ensures
        g.resized(cols, rows).wf(),
        cols >= 1 && g.screen.given_up(cols, rows, g.max_history) == 0 ==> g.resized(
            cols,
            rows,
        ).screen.reading() == g.screen.reading(),
        g.saved matches Some(s) ==> cols >= 1 && s.given_up(cols, rows, g.max_history) == 0
            ==> g.resized(cols, rows).saved.unwrap().reading() == s.reading(),
{
    lemma_reflowed_fits(g.screen, cols, rows, g.max_history, g.batch);
    if cols >= 1 {
        law_reflow_keeps_reading(g.screen, cols, rows, g.max_history, g.batch);
    }
    match g.saved {
        Some(s) => {
            lemma_reflowed_fits(s, cols, rows, g.max_history, g.batch);
            if cols >= 1 {
                law_reflow_keeps_reading(s, cols, rows, g.max_history, g.batch);
            }
        },
        None => {},
    }
    let p = g.primary();
    let moved = g.blocks.rows_moved(p.history.len() as int, p.places(cols, rows));
    assert(moved.wf());
    crate::blocks::law_evict_keeps_ids(moved, p.given_up(cols, rows, g.max_history));
}

/// Puts rows together.
fn gather(cells: &Vec<Vec<Cell>>, stamps: &Vec<[u8; 8]>, flags: &Vec<bool>) -> (r: Vec<Row>)
    requires
        stamps@.len() == cells@.len(),
        flags@.len() == cells@.len(),
    ensures
        reflow::row_views(r@) == rows_of(lines::lines(cells@), stamps@, flags@),
{
    let ghost want = rows_of(lines::lines(cells@), stamps@, flags@);
    let mut out: Vec<Row> = Vec::new();
    let mut i: usize = 0;
    assert(reflow::row_views(out@) =~= want.take(0));
    while i < cells.len()
        invariant
            i <= cells@.len() == stamps@.len() == flags@.len(),
            want == rows_of(lines::lines(cells@), stamps@, flags@),
            reflow::row_views(out@) == want.take(i as int),
        decreases cells@.len() - i,
    {
        let ghost before = reflow::row_views(out@);
        let row = Row { cells: copy_line(&cells[i]), stamp: stamps[i], wrapped: flags[i] };
        let ghost view = row@;
        out.push(row);
        assert(reflow::row_views(out@) =~= before.push(view));
        i = i + 1;
        assert(reflow::row_views(out@) =~= want.take(i as int));
    }
    assert(want.take(i as int) =~= want);
    out
}

/// The cells of a line.
fn copy_line(cells: &Vec<Cell>) -> (r: Vec<Cell>)
    ensures
        r@ == cells@,
{
    let mut out: Vec<Cell> = Vec::new();
    let mut i: usize = 0;
    while i < cells.len()
        invariant
            i <= cells@.len(),
            out@ == cells@.take(i as int),
        decreases cells@.len() - i,
    {
        out.push(cells[i]);
        i = i + 1;
        assert(out@ =~= cells@.take(i as int));
    }
    assert(out@ =~= cells@);
    out
}

/// Where the cell at row `r` and column `c` comes to stand, from what joining and cutting said.
fn find_place(
    rows: &Vec<Row>,
    ls: &Vec<Row>,
    marks: &Vec<(usize, usize)>,
    starts: &Vec<usize>,
    cols: usize,
    r: usize,
    c: usize,
) -> (p: (usize, usize))
    requires
        r < rows@.len(),
        marks@.len() == rows@.len(),
        forall|i: int|
            0 <= i < rows@.len() ==> {
                &&& (#[trigger] marks@[i]).0 == reflow::line_of(reflow::row_views(rows@), i)
                &&& marks@[i].1 == reflow::offset_of(reflow::row_views(rows@), i)
            },
        starts@.len() == ls@.len() == reflow::joined(reflow::row_views(rows@)).len(),
        forall|k: int|
            0 <= k < ls@.len() ==> #[trigger] starts@[k] == reflow::flowed(
                reflow::joined(reflow::row_views(rows@)).take(k),
                cols as int,
            ).len(),
        forall|k: int|
            0 <= k < ls@.len() ==> (#[trigger] ls@[k])@.cells == reflow::trimmed(
                reflow::joined(reflow::row_views(rows@))[k].cells,
            ),
        marks@[r as int].1 + c <= usize::MAX,
        reflow::flowed(reflow::joined(reflow::row_views(rows@)), cols as int).len() <= usize::MAX,
    ensures
        p.0 == reflow::place(reflow::row_views(rows@), cols as int, r as int, c as int).0,
        p.1 == reflow::place(reflow::row_views(rows@), cols as int, r as int, c as int).1,
{
    let ghost views = reflow::row_views(rows@);
    proof {
        reflow::lemma_line_of(views, r as int);
        reflow::lemma_place_inside(views, cols as int, r as int, c as int);
    }
    let (k, off): (usize, usize) = marks[r];
    let (row, col): (usize, usize) = reflow::find_spot(&ls[k].cells, cols, off + c);
    (starts[k] + row, col)
}

/// Appends rows to the history and the rest to the screen.
fn deal(
    all: &mut Vec<Row>,
    over: usize,
    stamp: [u8; 8],
    s: &mut AltScreenSaved,
)
    requires
        over <= old(all)@.len(),
    ensures
        ({
            let flow = reflow::row_views(old(all)@);
            let up = flow.take(over as int).map_values(|r: RowView| stamped(r, stamp));
            let shown = flow.skip(over as int);
            final(s)@ == (ScreenView {
                lines: shown.map_values(|r: RowView| r.cells),
                stamps: shown.map_values(|r: RowView| r.stamp),
                wrapped: shown.map_values(|r: RowView| r.wrapped),
                history: old(s)@.history + up.map_values(|r: RowView| r.cells),
                history_stamps: old(s)@.history_stamps + up.map_values(|r: RowView| r.stamp),
                history_wrapped: old(s)@.history_wrapped + up.map_values(
                    |r: RowView| r.wrapped,
                ),
                ..old(s)@
            })
        }),
{
    let ghost flow = reflow::row_views(all@);
    let ghost up = flow.take(over as int).map_values(|r: RowView| stamped(r, stamp));
    let ghost shown = flow.skip(over as int);
    let mut cells: Vec<Vec<Cell>> = Vec::new();
    let mut stamps: Vec<[u8; 8]> = Vec::new();
    let mut flags: Vec<bool> = Vec::new();
    let mut i: usize = 0;
    assert(lines::lines(s.scrollback@) =~= old(s)@.history + up.take(0).map_values(
        |r: RowView| r.cells,
    ));
    assert(s.scrollback_timestamps@ =~= old(s)@.history_stamps + up.take(0).map_values(
        |r: RowView| r.stamp,
    ));
    assert(s.scrollback_wrapped@ =~= old(s)@.history_wrapped + up.take(0).map_values(
        |r: RowView| r.wrapped,
    ));
    while i < over
        invariant
            i <= over <= all@.len() == flow.len(),
            flow == reflow::row_views(old(all)@),
            up == flow.take(over as int).map_values(|r: RowView| stamped(r, stamp)),
            forall|j: int| i <= j < all@.len() ==> (#[trigger] all@[j])@ == flow[j],
            lines::lines(s.scrollback@) == old(s)@.history + up.take(i as int).map_values(
                |r: RowView| r.cells,
            ),
            s.scrollback_timestamps@ == old(s)@.history_stamps + up.take(i as int).map_values(
                |r: RowView| r.stamp,
            ),
            s.scrollback_wrapped@ == old(s)@.history_wrapped + up.take(i as int).map_values(
                |r: RowView| r.wrapped,
            ),
            s@ == (ScreenView {
                history: s@.history,
                history_stamps: s@.history_stamps,
                history_wrapped: s@.history_wrapped,
                ..old(s)@
            }),
        decreases over - i,
    {
        let ghost before = lines::lines(s.scrollback@);
        let mut row: Vec<Cell> = Vec::new();
        assert(all@[i as int]@ == flow[i as int]);
        assert(up[i as int] == stamped(flow[i as int], stamp));
        let at: [u8; 8] = if clock::is_unset(&all[i].stamp) {
            stamp
        } else {
            all[i].stamp
        };
        let flag: bool = all[i].wrapped;
        std::mem::swap(&mut row, &mut all[i].cells);
        let ghost view = row@;
        s.scrollback.push_back(row);
        s.scrollback_timestamps.push_back(at);
        s.scrollback_wrapped.push_back(flag);
        assert(lines::lines(s.scrollback@) =~= before.push(view));
        i = i + 1;
        assert(lines::lines(s.scrollback@) =~= old(s)@.history + up.take(i as int).map_values(
            |r: RowView| r.cells,
        ));
        assert(s.scrollback_timestamps@ =~= old(s)@.history_stamps + up.take(
            i as int,
        ).map_values(|r: RowView| r.stamp));
        assert(s.scrollback_wrapped@ =~= old(s)@.history_wrapped + up.take(i as int).map_values(
            |r: RowView| r.wrapped,
        ));
    }
    assert(up.take(over as int) =~= up);
    assert(lines::lines(cells@) =~= shown.take(0).map_values(|r: RowView| r.cells));
    assert(stamps@ =~= shown.take(0).map_values(|r: RowView| r.stamp));
    assert(flags@ =~= shown.take(0).map_values(|r: RowView| r.wrapped));
    while i < all.len()
        invariant
            over <= i <= all@.len() == flow.len(),
            shown == flow.skip(over as int),
            forall|j: int| i <= j < all@.len() ==> (#[trigger] all@[j])@ == flow[j],
            lines::lines(cells@) == shown.take(i - over).map_values(|r: RowView| r.cells),
            stamps@ == shown.take(i - over).map_values(|r: RowView| r.stamp),
            flags@ == shown.take(i - over).map_values(|r: RowView| r.wrapped),
        decreases all@.len() - i,
    {
        let ghost before = lines::lines(cells@);
        let mut row: Vec<Cell> = Vec::new();
        assert(all@[i as int]@ == flow[i as int]);
        assert(shown[i - over] == flow[i as int]);
        stamps.push(all[i].stamp);
        flags.push(all[i].wrapped);
        std::mem::swap(&mut row, &mut all[i].cells);
        let ghost view = row@;
        cells.push(row);
        assert(lines::lines(cells@) =~= before.push(view));
        i = i + 1;
        assert(lines::lines(cells@) =~= shown.take(i - over).map_values(|r: RowView| r.cells));
        assert(stamps@ =~= shown.take(i - over).map_values(|r: RowView| r.stamp));
        assert(flags@ =~= shown.take(i - over).map_values(|r: RowView| r.wrapped));
    }
    assert(shown.take(i - over) =~= shown);
    s.cells = cells;
    s.active_timestamps = stamps;
    s.line_wrapped = flags;
}

/// Pads the screen with blank rows.
fn pad_screen(s: &mut AltScreenSaved, cols: usize, rows: usize)
    requires
        old(s)@.lines.len() <= rows,
        old(s)@.stamps.len() == old(s)@.lines.len(),
        old(s)@.wrapped.len() == old(s)@.lines.len(),
    ensures
        final(s)@ == (ScreenView {
            lines: lines::resized(old(s)@.lines, rows as int, lines::blank_line(cols as int)),
            stamps: lines::resized(old(s)@.stamps, rows as int, clock::unset()),
            wrapped: lines::resized(old(s)@.wrapped, rows as int, false),
            ..old(s)@
        }),
{
    lines::resize(&mut s.active_timestamps, rows, clock::unset_stamp());
    lines::resize(&mut s.line_wrapped, rows, false);
    let ghost want = lines::resized(old(s)@.lines, rows as int, lines::blank_line(cols as int));
    assert(lines::lines(s.cells@) =~= want.take(s.cells@.len() as int));
    while s.cells.len() < rows
        invariant
            old(s)@.lines.len() <= s.cells@.len() <= rows,
            want == lines::resized(old(s)@.lines, rows as int, lines::blank_line(cols as int)),
            lines::lines(s.cells@) == want.take(s.cells@.len() as int),
            s@ == (ScreenView {
                lines: s@.lines,
                stamps: lines::resized(old(s)@.stamps, rows as int, clock::unset()),
                wrapped: lines::resized(old(s)@.wrapped, rows as int, false),
                ..old(s)@
            }),
        decreases rows - s.cells@.len(),
    {
        let ghost before = lines::lines(s.cells@);
        s.cells.push(lines::blank_row(cols));
        assert(lines::lines(s.cells@) =~= before.push(lines::blank_line(cols as int)));
        assert(lines::lines(s.cells@) =~= want.take(s.cells@.len() as int));
    }
    assert(want.take(rows as int) =~= want);
}

/// Takes the first `n` rows of the history away.
fn give_up(s: &mut AltScreenSaved, n: usize)
    requires
        n <= old(s)@.history.len(),
        old(s)@.history_stamps.len() == old(s)@.history.len(),
        old(s)@.history_wrapped.len() == old(s)@.history.len(),
    ensures
        final(s)@ == (ScreenView {
            history: old(s)@.history.skip(n as int),
            history_stamps: old(s)@.history_stamps.skip(n as int),
            history_wrapped: old(s)@.history_wrapped.skip(n as int),
            ..old(s)@
        }),
{
    let mut i: usize = 0;
    assert(lines::lines(s.scrollback@) =~= old(s)@.history.skip(0));
    assert(s.scrollback_timestamps@ =~= old(s)@.history_stamps.skip(0));
    assert(s.scrollback_wrapped@ =~= old(s)@.history_wrapped.skip(0));
    while i < n
        invariant
            i <= n <= old(s)@.history.len(),
            old(s)@.history_stamps.len() == old(s)@.history.len(),
            old(s)@.history_wrapped.len() == old(s)@.history.len(),
            lines::lines(s.scrollback@) == old(s)@.history.skip(i as int),
            s.scrollback_timestamps@ == old(s)@.history_stamps.skip(i as int),
            s.scrollback_wrapped@ == old(s)@.history_wrapped.skip(i as int),
            s@ == (ScreenView {
                history: s@.history,
                history_stamps: s@.history_stamps,
                history_wrapped: s@.history_wrapped,
                ..old(s)@
            }),
        decreases n - i,
    {
        let ghost before = s.scrollback@;
        let ghost stamps = s.scrollback_timestamps@;
        let ghost flags = s.scrollback_wrapped@;
        assert(lines::lines(before).len() == before.len());
        let _ = s.scrollback.pop_front();
        let _ = s.scrollback_timestamps.pop_front();
        let _ = s.scrollback_wrapped.pop_front();
        assert(s.scrollback@ =~= before.skip(1));
        assert(lines::lines(s.scrollback@) =~= lines::lines(before).skip(1));
        assert(s.scrollback_timestamps@ =~= stamps.skip(1));
        assert(s.scrollback_wrapped@ =~= flags.skip(1));
        i = i + 1;
        assert(lines::lines(s.scrollback@) =~= old(s)@.history.skip(i as int));
        assert(s.scrollback_timestamps@ =~= old(s)@.history_stamps.skip(i as int));
        assert(s.scrollback_wrapped@ =~= old(s)@.history_wrapped.skip(i as int));
    }
}

/// Reflows a buffer to another size. Says on which of the rows of the other width each row of
/// the screen starts, and how many rows the history gave up.
pub(crate) fn reflow_buffer(
    s: &mut AltScreenSaved,
    cols: usize,
    rows: usize,
    max_history: usize,
    stamp: [u8; 8],
) -> (r: (Vec<usize>, usize))
    requires
        old(s)@.wf(max_history as int),
        old(s)@.row <= crate::blocks::monus(old(s)@.lines.len() as int, 1),
        old(s)@.lines.len() > 0 ==> old(s)@.col <= old(s)@.lines[old(s)@.row].len(),
        max_history <= crate::grid::size_limit(),
    ensures
        final(s)@ == old(s)@.reflowed(cols as int, rows as int, max_history as int, stamp),
        r.0@.map_values(|p: usize| p as int) == old(s)@.places(cols as int, rows as int),
        r.1 == old(s)@.given_up(cols as int, rows as int, max_history as int),
{
    let ghost was = s@;
    assert(lines::lines(s.cells@).len() == s.cells@.len());
    let old_rows: Vec<Row> = gather(&s.cells, &s.active_timestamps, &s.line_wrapped);
    let ghost views = reflow::row_views(old_rows@);
    assert(views == was.rows());
    assert(views.len() == old_rows@.len());
    let (mut ls, marks): (Vec<Row>, Vec<(usize, usize)>) = reflow::join(&old_rows);
    let ghost joined = reflow::row_views(ls@);
    assert(joined.len() == ls@.len());
    assert forall|k: int| 0 <= k < joined.len() implies (#[trigger] joined[k]).cells.len()
        <= usize::MAX by {
        assert(joined[k].cells.len() == ls@[k].cells.len());
    }
    assert(forall|k: int| 0 <= k < ls@.len() ==> joined[k] == (#[trigger] ls@[k])@);
    let (mut all, starts): (Vec<Row>, Vec<usize>) = reflow::flow(&mut ls, cols);
    let ghost flowed = reflow::row_views(all@);
    assert(flowed.len() == all@.len());
    let n: usize = old_rows.len();
    let total: usize = all.len();
    let (row, col): (usize, usize) = if n == 0 {
        (0, 0)
    } else {
        proof {
            reflow::lemma_row_inside(views, was.row);
            reflow::lemma_line_of(views, was.row);
            reflow::lemma_place_inside(views, cols as int, was.row, was.col);
        }
        find_place(
            &old_rows,
            &ls,
            &marks,
            &starts,
            cols,
            s.cursor_row,
            s.cursor_col,
        )
    };
    proof {
        if n == 0 {
            assert(views =~= Seq::empty());
            assert(flowed =~= Seq::empty());
        }
        reflow::lemma_shortened(flowed, row as int, rows as int);
    }
    reflow::shorten(&mut all, row, rows);
    let ghost flow = reflow::row_views(all@);
    assert(flow == was.flow(cols as int, rows as int));
    assert(flow.len() == all@.len());
    let kept: usize = all.len();
    let mut places: Vec<usize> = Vec::new();
    let mut i: usize = 0;
    while i < n
        invariant
            i <= n == old_rows@.len() == views.len(),
            views == reflow::row_views(old_rows@),
            views == was.rows(),
            marks@.len() == n,
            forall|i: int|
                0 <= i < n ==> {
                    &&& (#[trigger] marks@[i]).0 == reflow::line_of(views, i)
                    &&& marks@[i].1 == reflow::offset_of(views, i)
                },
            starts@.len() == ls@.len() == reflow::joined(views).len(),
            forall|k: int|
                0 <= k < ls@.len() ==> #[trigger] starts@[k] == reflow::flowed(
                    reflow::joined(views).take(k),
                    cols as int,
                ).len(),
            forall|k: int|
                0 <= k < ls@.len() ==> (#[trigger] ls@[k])@.cells == reflow::trimmed(
                    reflow::joined(views)[k].cells,
                ),
            reflow::flowed(reflow::joined(views), cols as int).len() == total,
            was.flow(cols as int, rows as int).len() == kept,
            n > 0 ==> kept > 0,
            places@.len() == i,
            forall|r: int|
                0 <= r < i ==> #[trigger] places@[r] == min(
                    reflow::place(views, cols as int, r, 0).0,
                    kept - 1,
                ),
        decreases n - i,
    {
        let (p, _): (usize, usize) = find_place(&old_rows, &ls, &marks, &starts, cols, i, 0);
        places.push(if p <= kept - 1 {
            p
        } else {
            kept - 1
        });
        i = i + 1;
    }
    assert(places@.map_values(|p: usize| p as int) =~= was.places(cols as int, rows as int));
    let over: usize = kept.saturating_sub(rows);
    deal(&mut all, over, stamp, s);
    let ghost grown = was.grown_history(cols as int, rows as int, stamp);
    let ghost up = flow.take(over as int).map_values(|r: RowView| stamped(r, stamp));
    proof {
        assert(grown =~= was.history_rows() + up);
        assert(s@.history =~= grown.map_values(|r: RowView| r.cells));
        assert(s@.history_stamps =~= grown.map_values(|r: RowView| r.stamp));
        assert(s@.history_wrapped =~= grown.map_values(|r: RowView| r.wrapped));
    }
    assert(lines::lines(s.scrollback@).len() == s.scrollback@.len());
    let limit: usize = if max_history >= 1 {
        max_history
    } else {
        1
    };
    let gone: usize = s.scrollback.len().saturating_sub(limit);
    give_up(s, gone);
    proof {
        let past = grown.skip(gone as int);
        assert(s@.history =~= past.map_values(|r: RowView| r.cells));
        assert(s@.history_stamps =~= past.map_values(|r: RowView| r.stamp));
        assert(s@.history_wrapped =~= past.map_values(|r: RowView| r.wrapped));
    }
    pad_screen(s, cols, rows);
    s.cursor_row = row.saturating_sub(over);
    s.cursor_col = col;
    if s.scroll_top > rows.saturating_sub(1) {
        s.scroll_top = 0;
    }
    s.scroll_bottom = rows.saturating_sub(1);
    (places, gone)
}

/// A row that holds nothing: blank cells in default colours.
pub open spec fn empty_row(line: Seq<Cell>) -> bool {
    forall|j: int|
        0 <= j < line.len() ==> #[trigger] line[j] == (Cell {
            ch: ' ',
            fg: crate::cell::Color::Default,
            bg: crate::cell::Color::Default,
            attrs: crate::cell::CellAttrs { bits: 0 },
        })
}

/// A resize that leaves the width alone leaves the cursor on its text: counted from the cursor up
/// and down, every row of screen and history is what it was, the column is the same, and as long
/// as the history has room the cursor keeps its absolute row. Rows that are new are empty. The
/// one exception, a row that holds something as far below the cursor as the new screen is high,
/// would push the cursor's own row off the screen.
#[verifier::rlimit(40)]
pub proof fn law_cursor_stays_on_its_row(
    s: ScreenView,
    cols: int,
    old_rows: int,
    rows: int,
    max_history: int,
    stamp: [u8; 8],
    d: int,
)
    requires
        s.wf(max_history),
        s.fits(old_rows, cols),
        cols >= 1,
        old_rows >= 1,
        rows >= 1,
        forall|i: int|
            0 <= i < old_rows ==> !(#[trigger] s.lines[i])[0].attrs.has(
                crate::cell::CellAttrs::WIDE_TAIL,
            ),
        forall|i: int| s.row + rows <= i < old_rows ==> empty_row(#[trigger] s.lines[i]),
    ensures
        ({
            let r = s.reflowed(cols, rows, max_history, stamp);
            let (old_top, top) = (s.history.len(), r.history.len());
            let (was, now) = (old_top + s.row - d, top + r.row - d);
            &&& r.col == s.col
            &&& 0 <= r.row < rows
            &&& r.lines.len() == rows
            &&& top < max_history ==> top + r.row == old_top + s.row
            &&& top + r.row <= old_top + s.row
            &&& 0 <= now < top + rows && was < old_top + old_rows ==> r.line(now) == s.line(was)
            &&& 0 <= now < top + rows && was >= old_top + old_rows ==> r.line(now) is Some
                && empty_row(r.line(now).unwrap())
            &&& now >= top + rows && was < old_top + old_rows ==> s.line(was) is Some
                && empty_row(s.line(was).unwrap())
        }),
{
    let r = s.reflowed(cols, rows, max_history, stamp);
    let rs = s.rows();
    assert forall|i: int| 0 <= i < rs.len() implies (#[trigger] rs[i]).cells.len() == cols
        && !rs[i].cells[0].attrs.has(crate::cell::CellAttrs::WIDE_TAIL) by {
        assert(rs[i].cells == s.lines[i]);
    }
    reflow::lemma_same_width(rs, cols);
    reflow::lemma_same_place(rs, cols, s.row, s.col);
    let all = reflow::flowed(reflow::joined(rs), cols);
    let flow = s.flow(cols, rows);
    let over = s.risen(cols, rows);
    assert(s.cursor_moved(cols) == (s.row, s.col));
    assert forall|i: int| s.row + rows <= i < all.len() implies (#[trigger] all[i]).cells
        == lines::blank_line(all[i].cells.len() as int) by {
        assert(all[i].cells == rs[i].cells);
        assert(empty_row(s.lines[i]));
        assert(all[i].cells =~= lines::blank_line(all[i].cells.len() as int));
    }
    reflow::lemma_shortened(all, s.row, rows);
    reflow::lemma_shortened_to(all, s.row, rows, s.row + rows);
    assert(over <= s.row);
    let gone = s.given_up(cols, rows, max_history);
    let grown = s.grown_history(cols, rows, stamp);
    let up = flow.take(over).map_values(|r: RowView| stamped(r, stamp));
    assert(grown.len() == s.history.len() + over);
    assert(r.history.len() == grown.len() - gone);
    let was = s.history.len() + s.row - d;
    let now = r.history.len() + r.row - d;
    assert(was == now + gone);
    lemma_reflowed_fits(s, cols, rows, max_history, stamp);
    if 0 <= now < r.history.len() {
        assert(r.history[now] == grown[now + gone].cells);
        if was < s.history.len() {
            assert(grown[was] == s.history_rows()[was]);
        } else {
            let i = was - s.history.len();
            assert(grown[was] == up[i]);
            assert(flow[i] == all[i]);
            assert(all[i].cells == rs[i].cells);
        }
    } else if r.history.len() <= now < r.history.len() + rows {
        let i = now - r.history.len();
        if i + over < flow.len() {
            assert(flow.skip(over)[i] == flow[i + over]);
            assert(flow[i + over] == all[i + over]);
            assert(all[i + over].cells == rs[i + over].cells);
        } else {
            assert(r.lines[i] == lines::blank_line(cols));
            if was < s.history.len() + old_rows {
                lemma_dropped_blank(all, s.row, rows, i + over);
                assert(all[i + over].cells == rs[i + over].cells);
            }
        }
    } else if now >= 0 && was < s.history.len() + old_rows {
        lemma_dropped_blank(all, s.row, rows, was - s.history.len());
        assert(all[was - s.history.len()].cells == rs[was - s.history.len()].cells);
    }
}

/// Rows that are left out are blank.
proof fn lemma_dropped_blank(all: Seq<RowView>, keep: int, rows: int, i: int)
    requires
        reflow::shortened(all, keep, rows).len() <= i < all.len(),
    ensures
        all[i].cells == lines::blank_line(all[i].cells.len() as int),
    decreases all.len(),
{
    if i < all.len() - 1 {
        lemma_dropped_blank(all.drop_last(), keep, rows, i);
    }
}

/// What reads, row after row and from left to right, before a column of an absolute row.
pub open spec fn reading_before(s: ScreenView, abs: int, col: int) -> Seq<Cell> {
    let rows = s.history_rows() + s.rows();
    reflow::reading(rows.take(abs)) + reflow::visible(rows[abs].cells.take(col))
}

/// A resize to any size leaves the cursor on the character that it stands on: there is a row among
/// all rows in which the character stands in the cursor's new column, with as much to read before
/// it as there was, and the cursor is in that row, or at the top where that row has left the
/// screen. The history has room for what leaves the screen.
#[verifier::rlimit(40)]
pub proof fn law_cursor_stays_on_its_character(
    s: ScreenView,
    cols: int,
    rows: int,
    max_history: int,
    stamp: [u8; 8],
)
    requires
        s.wf(max_history),
        cols >= 1,
        rows >= 1,
        0 <= s.row < s.lines.len(),
        0 <= s.col < s.lines[s.row].len(),
        s.lines[s.row][s.col].ch != ' ',
        s.lines[s.row][s.col].ch != '\0',
        s.reflowed(cols, rows, max_history, stamp).history.len() < max_history,
    ensures
        ({
            let r = s.reflowed(cols, rows, max_history, stamp);
            let top = r.history.len() as int;
            exists|abs: int|
                {
                    &&& 0 <= abs < top + rows
                    &&& r.row == if abs < top {
                        0
                    } else {
                        abs - top
                    }
                    &&& r.line(abs) matches Some(line) && line[r.col]
                        == s.lines[s.row][s.col]
                    &&& #[trigger] reading_before(r, abs, r.col) == reading_before(
                        s,
                        s.history.len() + s.row,
                        s.col,
                    )
                }
        }),
{
    let r = s.reflowed(cols, rows, max_history, stamp);
    let rs = s.rows();
    let all = reflow::flowed(reflow::joined(rs), cols);
    let (row, col) = s.cursor_moved(cols);
    let flow = s.flow(cols, rows);
    let over = s.risen(cols, rows);
    let gone = s.given_up(cols, rows, max_history);
    let grown = s.grown_history(cols, rows, stamp);
    let up = flow.take(over).map_values(|r: RowView| stamped(r, stamp));
    assert(rs[s.row].cells == s.lines[s.row]);
    reflow::law_reading_before_stays(rs, cols, s.row, s.col);
    reflow::lemma_shortened(all, row, rows);
    assert(grown.len() == s.history.len() + over);
    assert(gone == 0);
    assert(r.history.len() == grown.len());
    let abs = s.history.len() + row;
    let old_all = s.history_rows() + rs;
    let new_all = r.history_rows() + r.rows();
    assert(r.history_rows() =~= grown);
    assert(old_all.take(s.history.len() + s.row) =~= s.history_rows() + rs.take(s.row));
    reflow::lemma_reading_add(s.history_rows(), rs.take(s.row));
    let left = reflow::reading(s.history_rows());
    assert(reading_before(s, s.history.len() + s.row, s.col) =~= left + (reflow::reading(
        rs.take(s.row),
    ) + reflow::visible(rs[s.row].cells.take(s.col))));
    // The rows up to the cursor's in the new buffer are the history and the flow, stamps aside.
    let mine = new_all.take(abs);
    let flat = s.history_rows() + all.take(row);
    assert forall|i: int| 0 <= i < abs implies (#[trigger] mine[i]).cells == flat[i].cells by {
        if i < s.history.len() {
            assert(grown[i] == s.history_rows()[i]);
        } else {
            lemma_flow_found(s, cols, rows, max_history, stamp, i - s.history.len());
        }
    }
    lemma_same_reading(mine, flat);
    reflow::lemma_reading_add(s.history_rows(), all.take(row));
    lemma_flow_found(s, cols, rows, max_history, stamp, row);
    assert(new_all[abs].cells == all[row].cells);
    assert(reading_before(r, abs, r.col) =~= left + (reflow::reading(all.take(row))
        + reflow::visible(all[row].cells.take(col))));
    assert(r.line(abs) matches Some(line) && line == all[row].cells);
}

/// Where a row of the other width is in the new buffer, as long as the history has room.
#[verifier::rlimit(40)]
proof fn lemma_flow_found(
    s: ScreenView,
    cols: int,
    rows: int,
    max_history: int,
    stamp: [u8; 8],
    i: int,
)
    requires
        s.wf(max_history),
        cols >= 1,
        rows >= 1,
        s.given_up(cols, rows, max_history) == 0,
        0 <= i < s.flow(cols, rows).len(),
    ensures
        ({
            let r = s.reflowed(cols, rows, max_history, stamp);
            let all = reflow::flowed(reflow::joined(s.rows()), cols);
            let abs = s.history.len() + i;
            &&& abs < r.history.len() + rows
            &&& i < all.len()
            &&& r.line(abs) == Some(all[i].cells)
            &&& (r.history_rows() + r.rows())[abs].cells == all[i].cells
        }),
{
    let r = s.reflowed(cols, rows, max_history, stamp);
    let all = reflow::flowed(reflow::joined(s.rows()), cols);
    let flow = s.flow(cols, rows);
    let over = s.risen(cols, rows);
    let grown = s.grown_history(cols, rows, stamp);
    let up = flow.take(over).map_values(|r: RowView| stamped(r, stamp));
    reflow::lemma_shortened(all, s.cursor_moved(cols).0, rows);
    assert(flow[i] == all[i]);
    assert(r.history_rows() =~= grown);
    assert(r.history.len() == s.history.len() + over);
    let new_all = r.history_rows() + r.rows();
    if i < over {
        assert(grown[s.history.len() + i] == up[i]);
        assert(new_all[s.history.len() + i] == grown[s.history.len() + i]);
    } else {
        assert(flow.skip(over)[i - over] == flow[i]);
        assert(r.rows()[i - over].cells == flow[i].cells);
        assert(new_all[s.history.len() + i] == r.rows()[i - over]);
    }
}

proof fn lemma_same_reading(a: Seq<RowView>, b: Seq<RowView>)
    requires
        a.len() == b.len(),
        forall|i: int| 0 <= i < a.len() ==> (#[trigger] a[i]).cells == b[i].cells,
    ensures
        reflow::reading(a) == reflow::reading(b),
    decreases a.len(),
{
    if a.len() > 0 {
        assert forall|i: int| 0 <= i < a.drop_last().len() implies (
        #[trigger] a.drop_last()[i]).cells == b.drop_last()[i].cells by {
            assert(a[i].cells == b[i].cells);
        }
        lemma_same_reading(a.drop_last(), b.drop_last());
        assert(a[a.len() - 1].cells == b[b.len() - 1].cells);
    }
}

/// A resize loses nothing as long as the history has room afterwards, and what a full history
/// loses is what reads first.
pub proof fn law_resize_loses_nothing(
    s: ScreenView,
    cols: int,
    rows: int,
    max_history: int,
    stamp: [u8; 8],
)
    requires
        s.wf(max_history),
        cols >= 1,
        rows >= 0,
    ensures
        ({
            let r = s.reflowed(cols, rows, max_history, stamp);
            &&& r.history.len() < max_history ==> r.reading() == s.reading()
            &&& exists|lost: Seq<Cell>| s.reading() == lost + #[trigger] r.reading()
        }),
{
    law_reflow_keeps_reading(s, cols, rows, max_history, stamp);
    let r = s.reflowed(cols, rows, max_history, stamp);
    let lost = reflow::reading(
        s.grown_history(cols, rows, stamp).take(s.given_up(cols, rows, max_history)),
    );
    assert(s.reading() == lost + r.reading());
    reflow::lemma_shortened(
        reflow::flowed(reflow::joined(s.rows()), cols),
        s.cursor_moved(cols).0,
        rows,
    );
}

/// A resize to any size leaves a cursor that stands right behind the last text of the screen
/// there: the character left of it is the one that was, or, where that fills the last column, the
/// one under it, and below it every row is empty.
#[verifier::rlimit(40)]
pub proof fn law_cursor_stays_behind_text(
    s: ScreenView,
    cols: int,
    rows: int,
    max_history: int,
    stamp: [u8; 8],
)
    requires
        s.wf(max_history),
        cols >= 1,
        rows >= 1,
        0 <= s.row < s.lines.len(),
        1 <= s.col <= s.lines[s.row].len(),
        s.lines[s.row][s.col - 1].ch != ' ',
        s.lines[s.row][s.col - 1].ch != '\0',
        empty_row(s.lines[s.row].skip(s.col)),
        forall|i: int| s.row < i < s.lines.len() ==> empty_row(#[trigger] s.lines[i]),
    ensures
        ({
            let r = s.reflowed(cols, rows, max_history, stamp);
            let line = r.lines[r.row];
            let last = s.lines[s.row][s.col - 1];
            &&& 0 <= r.row < rows
            &&& 0 <= r.col < cols
            &&& line.len() == cols
            &&& (r.col >= 1 && line[r.col - 1] == last) || (r.col == cols - 1 && line[r.col]
                == last)
            &&& forall|i: int| r.row < i < rows ==> empty_row(#[trigger] r.lines[i])
        }),
{
    let r = s.reflowed(cols, rows, max_history, stamp);
    let rs = s.rows();
    let all = reflow::flowed(reflow::joined(rs), cols);
    let (row, col) = s.cursor_moved(cols);
    let flow = s.flow(cols, rows);
    let over = s.risen(cols, rows);
    assert(rs[s.row].cells == s.lines[s.row]);
    assert forall|j: int| s.col <= j < rs[s.row].cells.len() implies #[trigger] rs[s.row].cells[j]
        == Cell::blank() by {
        assert(s.lines[s.row].skip(s.col)[j - s.col] == s.lines[s.row][j]);
    }
    assert forall|i: int| s.row < i < rs.len() implies (#[trigger] rs[i]).cells
        == lines::blank_line(rs[i].cells.len() as int) by {
        assert(empty_row(s.lines[i]));
        assert(rs[i].cells =~= lines::blank_line(rs[i].cells.len() as int));
    }
    reflow::lemma_place_behind(rs, cols, s.row, s.col);
    reflow::law_reading_before_stays(rs, cols, s.row, s.col - 1);
    reflow::lemma_place_inside(rs, cols, s.row, s.col);
    reflow::lemma_flowed_shape(reflow::joined(rs), cols);
    reflow::lemma_shortened(all, row, rows);
    assert forall|i: int| row + 1 <= i < all.len() implies (#[trigger] all[i]).cells
        == lines::blank_line(all[i].cells.len() as int) by {
        assert(all[i].cells == lines::blank_line(cols));
    }
    reflow::lemma_shortened_to(all, row, rows, row + 1);
    assert(over <= row);
    let shown = flow.skip(over);
    assert(shown[row - over] == flow[row]);
    assert(flow[row] == all[row]);
    assert(r.lines[r.row] == all[row].cells);
    assert forall|i: int| r.row < i < rows implies empty_row(#[trigger] r.lines[i]) by {
        if i < shown.len() {
            assert(shown[i] == flow[i + over]);
            assert(flow[i + over] == all[i + over]);
            assert(all[i + over].cells == lines::blank_line(cols));
        }
    }
}

proof fn lemma_none_evicted(b: crate::blocks::BlocksView)
    ensures
        b.evicted(0) == b,
{
    lemma_filter_all(b.blocks);
    assert(b.evicted(0).blocks =~= b.blocks);
}

proof fn lemma_filter_all(s: Seq<crate::blocks::Block>)
    ensures
        s.filter(|b: crate::blocks::Block| 0 <= b.start_row) == s,
    decreases s.len(),
{
    reveal(Seq::filter);
    if s.len() > 0 {
        lemma_filter_all(s.drop_last());
        assert(s.drop_last().push(s.last()) =~= s);
    } else {
        assert(s.filter(|b: crate::blocks::Block| 0 <= b.start_row) =~= s);
    }
}

/// What a cell that shows something and what reads before it become in the new buffer.
#[verifier::rlimit(40)]
proof fn lemma_place_reads(
    s: ScreenView,
    cols: int,
    rows: int,
    max_history: int,
    stamp: [u8; 8],
    q: int,
    c: int,
)
    requires
        s.wf(max_history),
        cols >= 1,
        rows >= 1,
        0 <= q < s.lines.len(),
        0 <= c < s.lines[q].len(),
        !s.lines[q][c].shows_nothing(),
        s.given_up(cols, rows, max_history) == 0,
    ensures
        ({
            let r = s.reflowed(cols, rows, max_history, stamp);
            let (row, col) = reflow::place(s.rows(), cols, q, c);
            let abs = s.history.len() + row;
            &&& 0 <= row < s.flow(cols, rows).len()
            &&& abs < r.history.len() + rows
            &&& 0 <= col < cols
            &&& r.line(abs) matches Some(line) && line[col] == s.lines[q][c]
            &&& reading_before(r, abs, col) == reading_before(s, s.history.len() + q, c)
        }),
{
    let r = s.reflowed(cols, rows, max_history, stamp);
    let rs = s.rows();
    let all = reflow::flowed(reflow::joined(rs), cols);
    let (row, col) = reflow::place(rs, cols, q, c);
    let flow = s.flow(cols, rows);
    let grown = s.grown_history(cols, rows, stamp);
    assert(rs[q].cells == s.lines[q]);
    reflow::law_reading_before_stays(rs, cols, q, c);
    reflow::lemma_shortened(all, s.cursor_moved(cols).0, rows);
    if row >= flow.len() {
        lemma_dropped_blank(all, s.cursor_moved(cols).0, rows, row);
    }
    let abs = s.history.len() + row;
    let old_all = s.history_rows() + rs;
    let new_all = r.history_rows() + r.rows();
    assert(r.history_rows() =~= grown);
    assert(old_all.take(s.history.len() + q) =~= s.history_rows() + rs.take(q));
    reflow::lemma_reading_add(s.history_rows(), rs.take(q));
    let left = reflow::reading(s.history_rows());
    assert(reading_before(s, s.history.len() + q, c) =~= left + (reflow::reading(rs.take(q))
        + reflow::visible(rs[q].cells.take(c))));
    let mine = new_all.take(abs);
    let flat = s.history_rows() + all.take(row);
    lemma_flow_found(s, cols, rows, max_history, stamp, row);
    assert forall|i: int| 0 <= i < abs implies (#[trigger] mine[i]).cells == flat[i].cells by {
        if i < s.history.len() {
            assert(grown[i] == s.history_rows()[i]);
        } else {
            lemma_flow_found(s, cols, rows, max_history, stamp, i - s.history.len());
        }
    }
    lemma_same_reading(mine, flat);
    reflow::lemma_reading_add(s.history_rows(), all.take(row));
    assert(new_all[abs].cells == all[row].cells);
    assert(reading_before(r, abs, col) =~= left + (reflow::reading(all.take(row))
        + reflow::visible(all[row].cells.take(col))));
}

/// A resize leaves the blocks with their text: a block that starts in a row of the screen that
/// begins with a character starts in the row where that character comes to stand, with as much to
/// read before it as there was; one that starts in the history stays; nothing else of a block
/// changes, and none goes. The history has room for what leaves the screen.
#[verifier::rlimit(40)]
pub proof fn law_blocks_follow_text(g: GridView, cols: int, rows: int, i: int)
    requires
        g.wf(),
        g.saved is None,
        1 <= cols <= crate::grid::size_limit(),
        1 <= rows <= crate::grid::size_limit(),
        0 <= i < g.blocks.blocks.len(),
        g.resized(cols, rows).screen.history.len() < g.max_history,
    ensures
        ({
            let h = g.resized(cols, rows);
            let s = g.screen;
            let (b, c) = (g.blocks.blocks[i], h.blocks.blocks[i]);
            let q = b.start_row - s.history.len();
            &&& h.blocks.blocks.len() == g.blocks.blocks.len()
            &&& c == crate::blocks::Block { start_row: c.start_row, ..b }
            &&& q < 0 ==> c.start_row == b.start_row
            &&& 0 <= q < s.lines.len() && s.lines[q].len() > 0 && s.lines[q][0].ch != ' '
                && s.lines[q][0].ch != '\0' ==> exists|col: int|
                {
                    &&& 0 <= col < cols
                    &&& h.screen.line(c.start_row as int) is Some
                    &&& h.screen.line(c.start_row as int).unwrap()[col] == s.lines[q][0]
                    &&& #[trigger] reading_before(h.screen, c.start_row as int, col)
                        == reading_before(s, b.start_row as int, 0)
                }
        }),
{
    let h = g.resized(cols, rows);
    let s = g.screen;
    let b = g.blocks.blocks[i];
    let q = b.start_row - s.history.len();
    let first = s.history.len() as int;
    let places = s.places(cols, rows);
    let moved = g.blocks.rows_moved(first, places);
    let all = reflow::flowed(reflow::joined(s.rows()), cols);
    reflow::lemma_shortened(all, s.cursor_moved(cols).0, rows);
    assert(s.grown_history(cols, rows, g.batch).len() == first + s.risen(cols, rows));
    assert(s.given_up(cols, rows, g.max_history) == 0);
    lemma_none_evicted(moved);
    assert(h.blocks == moved);
    let c = h.blocks.blocks[i];
    if 0 <= q < s.lines.len() && s.lines[q].len() > 0 && s.lines[q][0].ch != ' '
        && s.lines[q][0].ch != '\0' {
        lemma_place_reads(s, cols, rows, g.max_history, g.batch, q, 0);
        let (row, col) = reflow::place(s.rows(), cols, q, 0);
        assert(places[q] == row);
        assert(first + row <= usize::MAX);
        assert(c.start_row == first + row);
        assert(reading_before(h.screen, c.start_row as int, col) == reading_before(
            s,
            b.start_row as int,
            0,
        ));
    }
}

/// A resize changes the size, the screens and where blocks start, and nothing else of the grid.
pub proof fn law_resize_keeps_modes(g: GridView, cols: int, rows: int)
    ensures
        ({
            let h = g.resized(cols, rows);
            &&& h == GridView {
                cols,
                rows,
                screen: h.screen,
                saved: h.saved,
                blocks: h.blocks,
                ..g
            }
            &&& h.saved is Some == g.saved is Some
            &&& h.screen.bottom == if rows > 0 {
                rows - 1
            } else {
                0
            }
            &&& rows > 0 && g.screen.top < rows ==> h.screen.top == g.screen.top
            &&& rows > 0 && g.screen.top >= rows ==> h.screen.top == 0
        }),
{
}

/// A resize that leaves the width alone leaves rows that go on from no other with their times:
/// counted from the cursor, each has the time that it had, and one that leaves the screen without
/// a time gets the time of the write that is under way.
#[verifier::rlimit(40)]
pub proof fn law_rows_keep_their_times(
    s: ScreenView,
    cols: int,
    old_rows: int,
    rows: int,
    max_history: int,
    stamp: [u8; 8],
    d: int,
)
    requires
        s.wf(max_history),
        s.fits(old_rows, cols),
        cols >= 1,
        old_rows >= 1,
        rows >= 1,
        forall|i: int|
            0 <= i < old_rows ==> !(#[trigger] s.lines[i])[0].attrs.has(
                crate::cell::CellAttrs::WIDE_TAIL,
            ),
        forall|i: int| 0 <= i < old_rows ==> !#[trigger] s.wrapped[i],
        forall|i: int| s.row + rows <= i < old_rows ==> empty_row(#[trigger] s.lines[i]),
    ensures
        ({
            let r = s.reflowed(cols, rows, max_history, stamp);
            let (old_top, top) = (s.history.len(), r.history.len());
            let (was, now) = (old_top + s.row - d, top + r.row - d);
            &&& top <= now < top + rows && old_top <= was < s.history.len() + old_rows && empty_row(
                s.lines[was - old_top],
            ) == false ==> r.stamps[now - top] == s.stamps[was - old_top]
            &&& 0 <= now < top && was < old_top ==> r.history_stamps[now] == s.history_stamps[was]
            &&& 0 <= now < top && old_top <= was < old_top + old_rows ==> r.history_stamps[now]
                == if s.stamps[was - old_top] == clock::unset() {
                stamp
            } else {
                s.stamps[was - old_top]
            }
        }),
{
    let r = s.reflowed(cols, rows, max_history, stamp);
    let rs = s.rows();
    law_cursor_stays_on_its_row(s, cols, old_rows, rows, max_history, stamp, d);
    assert forall|i: int| 0 <= i < rs.len() implies (#[trigger] rs[i]).cells.len() == cols
        && !rs[i].cells[0].attrs.has(crate::cell::CellAttrs::WIDE_TAIL) by {
        assert(rs[i].cells == s.lines[i]);
    }
    reflow::lemma_same_width(rs, cols);
    reflow::lemma_same_place(rs, cols, s.row, s.col);
    let all = reflow::flowed(reflow::joined(rs), cols);
    let flow = s.flow(cols, rows);
    let over = s.risen(cols, rows);
    assert forall|i: int| s.row + rows <= i < all.len() implies (#[trigger] all[i]).cells
        == lines::blank_line(all[i].cells.len() as int) by {
        assert(all[i].cells == rs[i].cells);
        assert(empty_row(s.lines[i]));
        assert(all[i].cells =~= lines::blank_line(all[i].cells.len() as int));
    }
    reflow::lemma_shortened(all, s.row, rows);
    reflow::lemma_shortened_to(all, s.row, rows, s.row + rows);
    let gone = s.given_up(cols, rows, max_history);
    let grown = s.grown_history(cols, rows, stamp);
    let up = flow.take(over).map_values(|r: RowView| stamped(r, stamp));
    let was = s.history.len() + s.row - d;
    let now = r.history.len() + r.row - d;
    assert(was == now + gone);
    if 0 <= now < r.history.len() {
        assert(r.history_stamps[now] == grown[now + gone].stamp);
        if was < s.history.len() {
            assert(grown[was] == s.history_rows()[was]);
        } else {
            let i = was - s.history.len();
            assert(grown[was] == up[i]);
            assert(flow[i] == all[i]);
            assert(!s.wrapped[i]);
            assert(all[i] == rs[i]);
        }
    } else if r.history.len() <= now < r.history.len() + rows && was < s.history.len() + old_rows {
        let i = now - r.history.len();
        if i + over < flow.len() {
            assert(flow.skip(over)[i] == flow[i + over]);
            assert(flow[i + over] == all[i + over]);
            assert(!s.wrapped[i + over]);
            assert(all[i + over] == rs[i + over]);
        } else {
            lemma_dropped_blank(all, s.row, rows, i + over);
            assert(all[i + over].cells == rs[i + over].cells);
            assert(empty_row(s.lines[i + over]));
        }
    }
}

/// A resize to any size leaves a cursor that stands in an empty row right below the last text of
/// the screen there: in its column, or the last one, of an empty row with nothing below it, and
/// right below a row that is not empty.
#[verifier::rlimit(40)]
pub proof fn law_cursor_stays_below_text(
    s: ScreenView,
    cols: int,
    rows: int,
    max_history: int,
    stamp: [u8; 8],
)
    requires
        s.wf(max_history),
        cols >= 1,
        rows >= 2,
        1 <= s.row < s.lines.len(),
        0 <= s.col,
        exists|j: int|
            0 <= j < s.lines[s.row - 1].len() && (#[trigger] s.lines[s.row - 1][j]).ch != ' '
                && s.lines[s.row - 1][j].ch != '\0',
        forall|i: int| s.row <= i < s.lines.len() ==> empty_row(#[trigger] s.lines[i]),
    ensures
        ({
            let r = s.reflowed(cols, rows, max_history, stamp);
            &&& 1 <= r.row < rows
            &&& r.col == if s.col < cols {
                s.col
            } else {
                cols - 1
            }
            &&& !empty_row(r.lines[r.row - 1])
            &&& forall|i: int| r.row <= i < rows ==> empty_row(#[trigger] r.lines[i])
        }),
{
    let r = s.reflowed(cols, rows, max_history, stamp);
    let rs = s.rows();
    let all = reflow::flowed(reflow::joined(rs), cols);
    let (row, col) = s.cursor_moved(cols);
    let flow = s.flow(cols, rows);
    let over = s.risen(cols, rows);
    assert forall|i: int| s.row <= i < rs.len() implies (#[trigger] rs[i]).cells
        == lines::blank_line(rs[i].cells.len() as int) by {
        assert(empty_row(s.lines[i]));
        assert(rs[i].cells =~= lines::blank_line(rs[i].cells.len() as int));
    }
    assert(!reflow::hidden(rs[s.row - 1].cells)) by {
        let j = choose|j: int|
            0 <= j < s.lines[s.row - 1].len() && (#[trigger] s.lines[s.row - 1][j]).ch != ' '
                && s.lines[s.row - 1][j].ch != '\0';
        assert(!rs[s.row - 1].cells[j].shows_nothing());
    }
    reflow::lemma_place_below(rs, cols, s.row, s.col);
    reflow::lemma_flowed_shape(reflow::joined(rs), cols);
    reflow::lemma_shortened(all, row, rows);
    assert forall|i: int| row + 1 <= i < all.len() implies (#[trigger] all[i]).cells
        == lines::blank_line(all[i].cells.len() as int) by {
        assert(all[i].cells == lines::blank_line(cols));
    }
    reflow::lemma_shortened_to(all, row, rows, row + 1);
    assert(over < row);
    let shown = flow.skip(over);
    assert(shown[row - over - 1] == flow[row - 1]);
    assert(flow[row - 1] == all[row - 1]);
    assert(r.lines[r.row - 1] == all[row - 1].cells);
    if empty_row(r.lines[r.row - 1]) {
        assert(r.lines[r.row - 1] =~= lines::blank_line(cols));
    }
    assert forall|i: int| r.row <= i < rows implies empty_row(#[trigger] r.lines[i]) by {
        if i < shown.len() {
            assert(shown[i] == flow[i + over]);
            assert(flow[i + over] == all[i + over]);
            assert(all[i + over].cells == lines::blank_line(cols));
        }
    }
}

} // verus!
