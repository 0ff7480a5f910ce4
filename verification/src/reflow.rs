//! Reflowing: rows joined to logical lines along their wrap flags, and lines cut to another
//! width.

use crate::cell::{Cell, CellAttrs};
use crate::lines;
use vstd::prelude::*;

verus! {

/// A row of a screen with its timestamp and its wrap flag.
pub struct Row {
    pub cells: Vec<Cell>,
    pub stamp: [u8; 8],
    pub wrapped: bool,
}

/// What a row is.
#[verifier::ext_equal]
pub ghost struct RowView {
    pub cells: Seq<Cell>,
    pub stamp: [u8; 8],
    pub wrapped: bool,
}

impl View for Row {
    type V = RowView;

    open spec fn view(&self) -> RowView {
        RowView { cells: self.cells@, stamp: self.stamp, wrapped: self.wrapped }
    }
}

/// What a vector of rows holds.
pub open spec fn row_views(rows: Seq<Row>) -> Seq<RowView> {
    rows.map_values(|r: Row| r@)
}

/// No cell shows anything.
pub open spec fn hidden(cells: Seq<Cell>) -> bool {
    forall|j: int| 0 <= j < cells.len() ==> (#[trigger] cells[j]).shows_nothing()
}

/// The last cell shows something.
pub open spec fn ends_shown(cells: Seq<Cell>) -> bool {
    cells.len() > 0 && !cells.last().shows_nothing()
}

/// The row goes on with the line that `before` ends.
pub open spec fn goes_on(before: Seq<Cell>, r: RowView) -> bool {
    r.wrapped && !hidden(r.cells) && ends_shown(before)
}

/// The logical lines that rows make up. A line has the timestamp and the flag of its first row.
pub open spec fn joined(rows: Seq<RowView>) -> Seq<RowView>
    decreases rows.len(),
{
    if rows.len() == 0 {
        Seq::empty()
    } else {
        let before = joined(rows.drop_last());
        let r = rows.last();
        if before.len() > 0 && goes_on(before.last().cells, r) {
            before.drop_last().push(
                RowView { cells: before.last().cells + r.cells, ..before.last() },
            )
        } else {
            before.push(r)
        }
    }
}

/// The line that row `r` belongs to.
pub open spec fn line_of(rows: Seq<RowView>, r: int) -> int {
    joined(rows.take(r + 1)).len() - 1
}

/// Where row `r` starts in its line.
pub open spec fn offset_of(rows: Seq<RowView>, r: int) -> int {
    joined(rows.take(r + 1)).last().cells.len() - rows[r].cells.len()
}

/// A line without the blank cells at its end.
pub open spec fn trimmed(cells: Seq<Cell>) -> Seq<Cell>
    decreases cells.len(),
{
    if cells.len() > 0 && cells.last() == Cell::blank() {
        trimmed(cells.drop_last())
    } else {
        cells
    }
}

/// How many cells of a line longer than `cols` go on one row: a character of two columns is not
/// torn apart where there is room for it.
pub open spec fn piece(cells: Seq<Cell>, cols: int) -> int {
    if cols >= 2 && cells[cols].attrs.has(CellAttrs::WIDE_TAIL) {
        cols - 1
    } else {
        cols
    }
}

/// The pieces of a line, each filled up to `cols` cells; one where the line fits.
pub open spec fn cut(cells: Seq<Cell>, cols: int) -> Seq<Seq<Cell>>
    decreases cells.len(),
{
    if cols <= 0 || cells.len() <= cols {
        seq![lines::resized(cells, cols, Cell::blank())]
    } else {
        let w = piece(cells, cols);
        seq![lines::resized(cells.take(w), cols, Cell::blank())] + cut(cells.skip(w), cols)
    }
}

/// Where the cell at `off` of a line is after the line is cut: the piece and the column, the last
/// column where the cell lies behind the end of the line.
pub open spec fn spot(cells: Seq<Cell>, cols: int, off: int) -> (int, int)
    decreases cells.len(),
{
    if cols <= 0 {
        (0, 0)
    } else if cells.len() <= cols {
        (0, crate::grid::min(off, cols - 1))
    } else {
        let w = piece(cells, cols);
        if off < w {
            (0, off)
        } else {
            let s = spot(cells.skip(w), cols, off - w);
            (s.0 + 1, s.1)
        }
    }
}

/// The rows of one line: the first has the line's flag, the others are flagged as continuations
/// where they are.
pub open spec fn line_rows(line: RowView, cols: int) -> Seq<RowView> {
    let pieces = cut(trimmed(line.cells), cols);
    Seq::new(
        pieces.len(),
        |k: int|
            RowView {
                cells: pieces[k],
                stamp: line.stamp,
                wrapped: if k == 0 {
                    line.wrapped
                } else {
                    ends_shown(pieces[k - 1]) && !hidden(pieces[k])
                },
            },
    )
}

/// The rows of all lines.
pub open spec fn flowed(ls: Seq<RowView>, cols: int) -> Seq<RowView>
    decreases ls.len(),
{
    if ls.len() == 0 {
        Seq::empty()
    } else {
        flowed(ls.drop_last(), cols) + line_rows(ls.last(), cols)
    }
}

/// Where the cell at row `r` and column `c` comes to stand.
pub open spec fn place(rows: Seq<RowView>, cols: int, r: int, c: int) -> (int, int) {
    let ls = joined(rows);
    let k = line_of(rows, r);
    let s = spot(trimmed(ls[k].cells), cols, offset_of(rows, r) + c);
    (flowed(ls.take(k), cols).len() + s.0, s.1)
}

/// Rows without those at the end that are blank and below row `keep`, as far as there are more
/// than `rows`.
pub open spec fn shortened(all: Seq<RowView>, keep: int, rows: int) -> Seq<RowView>
    decreases all.len(),
{
    if all.len() > 0 && all.len() > rows && all.len() > keep + 1 && all.last().cells
        == lines::blank_line(all.last().cells.len() as int) {
        shortened(all.drop_last(), keep, rows)
    } else {
        all
    }
}

/// The cells that show something.
pub open spec fn visible(cells: Seq<Cell>) -> Seq<Cell> {
    cells.filter(|c: Cell| !c.shows_nothing())
}

/// The cells that show something, row after row.
pub open spec fn reading(rows: Seq<RowView>) -> Seq<Cell>
    decreases rows.len(),
{
    if rows.len() == 0 {
        Seq::empty()
    } else {
        reading(rows.drop_last()) + visible(rows.last().cells)
    }
}

pub proof fn lemma_reading_add(a: Seq<RowView>, b: Seq<RowView>)
    ensures
        reading(a + b) == reading(a) + reading(b),
    decreases b.len(),
{
    if b.len() == 0 {
        assert(a + b =~= a);
        assert(reading(a) + reading(b) =~= reading(a));
    } else {
        lemma_reading_add(a, b.drop_last());
        assert((a + b).drop_last() =~= a + b.drop_last());
        assert(reading(a + b) =~= reading(a) + reading(b));
    }
}

proof fn lemma_visible_add(a: Seq<Cell>, b: Seq<Cell>)
    ensures
        visible(a + b) == visible(a) + visible(b),
{
    Seq::filter_distributes_over_add(a, b, |c: Cell| !c.shows_nothing());
}

pub proof fn lemma_hidden_invisible(cells: Seq<Cell>)
    requires
        hidden(cells),
    ensures
        visible(cells) == Seq::<Cell>::empty(),
    decreases cells.len(),
{
    reveal(Seq::filter);
    if cells.len() > 0 {
        assert(cells[cells.len() - 1].shows_nothing());
        assert forall|j: int| 0 <= j < cells.drop_last().len() implies (
        #[trigger] cells.drop_last()[j]).shows_nothing() by {
            assert(cells[j].shows_nothing());
        }
        lemma_hidden_invisible(cells.drop_last());
    } else {
        assert(visible(cells) =~= Seq::<Cell>::empty());
    }
}

proof fn lemma_trimmed(cells: Seq<Cell>)
    ensures
        trimmed(cells).len() <= cells.len(),
        trimmed(cells) == cells.take(trimmed(cells).len() as int),
        visible(trimmed(cells)) == visible(cells),
    decreases cells.len(),
{
    if cells.len() > 0 && cells.last() == Cell::blank() {
        reveal(Seq::filter);
        lemma_trimmed(cells.drop_last());
        assert(cells.drop_last().take(trimmed(cells).len() as int) =~= cells.take(
            trimmed(cells).len() as int,
        ));
    } else {
        assert(cells.take(cells.len() as int) =~= cells);
    }
}

proof fn lemma_padded_visible(cells: Seq<Cell>, cols: int)
    requires
        cells.len() <= cols,
    ensures
        visible(lines::resized(cells, cols, Cell::blank())) == visible(cells),
{
    let pad = Seq::new((cols - cells.len()) as nat, |i: int| Cell::blank());
    assert(lines::resized(cells, cols, Cell::blank()) =~= cells + pad);
    lemma_visible_add(cells, pad);
    lemma_hidden_invisible(pad);
    assert(visible(cells) + visible(pad) =~= visible(cells));
}

/// The cells that pieces of a line show.
spec fn pieces_visible(p: Seq<Seq<Cell>>) -> Seq<Cell>
    decreases p.len(),
{
    if p.len() == 0 {
        Seq::empty()
    } else {
        visible(p[0]) + pieces_visible(p.skip(1))
    }
}

proof fn lemma_cut_visible(cells: Seq<Cell>, cols: int)
    requires
        cols >= 1,
    ensures
        pieces_visible(cut(cells, cols)) == visible(cells),
    decreases cells.len(),
{
    if cells.len() <= cols {
        lemma_padded_visible(cells, cols);
        let p = cut(cells, cols);
        assert(p.skip(1) =~= Seq::empty());
        assert(pieces_visible(p.skip(1)) =~= Seq::empty());
        assert(pieces_visible(p) =~= visible(p[0]));
    } else {
        let w = piece(cells, cols);
        lemma_padded_visible(cells.take(w), cols);
        lemma_cut_visible(cells.skip(w), cols);
        lemma_visible_add(cells.take(w), cells.skip(w));
        assert(cells.take(w) + cells.skip(w) =~= cells);
        let p = cut(cells, cols);
        assert(p.skip(1) =~= cut(cells.skip(w), cols));
    }
}

/// Cutting gives at least one piece, each of `cols` cells.
pub proof fn lemma_cut_shape(cells: Seq<Cell>, cols: int)
    requires
        cols >= 0,
    ensures
        cut(cells, cols).len() >= 1,
        forall|k: int| 0 <= k < cut(cells, cols).len() ==> (#[trigger] cut(cells, cols)[k]).len() == cols,
    decreases cells.len(),
{
    if cols > 0 && cells.len() > cols {
        lemma_cut_shape(cells.skip(piece(cells, cols)), cols);
    }
}

proof fn lemma_spot_inside(cells: Seq<Cell>, cols: int, off: int)
    requires
        cols >= 0,
        off >= 0,
    ensures
        0 <= spot(cells, cols, off).0 < cut(cells, cols).len(),
        0 <= spot(cells, cols, off).1 <= crate::blocks::monus(cols, 1),
    decreases cells.len(),
{
    if cols > 0 && cells.len() > cols {
        let w = piece(cells, cols);
        lemma_cut_shape(cells.skip(w), cols);
        if off >= w {
            lemma_spot_inside(cells.skip(w), cols, off - w);
        }
    }
}

proof fn lemma_rows_of_pieces(rows: Seq<RowView>, pieces: Seq<Seq<Cell>>)
    requires
        rows.len() == pieces.len(),
        forall|k: int| 0 <= k < rows.len() ==> (#[trigger] rows[k]).cells == pieces[k],
    ensures
        reading(rows) == pieces_visible(pieces),
    decreases rows.len(),
{
    if rows.len() > 0 {
        let first = seq![rows[0]];
        let rest = rows.skip(1);
        assert(first + rest =~= rows);
        lemma_reading_add(first, rest);
        assert(first.drop_last() =~= Seq::empty());
        assert(reading(first.drop_last()) =~= Seq::empty());
        assert(reading(first) =~= visible(pieces[0]));
        assert forall|k: int| 0 <= k < rest.len() implies (#[trigger] rest[k]).cells
            == pieces.skip(1)[k] by {
            assert(rest[k] == rows[k + 1]);
        }
        lemma_rows_of_pieces(rest, pieces.skip(1));
    }
}

proof fn lemma_line_reading(line: RowView, cols: int)
    requires
        cols >= 1,
    ensures
        reading(line_rows(line, cols)) == visible(line.cells),
{
    lemma_trimmed(line.cells);
    lemma_cut_visible(trimmed(line.cells), cols);
    lemma_rows_of_pieces(line_rows(line, cols), cut(trimmed(line.cells), cols));
}

/// Cutting lines to rows keeps what they show.
pub proof fn lemma_flowed_reading(ls: Seq<RowView>, cols: int)
    requires
        cols >= 1,
    ensures
        reading(flowed(ls, cols)) == reading(ls),
    decreases ls.len(),
{
    if ls.len() > 0 {
        lemma_flowed_reading(ls.drop_last(), cols);
        lemma_line_reading(ls.last(), cols);
        lemma_reading_add(flowed(ls.drop_last(), cols), line_rows(ls.last(), cols));
    }
}

/// Joining rows to lines keeps what they show.
pub proof fn lemma_joined_reading(rows: Seq<RowView>)
    ensures
        reading(joined(rows)) == reading(rows),
    decreases rows.len(),
{
    if rows.len() > 0 {
        let before = joined(rows.drop_last());
        let r = rows.last();
        lemma_joined_reading(rows.drop_last());
        if before.len() > 0 && goes_on(before.last().cells, r) {
            let j = joined(rows);
            assert(j.drop_last() =~= before.drop_last());
            lemma_visible_add(before.last().cells, r.cells);
            assert(reading(j) =~= reading(rows));
        } else {
            assert(before.push(r).drop_last() =~= before);
        }
    }
}

/// Every row belongs to a line and lies inside it.
proof fn lemma_joined_grows(rows: Seq<RowView>)
    requires
        rows.len() > 0,
    ensures
        joined(rows).len() >= 1,
        joined(rows.drop_last()).len() <= joined(rows).len() <= joined(rows.drop_last()).len() + 1,
        joined(rows).last().cells.len() >= rows.last().cells.len(),
{
}

pub proof fn lemma_line_of(rows: Seq<RowView>, r: int)
    requires
        0 <= r < rows.len(),
    ensures
        0 <= line_of(rows, r) < joined(rows).len(),
        0 <= offset_of(rows, r),
    decreases rows.len(),
{
    assert(rows.take(r + 1).last() == rows[r]);
    lemma_joined_grows(rows.take(r + 1));
    if r + 1 < rows.len() {
        lemma_line_of(rows.drop_last(), r);
        assert(rows.drop_last().take(r + 1) =~= rows.take(r + 1));
        lemma_joined_grows(rows);
    } else {
        assert(rows.take(r + 1) =~= rows);
    }
}

/// A row ends no later than its line.
pub proof fn lemma_row_inside(rows: Seq<RowView>, r: int)
    requires
        0 <= r < rows.len(),
    ensures
        offset_of(rows, r) + rows[r].cells.len() <= joined(rows)[line_of(rows, r)].cells.len(),
        0 <= line_of(rows, r) < joined(rows).len(),
    decreases rows.len(),
{
    lemma_line_of(rows, r);
    if r + 1 < rows.len() {
        lemma_row_inside(rows.drop_last(), r);
        assert(rows.drop_last().take(r + 1) =~= rows.take(r + 1));
        lemma_joined_grows(rows);
    } else {
        assert(rows.take(r + 1) =~= rows);
    }
}

proof fn lemma_flowed_take(ls: Seq<RowView>, cols: int, k: int)
    requires
        0 <= k <= ls.len(),
    ensures
        flowed(ls.take(k), cols).len() <= flowed(ls, cols).len(),
        k < ls.len() ==> flowed(ls.take(k), cols).len() + line_rows(ls[k], cols).len() <= flowed(
            ls,
            cols,
        ).len(),
    decreases ls.len() - k,
{
    if k == ls.len() {
        assert(ls.take(k) =~= ls);
    } else {
        lemma_flowed_take(ls, cols, k + 1);
        assert(ls.take(k + 1).drop_last() =~= ls.take(k));
    }
}

/// A cell comes to stand on one of the rows.
pub proof fn lemma_place_inside(rows: Seq<RowView>, cols: int, r: int, c: int)
    requires
        0 <= r < rows.len(),
        0 <= c,
        cols >= 0,
    ensures
        0 <= place(rows, cols, r, c).0 < flowed(joined(rows), cols).len(),
        0 <= place(rows, cols, r, c).1 <= crate::blocks::monus(cols, 1),
{
    lemma_line_of(rows, r);
    let ls = joined(rows);
    let k = line_of(rows, r);
    lemma_spot_inside(trimmed(ls[k].cells), cols, offset_of(rows, r) + c);
    lemma_flowed_take(ls, cols, k);
}

/// Rows that come out have `cols` cells.
pub proof fn lemma_flowed_shape(ls: Seq<RowView>, cols: int)
    requires
        cols >= 0,
    ensures
        forall|i: int| 0 <= i < flowed(ls, cols).len() ==> (#[trigger] flowed(ls, cols)[i]).cells.len()
            == cols,
    decreases ls.len(),
{
    if ls.len() > 0 {
        lemma_flowed_shape(ls.drop_last(), cols);
        lemma_cut_shape(trimmed(ls.last().cells), cols);
        let (before, new) = (flowed(ls.drop_last(), cols), line_rows(ls.last(), cols));
        assert forall|i: int| 0 <= i < flowed(ls, cols).len() implies (
        #[trigger] flowed(ls, cols)[i]).cells.len() == cols by {
            if i < before.len() {
                assert(flowed(ls, cols)[i] == before[i]);
            } else {
                assert(flowed(ls, cols)[i] == new[i - before.len()]);
            }
        }
    }
}

/// What is left out shows nothing, and the rows up to `keep` stay.
pub proof fn lemma_shortened(all: Seq<RowView>, keep: int, rows: int)
    ensures
        shortened(all, keep, rows).len() <= all.len(),
        shortened(all, keep, rows) == all.take(shortened(all, keep, rows).len() as int),
        keep < all.len() ==> keep < shortened(all, keep, rows).len(),
        reading(shortened(all, keep, rows)) == reading(all),
    decreases all.len(),
{
    let s = shortened(all, keep, rows);
    if all.len() > 0 && all.len() > rows && all.len() > keep + 1 && all.last().cells
        == lines::blank_line(all.last().cells.len() as int) {
        lemma_shortened(all.drop_last(), keep, rows);
        assert(all.drop_last().take(s.len() as int) =~= all.take(s.len() as int));
        lemma_hidden_invisible(all.last().cells);
        assert(reading(all) =~= reading(all.drop_last()));
    } else {
        assert(all.take(all.len() as int) =~= all);
    }
}

proof fn lemma_spot_holds(cells: Seq<Cell>, cols: int, off: int)
    requires
        cols >= 1,
        0 <= off < cells.len(),
    ensures
        ({
            let s = spot(cells, cols, off);
            &&& 0 <= s.0 < cut(cells, cols).len()
            &&& 0 <= s.1 < cut(cells, cols)[s.0].len()
            &&& cut(cells, cols)[s.0][s.1] == cells[off]
        }),
    decreases cells.len(),
{
    if cells.len() > cols {
        let w = piece(cells, cols);
        lemma_cut_shape(cells.skip(w), cols);
        if off >= w {
            lemma_spot_holds(cells.skip(w), cols, off - w);
            let s = spot(cells.skip(w), cols, off - w);
            assert(cut(cells, cols)[s.0 + 1] == cut(cells.skip(w), cols)[s.0]);
        } else {
            assert(cut(cells, cols)[0] == lines::resized(cells.take(w), cols, Cell::blank()));
        }
    }
}

proof fn lemma_joined_holds(rows: Seq<RowView>, r: int, c: int)
    requires
        0 <= r < rows.len(),
        0 <= c < rows[r].cells.len(),
    ensures
        0 <= line_of(rows, r) < joined(rows).len(),
        0 <= offset_of(rows, r),
        offset_of(rows, r) + c < joined(rows)[line_of(rows, r)].cells.len(),
        joined(rows)[line_of(rows, r)].cells[offset_of(rows, r) + c] == rows[r].cells[c],
    decreases rows.len(),
{
    lemma_line_of(rows, r);
    if r + 1 < rows.len() {
        lemma_joined_holds(rows.drop_last(), r, c);
        assert(rows.drop_last().take(r + 1) =~= rows.take(r + 1));
    } else {
        assert(rows.take(r + 1) =~= rows);
    }
}

proof fn lemma_flowed_holds(ls: Seq<RowView>, cols: int, k: int, d: int)
    requires
        0 <= k < ls.len(),
        0 <= d < line_rows(ls[k], cols).len(),
    ensures
        flowed(ls.take(k), cols).len() + d < flowed(ls, cols).len(),
        flowed(ls, cols)[flowed(ls.take(k), cols).len() + d] == line_rows(ls[k], cols)[d],
    decreases ls.len(),
{
    let rest = ls.drop_last();
    if k + 1 < ls.len() {
        lemma_flowed_holds(rest, cols, k, d);
        assert(rest.take(k) =~= ls.take(k));
    } else {
        assert(ls.take(k) =~= rest);
    }
}

/// A cell is found again where it comes to stand, unless it is one of the blanks at the end of
/// its line.
pub proof fn law_cells_keep_their_place(rows: Seq<RowView>, cols: int, r: int, c: int)
    requires
        cols >= 1,
        0 <= r < rows.len(),
        0 <= c < rows[r].cells.len(),
        offset_of(rows, r) + c < trimmed(joined(rows)[line_of(rows, r)].cells).len(),
    ensures
        ({
            let (row, col) = place(rows, cols, r, c);
            let all = flowed(joined(rows), cols);
            &&& 0 <= row < all.len()
            &&& 0 <= col < cols
            &&& all[row].cells[col] == rows[r].cells[c]
        }),
{
    let ls = joined(rows);
    let k = line_of(rows, r);
    let off = offset_of(rows, r) + c;
    lemma_joined_holds(rows, r, c);
    lemma_trimmed(ls[k].cells);
    let cells = trimmed(ls[k].cells);
    assert(cells[off] == ls[k].cells[off]);
    lemma_spot_holds(cells, cols, off);
    lemma_place_inside(rows, cols, r, c);
    lemma_flowed_holds(ls, cols, k, spot(cells, cols, off).0);
}

/// Whether no cell shows anything.
fn is_hidden(cells: &Vec<Cell>) -> (r: bool)
    ensures
        r == hidden(cells@),
{
    let mut i: usize = 0;
    while i < cells.len()
        invariant
            i <= cells@.len(),
            forall|j: int| 0 <= j < i ==> (#[trigger] cells@[j]).shows_nothing(),
        decreases cells@.len() - i,
    {
        if cells[i].ch != ' ' && cells[i].ch != '\0' {
            assert(!cells@[i as int].shows_nothing());
            return false;
        }
        i = i + 1;
    }
    true
}

/// Whether the last cell shows something.
fn is_end_shown(cells: &Vec<Cell>) -> (r: bool)
    ensures
        r == ends_shown(cells@),
{
    let n: usize = cells.len();
    n > 0 && cells[n - 1].ch != ' ' && cells[n - 1].ch != '\0'
}

/// The cells `from..to`, filled up with blanks to `cols`.
fn copy_cells(cells: &Vec<Cell>, from: usize, to: usize, cols: usize) -> (r: Vec<Cell>)
    requires
        from <= to <= cells@.len(),
    ensures
        r@ == lines::resized(cells@.subrange(from as int, to as int), cols as int, Cell::blank()),
{
    let mut out: Vec<Cell> = Vec::new();
    let mut i: usize = from;
    while i < to
        invariant
            from <= i <= to <= cells@.len(),
            out@ == cells@.subrange(from as int, i as int),
        decreases to - i,
    {
        out.push(cells[i]);
        i = i + 1;
        assert(out@ =~= cells@.subrange(from as int, i as int));
    }
    lines::resize(&mut out, cols, Cell::default());
    out
}

/// Appends cells to a line.
fn append_cells(line: &mut Vec<Cell>, cells: &Vec<Cell>)
    ensures
        final(line)@ == old(line)@ + cells@,
{
    let mut i: usize = 0;
    assert(line@ =~= old(line)@ + cells@.take(0));
    while i < cells.len()
        invariant
            i <= cells@.len(),
            line@ == old(line)@ + cells@.take(i as int),
        decreases cells@.len() - i,
    {
        line.push(cells[i]);
        i = i + 1;
        assert(line@ =~= old(line)@ + cells@.take(i as int));
    }
    assert(cells@.take(i as int) =~= cells@);
}

/// Joins rows to lines, and says of each row the line and where it starts there.
pub(crate) fn join(rows: &Vec<Row>) -> (r: (Vec<Row>, Vec<(usize, usize)>))
    ensures
        row_views(r.0@) == joined(row_views(rows@)),
        r.1@.len() == rows@.len(),
        forall|i: int|
            0 <= i < rows@.len() ==> {
                &&& (#[trigger] r.1@[i]).0 == line_of(row_views(rows@), i)
                &&& r.1@[i].1 == offset_of(row_views(rows@), i)
            },
{
    let ghost views = row_views(rows@);
    let mut out: Vec<Row> = Vec::new();
    let mut marks: Vec<(usize, usize)> = Vec::new();
    let mut i: usize = 0;
    assert(row_views(out@) =~= joined(views.take(0)));
    while i < rows.len()
        invariant
            i <= rows@.len(),
            views == row_views(rows@),
            row_views(out@) == joined(views.take(i as int)),
            marks@.len() == i,
            forall|j: int|
                0 <= j < i ==> {
                    &&& (#[trigger] marks@[j]).0 == line_of(views, j)
                    &&& marks@[j].1 == offset_of(views, j)
                },
        decreases rows@.len() - i,
    {
        let ghost before = out@;
        let ghost pre = views.take(i as int);
        assert(views.take(i + 1).drop_last() =~= pre);
        assert(views.take(i + 1).last() == rows@[i as int]@);
        let n: usize = out.len();
        assert(row_views(before).len() == n);
        let goes: bool = n > 0 && rows[i].wrapped && !is_hidden(&rows[i].cells) && is_end_shown(
            &out[n - 1].cells,
        );
        assert(n > 0 ==> row_views(before).last() == before[n - 1]@);
        if goes {
            match out.pop() {
                Some(mut line) => {
                    let start: usize = line.cells.len();
                    let ghost first = line@;
                    append_cells(&mut line.cells, &rows[i].cells);
                    let ghost whole = line@;
                    out.push(line);
                    marks.push((n - 1, start));
                    assert(row_views(before).drop_last() =~= row_views(before.drop_last()));
                    assert(row_views(out@) =~= row_views(before).drop_last().push(whole));
                    assert(row_views(out@) == joined(views.take(i + 1)));
                },
                None => {
                    assert(false);
                },
            }
        } else {
            let cells: Vec<Cell> = copy_cells(&rows[i].cells, 0, rows[i].cells.len(), rows[i].cells.len());
            assert(cells@ =~= rows@[i as int].cells@);
            let row = Row { cells, stamp: rows[i].stamp, wrapped: rows[i].wrapped };
            out.push(row);
            marks.push((n, 0));
            assert(row_views(out@) =~= row_views(before).push(rows@[i as int]@));
            assert(row_views(out@) == joined(views.take(i + 1)));
        }
        i = i + 1;
    }
    assert(views.take(i as int) =~= views);
    (out, marks)
}

/// Takes the blank cells at the end of a line away.
fn trim(cells: &mut Vec<Cell>)
    ensures
        final(cells)@ == trimmed(old(cells)@),
{
    while cells.len() > 0 && is_blank(&cells[cells.len() - 1])
        invariant
            trimmed(cells@) == trimmed(old(cells)@),
        decreases cells@.len(),
    {
        let _ = cells.pop();
    }
}

/// Whether a cell is blank.
fn is_blank(c: &Cell) -> (r: bool)
    ensures
        r == (*c == Cell::blank()),
{
    *c == Cell::default()
}

/// How many cells from `from` on go on one row.
fn piece_at(cells: &Vec<Cell>, from: usize, cols: usize) -> (w: usize)
    requires
        from + cols < cells@.len(),
        cols > 0,
    ensures
        w == piece(cells@.skip(from as int), cols as int),
        0 < w <= cols,
{
    let n: usize = cells.len();
    if cols >= 2 && from + cols < n && cells[from + cols].attrs.contains(CellAttrs::WIDE_TAIL) {
        cols - 1
    } else {
        cols
    }
}

/// Appends the rows of a line, which is trimmed.
fn push_line(out: &mut Vec<Row>, line: &Row, cols: usize)
    requires
        line@.cells == trimmed(line@.cells),
    ensures
        row_views(final(out)@) == row_views(old(out)@) + line_rows(line@, cols as int),
{
    let ghost pieces = cut(line@.cells, cols as int);
    let ghost want = line_rows(line@, cols as int);
    let ghost base = row_views(out@);
    let mut from: usize = 0;
    let mut first: bool = true;
    let ghost mut k: int = 0;
    assert(line@.cells.skip(0) =~= line@.cells);
    assert(pieces.skip(0) =~= pieces);
    assert(base + want.take(0) =~= base);
    while cols > 0 && line.cells.len() - from > cols
        invariant
            from <= line@.cells.len(),
            0 <= k < pieces.len(),
            first == (k == 0),
            pieces == cut(line@.cells, cols as int),
            line@.cells == trimmed(line@.cells),
            want == line_rows(line@, cols as int),
            pieces.skip(k) == cut(line@.cells.skip(from as int), cols as int),
            row_views(out@) == base + want.take(k),
            out@.len() == base.len() + k,
        decreases line@.cells.len() - from,
    {
        let ghost rest = line@.cells.skip(from as int);
        let w: usize = piece_at(&line.cells, from, cols);
        let cells: Vec<Cell> = copy_cells(&line.cells, from, from + w, cols);
        assert(line@.cells.subrange(from as int, from + w) =~= rest.take(w as int));
        assert(rest.skip(w as int) =~= line@.cells.skip(from + w));
        let ghost tail = cut(line@.cells.skip(from + w), cols as int);
        proof {
            lemma_cut_shape(line@.cells.skip(from + w), cols as int);
            assert(pieces.skip(k)[0] == pieces[k]);
            assert(pieces.skip(k + 1) =~= pieces.skip(k).skip(1));
            assert(pieces.skip(k).skip(1) =~= tail);
        }
        push_piece(out, cells, line.stamp, first, line.wrapped, Ghost(base), Ghost(want), Ghost(pieces), Ghost(k));
        from = from + w;
        first = false;
        proof {
            k = k + 1;
        }
    }
    let ghost rest = line@.cells.skip(from as int);
    let cells: Vec<Cell> = copy_cells(&line.cells, from, line.cells.len(), cols);
    proof {
        assert(line@.cells.subrange(from as int, line@.cells.len() as int) =~= rest);
        assert(pieces.skip(k)[0] == pieces[k]);
        assert(pieces.skip(k).len() == 1);
    }
    push_piece(out, cells, line.stamp, first, line.wrapped, Ghost(base), Ghost(want), Ghost(pieces), Ghost(k));
    assert(want.take(k + 1) =~= want);
}

/// Appends one row of a line.
fn push_piece(
    out: &mut Vec<Row>,
    cells: Vec<Cell>,
    stamp: [u8; 8],
    first: bool,
    flag: bool,
    Ghost(base): Ghost<Seq<RowView>>,
    Ghost(want): Ghost<Seq<RowView>>,
    Ghost(pieces): Ghost<Seq<Seq<Cell>>>,
    Ghost(k): Ghost<int>,
)
    requires
        0 <= k < want.len() == pieces.len(),
        first == (k == 0),
        row_views(old(out)@) == base + want.take(k),
        old(out)@.len() == base.len() + k,
        cells@ == pieces[k],
        forall|j: int| 0 <= j < want.len() ==> (#[trigger] want[j]).cells == pieces[j],
        want[k].stamp == stamp,
        want[k].wrapped == if k == 0 {
            flag
        } else {
            ends_shown(pieces[k - 1]) && !hidden(pieces[k])
        },
    ensures
        row_views(final(out)@) == base + want.take(k + 1),
        final(out)@.len() == base.len() + k + 1,
{
    let n: usize = out.len();
    proof {
        if k > 0 {
            assert(row_views(out@)[n - 1] == out@[n - 1]@);
            assert((base + want.take(k))[n - 1] == want[k - 1]);
        }
    }
    let wrapped: bool = if first {
        flag
    } else {
        is_end_shown(&out[n - 1].cells) && !is_hidden(&cells)
    };
    let ghost before = row_views(out@);
    let row = Row { cells, stamp, wrapped };
    let ghost view = row@;
    out.push(row);
    assert(row_views(out@) =~= before.push(view));
    assert(base + want.take(k + 1) =~= (base + want.take(k)).push(want[k]));
}

/// Cuts lines to rows, and says of each line the row on which it starts. The lines are trimmed.
pub(crate) fn flow(ls: &mut Vec<Row>, cols: usize) -> (r: (Vec<Row>, Vec<usize>))
    ensures
        row_views(r.0@) == flowed(row_views(old(ls)@), cols as int),
        r.1@.len() == old(ls)@.len(),
        forall|k: int|
            0 <= k < old(ls)@.len() ==> #[trigger] r.1@[k] == flowed(
                row_views(old(ls)@).take(k),
                cols as int,
            ).len(),
        final(ls)@.len() == old(ls)@.len(),
        forall|k: int|
            0 <= k < old(ls)@.len() ==> (#[trigger] final(ls)@[k])@.cells == trimmed(
                old(ls)@[k]@.cells,
            ),
{
    let ghost all = row_views(ls@);
    let mut out: Vec<Row> = Vec::new();
    let mut starts: Vec<usize> = Vec::new();
    let mut k: usize = 0;
    assert(row_views(out@) =~= flowed(all.take(0), cols as int));
    while k < ls.len()
        invariant
            k <= ls@.len() == old(ls)@.len(),
            all == row_views(old(ls)@),
            row_views(out@) == flowed(all.take(k as int), cols as int),
            starts@.len() == k,
            forall|j: int|
                0 <= j < k ==> #[trigger] starts@[j] == flowed(all.take(j), cols as int).len(),
            forall|j: int|
                0 <= j < k ==> (#[trigger] ls@[j])@.cells == trimmed(old(ls)@[j]@.cells),
            forall|j: int| k <= j < ls@.len() ==> #[trigger] ls@[j] == old(ls)@[j],
        decreases ls@.len() - k,
    {
        assert(row_views(out@).len() == out@.len());
        starts.push(out.len());
        let ghost line = ls@[k as int]@;
        assert(all[k as int] == line);
        let mut cells: Vec<Cell> = Vec::new();
        std::mem::swap(&mut cells, &mut ls[k].cells);
        trim(&mut cells);
        ls[k].cells = cells;
        proof {
            lemma_trimmed_twice(line.cells);
            assert(all.take(k + 1).drop_last() =~= all.take(k as int));
            assert(line_rows(ls@[k as int]@, cols as int) =~= line_rows(line, cols as int));
        }
        push_line(&mut out, &ls[k], cols);
        k = k + 1;
    }
    assert(all.take(k as int) =~= all);
    (out, starts)
}

proof fn lemma_trimmed_twice(cells: Seq<Cell>)
    ensures
        trimmed(trimmed(cells)) == trimmed(cells),
    decreases cells.len(),
{
    if cells.len() > 0 && cells.last() == Cell::blank() {
        lemma_trimmed_twice(cells.drop_last());
    }
}

/// Where the cell at `off` of a line is after the line is cut.
pub(crate) fn find_spot(cells: &Vec<Cell>, cols: usize, off: usize) -> (r: (usize, usize))
    ensures
        r.0 == spot(cells@, cols as int, off as int).0,
        r.1 == spot(cells@, cols as int, off as int).1,
{
    if cols == 0 {
        return (0, 0);
    }
    let mut from: usize = 0;
    let mut rest: usize = off;
    let mut row: usize = 0;
    assert(cells@.skip(0) =~= cells@);
    while cells.len() - from > cols
        invariant
            cols > 0,
            from <= cells@.len(),
            row <= from,
            spot(cells@, cols as int, off as int) == ({
                let s = spot(cells@.skip(from as int), cols as int, rest as int);
                (s.0 + row, s.1)
            }),
        decreases cells@.len() - from,
    {
        let w: usize = piece_at(cells, from, cols);
        assert(cells@.skip(from as int).skip(w as int) =~= cells@.skip(from + w));
        if rest < w {
            return (row, rest);
        }
        from = from + w;
        rest = rest - w;
        row = row + 1;
    }
    (
        row,
        if rest <= cols - 1 {
            rest
        } else {
            cols - 1
        },
    )
}

/// Takes blank rows at the end away that are below row `keep`, as far as there are more than
/// `rows`.
pub(crate) fn shorten(all: &mut Vec<Row>, keep: usize, rows: usize)
    requires
        keep < usize::MAX,
    ensures
        row_views(final(all)@) == shortened(row_views(old(all)@), keep as int, rows as int),
{
    while all.len() > 0 && all.len() > rows && all.len() > keep + 1 && is_blank_line(
        &all[all.len() - 1].cells,
    )
        invariant
            keep < usize::MAX,
            shortened(row_views(all@), keep as int, rows as int) == shortened(
                row_views(old(all)@),
                keep as int,
                rows as int,
            ),
        decreases all@.len(),
    {
        let ghost before = all@;
        assert(row_views(before).last() == before.last()@);
        let _ = all.pop();
        assert(row_views(all@) =~= row_views(before).drop_last());
    }
    assert(all@.len() > 0 ==> row_views(all@).last() == all@.last()@);
    assert(row_views(all@).len() == all@.len());
}

/// Whether all cells are blank.
fn is_blank_line(cells: &Vec<Cell>) -> (r: bool)
    ensures
        r == (cells@ == lines::blank_line(cells@.len() as int)),
{
    let mut i: usize = 0;
    while i < cells.len()
        invariant
            i <= cells@.len(),
            forall|j: int| 0 <= j < i ==> #[trigger] cells@[j] == Cell::blank(),
        decreases cells@.len() - i,
    {
        if !is_blank(&cells[i]) {
            assert(lines::blank_line(cells@.len() as int)[i as int] == Cell::blank());
            return false;
        }
        i = i + 1;
    }
    assert(cells@ =~= lines::blank_line(cells@.len() as int));
    true
}

/// A line that is made of rows of `cols` cells and is cut between them again.
pub open spec fn seamed(cells: Seq<Cell>, cols: int) -> bool
    decreases cells.len(),
{
    cols >= 1 && (cells.len() == cols || (cells.len() > cols && piece(cells, cols) == cols
        && seamed(cells.skip(cols), cols)))
}

/// A further row makes a further piece.
proof fn lemma_seam(cells: Seq<Cell>, row: Seq<Cell>, x: Seq<Cell>, cols: int)
    requires
        seamed(cells, cols),
        row.len() == cols,
        !row[0].attrs.has(CellAttrs::WIDE_TAIL),
        1 <= x.len() <= cols,
        x == row.take(x.len() as int),
    ensures
        seamed(cells + row, cols),
        cut(cells + x, cols) == cut(cells, cols).push(lines::resized(x, cols, Cell::blank())),
    decreases cells.len(),
{
    let far = cells + row;
    let near = cells + x;
    assert(x[0] == row[0]);
    assert(near.take(cols) =~= cells.take(cols));
    if cells.len() == cols {
        assert(far.skip(cols) =~= row);
        assert(near.skip(cols) =~= x);
        assert(cells.take(cols) =~= cells);
        assert(far[cols] == row[0] && near[cols] == row[0]);
        assert(seamed(row, cols));
        assert(piece(far, cols) == cols && piece(near, cols) == cols);
        assert(cut(x, cols) =~= seq![lines::resized(x, cols, Cell::blank())]);
        assert(cut(cells, cols) =~= seq![lines::resized(cells, cols, Cell::blank())]);
        assert(cut(near, cols) =~= cut(cells, cols).push(lines::resized(x, cols, Cell::blank())));
    } else {
        lemma_seam(cells.skip(cols), row, x, cols);
        assert(far.skip(cols) =~= cells.skip(cols) + row);
        assert(near.skip(cols) =~= cells.skip(cols) + x);
        assert(far[cols] == cells[cols] && near[cols] == cells[cols]);
        assert(cut(near, cols) =~= cut(cells, cols).push(lines::resized(x, cols, Cell::blank())));
    }
}

/// Trimming takes only blank cells away, and none before a cell that is not blank.
proof fn lemma_trim_ends(cells: Seq<Cell>, i: int)
    requires
        0 <= i < cells.len(),
    ensures
        i >= trimmed(cells).len() ==> cells[i] == Cell::blank(),
        cells[i] != Cell::blank() ==> i < trimmed(cells).len(),
    decreases cells.len(),
{
    if cells.last() == Cell::blank() && i < cells.len() - 1 {
        lemma_trim_ends(cells.drop_last(), i);
    }
}

proof fn lemma_trim_add(a: Seq<Cell>, b: Seq<Cell>, i: int)
    requires
        0 <= i < b.len(),
        b[i] != Cell::blank(),
    ensures
        trimmed(a + b) == a + trimmed(b),
    decreases b.len(),
{
    if b.last() == Cell::blank() {
        assert((a + b).drop_last() =~= a + b.drop_last());
        lemma_trim_add(a, b.drop_last(), i);
    }
}

proof fn lemma_trim_pads(cells: Seq<Cell>)
    ensures
        lines::resized(trimmed(cells), cells.len() as int, Cell::blank()) == cells,
{
    lemma_trimmed(cells);
    let padded = lines::resized(trimmed(cells), cells.len() as int, Cell::blank());
    assert forall|i: int| 0 <= i < cells.len() implies padded[i] == cells[i] by {
        lemma_trim_ends(cells, i);
    }
    assert(padded =~= cells);
}

/// Reflowing to the width that the rows have gives the rows back.
#[verifier::rlimit(40)]
pub(crate) proof fn lemma_same_width(rows: Seq<RowView>, cols: int)
    requires
        cols >= 1,
        forall|i: int|
            0 <= i < rows.len() ==> (#[trigger] rows[i]).cells.len() == cols
                && !rows[i].cells[0].attrs.has(CellAttrs::WIDE_TAIL),
    ensures
        flowed(joined(rows), cols).len() == rows.len(),
        forall|i: int|
            0 <= i < rows.len() ==> (#[trigger] flowed(joined(rows), cols)[i]).cells
                == rows[i].cells && (!rows[i].wrapped ==> flowed(joined(rows), cols)[i]
                == rows[i]),
        rows.len() > 0 ==> seamed(joined(rows).last().cells, cols),
        rows.len() > 0 ==> joined(rows).last().cells.len() == cut(
            trimmed(joined(rows).last().cells),
            cols,
        ).len() * cols,
    decreases rows.len(),
{
    if rows.len() > 0 {
        let head = rows.drop_last();
        let r = rows.last();
        let before = joined(head);
        let all = joined(rows);
        assert(r == rows[rows.len() - 1]);
        lemma_same_width(head, cols);
        lemma_trimmed(r.cells);
        lemma_trim_pads(r.cells);
        let old_rows = flowed(before, cols);
        let new_rows = flowed(all, cols);
        if before.len() > 0 && goes_on(before.last().cells, r) {
            let l = before.last().cells;
            let x = trimmed(r.cells);
            let j = choose|j: int| 0 <= j < r.cells.len() && !r.cells[j].shows_nothing();
            assert(head.len() > 0);
            assert(trimmed(l) == l);
            lemma_trim_add(l, r.cells, j);
            lemma_trim_ends(r.cells, j);
            lemma_seam(l, r.cells, x, cols);
            assert(all.drop_last() =~= before.drop_last());
            assert(all.last().cells == l + r.cells);
            let q = cut(l, cols).len() as int;
            assert((q + 1) * cols == q * cols + cols) by (nonlinear_arith);
            let pieces = cut(l + x, cols);
            assert(pieces == cut(l, cols).push(r.cells));
            assert(pieces.len() * cols == (q + 1) * cols);
            let base = flowed(before.drop_last(), cols);
            assert(new_rows =~= base + line_rows(all.last(), cols));
            assert(old_rows =~= base + line_rows(before.last(), cols));
            assert forall|i: int| 0 <= i < rows.len() implies (#[trigger] new_rows[i]).cells
                == rows[i].cells && (!rows[i].wrapped ==> new_rows[i] == rows[i]) by {
                if i < base.len() {
                    assert(new_rows[i] == base[i]);
                    assert(old_rows[i] == base[i]);
                    assert(head[i] == rows[i]);
                } else if i < rows.len() - 1 {
                    assert(new_rows[i].cells == pieces[i - base.len()]);
                    assert(old_rows[i].cells == cut(l, cols)[i - base.len()]);
                    assert(head[i] == rows[i]);
                    assert(new_rows[i] == line_rows(all.last(), cols)[i - base.len()]);
                    assert(old_rows[i] == line_rows(before.last(), cols)[i - base.len()]);
                    assert(pieces[i - base.len()] == cut(l, cols)[i - base.len()]);
                    if i > base.len() {
                        assert(pieces[i - base.len() - 1] == cut(l, cols)[i - base.len() - 1]);
                    }
                    assert(new_rows[i] == old_rows[i]);
                } else {
                    assert(new_rows[i].cells == pieces[i - base.len()]);
                }
            }
        } else {
            assert(all == before.push(r));
            assert(all.drop_last() =~= before);
            let one = line_rows(r, cols);
            assert(cut(trimmed(r.cells), cols) =~= seq![r.cells]);
            assert(cut(trimmed(r.cells), cols).len() * cols == 1 * cols);
            assert(new_rows =~= old_rows + one);
            assert forall|i: int| 0 <= i < rows.len() implies (#[trigger] new_rows[i]).cells
                == rows[i].cells && (!rows[i].wrapped ==> new_rows[i] == rows[i]) by {
                if i < rows.len() - 1 {
                    assert(new_rows[i] == old_rows[i]);
                    assert(head[i] == rows[i]);
                } else {
                    assert(new_rows[i] == one[0]);
                }
            }
        }
    } else {
        assert(joined(rows) =~= Seq::empty());
    }
}

/// Later rows only lengthen the line of a row and leave the lines before it alone.
proof fn lemma_joined_prefix(rows: Seq<RowView>, r: int)
    requires
        0 <= r < rows.len(),
    ensures
        ({
            let head = joined(rows.take(r + 1));
            let k = head.len() - 1;
            &&& 0 <= k < joined(rows).len()
            &&& joined(rows).take(k) == head.drop_last()
            &&& head.last().cells.len() <= joined(rows)[k].cells.len()
            &&& joined(rows)[k].cells.take(head.last().cells.len() as int) == head.last().cells
        }),
    decreases rows.len(),
{
    let head = joined(rows.take(r + 1));
    let k = head.len() - 1;
    assert(rows.take(r + 1).last() == rows[r]);
    lemma_joined_grows(rows.take(r + 1));
    if r + 1 < rows.len() {
        lemma_joined_prefix(rows.drop_last(), r);
        assert(rows.drop_last().take(r + 1) =~= rows.take(r + 1));
        let before = joined(rows.drop_last());
        let n = head.last().cells.len() as int;
        assert(joined(rows).take(k) =~= before.take(k));
        assert(joined(rows)[k].cells.take(n) =~= before[k].cells.take(n));
    } else {
        assert(rows.take(r + 1) =~= rows);
        assert(head.take(k) =~= head.drop_last());
        assert(head.last().cells.take(head.last().cells.len() as int) =~= head.last().cells);
    }
}

proof fn lemma_seam_spot(t: Seq<Cell>, l: Seq<Cell>, cols: int, j: int, c: int)
    requires
        seamed(l, cols),
        t.len() <= l.len(),
        t == l.take(t.len() as int),
        0 <= j,
        j == 0 || j * cols < t.len(),
        0 <= c < cols,
    ensures
        spot(t, cols, j * cols + c) == (j, c),
    decreases t.len(),
{
    if t.len() <= cols {
        if j >= 1 {
            assert(j * cols >= cols) by (nonlinear_arith)
                requires
                    j >= 1,
                    cols >= 1,
            ;
        }
        assert(j == 0);
    } else {
        assert(t[cols] == l[cols]);
        assert(piece(t, cols) == cols);
        if j > 0 {
            assert((j - 1) * cols == j * cols - cols) by (nonlinear_arith);
            assert(j * cols >= cols) by (nonlinear_arith)
                requires
                    j >= 1,
                    cols >= 1,
            ;
            assert(t.skip(cols) =~= l.skip(cols).take(t.len() - cols));
            lemma_seam_spot(t.skip(cols), l.skip(cols), cols, j - 1, c);
        }
    }
}

proof fn lemma_seamed_lines(rows: Seq<RowView>, cols: int, k: int)
    requires
        cols >= 1,
        forall|i: int|
            0 <= i < rows.len() ==> (#[trigger] rows[i]).cells.len() == cols
                && !rows[i].cells[0].attrs.has(CellAttrs::WIDE_TAIL),
        0 <= k < joined(rows).len(),
    ensures
        seamed(joined(rows)[k].cells, cols),
    decreases rows.len(),
{
    lemma_same_width(rows, cols);
    if k < joined(rows).len() - 1 {
        let head = rows.drop_last();
        assert(joined(rows)[k] == joined(head)[k]);
        lemma_seamed_lines(head, cols, k);
    }
}

/// Reflowing to the width that the rows have moves no cell.
#[verifier::rlimit(40)]
pub(crate) proof fn lemma_same_place(rows: Seq<RowView>, cols: int, r: int, c: int)
    requires
        cols >= 1,
        forall|i: int|
            0 <= i < rows.len() ==> (#[trigger] rows[i]).cells.len() == cols
                && !rows[i].cells[0].attrs.has(CellAttrs::WIDE_TAIL),
        0 <= r < rows.len(),
        0 <= c < cols,
    ensures
        place(rows, cols, r, c) == (r, c),
{
    let top = rows.take(r + 1);
    let head = joined(top);
    let k = head.len() - 1;
    let ls = joined(rows);
    assert(top.last() == rows[r]);
    lemma_same_width(top, cols);
    lemma_joined_prefix(rows, r);
    lemma_seamed_lines(rows, cols, k);
    let l = ls[k].cells;
    let t = trimmed(l);
    let q = cut(trimmed(head.last().cells), cols).len() as int;
    lemma_trimmed(l);
    assert(flowed(head, cols) == flowed(head.drop_last(), cols) + line_rows(head.last(), cols));
    assert(flowed(ls.take(k), cols).len() == r + 1 - q);
    lemma_cut_shape(trimmed(head.last().cells), cols);
    assert((q - 1) * cols == q * cols - cols) by (nonlinear_arith);
    assert(offset_of(rows, r) == (q - 1) * cols);
    if q >= 2 {
        let h = head.last().cells;
        let before = joined(top.drop_last());
        assert(head.last().cells.len() >= 2 * cols) by (nonlinear_arith)
            requires
                head.last().cells.len() == q * cols,
                q >= 2,
                cols >= 1,
        ;
        assert(before.len() > 0 && goes_on(before.last().cells, rows[r]));
        let j = choose|j: int| 0 <= j < rows[r].cells.len() && !rows[r].cells[j].shows_nothing();
        assert(h == before.last().cells + rows[r].cells);
        assert(h[h.len() - cols + j] == rows[r].cells[j]);
        assert(l.take(h.len() as int)[h.len() - cols + j] == l[h.len() - cols + j]);
        lemma_trim_ends(l, h.len() - cols + j);
    }
    lemma_seam_spot(t, l, cols, q - 1, c);
}

/// What is left of rows from whose end blank ones were taken reaches no further than to the last
/// one that is not blank, where there were enough to take.
pub(crate) proof fn lemma_shortened_to(all: Seq<RowView>, keep: int, rows: int, m: int)
    requires
        0 <= keep < m,
        forall|i: int|
            m <= i < all.len() ==> (#[trigger] all[i]).cells == lines::blank_line(
                all[i].cells.len() as int,
            ),
    ensures
        shortened(all, keep, rows).len() <= m || shortened(all, keep, rows).len() <= rows,
    decreases all.len(),
{
    if all.len() > m && all.len() > rows && all.len() > 0 {
        assert(all.last() == all[all.len() - 1]);
        assert(all.last().cells == lines::blank_line(all.last().cells.len() as int));
        assert forall|i: int| m <= i < all.drop_last().len() implies (
        #[trigger] all.drop_last()[i]).cells == lines::blank_line(
            all.drop_last()[i].cells.len() as int,
        ) by {
            assert(all.drop_last()[i] == all[i]);
        }
        lemma_shortened_to(all.drop_last(), keep, rows, m);
    } else {
        lemma_shortened(all, keep, rows);
    }
}

/// What reads before the place where a cell of a line comes to stand is what reads before it.
#[verifier::rlimit(40)]
proof fn lemma_spot_before(cells: Seq<Cell>, cols: int, off: int)
    requires
        cols >= 1,
        0 <= off < cells.len(),
    ensures
        ({
            let s = spot(cells, cols, off);
            let p = cut(cells, cols);
            &&& 0 <= s.0 < p.len()
            &&& pieces_visible(p.take(s.0)) + visible(p[s.0].take(s.1)) == visible(cells.take(off))
        }),
    decreases cells.len(),
{
    let s = spot(cells, cols, off);
    let p = cut(cells, cols);
    lemma_spot_inside(cells, cols, off);
    if cells.len() <= cols {
        assert(p.take(0) =~= Seq::empty());
        assert(p[0].take(off) =~= cells.take(off));
        assert(pieces_visible(p.take(0)) + visible(p[0].take(off)) =~= visible(cells.take(off)));
    } else {
        let w = piece(cells, cols);
        if off < w {
            assert(p.take(0) =~= Seq::empty());
            assert(p[0].take(off) =~= cells.take(off));
            assert(pieces_visible(p.take(0)) + visible(p[0].take(off)) =~= visible(
                cells.take(off),
            ));
        } else {
            let rest = cells.skip(w);
            let q = cut(rest, cols);
            let u = spot(rest, cols, off - w);
            lemma_spot_before(rest, cols, off - w);
            assert(p.skip(1) =~= q);
            let taken = p.take(s.0);
            assert(taken.skip(1) =~= q.take(u.0));
            assert(taken[0] == p[0]);
            assert(p[s.0] == q[u.0]);
            lemma_padded_visible(cells.take(w), cols);
            lemma_visible_add(cells.take(w), rest.take(off - w));
            assert(cells.take(w) + rest.take(off - w) =~= cells.take(off));
            assert(pieces_visible(taken) + visible(p[s.0].take(s.1)) =~= visible(p[0]) + (
            pieces_visible(q.take(u.0)) + visible(q[u.0].take(u.1))));
        }
    }
}

/// What reads before a cell of a row reads before it in its line and in the lines before.
#[verifier::rlimit(40)]
proof fn lemma_joined_before(rows: Seq<RowView>, r: int, c: int)
    requires
        0 <= r < rows.len(),
        0 <= c <= rows[r].cells.len(),
    ensures
        ({
            let ls = joined(rows);
            let k = line_of(rows, r);
            let off = offset_of(rows, r) + c;
            &&& 0 <= k < ls.len()
            &&& 0 <= off <= ls[k].cells.len()
            &&& reading(ls.take(k)) + visible(ls[k].cells.take(off)) == reading(rows.take(r))
                + visible(rows[r].cells.take(c))
        }),
{
    let top = rows.take(r + 1);
    let head = joined(top);
    let before = joined(rows.take(r));
    let row = rows[r];
    let ls = joined(rows);
    let k = line_of(rows, r);
    let off = offset_of(rows, r) + c;
    assert(top.last() == row);
    assert(top.drop_last() =~= rows.take(r));
    lemma_joined_prefix(rows, r);
    lemma_joined_reading(rows.take(r));
    let h = head.last().cells;
    assert(ls[k].cells.take(off) =~= h.take(off)) by {
        assert(ls[k].cells.take(h.len() as int).take(off) =~= ls[k].cells.take(off));
    }
    if before.len() > 0 && goes_on(before.last().cells, row) {
        let l = before.last().cells;
        assert(head.drop_last() =~= before.drop_last());
        assert(h.take(off) =~= l + row.cells.take(c));
        lemma_visible_add(l, row.cells.take(c));
        assert(reading(ls.take(k)) + visible(ls[k].cells.take(off)) =~= reading(before) + visible(
            row.cells.take(c),
        ));
    } else {
        assert(head.drop_last() =~= before);
        assert(h.take(off) =~= row.cells.take(c));
    }
}

proof fn lemma_flowed_cut(ls: Seq<RowView>, cols: int, k: int, d: int)
    requires
        0 <= k < ls.len(),
        0 <= d <= line_rows(ls[k], cols).len(),
    ensures
        flowed(ls.take(k), cols).len() + d <= flowed(ls, cols).len(),
        flowed(ls, cols).take(flowed(ls.take(k), cols).len() + d) == flowed(ls.take(k), cols)
            + line_rows(ls[k], cols).take(d),
    decreases ls.len(),
{
    let rest = ls.drop_last();
    let n = flowed(ls.take(k), cols).len() + d;
    if k + 1 < ls.len() {
        lemma_flowed_cut(rest, cols, k, d);
        assert(rest.take(k) =~= ls.take(k));
        assert(flowed(ls, cols).take(n) =~= flowed(rest, cols).take(n));
    } else {
        assert(ls.take(k) =~= rest);
        assert(flowed(ls, cols).take(n) =~= flowed(ls.take(k), cols) + line_rows(
            ls[k],
            cols,
        ).take(d));
    }
}

/// What reads before a cell reads before the place where it comes to stand, unless the cell is one
/// of the blanks at the end of its line.
#[verifier::rlimit(40)]
pub proof fn law_reading_before_stays(rows: Seq<RowView>, cols: int, r: int, c: int)
    requires
        cols >= 1,
        0 <= r < rows.len(),
        0 <= c < rows[r].cells.len(),
        rows[r].cells[c] != Cell::blank(),
    ensures
        ({
            let (row, col) = place(rows, cols, r, c);
            let all = flowed(joined(rows), cols);
            &&& 0 <= row < all.len()
            &&& 0 <= col < cols
            &&& all[row].cells.len() == cols
            &&& all[row].cells[col] == rows[r].cells[c]
            &&& reading(all.take(row)) + visible(all[row].cells.take(col)) == reading(rows.take(r))
                + visible(rows[r].cells.take(c))
        }),
{
    let ls = joined(rows);
    let k = line_of(rows, r);
    let off = offset_of(rows, r) + c;
    let all = flowed(ls, cols);
    let (row, col) = place(rows, cols, r, c);
    lemma_joined_holds(rows, r, c);
    lemma_trim_ends(ls[k].cells, off);
    law_cells_keep_their_place(rows, cols, r, c);
    lemma_flowed_shape(ls, cols);
    lemma_joined_before(rows, r, c);
    lemma_trimmed(ls[k].cells);
    let t = trimmed(ls[k].cells);
    assert(t.take(off) =~= ls[k].cells.take(off));
    lemma_spot_before(t, cols, off);
    let s = spot(t, cols, off);
    let p = cut(t, cols);
    let one = line_rows(ls[k], cols);
    lemma_flowed_cut(ls, cols, k, s.0);
    lemma_flowed_holds(ls, cols, k, s.0);
    lemma_flowed_reading(ls.take(k), cols);
    lemma_reading_add(flowed(ls.take(k), cols), one.take(s.0));
    lemma_rows_of_pieces(one.take(s.0), p.take(s.0));
    assert(all[row].cells == p[s.0]);
    assert(reading(all.take(row)) + visible(all[row].cells.take(col)) =~= reading(ls.take(k)) + (
    pieces_visible(p.take(s.0)) + visible(p[s.0].take(s.1))));
}

/// Rows that hold nothing at the end of others stay rows of their own.
pub(crate) proof fn lemma_empty_tail(rows: Seq<RowView>, cols: int, r: int)
    requires
        cols >= 1,
        0 <= r < rows.len(),
        forall|i: int|
            r < i < rows.len() ==> (#[trigger] rows[i]).cells == lines::blank_line(
                rows[i].cells.len() as int,
            ),
    ensures
        ({
            let head = joined(rows.take(r + 1));
            let all = flowed(joined(rows), cols);
            &&& head.len() <= joined(rows).len()
            &&& joined(rows).take(head.len() as int) == head
            &&& flowed(head, cols).len() <= all.len()
            &&& forall|i: int|
                flowed(head, cols).len() <= i < all.len() ==> (#[trigger] all[i]).cells
                    == lines::blank_line(cols)
            &&& forall|i: int| 0 <= i < flowed(head, cols).len() ==> all[i] == #[trigger] flowed(
                head,
                cols,
            )[i]
        }),
    decreases rows.len(),
{
    let head = joined(rows.take(r + 1));
    if r + 1 < rows.len() {
        let fore = rows.drop_last();
        lemma_empty_tail(fore, cols, r);
        assert(fore.take(r + 1) =~= rows.take(r + 1));
        let last = rows.last();
        assert(last == rows[rows.len() - 1]);
        assert(hidden(last.cells));
        assert(joined(rows) == joined(fore).push(last));
        assert(joined(rows).take(head.len() as int) =~= joined(fore).take(head.len() as int));
        assert(joined(rows).drop_last() =~= joined(fore));
        lemma_trim_blank(last.cells.len() as int);
        let one = line_rows(last, cols);
        assert(cut(Seq::<Cell>::empty(), cols) =~= seq![lines::blank_line(cols)]) by {
            assert(lines::resized(Seq::<Cell>::empty(), cols, Cell::blank()) =~= lines::blank_line(
                cols,
            ));
        }
        let all = flowed(joined(rows), cols);
        let old_all = flowed(joined(fore), cols);
        assert(all =~= old_all + one);
        assert forall|i: int| flowed(head, cols).len() <= i < all.len() implies (
        #[trigger] all[i]).cells == lines::blank_line(cols) by {
            if i < old_all.len() {
                assert(all[i] == old_all[i]);
            } else {
                assert(all[i] == one[0]);
            }
        }
    } else {
        assert(rows.take(r + 1) =~= rows);
        assert(head.take(head.len() as int) =~= head);
    }
}

proof fn lemma_trim_blank(n: int)
    requires
        n >= 0,
    ensures
        trimmed(lines::blank_line(n)) == Seq::<Cell>::empty(),
    decreases n,
{
    if n > 0 {
        assert(lines::blank_line(n).drop_last() =~= lines::blank_line(n - 1));
        lemma_trim_blank(n - 1);
    }
}

/// The place right behind a line is the one right behind its last cell, or in the last column.
proof fn lemma_spot_behind(cells: Seq<Cell>, cols: int)
    requires
        cols >= 1,
        cells.len() >= 1,
    ensures
        ({
            let last = spot(cells, cols, cells.len() - 1);
            let s = spot(cells, cols, cells.len() as int);
            &&& s.0 == last.0
            &&& s.0 == cut(cells, cols).len() - 1
            &&& s.1 == if last.1 < cols - 1 {
                last.1 + 1
            } else {
                cols - 1
            }
        }),
    decreases cells.len(),
{
    if cells.len() > cols {
        let w = piece(cells, cols);
        lemma_spot_behind(cells.skip(w), cols);
    }
}

/// Where a cursor comes to stand that is right behind the text of the last row that holds
/// anything: behind the text, in the last row that holds anything, or in its last column.
#[verifier::rlimit(40)]
pub(crate) proof fn lemma_place_behind(rows: Seq<RowView>, cols: int, r: int, c: int)
    requires
        cols >= 1,
        0 <= r < rows.len(),
        1 <= c <= rows[r].cells.len(),
        !rows[r].cells[c - 1].shows_nothing(),
        forall|j: int|
            c <= j < rows[r].cells.len() ==> #[trigger] rows[r].cells[j] == Cell::blank(),
        forall|i: int|
            r < i < rows.len() ==> (#[trigger] rows[i]).cells == lines::blank_line(
                rows[i].cells.len() as int,
            ),
    ensures
        ({
            let (row, col) = place(rows, cols, r, c);
            let (last_row, last_col) = place(rows, cols, r, c - 1);
            let all = flowed(joined(rows), cols);
            &&& row == last_row
            &&& col == if last_col < cols - 1 {
                last_col + 1
            } else {
                cols - 1
            }
            &&& forall|i: int| row < i < all.len() ==> (#[trigger] all[i]).cells
                == lines::blank_line(cols)
        }),
{
    let top = rows.take(r + 1);
    let head = joined(top);
    let k = head.len() - 1;
    let ls = joined(rows);
    let off = offset_of(rows, r);
    assert(top.last() == rows[r]);
    lemma_joined_grows(top);
    lemma_empty_tail(rows, cols, r);
    assert(ls[k] == ls.take(head.len() as int)[k]);
    assert(ls.take(k) =~= head.drop_last());
    let l = head.last().cells;
    lemma_joined_holds(rows, r, c - 1);
    lemma_trim_ends(l, off + c - 1);
    lemma_trimmed(l);
    let t = trimmed(l);
    if t.len() > off + c {
        lemma_trim_last(l);
        assert(t.last() == l[t.len() - 1]);
        let j = t.len() - 1 - off;
        lemma_joined_holds(rows, r, j);
        assert(rows[r].cells[j] == Cell::blank());
    }
    assert(t.len() == off + c);
    lemma_spot_behind(t, cols);
    assert(flowed(head, cols) == flowed(head.drop_last(), cols) + line_rows(head.last(), cols));
}

proof fn lemma_trim_last(cells: Seq<Cell>)
    ensures
        trimmed(cells).len() > 0 ==> trimmed(cells).last() != Cell::blank(),
    decreases cells.len(),
{
    if cells.len() > 0 && cells.last() == Cell::blank() {
        lemma_trim_last(cells.drop_last());
    }
}

proof fn lemma_spot_next(cells: Seq<Cell>, cols: int, off: int)
    requires
        cols >= 1,
        0 <= off,
        off + 1 < cells.len(),
    ensures
        ({
            let (s, n) = (spot(cells, cols, off), spot(cells, cols, off + 1));
            ||| n == (s.0, s.1 + 1)
            ||| n == (s.0 + 1, 0int)
        }),
    decreases cells.len(),
{
    if cells.len() > cols {
        let w = piece(cells, cols);
        if off >= w {
            lemma_spot_next(cells.skip(w), cols, off - w);
        } else if off + 1 >= w {
            assert(off + 1 == w);
            lemma_spot_first(cells.skip(w), cols);
        }
    }
}

proof fn lemma_spot_first(cells: Seq<Cell>, cols: int)
    requires
        cols >= 1,
    ensures
        spot(cells, cols, 0) == (0int, 0int),
{
}

/// Characters that stand side by side in a row stay side by side, or are torn apart between a row
/// and the start of the next; where the first of them then stands in the last column, the next row
/// is flagged as going on with the line.
#[verifier::rlimit(40)]
pub proof fn law_torn_rows_flagged(rows: Seq<RowView>, cols: int, r: int, c: int)
    requires
        cols >= 1,
        0 <= r < rows.len(),
        0 <= c,
        c + 1 < rows[r].cells.len(),
        !rows[r].cells[c].shows_nothing(),
        !rows[r].cells[c + 1].shows_nothing(),
    ensures
        ({
            let all = flowed(joined(rows), cols);
            let (row, col) = place(rows, cols, r, c);
            let next = place(rows, cols, r, c + 1);
            &&& next == (row, col + 1) || next == (row + 1, 0int)
            &&& 0 <= next.0 < all.len()
            &&& next == (row + 1, 0int) && col == cols - 1 ==> all[next.0].wrapped
        }),
{
    let ls = joined(rows);
    let k = line_of(rows, r);
    let off = offset_of(rows, r) + c;
    let all = flowed(ls, cols);
    lemma_joined_holds(rows, r, c);
    lemma_joined_holds(rows, r, c + 1);
    lemma_trim_ends(ls[k].cells, off);
    lemma_trim_ends(ls[k].cells, off + 1);
    let t = trimmed(ls[k].cells);
    lemma_trimmed(ls[k].cells);
    lemma_spot_next(t, cols, off);
    lemma_spot_holds(t, cols, off);
    lemma_spot_holds(t, cols, off + 1);
    lemma_cut_shape(t, cols);
    let (s, n) = (spot(t, cols, off), spot(t, cols, off + 1));
    let p = cut(t, cols);
    lemma_flowed_holds(ls, cols, k, n.0);
    lemma_place_inside(rows, cols, r, c + 1);
    if n == (s.0 + 1, 0int) && s.1 == cols - 1 {
        assert(p[s.0].last() == t[off]);
        assert(p[n.0][0] == t[off + 1]);
        assert(!hidden(p[n.0]));
        assert(line_rows(ls[k], cols)[n.0].wrapped);
    }
}

/// Rows of one line come together again where there is room: behind a row that is filled to its
/// last column, a row that is flagged as going on and shows something stands right behind it on
/// the same row, as long as the line up to there is no longer than a row.
#[verifier::rlimit(40)]
pub proof fn law_rows_come_together(rows: Seq<RowView>, cols: int, r: int, c: int, d: int)
    requires
        cols >= 1,
        0 <= r,
        r + 1 < rows.len(),
        rows[r + 1].wrapped,
        rows[r].cells.len() > 0,
        !rows[r].cells.last().shows_nothing(),
        0 <= c < rows[r].cells.len(),
        0 <= d < rows[r + 1].cells.len(),
        !rows[r].cells[c].shows_nothing(),
        !rows[r + 1].cells[d].shows_nothing(),
        joined(rows)[line_of(rows, r)].cells.len() <= cols,
    ensures
        ({
            let (row, col) = place(rows, cols, r, c);
            place(rows, cols, r + 1, d) == (row, col + (rows[r].cells.len() - c) + d)
        }),
{
    let ls = joined(rows);
    let (top, more) = (rows.take(r + 1), rows.take(r + 2));
    assert(more.drop_last() =~= top);
    assert(top.last() == rows[r]);
    assert(more.last() == rows[r + 1]);
    let head = joined(top);
    lemma_joined_grows(top);
    assert(head.last().cells.last() == rows[r].cells.last()) by {
        lemma_joined_holds(top, r, rows[r].cells.len() - 1);
        assert(top.take(r + 1) =~= top);
    }
    assert(!hidden(rows[r + 1].cells)) by {
        assert(!rows[r + 1].cells[d].shows_nothing());
    }
    assert(goes_on(head.last().cells, rows[r + 1]));
    assert(line_of(rows, r + 1) == line_of(rows, r));
    assert(offset_of(rows, r + 1) == head.last().cells.len());
    let k = line_of(rows, r);
    lemma_joined_holds(rows, r, c);
    lemma_joined_holds(rows, r + 1, d);
    lemma_trim_ends(ls[k].cells, offset_of(rows, r) + c);
    lemma_trim_ends(ls[k].cells, offset_of(rows, r + 1) + d);
    lemma_trimmed(ls[k].cells);
}

/// A character of two columns is not torn apart: no row but a line's first begins with the right
/// half of one, as long as each has its left half before it and a row has room for both.
pub proof fn law_wide_not_torn(cells: Seq<Cell>, cols: int, k: int)
    requires
        cols >= 2,
        forall|i: int|
            0 < i < cells.len() && (#[trigger] cells[i]).attrs.has(CellAttrs::WIDE_TAIL)
                ==> !cells[i - 1].attrs.has(CellAttrs::WIDE_TAIL),
        1 <= k < cut(cells, cols).len(),
    ensures
        !cut(cells, cols)[k][0].attrs.has(CellAttrs::WIDE_TAIL),
    decreases cells.len(),
{
    let w = piece(cells, cols);
    let rest = cells.skip(w);
    lemma_cut_shape(rest, cols);
    assert(cut(cells, cols)[k] == cut(rest, cols)[k - 1]);
    assert(rest[0] == cells[w]);
    assert(cells[cols].attrs.has(CellAttrs::WIDE_TAIL) ==> !cells[cols - 1].attrs.has(
        CellAttrs::WIDE_TAIL,
    ));
    if k == 1 {
        assert(cut(rest, cols)[0][0] == rest[0]);
    } else {
        assert forall|i: int|
            0 < i < rest.len() && (#[trigger] rest[i]).attrs.has(
                CellAttrs::WIDE_TAIL,
            ) implies !rest[i - 1].attrs.has(CellAttrs::WIDE_TAIL) by {
            assert(rest[i] == cells[i + w]);
            assert(rest[i - 1] == cells[i + w - 1]);
        }
        law_wide_not_torn(rest, cols, k - 1);
    }
}

/// Where a cursor comes to stand that is in an empty row right below the last row that holds
/// anything: right below the last row that holds anything.
#[verifier::rlimit(40)]
pub(crate) proof fn lemma_place_below(rows: Seq<RowView>, cols: int, r: int, c: int)
    requires
        cols >= 1,
        1 <= r < rows.len(),
        0 <= c,
        !hidden(rows[r - 1].cells),
        forall|i: int|
            r <= i < rows.len() ==> (#[trigger] rows[i]).cells == lines::blank_line(
                rows[i].cells.len() as int,
            ),
    ensures
        ({
            let (row, col) = place(rows, cols, r, c);
            let all = flowed(joined(rows), cols);
            &&& 1 <= row < all.len()
            &&& col == if c < cols {
                c
            } else {
                cols - 1
            }
            &&& all[row - 1].cells != lines::blank_line(cols)
            &&& forall|i: int| row <= i < all.len() ==> (#[trigger] all[i]).cells
                == lines::blank_line(cols)
        }),
{
    let top = rows.take(r);
    let head = joined(top);
    let more = rows.take(r + 1);
    let ls = joined(rows);
    let all = flowed(ls, cols);
    assert(more.drop_last() =~= top);
    assert(more.last() == rows[r]);
    assert(top.last() == rows[r - 1]);
    lemma_empty_tail(rows, cols, r - 1);
    lemma_joined_grows(top);
    assert(hidden(rows[r].cells));
    assert(joined(more) == head.push(rows[r]));
    lemma_joined_prefix(rows, r);
    let k = head.len() as int;
    assert(joined(more).drop_last() =~= head);
    assert(line_of(rows, r) == k);
    assert(offset_of(rows, r) == 0);
    lemma_empty_tail(rows, cols, r);
    assert(ls.take(k + 1) == joined(more));
    assert(ls[k] == ls.take(k + 1)[k]);
    lemma_trim_blank(rows[r].cells.len() as int);
    assert(trimmed(ls[k].cells) =~= Seq::empty());
    lemma_place_inside(rows, cols, r, c);
    let l = head.last().cells;
    let t = trimmed(l);
    let above = rows[r - 1].cells;
    let j = choose|j: int| 0 <= j < above.len() && !(#[trigger] above[j]).shows_nothing();
    lemma_joined_holds(top, r - 1, j);
    assert(top.take(r) =~= top);
    lemma_trim_ends(l, offset_of(top, r - 1) + j);
    lemma_shown_piece(t, cols, offset_of(top, r - 1) + j, l);
    let one = line_rows(head.last(), cols);
    assert(flowed(head, cols) == flowed(head.drop_last(), cols) + one);
    lemma_cut_shape(t, cols);
    let n = flowed(head, cols).len() as int;
    assert(all[n - 1] == flowed(head, cols)[n - 1]);
    assert(flowed(head, cols)[n - 1] == one[one.len() - 1]);
}

/// The last piece of a line that ends with a row that shows something shows something too.
proof fn lemma_shown_piece(t: Seq<Cell>, cols: int, i: int, l: Seq<Cell>)
    requires
        cols >= 1,
        t == trimmed(l),
        0 <= i < t.len(),
    ensures
        cut(t, cols).last() != lines::blank_line(cols),
{
    lemma_trim_last(l);
    lemma_cut_shape(t, cols);
    lemma_spot_behind(t, cols);
    lemma_spot_holds(t, cols, t.len() - 1);
    let s = spot(t, cols, t.len() - 1);
    assert(cut(t, cols)[s.0][s.1] == t.last());
}

} // verus!
