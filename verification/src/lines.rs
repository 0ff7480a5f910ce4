//! Lines of cells: rotation, filling and shifting, over vectors and over sequences.

use crate::cell::Cell;
use vstd::prelude::*;

verus! {

/// The text lines that a vector of rows holds.
pub open spec fn lines(v: Seq<Vec<Cell>>) -> Seq<Seq<Cell>> {
    v.map_values(|r: Vec<Cell>| r@)
}

/// The elements `lo..=hi` moved `n` places towards the front, the first `n` of them to the end.
pub open spec fn rotated_left<A>(s: Seq<A>, lo: int, hi: int, n: int) -> Seq<A> {
    Seq::new(
        s.len(),
        |i: int|
            if lo <= i <= hi {
                if i + n <= hi {
                    s[i + n]
                } else {
                    s[i + n - (hi - lo + 1)]
                }
            } else {
                s[i]
            },
    )
}

/// The elements `lo..=hi` moved `n` places towards the back, the last `n` of them to the front.
pub open spec fn rotated_right<A>(s: Seq<A>, lo: int, hi: int, n: int) -> Seq<A> {
    rotated_left(s, lo, hi, hi - lo + 1 - n)
}

/// The elements `from..to` all replaced by `x`.
pub open spec fn filled<A>(s: Seq<A>, from: int, to: int, x: A) -> Seq<A> {
    Seq::new(
        s.len(),
        |i: int|
            if from <= i < to {
                x
            } else {
                s[i]
            },
    )
}

/// The cells of lines `lo..hi` all replaced by `c`.
pub open spec fn erased(s: Seq<Seq<Cell>>, lo: int, hi: int, c: Cell) -> Seq<Seq<Cell>> {
    Seq::new(
        s.len(),
        |i: int|
            if lo <= i < hi {
                filled(s[i], 0, s[i].len() as int, c)
            } else {
                s[i]
            },
    )
}

/// The cells `from..to` of line `r` replaced by `c`.
pub open spec fn erased_part(s: Seq<Seq<Cell>>, r: int, from: int, to: int, c: Cell) -> Seq<
    Seq<Cell>,
> {
    s.update(r, filled(s[r], from, to, c))
}

/// A line of `cols` blank cells.
pub open spec fn blank_line(cols: int) -> Seq<Cell> {
    Seq::new(cols as nat, |i: int| Cell::blank())
}

/// `rows` blank lines.
pub open spec fn blank_lines(rows: int, cols: int) -> Seq<Seq<Cell>> {
    Seq::new(rows as nat, |i: int| blank_line(cols))
}

/// A sequence cut or padded with `x` to length `n`.
pub open spec fn resized<A>(s: Seq<A>, n: int, x: A) -> Seq<A> {
    Seq::new(
        n as nat,
        |i: int|
            if i < s.len() {
                s[i]
            } else {
                x
            },
    )
}

/// `n` blank cells pushed in at `col`; of the first `cols` cells those that leave are lost, and
/// the cells behind them stay.
pub open spec fn pushed_right(s: Seq<Cell>, col: int, n: int, cols: int) -> Seq<Cell> {
    Seq::new(
        s.len(),
        |i: int|
            if col <= i < col + n {
                Cell::blank()
            } else if col + n <= i < cols {
                s[i - n]
            } else {
                s[i]
            },
    )
}

/// `n` cells taken out at `col`, the first `cols` cells closed up and the rest made blank.
pub open spec fn pulled_left(s: Seq<Cell>, col: int, n: int, cols: int) -> Seq<Cell> {
    Seq::new(
        s.len(),
        |i: int|
            if i < col {
                s[i]
            } else if i < cols - n {
                s[i + n]
            } else {
                Cell::blank()
            },
    )
}

/// Rotating back undoes rotating.
pub proof fn law_rotate_back<A>(s: Seq<A>, lo: int, hi: int, n: int)
    requires
        0 <= lo <= hi < s.len(),
        0 <= n <= hi - lo + 1,
    ensures
        rotated_right(rotated_left(s, lo, hi, n), lo, hi, n) == s,
        rotated_left(rotated_right(s, lo, hi, n), lo, hi, n) == s,
{
    assert(rotated_right(rotated_left(s, lo, hi, n), lo, hi, n) =~= s);
    assert(rotated_left(rotated_right(s, lo, hi, n), lo, hi, n) =~= s);
}

pub fn rotate_left<T>(v: &mut Vec<T>, lo: usize, hi: usize, n: usize)
    requires
        lo <= hi < old(v).len(),
        n <= hi - lo + 1,
    ensures
        final(v)@ == rotated_left(old(v)@, lo as int, hi as int, n as int),
{
    let mut k: usize = 0;
    assert(v@ =~= rotated_left(old(v)@, lo as int, hi as int, 0));
    while k < n
        invariant
            lo <= hi < old(v).len(),
            k <= n <= hi - lo + 1,
            v@ == rotated_left(old(v)@, lo as int, hi as int, k as int),
        decreases n - k,
    {
        let ghost before = v@;
        let x = v.remove(lo);
        v.insert(hi, x);
        assert(v@ =~= rotated_left(before, lo as int, hi as int, 1));
        k = k + 1;
        assert(v@ =~= rotated_left(old(v)@, lo as int, hi as int, k as int));
    }
}

pub fn rotate_right<T>(v: &mut Vec<T>, lo: usize, hi: usize, n: usize)
    requires
        lo <= hi < old(v).len(),
        n <= hi - lo + 1,
    ensures
        final(v)@ == rotated_right(old(v)@, lo as int, hi as int, n as int),
{
    let mut k: usize = 0;
    assert(v@ =~= rotated_right(old(v)@, lo as int, hi as int, 0));
    while k < n
        invariant
            lo <= hi < old(v).len(),
            k <= n <= hi - lo + 1,
            v@ == rotated_right(old(v)@, lo as int, hi as int, k as int),
        decreases n - k,
    {
        let ghost before = v@;
        let x = v.remove(hi);
        v.insert(lo, x);
        assert(v@ =~= rotated_right(before, lo as int, hi as int, 1));
        k = k + 1;
        assert(v@ =~= rotated_right(old(v)@, lo as int, hi as int, k as int));
    }
}

/// Replaces the elements `from..to` by `x`.
pub fn fill<T: Copy>(v: &mut Vec<T>, from: usize, to: usize, x: T)
    requires
        from <= to <= old(v).len(),
    ensures
        final(v)@ == filled(old(v)@, from as int, to as int, x),
{
    let mut i: usize = from;
    while i < to
        invariant
            from <= i <= to <= old(v).len(),
            v@ == filled(old(v)@, from as int, i as int, x),
        decreases to - i,
    {
        v[i] = x;
        i = i + 1;
        assert(v@ =~= filled(old(v)@, from as int, i as int, x));
    }
    assert(v@ =~= filled(old(v)@, from as int, to as int, x));
}

/// Cuts or pads to length `n`.
pub fn resize<T: Copy>(v: &mut Vec<T>, n: usize, x: T)
    ensures
        final(v)@ == resized(old(v)@, n as int, x),
{
    if n < v.len() {
        v.truncate(n);
    }
    while v.len() < n
        invariant
            v.len() <= n,
            old(v).len() <= v.len() || v.len() == n,
            forall|i: int|
                0 <= i < v.len() ==> #[trigger] v[i] == resized(old(v)@, n as int, x)[i],
        decreases n - v.len(),
    {
        v.push(x);
    }
    assert(v@ =~= resized(old(v)@, n as int, x));
}

pub fn blank_row(cols: usize) -> (r: Vec<Cell>)
    ensures
        r@ == blank_line(cols as int),
{
    let mut row: Vec<Cell> = Vec::new();
    resize(&mut row, cols, Cell::default());
    assert(row@ =~= blank_line(cols as int));
    row
}

pub fn blank_rows(rows: usize, cols: usize) -> (r: Vec<Vec<Cell>>)
    ensures
        lines(r@) == blank_lines(rows as int, cols as int),
{
    let mut out: Vec<Vec<Cell>> = Vec::new();
    let mut i: usize = 0;
    while i < rows
        invariant
            i <= rows,
            out.len() == i,
            forall|j: int| 0 <= j < i ==> #[trigger] lines(out@)[j] == blank_line(cols as int),
        decreases rows - i,
    {
        let ghost before = lines(out@);
        out.push(blank_row(cols));
        i = i + 1;
        assert(forall|j: int| 0 <= j < i - 1 ==> #[trigger] lines(out@)[j] == before[j]);
    }
    assert(lines(out@) =~= blank_lines(rows as int, cols as int));
    out
}

/// Writes one cell.
pub fn put_cell(v: &mut Vec<Vec<Cell>>, r: usize, c: usize, cell: Cell)
    requires
        r < old(v).len(),
        c < lines(old(v)@)[r as int].len(),
    ensures
        lines(final(v)@) == lines(old(v)@).update(
            r as int,
            lines(old(v)@)[r as int].update(c as int, cell),
        ),
{
    v[r][c] = cell;
    assert(lines(v@) =~= lines(old(v)@).update(
        r as int,
        lines(old(v)@)[r as int].update(c as int, cell),
    ));
}

/// Erases the cells `from..to` of one line.
pub fn erase_part(v: &mut Vec<Vec<Cell>>, r: usize, from: usize, to: usize, cell: Cell)
    requires
        r < old(v).len(),
        from <= to <= lines(old(v)@)[r as int].len(),
    ensures
        lines(final(v)@) == erased_part(lines(old(v)@), r as int, from as int, to as int, cell),
{
    fill(&mut v[r], from, to, cell);
    assert(lines(v@) =~= erased_part(lines(old(v)@), r as int, from as int, to as int, cell));
}

/// Erases whole lines.
pub fn erase_lines(v: &mut Vec<Vec<Cell>>, lo: usize, hi: usize, cell: Cell)
    requires
        lo <= hi <= old(v).len(),
    ensures
        lines(final(v)@) == erased(lines(old(v)@), lo as int, hi as int, cell),
{
    let mut r: usize = lo;
    assert(lines(v@) =~= erased(lines(old(v)@), lo as int, lo as int, cell));
    while r < hi
        invariant
            lo <= r <= hi <= old(v).len(),
            lines(v@) == erased(lines(old(v)@), lo as int, r as int, cell),
        decreases hi - r,
    {
        assert(v.len() == lines(v@).len());
        let n: usize = v[r].len();
        assert(lines(v@)[r as int] == v[r as int]@);
        erase_part(v, r, 0, n, cell);
        r = r + 1;
        assert(lines(v@) =~= erased(lines(old(v)@), lo as int, r as int, cell));
    }
}

/// Pushes `n` blanks into the first `cols` cells of line `r` at `col`.
pub fn push_right(v: &mut Vec<Vec<Cell>>, r: usize, col: usize, n: usize, cols: usize)
    requires
        r < old(v).len(),
        col + n <= cols <= lines(old(v)@)[r as int].len(),
    ensures
        lines(final(v)@) == lines(old(v)@).update(
            r as int,
            pushed_right(lines(old(v)@)[r as int], col as int, n as int, cols as int),
        ),
{
    let ghost s = lines(v@)[r as int];
    assert(s == v[r as int]@);
    let len: usize = v[r].len();
    let mut row: Vec<Cell> = Vec::new();
    let mut i: usize = 0;
    while i < len
        invariant
            r < v.len(),
            *v == *old(v),
            s == v[r as int]@,
            len == s.len(),
            col + n <= cols <= s.len(),
            i <= s.len(),
            row@ == pushed_right(s, col as int, n as int, cols as int).take(i as int),
        decreases s.len() - i,
    {
        let c: Cell = if col <= i && i - col < n {
            Cell::default()
        } else if col <= i && i < cols {
            v[r][i - n]
        } else {
            v[r][i]
        };
        row.push(c);
        i = i + 1;
        assert(row@ =~= pushed_right(s, col as int, n as int, cols as int).take(i as int));
    }
    assert(row@ =~= pushed_right(s, col as int, n as int, cols as int));
    v[r] = row;
    assert(lines(v@) =~= lines(old(v)@).update(
        r as int,
        pushed_right(s, col as int, n as int, cols as int),
    ));
}

/// Takes `n` of the first `cols` cells out of line `r` at `col`.
pub fn pull_left(v: &mut Vec<Vec<Cell>>, r: usize, col: usize, n: usize, cols: usize)
    requires
        r < old(v).len(),
        col + n <= cols <= lines(old(v)@)[r as int].len(),
    ensures
        lines(final(v)@) == lines(old(v)@).update(
            r as int,
            pulled_left(lines(old(v)@)[r as int], col as int, n as int, cols as int),
        ),
{
    let ghost s = lines(v@)[r as int];
    assert(s == v[r as int]@);
    let len: usize = v[r].len();
    let mut row: Vec<Cell> = Vec::new();
    let mut i: usize = 0;
    while i < len
        invariant
            r < v.len(),
            *v == *old(v),
            s == v[r as int]@,
            len == s.len(),
            col + n <= cols <= s.len(),
            i <= s.len(),
            row@ == pulled_left(s, col as int, n as int, cols as int).take(i as int),
        decreases s.len() - i,
    {
        let c: Cell = if i < col {
            v[r][i]
        } else if i < cols - n {
            v[r][i + n]
        } else {
            Cell::default()
        };
        row.push(c);
        i = i + 1;
        assert(row@ =~= pulled_left(s, col as int, n as int, cols as int).take(i as int));
    }
    assert(row@ =~= pulled_left(s, col as int, n as int, cols as int));
    v[r] = row;
    assert(lines(v@) =~= lines(old(v)@).update(
        r as int,
        pulled_left(s, col as int, n as int, cols as int),
    ));
}

/// Rotating rows rotates the lines they hold.
pub proof fn lemma_lines_rotated(a: Seq<Vec<Cell>>, lo: int, hi: int, n: int)
    requires
        0 <= lo <= hi < a.len(),
        0 <= n <= hi - lo + 1,
    ensures
        lines(rotated_left(a, lo, hi, n)) == rotated_left(lines(a), lo, hi, n),
        lines(rotated_right(a, lo, hi, n)) == rotated_right(lines(a), lo, hi, n),
{
    assert(lines(rotated_left(a, lo, hi, n)) =~= rotated_left(lines(a), lo, hi, n));
    assert(lines(rotated_right(a, lo, hi, n)) =~= rotated_right(lines(a), lo, hi, n));
}

} // verus!
