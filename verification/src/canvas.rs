//! A pixel canvas with top-left origin, for glyphs that are drawn rather than taken from a font.
//!
//! Coordinates and sizes of rectangles are in half pixels, so that the middle of a canvas can
//! be given exactly.

use crate::lines;
use vstd::prelude::*;

verus! {

/// The largest side of a canvas: up to it the squares that rounded corners compare, in fractions
/// of a half pixel, can be held in 64 bits.
pub const MAX_SIDE: usize = 0x40_0000;

/// A rectangle in half pixels.
#[derive(Debug, Clone, Copy, PartialEq, Eq, Structural)]
pub struct Rect {
    pub x: i64,
    pub y: i64,
    pub w: i64,
    pub h: i64,
}

/// No coordinate is so large that sums could overflow.
pub open spec fn modest(r: Rect) -> bool {
    &&& -0x400_0000 <= r.x <= 0x400_0000
    &&& -0x400_0000 <= r.y <= 0x400_0000
    &&& -0x400_0000 <= r.w <= 0x400_0000
    &&& -0x400_0000 <= r.h <= 0x400_0000
}

/// The interval that starts at `a` half pixels and is `n` half pixels long covers pixel `p`;
/// both ends are rounded down.
pub open spec fn spans(a: int, n: int, p: int) -> bool {
    n > 0 && (if a < 0 {
        0
    } else {
        a / 2
    }) <= p < (a + n) / 2
}

impl Rect {
    /// The rectangle covers the pixel.
    pub open spec fn covers(self, x: int, y: int) -> bool {
        spans(self.x as int, self.w as int, x) && spans(self.y as int, self.h as int, y)
    }
}

/// A canvas of one colour.
pub open spec fn plain(width: int, height: int, color: u8) -> Seq<Seq<u8>> {
    Seq::new(height as nat, |y: int| Seq::new(width as nat, |x: int| color))
}

/// A rectangle painted over a canvas.
pub open spec fn painted(rows: Seq<Seq<u8>>, r: Rect, color: u8) -> Seq<Seq<u8>> {
    Seq::new(
        rows.len(),
        |y: int|
            Seq::new(
                rows[y].len(),
                |x: int|
                    if r.covers(x, y) {
                        color
                    } else {
                        rows[y][x]
                    },
            ),
    )
}

/// Rectangles painted one after the other.
pub open spec fn all_painted(rows: Seq<Seq<u8>>, rects: Seq<Rect>, color: u8) -> Seq<Seq<u8>>
    decreases rects.len(),
{
    if rects.len() == 0 {
        rows
    } else {
        painted(all_painted(rows, rects.drop_last(), color), rects.last(), color)
    }
}

/// Some rectangle covers the pixel.
pub open spec fn covered(rects: Seq<Rect>, x: int, y: int) -> bool {
    exists|i: int| 0 <= i < rects.len() && (#[trigger] rects[i]).covers(x, y)
}

/// The rows of a canvas have its width.
pub open spec fn shaped(rows: Seq<Seq<u8>>, width: int, height: int) -> bool {
    &&& rows.len() == height
    &&& forall|y: int| 0 <= y < height ==> (#[trigger] rows[y]).len() == width
}

/// A pixel of a painted canvas has the colour where some rectangle covers it, and keeps its own
/// elsewhere.
pub proof fn law_painted_is_union(
    rows: Seq<Seq<u8>>,
    rects: Seq<Rect>,
    color: u8,
    width: int,
    height: int,
)
    requires
        shaped(rows, width, height),
    ensures
        shaped(all_painted(rows, rects, color), width, height),
        forall|x: int, y: int|
            0 <= x < width && 0 <= y < height ==> #[trigger] all_painted(rows, rects, color)[y][x]
                == if covered(rects, x, y) {
                color
            } else {
                rows[y][x]
            },
    decreases rects.len(),
{
    if rects.len() > 0 {
        let pre = rects.drop_last();
        law_painted_is_union(rows, pre, color, width, height);
        assert forall|x: int, y: int| 0 <= x < width && 0 <= y < height implies
            #[trigger] all_painted(rows, rects, color)[y][x] == if covered(rects, x, y) {
            color
        } else {
            rows[y][x]
        } by {
            let below = all_painted(rows, pre, color);
            assert(below[y].len() == width);
            assert(below[y][x] == if covered(pre, x, y) {
                color
            } else {
                rows[y][x]
            });
            if covered(pre, x, y) {
                let i = choose|i: int| 0 <= i < pre.len() && (#[trigger] pre[i]).covers(x, y);
                assert(rects[i].covers(x, y));
            }
            if rects.last().covers(x, y) {
                assert(rects[rects.len() - 1].covers(x, y));
            }
            if covered(rects, x, y) && !rects.last().covers(x, y) {
                let i = choose|i: int| 0 <= i < rects.len() && (#[trigger] rects[i]).covers(x, y);
                assert(pre[i].covers(x, y));
            }
        }
    }
}

/// The largest whole number whose square is at most `m`.
pub open spec fn root(m: int) -> int {
    choose|k: int| is_root(m, k)
}

pub open spec fn is_root(m: int, k: int) -> bool {
    0 <= k && k * k <= m && m < (k + 1) * (k + 1)
}

proof fn lemma_root_unique(m: int, a: int, b: int)
    requires
        is_root(m, a),
        is_root(m, b),
    ensures
        a == b,
{
    if a < b {
        assert((a + 1) * (a + 1) <= b * b) by (nonlinear_arith)
            requires
                0 <= a < b,
        ;
    } else if b < a {
        assert((b + 1) * (b + 1) <= a * a) by (nonlinear_arith)
            requires
                0 <= b < a,
        ;
    }
}

/// The largest whole number whose square is at most `m`.
fn floor_root(m: u64) -> (r: u64)
    ensures
        r == root(m as int),
        is_root(m as int, r as int),
        r < 0x1_0000_0000,
{
    let mut lo: u64 = 0;
    let mut hi: u64 = 0x1_0000_0000;
    while lo + 1 < hi
        invariant
            0 <= lo < hi <= 0x1_0000_0000,
            lo * lo <= m,
            m < hi * hi,
        decreases hi - lo,
    {
        let mid: u64 = lo + (hi - lo) / 2;
        assert(mid * mid <= 0xffff_ffff * 0xffff_ffff) by (nonlinear_arith)
            requires
                mid <= 0xffff_ffff,
        ;
        if mid * mid <= m {
            lo = mid;
        } else {
            hi = mid;
        }
    }
    proof {
        assert(is_root(m as int, lo as int));
        lemma_root_unique(m as int, lo as int, root(m as int));
    }
    lo
}

/// Twice the distance from the origin is less than `t` for a point whose squared distance is
/// `n`.
pub open spec fn nearer(n: int, t: int) -> bool {
    t > 0 && 4 * n < t * t
}

/// The shade of a point on the quarter ring with the outer diameter `d` and thickness `s`, whose
/// squared distance from the centre is `n`. With `bias` set, distances count half a pixel more.
/// The ring fades over one pixel at both edges: the shade is 255 times the coverage, rounded
/// down.
pub open spec fn ring_shade(n: int, d: int, s: int, bias: int) -> int {
    let y = root(260100 * n);
    let up = if y * y == 260100 * n {
        y
    } else {
        y + 1
    };
    if nearer(n, d - 2 * s - 2 - bias) {
        0
    } else if nearer(n, d - 2 * s - bias) {
        (255 * (2 + bias - d + 2 * s) + y) / 2
    } else if nearer(n, d - 2 - bias) {
        255
    } else if nearer(n, d - bias) {
        (255 * (d - bias) - up) / 2
    } else {
        0
    }
}

proof fn lemma_shade_range(n: int, d: int, s: int, bias: int)
    requires
        0 <= n < 0x10_0000_0000_0000,
        1 <= s,
        2 <= d <= 0x100_0000,
        0 <= bias <= 1,
        is_root(260100 * n, root(260100 * n)),
    ensures
        0 <= ring_shade(n, d, s, bias) <= 255,
{
    let y = root(260100 * n);
    let up = if y * y == 260100 * n {
        y
    } else {
        y + 1
    };
    let t = d - 2 * s - bias;
    let u = d - bias;
    if nearer(n, t - 2) {
    } else if nearer(n, t) {
        assert(y < 255 * t) by (nonlinear_arith)
            requires
                y * y <= 260100 * n,
                4 * n < t * t,
                0 <= y,
                0 < t,
        ;
        assert(y >= 255 * (t - 2)) by (nonlinear_arith)
            requires
                260100 * n < (y + 1) * (y + 1),
                !(t - 2 > 0 && 4 * n < (t - 2) * (t - 2)),
                0 <= y,
        ;
    } else if nearer(n, u - 2) {
    } else if nearer(n, u) {
        assert(up <= 255 * u) by (nonlinear_arith)
            requires
                y * y <= 260100 * n,
                4 * n < u * u,
                0 <= y,
                0 < u,
                up == y || up == y + 1,
        ;
        assert(up >= 255 * (u - 2)) by (nonlinear_arith)
            requires
                260100 * n < (y + 1) * (y + 1),
                !(u - 2 > 0 && 4 * n < (u - 2) * (u - 2)),
                0 <= y,
                up == y || up == y + 1,
        ;
    }
}

/// Whether twice the distance is less than `t`.
fn is_nearer(n: u64, t: i64) -> (r: bool)
    requires
        n < 0x10_0000_0000_0000,
        t <= 0x100_0000,
    ensures
        r == nearer(n as int, t as int),
{
    if t <= 0 {
        return false;
    }
    let u: u64 = t as u64;
    assert(u * u <= 0x100_0000 * 0x100_0000) by (nonlinear_arith)
        requires
            u <= 0x100_0000,
    ;
    4 * n < u * u
}

/// The shade of a point on the quarter ring.
fn shade_at(n: u64, d: i64, s: i64, bias: i64) -> (r: u8)
    requires
        n < 0x4000_0000_0000,
        1 <= s <= 0x100_0000,
        2 <= d <= 0x100_0000,
        0 <= bias <= 1,
    ensures
        r == ring_shade(n as int, d as int, s as int, bias as int),
{
    let m: u64 = 260100 * n;
    let y: u64 = floor_root(m);
    assert(y * y <= 0xffff_ffff * 0xffff_ffff) by (nonlinear_arith)
        requires
            y < 0x1_0000_0000,
    ;
    let up: u64 = if y * y == m {
        y
    } else {
        y + 1
    };
    proof {
        lemma_shade_range(n as int, d as int, s as int, bias as int);
    }
    let v: i64 = if is_nearer(n, d - 2 * s - 2 - bias) {
        0
    } else if is_nearer(n, d - 2 * s - bias) {
        let sum: i64 = 255 * (2 + bias - d + 2 * s) + y as i64;
        sum / 2
    } else if is_nearer(n, d - 2 - bias) {
        255
    } else if is_nearer(n, d - bias) {
        let rest: i64 = 255 * (d - bias) - up as i64;
        rest / 2
    } else {
        0
    };
    v as u8
}

/// The brighter of what is there and a new shade, at one pixel.
pub open spec fn lightened(rows: Seq<Seq<u8>>, x: int, y: int, shade: u8) -> Seq<Seq<u8>> {
    if 0 <= y < rows.len() && 0 <= x < rows[y].len() && shade > rows[y][x] {
        rows.update(y, rows[y].update(x, shade))
    } else {
        rows
    }
}

/// The pixel that a point of the quarter ring falls on: `x2` half pixels from the edge, if it
/// lies on a canvas side of `side` pixels.
pub open spec fn pixel_at(x2: int, side: int) -> Option<int> {
    if x2 < 0 || x2 > 2 * (side - 1) {
        None
    } else {
        Some(x2 / 2)
    }
}

/// The measures of a rounded corner on a canvas.
pub open spec fn corner_diameter(width: int, height: int, stroke: int) -> int {
    crate::grid::min(width, height) + stroke
}

/// Distances count half a pixel more where the short side and the stroke differ in parity.
pub open spec fn corner_bias(width: int, height: int, stroke: int) -> int {
    if crate::grid::min(width, height) % 2 == stroke % 2 {
        0
    } else {
        1
    }
}

/// How far the ring stands off along the long side, in half pixels.
pub open spec fn corner_offset(width: int, height: int, stroke: int) -> int {
    let long = crate::grid::max(width, height);
    let short = crate::grid::min(width, height);
    if width % 2 != height % 2 && long % 2 == stroke % 2 {
        long - short + 2
    } else {
        long - short
    }
}

/// The ring's point `(i, j)` put on the canvas.
pub open spec fn dotted(
    rows: Seq<Seq<u8>>,
    width: int,
    height: int,
    stroke: int,
    i: int,
    j: int,
) -> Seq<Seq<u8>> {
    let off = corner_offset(width, height, stroke);
    let x = pixel_at(
        2 * i + if height > width {
            0
        } else {
            off
        },
        width,
    );
    let y = pixel_at(
        2 * j + if height > width {
            off
        } else {
            0
        },
        height,
    );
    let shade = ring_shade(
        i * i + j * j,
        corner_diameter(width, height, stroke),
        stroke,
        corner_bias(width, height, stroke),
    );
    match (x, y) {
        (Some(x), Some(y)) => lightened(rows, x, y, shade as u8),
        _ => rows,
    }
}

/// The first `i` points of row `j` of the ring put on the canvas.
pub open spec fn row_dotted(
    rows: Seq<Seq<u8>>,
    width: int,
    height: int,
    stroke: int,
    i: int,
    j: int,
) -> Seq<Seq<u8>>
    decreases i,
{
    if i <= 0 {
        rows
    } else {
        dotted(row_dotted(rows, width, height, stroke, i - 1, j), width, height, stroke, i - 1, j)
    }
}

/// The first `j` rows of the ring put on the canvas, each of `n` points.
pub open spec fn ring_dotted(
    rows: Seq<Seq<u8>>,
    width: int,
    height: int,
    stroke: int,
    n: int,
    j: int,
) -> Seq<Seq<u8>>
    decreases j,
{
    if j <= 0 {
        rows
    } else {
        row_dotted(
            ring_dotted(rows, width, height, stroke, n, j - 1),
            width,
            height,
            stroke,
            n,
            j - 1,
        )
    }
}

/// The straight piece that joins the ring to the edge of the cell.
pub open spec fn corner_stem(width: int, height: int, stroke: int) -> Rect {
    let off = corner_offset(width, height, stroke);
    if height > width {
        Rect { x: (width - stroke) as i64, y: 0, w: (2 * stroke) as i64, h: off as i64 }
    } else {
        Rect { x: 0, y: (height - stroke) as i64, w: off as i64, h: (2 * stroke) as i64 }
    }
}

/// A rounded corner from the top edge to the left edge: a quarter ring and a straight piece.
pub open spec fn cornered(rows: Seq<Seq<u8>>, width: int, height: int, stroke: int) -> Seq<
    Seq<u8>,
> {
    let n = (crate::grid::min(width, height) + stroke + 1) / 2;
    painted(
        ring_dotted(rows, width, height, stroke, n, n),
        corner_stem(width, height, stroke),
        255,
    )
}

/// A sequence mirrored. With `extra` set the last element gets what the first was, and the
/// others are mirrored among themselves.
pub open spec fn mirrored<A>(s: Seq<A>, extra: int) -> Seq<A> {
    Seq::new(
        s.len(),
        |i: int|
            if i < s.len() - extra {
                s[s.len() - 1 - extra - i]
            } else {
                s[0]
            },
    )
}

/// Whether the middle of a side falls between pixels for a stroke: the parities differ.
pub open spec fn off_center(side: int, stroke: int) -> int {
    if side % 2 != stroke % 2 {
        1
    } else {
        0
    }
}

/// The canvas mirrored left to right.
pub open spec fn flipped_x(rows: Seq<Seq<u8>>, extra: int) -> Seq<Seq<u8>> {
    Seq::new(rows.len(), |y: int| mirrored(rows[y], extra))
}

/// Mirroring a canvas twice is as if nothing had been done, where the stroke sits in the middle.
pub proof fn law_mirror_twice<A>(s: Seq<A>)
    ensures
        mirrored(mirrored(s, 0), 0) == s,
{
    assert(mirrored(mirrored(s, 0), 0) =~= s);
}

/// The pixels of rows one after the other.
pub open spec fn flat(rows: Seq<Seq<u8>>) -> Seq<u8>
    decreases rows.len(),
{
    if rows.len() == 0 {
        Seq::empty()
    } else {
        flat(rows.drop_last()) + rows.last()
    }
}

proof fn lemma_flat_len(rows: Seq<Seq<u8>>, width: int, height: int)
    requires
        shaped(rows, width, height),
        0 <= width,
    ensures
        flat(rows).len() == width * height,
    decreases height,
{
    if rows.len() == 0 {
        assert(width * height == 0) by (nonlinear_arith)
            requires
                height == 0,
        ;
    } else {
        lemma_flat_len(rows.drop_last(), width, height - 1);
        assert(rows.last().len() == width);
        assert(width * height == width * (height - 1) + width) by (nonlinear_arith);
    }
}

/// Pixel `(x, y)` stands at `y * width + x` in row-major order.
pub proof fn law_flat_row_major(rows: Seq<Seq<u8>>, width: int, height: int, x: int, y: int)
    requires
        shaped(rows, width, height),
        0 <= x < width,
        0 <= y < height,
    ensures
        flat(rows).len() == width * height,
        0 <= y * width + x < width * height,
        flat(rows)[y * width + x] == rows[y][x],
    decreases height,
{
    let pre = rows.drop_last();
    lemma_flat_len(pre, width, height - 1);
    assert(rows.last().len() == width);
    assert(width * height == width * (height - 1) + width) by (nonlinear_arith);
    if y < height - 1 {
        law_flat_row_major(pre, width, height - 1, x, y);
    } else {
        assert(y * width == width * (height - 1)) by (nonlinear_arith)
            requires
                y == height - 1,
        ;
        assert(0 <= width * (height - 1)) by (nonlinear_arith)
            requires
                0 < width,
                height >= 1,
        ;
    }
}

/// Pixel canvas with top-left origin and top-down Y axis.
pub struct Canvas {
    width: usize,
    height: usize,
    rows: Vec<Vec<u8>>,
}

/// The rows of bytes as sequences.
pub open spec fn row_views(rows: Seq<Vec<u8>>) -> Seq<Seq<u8>> {
    rows.map_values(|r: Vec<u8>| r@)
}

impl Canvas {
    /// The pixels, row by row.
    pub closed spec fn pixels(&self) -> Seq<Seq<u8>> {
        row_views(self.rows@)
    }

    pub closed spec fn w(&self) -> int {
        self.width as int
    }

    pub closed spec fn h(&self) -> int {
        self.height as int
    }

    pub open spec fn wf(&self) -> bool {
        &&& 1 <= self.w() <= MAX_SIDE
        &&& 1 <= self.h() <= MAX_SIDE
        &&& shaped(self.pixels(), self.w(), self.h())
    }

    pub fn width(&self) -> (r: usize)
        ensures
            r == self.w(),
    {
        self.width
    }

    pub fn height(&self) -> (r: usize)
        ensures
            r == self.h(),
    {
        self.height
    }

    pub fn new(width: usize, height: usize) -> (r: Canvas)
        requires
            1 <= width <= MAX_SIDE,
            1 <= height <= MAX_SIDE,
        ensures
            r.wf(),
            r.w() == width,
            r.h() == height,
            r.pixels() == plain(width as int, height as int, 0),
    {
        let mut rows: Vec<Vec<u8>> = Vec::new();
        let mut y: usize = 0;
        while y < height
            invariant
                y <= height,
                rows.len() == y,
                forall|j: int|
                    0 <= j < y ==> #[trigger] row_views(rows@)[j] == Seq::new(
                        width as nat,
                        |x: int| 0u8,
                    ),
            decreases height - y,
        {
            let mut row: Vec<u8> = Vec::new();
            lines::resize(&mut row, width, 0);
            assert(row@ =~= Seq::new(width as nat, |x: int| 0u8));
            let ghost before = row_views(rows@);
            rows.push(row);
            assert(forall|j: int| 0 <= j < y ==> #[trigger] row_views(rows@)[j] == before[j]);
            y = y + 1;
        }
        let c = Canvas { width, height, rows };
        assert(c.pixels() =~= plain(width as int, height as int, 0));
        c
    }

    /// Fills the canvas with one shade.
    pub fn fill(&mut self, color: u8)
        requires
            old(self).wf(),
        ensures
            final(self).wf(),
            final(self).w() == old(self).w(),
            final(self).h() == old(self).h(),
            final(self).pixels() == plain(old(self).w(), old(self).h(), color),
    {
        let mut y: usize = 0;
        while y < self.height
            invariant
                y <= self.height,
                self.w() == old(self).w(),
                self.h() == old(self).h(),
                self.wf(),
                forall|j: int, x: int|
                    0 <= j < y && 0 <= x < self.w() ==> #[trigger] self.pixels()[j][x] == color,
            decreases self.height - y,
        {
            let ghost before = self.pixels();
            assert(before[y as int].len() == self.w());
            let n: usize = self.width;
            self.fill_row(y, 0, n, color);
            y = y + 1;
        }
        assert(self.pixels() =~~= plain(old(self).w(), old(self).h(), color));
    }

    /// Fills the pixels `from..to` of a row.
    fn fill_row(&mut self, y: usize, from: usize, to: usize, color: u8)
        requires
            old(self).wf(),
            y < old(self).h(),
            from <= to <= old(self).w(),
        ensures
            final(self).wf(),
            final(self).w() == old(self).w(),
            final(self).h() == old(self).h(),
            final(self).pixels() == old(self).pixels().update(
                y as int,
                lines::filled(old(self).pixels()[y as int], from as int, to as int, color),
            ),
    {
        assert(self.pixels()[y as int] == self.rows[y as int]@);
        assert(self.rows.len() == self.pixels().len());
        lines::fill(&mut self.rows[y], from, to, color);
        assert(self.pixels() =~= old(self).pixels().update(
            y as int,
            lines::filled(old(self).pixels()[y as int], from as int, to as int, color),
        ));
    }

    /// Paints a rectangle.
    pub fn draw_rect(&mut self, r: Rect, color: u8)
        requires
            old(self).wf(),
            modest(r),
        ensures
            final(self).wf(),
            final(self).w() == old(self).w(),
            final(self).h() == old(self).h(),
            final(self).pixels() == painted(old(self).pixels(), r, color),
    {
        let (from_x, to_x): (usize, usize) = clip_span(r.x, r.w, self.width);
        let (from_y, to_y): (usize, usize) = clip_span(r.y, r.h, self.height);
        let ghost was = self.pixels();
        let ghost h = self.h();
        let ghost w = self.w();
        let mut y: usize = from_y;
        while y < to_y
            invariant
                from_y <= y <= to_y <= h,
                from_x <= to_x <= w,
                self.wf(),
                self.w() == w,
                self.h() == h,
                shaped(was, w, h),
                forall|j: int|
                    0 <= j < h ==> #[trigger] self.pixels()[j] == if from_y <= j < y {
                        lines::filled(was[j], from_x as int, to_x as int, color)
                    } else {
                        was[j]
                    },
            decreases to_y - y,
        {
            let ghost before = self.pixels();
            assert(before[y as int] == was[y as int]);
            self.fill_row(y, from_x, to_x, color);
            assert(forall|j: int| 0 <= j < h && j != y ==> #[trigger] self.pixels()[j] == before[j]);
            y = y + 1;
        }
        assert forall|j: int| 0 <= j < h implies #[trigger] self.pixels()[j] == painted(
            was,
            r,
            color,
        )[j] by {
            assert(was[j].len() == w);
            assert(spans(r.y as int, r.h as int, j) <==> from_y <= j < to_y);
            assert forall|x: int| 0 <= x < w implies self.pixels()[j][x] == painted(
                was,
                r,
                color,
            )[j][x] by {
                assert(spans(r.x as int, r.w as int, x) <==> from_x <= x < to_x);
            }
            assert(self.pixels()[j] =~= painted(was, r, color)[j]);
        }
        assert(self.pixels() =~= painted(was, r, color));
    }

    /// Paints rectangles one after the other.
    pub fn draw_rects(&mut self, rects: &Vec<Rect>, color: u8)
        requires
            old(self).wf(),
            forall|i: int| 0 <= i < rects@.len() ==> modest(#[trigger] rects@[i]),
        ensures
            final(self).wf(),
            final(self).w() == old(self).w(),
            final(self).h() == old(self).h(),
            final(self).pixels() == all_painted(old(self).pixels(), rects@, color),
    {
        let mut i: usize = 0;
        while i < rects.len()
            invariant
                i <= rects@.len(),
                self.wf(),
                self.w() == old(self).w(),
                self.h() == old(self).h(),
                forall|k: int| 0 <= k < rects@.len() ==> modest(#[trigger] rects@[k]),
                self.pixels() == all_painted(old(self).pixels(), rects@.take(i as int), color),
            decreases rects@.len() - i,
        {
            self.draw_rect(rects[i], color);
            i = i + 1;
            assert(rects@.take(i as int).drop_last() =~= rects@.take(i - 1));
        }
        assert(rects@.take(i as int) =~= rects@);
    }

    /// Lightens one pixel.
    fn put_pixel(&mut self, x: usize, y: usize, shade: u8)
        requires
            old(self).wf(),
        ensures
            final(self).wf(),
            final(self).w() == old(self).w(),
            final(self).h() == old(self).h(),
            final(self).pixels() == lightened(old(self).pixels(), x as int, y as int, shade),
    {
        if y < self.height && x < self.width {
            assert(self.pixels()[y as int].len() == self.w());
            assert(self.pixels()[y as int] == self.rows[y as int]@);
            assert(self.rows.len() == self.pixels().len());
            if shade > self.rows[y][x] {
                self.fill_row(y, x, x + 1, shade);
                assert(lines::filled(old(self).pixels()[y as int], x as int, x + 1, shade)
                    =~= old(self).pixels()[y as int].update(x as int, shade));
            }
        } else {
            assert(y < self.height ==> self.pixels()[y as int].len() == self.w());
        }
    }

    /// Puts one point of the ring on the canvas.
    fn dot(&mut self, stroke_size: usize, i: usize, j: usize)
        requires
            old(self).wf(),
            1 <= stroke_size <= MAX_SIDE,
            i <= 0x40_0000,
            j <= 0x40_0000,
        ensures
            final(self).wf(),
            final(self).w() == old(self).w(),
            final(self).h() == old(self).h(),
            final(self).pixels() == dotted(
                old(self).pixels(),
                old(self).w(),
                old(self).h(),
                stroke_size as int,
                i as int,
                j as int,
            ),
    {
        let off: usize = self.offset(stroke_size);
        let tall: bool = self.height > self.width;
        let short: usize = if tall {
            self.width
        } else {
            self.height
        };
        let x2: usize = 2 * i + if tall {
            0
        } else {
            off
        };
        let y2: usize = 2 * j + if tall {
            off
        } else {
            0
        };
        let bias: i64 = if short % 2 == stroke_size % 2 {
            0
        } else {
            1
        };
        let a: u64 = i as u64;
        let b: u64 = j as u64;
        assert(a * a <= 0x40_0000 * 0x40_0000) by (nonlinear_arith)
            requires
                a <= 0x40_0000,
        ;
        assert(b * b <= 0x40_0000 * 0x40_0000) by (nonlinear_arith)
            requires
                b <= 0x40_0000,
        ;
        let shade: u8 = shade_at(
            a * a + b * b,
            (short + stroke_size) as i64,
            stroke_size as i64,
            bias,
        );
        if x2 <= 2 * (self.width - 1) && y2 <= 2 * (self.height - 1) {
            self.put_pixel(x2 / 2, y2 / 2, shade);
        }
    }

    /// How far the ring stands off along the long side, in half pixels.
    fn offset(&self, stroke_size: usize) -> (r: usize)
        requires
            self.wf(),
        ensures
            r == corner_offset(self.w(), self.h(), stroke_size as int),
            r <= MAX_SIDE + 2,
    {
        let tall: bool = self.height > self.width;
        let (long, short): (usize, usize) = if tall {
            (self.height, self.width)
        } else {
            (self.width, self.height)
        };
        if self.width % 2 != self.height % 2 && long % 2 == stroke_size % 2 {
            long - short + 2
        } else {
            long - short
        }
    }

    /// Draws a rounded corner that joins the top edge to the left edge. Mirror the canvas
    /// afterwards to get the other three corners.
    pub fn draw_rounded_corner(&mut self, stroke_size: usize)
        requires
            old(self).wf(),
            1 <= stroke_size <= MAX_SIDE,
        ensures
            final(self).wf(),
            final(self).w() == old(self).w(),
            final(self).h() == old(self).h(),
            final(self).pixels() == cornered(
                old(self).pixels(),
                old(self).w(),
                old(self).h(),
                stroke_size as int,
            ),
    {
        let ghost w = self.w();
        let ghost h = self.h();
        let ghost s = stroke_size as int;
        let short: usize = if self.height > self.width {
            self.width
        } else {
            self.height
        };
        let n: usize = (short + stroke_size + 1) / 2;
        let mut j: usize = 0;
        while j < n
            invariant
                j <= n <= 0x40_0000,
                1 <= stroke_size <= MAX_SIDE,
                s == stroke_size,
                self.wf(),
                self.w() == w == old(self).w(),
                self.h() == h == old(self).h(),
                self.pixels() == ring_dotted(old(self).pixels(), w, h, s, n as int, j as int),
            decreases n - j,
        {
            let ghost base = self.pixels();
            let mut i: usize = 0;
            while i < n
                invariant
                    i <= n <= 0x40_0000,
                    j < n,
                    1 <= stroke_size <= MAX_SIDE,
                    s == stroke_size,
                    self.wf(),
                    self.w() == w == old(self).w(),
                    self.h() == h == old(self).h(),
                    self.pixels() == row_dotted(base, w, h, s, i as int, j as int),
                decreases n - i,
            {
                self.dot(stroke_size, i, j);
                i = i + 1;
            }
            j = j + 1;
        }
        let off: usize = self.offset(stroke_size);
        let stem: Rect = if self.height > self.width {
            Rect {
                x: self.width as i64 - stroke_size as i64,
                y: 0,
                w: 2 * stroke_size as i64,
                h: off as i64,
            }
        } else {
            Rect {
                x: 0,
                y: self.height as i64 - stroke_size as i64,
                w: off as i64,
                h: 2 * stroke_size as i64,
            }
        };
        self.draw_rect(stem, 255);
    }

    /// Mirror the canvas along the vertical axis, respecting the extra offset
    /// needed when the stroke thickness and width have different parities.
    pub fn flip_horizontal_with_stroke(&mut self, stroke_size: usize)
        requires
            old(self).wf(),
        ensures
            final(self).wf(),
            final(self).w() == old(self).w(),
            final(self).h() == old(self).h(),
            final(self).pixels() == flipped_x(
                old(self).pixels(),
                off_center(old(self).w(), stroke_size as int),
            ),
    {
        let extra: usize = if stroke_size % 2 != self.width % 2 {
            1
        } else {
            0
        };
        let ghost was = self.pixels();
        let mut y: usize = 0;
        while y < self.height
            invariant
                y <= self.height,
                self.wf(),
                self.w() == old(self).w(),
                self.h() == old(self).h(),
                extra == off_center(self.w(), stroke_size as int),
                was == old(self).pixels(),
                shaped(was, self.w(), self.h()),
                forall|j: int|
                    0 <= j < self.h() ==> #[trigger] self.pixels()[j] == if j < y {
                        mirrored(was[j], extra as int)
                    } else {
                        was[j]
                    },
            decreases self.height - y,
        {
            let ghost before = self.rows@;
            assert(self.pixels()[y as int] == self.rows[y as int]@);
            assert(self.rows.len() == self.pixels().len());
            let row: Vec<u8> = mirror(&self.rows[y], extra);
            self.rows[y] = row;
            assert(self.pixels() =~= row_views(before).update(y as int, row@));
            y = y + 1;
        }
        assert(self.pixels() =~= flipped_x(was, extra as int));
    }

    /// Mirror the canvas along the horizontal axis.
    pub fn flip_vertical_with_stroke(&mut self, stroke_size: usize)
        requires
            old(self).wf(),
        ensures
            final(self).wf(),
            final(self).w() == old(self).w(),
            final(self).h() == old(self).h(),
            final(self).pixels() == mirrored(
                old(self).pixels(),
                off_center(old(self).h(), stroke_size as int),
            ),
    {
        let extra: usize = if stroke_size % 2 != self.height % 2 {
            1
        } else {
            0
        };
        let mut rows: Vec<Vec<u8>> = Vec::new();
        let ghost was = self.pixels();
        let n: usize = self.height;
        let mut i: usize = 0;
        while i < n
            invariant
                i <= n,
                n == self.h(),
                extra <= 1,
                self.wf(),
                was == self.pixels(),
                rows.len() == i,
                forall|j: int|
                    0 <= j < i ==> #[trigger] row_views(rows@)[j] == mirrored(was, extra as int)[j],
            decreases n - i,
        {
            assert(self.rows.len() == self.pixels().len());
            let from: usize = if i < n - extra {
                n - 1 - extra - i
            } else {
                0
            };
            assert(was[from as int] == self.rows[from as int]@);
            let row: Vec<u8> = copy_row(&self.rows[from]);
            let ghost before = row_views(rows@);
            rows.push(row);
            assert(forall|j: int| 0 <= j < i ==> #[trigger] row_views(rows@)[j] == before[j]);
            i = i + 1;
        }
        self.rows = rows;
        assert(self.pixels() =~= mirrored(was, extra as int));
        assert forall|j: int| 0 <= j < self.h() implies (#[trigger] self.pixels()[j]).len()
            == self.w() by {
            let from = if j < was.len() - extra {
                was.len() - 1 - extra - j
            } else {
                0
            };
            assert(self.pixels()[j] == was[from]);
        }
    }

    /// The pixels in row-major order.
    pub fn into_buffer(self) -> (r: Vec<u8>)
        requires
            self.wf(),
        ensures
            r@ == flat(self.pixels()),
    {
        let mut out: Vec<u8> = Vec::new();
        let mut y: usize = 0;
        while y < self.rows.len()
            invariant
                y <= self.rows.len(),
                out@ == flat(self.pixels().take(y as int)),
            decreases self.rows.len() - y,
        {
            let ghost before = out@;
            let mut x: usize = 0;
            while x < self.rows[y].len()
                invariant
                    y < self.rows.len(),
                    x <= self.rows[y as int].len(),
                    out@ == before + self.rows[y as int]@.take(x as int),
                decreases self.rows[y as int].len() - x,
            {
                out.push(self.rows[y][x]);
                x = x + 1;
                assert(out@ =~= before + self.rows[y as int]@.take(x as int));
            }
            assert(self.rows[y as int]@.take(x as int) =~= self.rows[y as int]@);
            y = y + 1;
            let ghost upto = self.pixels().take(y as int);
            assert(upto.drop_last() =~= self.pixels().take(y - 1));
            assert(upto.last() == self.rows[y - 1]@);
        }
        assert(self.pixels().take(y as int) =~= self.pixels());
        out
    }
}

/// The pixels of a span of half pixels that lie on a side.
fn clip_span(a: i64, n: i64, side: usize) -> (r: (usize, usize))
    requires
        -0x400_0000 <= a <= 0x400_0000,
        -0x400_0000 <= n <= 0x400_0000,
        side <= MAX_SIDE,
    ensures
        r.0 <= r.1 <= side,
        forall|p: int| 0 <= p < side ==> (#[trigger] spans(a as int, n as int, p) <==> r.0 <= p < r.1),
{
    if n <= 0 || a + n < 0 {
        return (0, 0);
    }
    let from: i64 = if a < 0 {
        0
    } else {
        a / 2
    };
    let to: i64 = (a + n) / 2;
    let from: usize = if from < side as i64 {
        from as usize
    } else {
        side
    };
    let to: usize = if to < side as i64 {
        to as usize
    } else {
        side
    };
    (from, to)
}

/// A row mirrored.
fn mirror(row: &Vec<u8>, extra: usize) -> (r: Vec<u8>)
    requires
        extra <= 1,
        row.len() >= 1,
    ensures
        r@ == mirrored(row@, extra as int),
{
    let n: usize = row.len();
    let mut out: Vec<u8> = Vec::new();
    let mut i: usize = 0;
    while i < n
        invariant
            i <= n == row@.len(),
            extra <= 1,
            out@ == mirrored(row@, extra as int).take(i as int),
        decreases n - i,
    {
        let from: usize = if i < n - extra {
            n - 1 - extra - i
        } else {
            0
        };
        out.push(row[from]);
        i = i + 1;
        assert(out@ =~= mirrored(row@, extra as int).take(i as int));
    }
    assert(out@ =~= mirrored(row@, extra as int));
    out
}

/// A copy of a row.
fn copy_row(row: &Vec<u8>) -> (r: Vec<u8>)
    ensures
        r@ == row@,
{
    let mut out: Vec<u8> = Vec::new();
    let mut i: usize = 0;
    while i < row.len()
        invariant
            i <= row@.len(),
            out@ == row@.take(i as int),
        decreases row@.len() - i,
    {
        out.push(row[i]);
        i = i + 1;
        assert(out@ =~= row@.take(i as int));
    }
    assert(out@ =~= row@);
    out
}

} // verus!
