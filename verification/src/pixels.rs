//! Drawing the grid into a buffer of RGBA bytes: backgrounds, glyph pictures and the cursor.

use crate::cell::Color;
use crate::grid::{Grid, GridView};
use crate::readout;
use crate::text;
use vstd::prelude::*;

verus! {

broadcast use vstd::array::group_array_axioms;

/// The 16 ANSI colours.
pub open spec fn ansi_color(i: int) -> [u8; 3] {
    if i == 0 {
        [69, 71, 90]
    } else if i == 1 || i == 9 {
        [243, 139, 168]
    } else if i == 2 || i == 10 {
        [166, 227, 161]
    } else if i == 3 || i == 11 {
        [249, 226, 175]
    } else if i == 4 || i == 12 {
        [137, 180, 250]
    } else if i == 5 || i == 13 {
        [245, 194, 231]
    } else if i == 6 || i == 14 {
        [148, 226, 213]
    } else if i == 7 {
        [186, 194, 222]
    } else if i == 8 {
        [88, 91, 112]
    } else {
        [205, 214, 244]
    }
}

/// The foreground where none is set.
pub open spec fn default_fg() -> [u8; 3] {
    [205, 214, 244]
}

/// The background where none is set.
pub open spec fn default_bg() -> [u8; 3] {
    [30, 30, 46]
}

/// A colour as red, green and blue: the ANSI colours, then a cube of six steps each way, then a
/// ramp of grays.
pub open spec fn rgb_of(color: Color, is_fg: bool) -> [u8; 3] {
    match color {
        Color::Default => if is_fg {
            default_fg()
        } else {
            default_bg()
        },
        Color::Indexed(i) => if i < 16 {
            ansi_color(i as int)
        } else if i < 232 {
            [
                ((i - 16) / 36 * 51) as u8,
                ((i - 16) / 6 % 6 * 51) as u8,
                ((i - 16) % 6 * 51) as u8,
            ]
        } else {
            [
                ((i - 232) * 10 + 8) as u8,
                ((i - 232) * 10 + 8) as u8,
                ((i - 232) * 10 + 8) as u8,
            ]
        },
        Color::Rgb(r, g, b) => [r, g, b],
    }
}

fn ansi(i: u8) -> (r: [u8; 3])
    requires
        i < 16,
    ensures
        r == ansi_color(i as int),
{
    if i == 0 {
        [69, 71, 90]
    } else if i == 1 || i == 9 {
        [243, 139, 168]
    } else if i == 2 || i == 10 {
        [166, 227, 161]
    } else if i == 3 || i == 11 {
        [249, 226, 175]
    } else if i == 4 || i == 12 {
        [137, 180, 250]
    } else if i == 5 || i == 13 {
        [245, 194, 231]
    } else if i == 6 || i == 14 {
        [148, 226, 213]
    } else if i == 7 {
        [186, 194, 222]
    } else if i == 8 {
        [88, 91, 112]
    } else {
        [205, 214, 244]
    }
}

/// Convert a Grid `Color` to an `[r, g, b]` triple.
pub fn color_to_rgb(color: &Color, is_fg: bool) -> (r: [u8; 3])
    ensures
        r == rgb_of(*color, is_fg),
{
    match *color {
        Color::Default => if is_fg {
            [205, 214, 244]
        } else {
            [30, 30, 46]
        },
        Color::Indexed(i) => if i < 16 {
            ansi(i)
        } else if i < 232 {
            let k: u8 = i - 16;
            [k / 36 * 51, k / 6 % 6 * 51, k % 6 * 51]
        } else {
            let v: u8 = (i - 232) * 10 + 8;
            [v, v, v]
        },
        Color::Rgb(r, g, b) => [r, g, b],
    }
}

/// The pixel at column `x` and row `y` of a buffer of the given width.
pub open spec fn pixel(buf: Seq<u8>, width: int, x: int, y: int) -> (u8, u8, u8, u8) {
    let k = (y * width + x) * 4;
    (buf[k], buf[k + 1], buf[k + 2], buf[k + 3])
}

/// A buffer holds a picture of the given size, small enough to be addressed in 32 bits.
pub open spec fn is_picture(buf: Seq<u8>, width: int, height: int) -> bool {
    &&& 0 <= width
    &&& 0 <= height
    &&& width * height * 4 <= u32::MAX
    &&& buf.len() == width * height * 4
}

proof fn lemma_inside(width: int, height: int, x: int, y: int)
    requires
        0 <= x < width,
        0 <= y < height,
    ensures
        0 <= y * width,
        y * width + x < width * height,
        (y * width + x) * 4 + 4 <= width * height * 4,
{
    assert(0 <= y * width && y * width + x < width * height) by (nonlinear_arith)
        requires
            0 <= x < width,
            0 <= y < height,
    ;
}

proof fn lemma_unique(width: int, x1: int, y1: int, x2: int, y2: int)
    requires
        0 <= x1 < width,
        0 <= x2 < width,
        y1 * width + x1 == y2 * width + x2,
    ensures
        x1 == x2,
        y1 == y2,
{
    if y1 < y2 {
        assert(y1 * width + width <= y2 * width) by (nonlinear_arith)
            requires
                y1 + 1 <= y2,
                width > 0,
        ;
    } else if y2 < y1 {
        assert(y2 * width + width <= y1 * width) by (nonlinear_arith)
            requires
                y2 + 1 <= y1,
                width > 0,
        ;
    }
}

/// Only the pixel at `(x, y)` differs, and it has the colour given.
pub open spec fn one_set(
    before: Seq<u8>,
    after: Seq<u8>,
    width: int,
    height: int,
    x: int,
    y: int,
    c: (u8, u8, u8, u8),
) -> bool {
    &&& after.len() == before.len()
    &&& forall|i: int, j: int|
        0 <= i < width && 0 <= j < height ==> #[trigger] pixel(after, width, i, j) == if i == x && j
            == y {
            c
        } else {
            pixel(before, width, i, j)
        }
}

fn put(buf: &mut Vec<u8>, width: u32, height: u32, x: u32, y: u32, c: (u8, u8, u8, u8))
    requires
        is_picture(old(buf)@, width as int, height as int),
        x < width,
        y < height,
    ensures
        one_set(old(buf)@, final(buf)@, width as int, height as int, x as int, y as int, c),
{
    let ghost before = buf@;
    let ghost w = width as int;
    proof {
        lemma_inside(w, height as int, x as int, y as int);
    }
    let k: usize = ((y * width + x) * 4) as usize;
    buf.set(k, c.0);
    buf.set(k + 1, c.1);
    buf.set(k + 2, c.2);
    buf.set(k + 3, c.3);
    proof {
        assert forall|i: int, j: int| 0 <= i < w && 0 <= j < height implies #[trigger] pixel(
            buf@,
            w,
            i,
            j,
        ) == if i == x && j == y {
            c
        } else {
            pixel(before, w, i, j)
        } by {
            lemma_inside(w, height as int, i, j);
            if j * w + i == y * w + x {
                lemma_unique(w, i, j, x as int, y as int);
            }
        }
    }
}

fn get(buf: &Vec<u8>, width: u32, height: u32, x: u32, y: u32) -> (r: (u8, u8, u8, u8))
    requires
        is_picture(buf@, width as int, height as int),
        x < width,
        y < height,
    ensures
        r == pixel(buf@, width as int, x as int, y as int),
{
    proof {
        lemma_inside(width as int, height as int, x as int, y as int);
    }
    let k: usize = ((y * width + x) * 4) as usize;
    (buf[k], buf[k + 1], buf[k + 2], buf[k + 3])
}

/// A rule for each pixel: its new colour from its place and its old colour.
pub open spec fn redrawn(
    before: Seq<u8>,
    after: Seq<u8>,
    width: int,
    height: int,
    rule: spec_fn(int, int, (u8, u8, u8, u8)) -> (u8, u8, u8, u8),
) -> bool {
    &&& after.len() == before.len()
    &&& forall|x: int, y: int|
        0 <= x < width && 0 <= y < height ==> #[trigger] pixel(after, width, x, y) == rule(
            x,
            y,
            pixel(before, width, x, y),
        )
}

/// The place lies in the rectangle.
pub open spec fn in_rect(x: int, y: int, x0: int, y0: int, x1: int, y1: int) -> bool {
    x0 <= x < x1 && y0 <= y < y1
}

/// How the bytes of a glyph's picture are to be read.
#[derive(Debug, Clone, Copy, PartialEq, Eq, Structural)]
pub enum ImageKind {
    /// One byte of coverage per pixel.
    Mask,
    /// Four bytes of colour per pixel.
    Color,
    /// Not drawn.
    Other,
}

/// A glyph's picture as a font engine makes it.
#[derive(Debug)]
pub struct GlyphImage {
    pub width: u32,
    pub height: u32,
    pub kind: ImageKind,
    pub data: Vec<u8>,
}

/// What a rectangle is painted with.
#[derive(Debug)]
pub enum Brush<'a> {
    /// One colour.
    Solid((u8, u8, u8, u8)),
    /// A colour laid over what is there.
    Tint { color: [u8; 3], alpha: u8 },
    /// A glyph's picture with its corner at `(x, y)`.
    Glyph { image: &'a GlyphImage, x: i64, y: i64, color: [u8; 3] },
}

/// One part of a colour laid over another, by coverage.
pub open spec fn blended(over: u8, under: u8, alpha: u8) -> u8 {
    ((over * alpha + under * (255 - alpha)) / 255) as u8
}

/// A colour laid over a pixel, which becomes opaque.
pub open spec fn laid_over(c: [u8; 3], p: (u8, u8, u8, u8), alpha: u8) -> (u8, u8, u8, u8) {
    (blended(c[0], p.0, alpha), blended(c[1], p.1, alpha), blended(c[2], p.2, alpha), 255)
}

/// The pixel that a glyph's picture makes of another at place `k` of the picture.
pub open spec fn drawn_at(
    image: GlyphImage,
    k: int,
    color: [u8; 3],
    p: (u8, u8, u8, u8),
) -> (u8, u8, u8, u8) {
    let d = image.data@;
    match image.kind {
        ImageKind::Mask => if k < d.len() && d[k] != 0 {
            laid_over(color, p, d[k])
        } else {
            p
        },
        ImageKind::Color => if 4 * k + 3 < d.len() {
            (d[4 * k], d[4 * k + 1], d[4 * k + 2], d[4 * k + 3])
        } else {
            p
        },
        ImageKind::Other => p,
    }
}

/// What a brush makes of the pixel at `(x, y)`.
pub open spec fn brushed(b: Brush, x: int, y: int, p: (u8, u8, u8, u8)) -> (u8, u8, u8, u8) {
    match b {
        Brush::Solid(c) => c,
        Brush::Tint { color, alpha } => laid_over(color, p, alpha),
        Brush::Glyph { image, x: gx, y: gy, color } => drawn_at(
            *image,
            (y - gy) * image.width + (x - gx),
            color,
            p,
        ),
    }
}

/// The brush has something for each place of a rectangle.
pub open spec fn reaches(b: Brush, x0: int, y0: int, x1: int, y1: int) -> bool {
    b matches Brush::Glyph { image, x, y, color } ==> x <= x0 && x1 <= x + image.width && y <= y0
        && y1 <= y + image.height
}

/// Inside a rectangle what the brush makes of each pixel, outside nothing new.
pub open spec fn painting(
    x0: int,
    y0: int,
    x1: int,
    y1: int,
    b: Brush,
) -> spec_fn(int, int, (u8, u8, u8, u8)) -> (u8, u8, u8, u8) {
    |x: int, y: int, p: (u8, u8, u8, u8)|
        if in_rect(x, y, x0, y0, x1, y1) {
            brushed(b, x, y, p)
        } else {
            p
        }
}

fn blend(over: u8, under: u8, alpha: u8) -> (r: u8)
    ensures
        r == blended(over, under, alpha),
{
    let a: u32 = alpha as u32;
    let inv: u32 = 255 - a;
    assert(over * a <= 255 * a && under * inv <= 255 * inv) by (nonlinear_arith)
        requires
            over <= 255,
            under <= 255,
            a <= 255,
            inv <= 255,
    ;
    let sum: u32 = over as u32 * a + under as u32 * inv;
    (sum / 255) as u8
}

fn lay_over(c: [u8; 3], p: (u8, u8, u8, u8), alpha: u8) -> (r: (u8, u8, u8, u8))
    ensures
        r == laid_over(c, p, alpha),
{
    (blend(c[0], p.0, alpha), blend(c[1], p.1, alpha), blend(c[2], p.2, alpha), 255)
}

fn draw_at(image: &GlyphImage, k: u128, color: [u8; 3], p: (u8, u8, u8, u8)) -> (r: (u8, u8, u8, u8))
    requires
        k < 0x1_0000_0000_0000_0000,
    ensures
        r == drawn_at(*image, k as int, color, p),
{
    let len: u128 = image.data.len() as u128;
    match image.kind {
        ImageKind::Mask => {
            if k < len && image.data[k as usize] != 0 {
                lay_over(color, p, image.data[k as usize])
            } else {
                p
            }
        },
        ImageKind::Color => {
            if 4 * k + 3 < len {
                let at: usize = (4 * k) as usize;
                (image.data[at], image.data[at + 1], image.data[at + 2], image.data[at + 3])
            } else {
                p
            }
        },
        ImageKind::Other => p,
    }
}

fn brush_pixel(b: &Brush, x: u32, y: u32, p: (u8, u8, u8, u8)) -> (r: (u8, u8, u8, u8))
    requires
        reaches(*b, x as int, y as int, x + 1, y + 1),
    ensures
        r == brushed(*b, x as int, y as int, p),
{
    match b {
        Brush::Solid(c) => *c,
        Brush::Tint { color, alpha } => lay_over(*color, p, *alpha),
        Brush::Glyph { image, x: gx, y: gy, color } => {
            let dx: u64 = (x as i64 - *gx) as u64;
            let dy: u64 = (y as i64 - *gy) as u64;
            let width: u64 = image.width as u64;
            assert(dy * width + dx < 0x1_0000_0000_0000_0000) by (nonlinear_arith)
                requires
                    dy < 0xffff_ffff,
                    dx < width,
                    width <= 0xffff_ffff,
            ;
            let k: u128 = dy as u128 * width as u128 + dx as u128;
            draw_at(image, k, *color, p)
        },
    }
}

/// Paints a rectangle, as far as it lies in the picture.
pub fn paint(
    buf: &mut Vec<u8>,
    width: u32,
    height: u32,
    x0: u32,
    y0: u32,
    x1: u32,
    y1: u32,
    brush: &Brush,
)
    requires
        is_picture(old(buf)@, width as int, height as int),
        reaches(*brush, x0 as int, y0 as int, x1 as int, y1 as int),
    ensures
        redrawn(
            old(buf)@,
            final(buf)@,
            width as int,
            height as int,
            painting(x0 as int, y0 as int, x1 as int, y1 as int, *brush),
        ),
{
    let ghost before = buf@;
    let ghost w = width as int;
    let x_end: u32 = if x1 < width {
        x1
    } else {
        width
    };
    let y_end: u32 = if y1 < height {
        y1
    } else {
        height
    };
    let mut y: u32 = y0;
    while y < y_end
        invariant
            w == width,
            y_end <= height,
            y_end <= y1,
            y_end == y1 || y_end == height,
            x_end <= width,
            x_end <= x1,
            x_end == x1 || x_end == width,
            y0 <= y,
            y <= y_end || y == y0,
            reaches(*brush, x0 as int, y0 as int, x1 as int, y1 as int),
            is_picture(before, w, height as int),
            is_picture(buf@, w, height as int),
            redrawn(
                before,
                buf@,
                w,
                height as int,
                painting(x0 as int, y0 as int, x1 as int, y as int, *brush),
            ),
        decreases y_end - y,
    {
        let ghost above = buf@;
        let mut x: u32 = x0;
        while x < x_end
            invariant
                w == width,
                y < height,
                y < y1,
                y0 <= y,
                x_end <= width,
                x_end <= x1,
                x0 <= x,
                x <= x_end || x == x0,
                reaches(*brush, x0 as int, y0 as int, x1 as int, y1 as int),
                is_picture(above, w, height as int),
                is_picture(buf@, w, height as int),
                redrawn(
                    above,
                    buf@,
                    w,
                    height as int,
                    painting(x0 as int, y as int, x as int, y + 1, *brush),
                ),
            decreases x_end - x,
        {
            let ghost left = buf@;
            let p = get(buf, width, height, x, y);
            let c = brush_pixel(brush, x, y, p);
            put(buf, width, height, x, y, c);
            proof {
                let rule = painting(x0 as int, y as int, x + 1, y + 1, *brush);
                assert(pixel(left, w, x as int, y as int) == pixel(above, w, x as int, y as int));
                assert forall|i: int, j: int| 0 <= i < w && 0 <= j < height implies #[trigger] pixel(
                    buf@,
                    w,
                    i,
                    j,
                ) == rule(i, j, pixel(above, w, i, j)) by {
                    assert(pixel(left, w, i, j) == painting(
                        x0 as int,
                        y as int,
                        x as int,
                        y + 1,
                        *brush,
                    )(i, j, pixel(above, w, i, j)));
                }
            }
            x = x + 1;
        }
        proof {
            let rule = painting(x0 as int, y0 as int, x1 as int, y + 1, *brush);
            assert forall|i: int, j: int| 0 <= i < w && 0 <= j < height implies #[trigger] pixel(
                buf@,
                w,
                i,
                j,
            ) == rule(i, j, pixel(before, w, i, j)) by {
                assert(pixel(above, w, i, j) == painting(
                    x0 as int,
                    y0 as int,
                    x1 as int,
                    y as int,
                    *brush,
                )(i, j, pixel(before, w, i, j)));
                assert(pixel(buf@, w, i, j) == painting(
                    x0 as int,
                    y as int,
                    x as int,
                    y + 1,
                    *brush,
                )(i, j, pixel(above, w, i, j)));
            }
        }
        y = y + 1;
    }
    proof {
        let rule = painting(x0 as int, y0 as int, x1 as int, y1 as int, *brush);
        assert forall|i: int, j: int| 0 <= i < w && 0 <= j < height implies #[trigger] pixel(
            buf@,
            w,
            i,
            j,
        ) == rule(i, j, pixel(before, w, i, j)) by {
            assert(pixel(buf@, w, i, j) == painting(
                x0 as int,
                y0 as int,
                x1 as int,
                y as int,
                *brush,
            )(i, j, pixel(before, w, i, j)));
        }
    }
}

/// The colour of the cursor laid over a cell.
pub open spec fn cursor_brush() -> Brush<'static> {
    Brush::Tint { color: [205, 214, 244], alpha: 160 }
}

/// Draws the block cursor over a cell.
pub fn draw_cursor(buf: &mut Vec<u8>, width: u32, height: u32, x: u32, y: u32, cw: u32, ch: u32)
    requires
        is_picture(old(buf)@, width as int, height as int),
        x + cw <= u32::MAX,
        y + ch <= u32::MAX,
    ensures
        redrawn(
            old(buf)@,
            final(buf)@,
            width as int,
            height as int,
            painting(x as int, y as int, x + cw, y + ch, cursor_brush()),
        ),
{
    let brush = Brush::Tint { color: [205, 214, 244], alpha: 160 };
    paint(buf, width, height, x, y, x + cw, y + ch, &brush);
}

/// An integer cut off below at 0 and above at `top`.
pub open spec fn clamped(v: int, top: int) -> int {
    if v < 0 {
        0
    } else if v > top {
        top
    } else {
        v
    }
}

fn clamp(v: i64, top: u32) -> (r: u32)
    ensures
        r == clamped(v as int, top as int),
{
    if v < 0 {
        0
    } else if v > top as i64 {
        top
    } else {
        v as u32
    }
}

/// Draws a glyph's picture with its corner at `(x, y)`, as far as it lies in the buffer's picture.
pub fn draw_glyph(
    buf: &mut Vec<u8>,
    width: u32,
    height: u32,
    x: i32,
    y: i32,
    image: &GlyphImage,
    color: [u8; 3],
)
    requires
        is_picture(old(buf)@, width as int, height as int),
    ensures
        redrawn(
            old(buf)@,
            final(buf)@,
            width as int,
            height as int,
            painting(
                x as int,
                y as int,
                x + image.width,
                y + image.height,
                Brush::Glyph { image, x: x as i64, y: y as i64, color },
            ),
        ),
{
    let ghost before = buf@;
    let gx: i64 = x as i64;
    let gy: i64 = y as i64;
    let x0: u32 = clamp(gx, width);
    let y0: u32 = clamp(gy, height);
    let x1: u32 = clamp(gx + image.width as i64, width);
    let y1: u32 = clamp(gy + image.height as i64, height);
    if x0 < x1 && y0 < y1 {
        let brush = Brush::Glyph { image, x: gx, y: gy, color };
        paint(buf, width, height, x0, y0, x1, y1, &brush);
    }
    proof {
        let b = Brush::Glyph { image, x: x as i64, y: y as i64, color };
        let rule = painting(x as int, y as int, x + image.width, y + image.height, b);
        let w = width as int;
        assert forall|i: int, j: int| 0 <= i < w && 0 <= j < height implies #[trigger] pixel(
            buf@,
            w,
            i,
            j,
        ) == rule(i, j, pixel(before, w, i, j)) by {
            if x0 < x1 && y0 < y1 {
                assert(pixel(buf@, w, i, j) == painting(
                    x0 as int,
                    y0 as int,
                    x1 as int,
                    y1 as int,
                    b,
                )(i, j, pixel(before, w, i, j)));
            }
        }
    }
}

/// A buffer where every pixel has the default background.
pub fn blank_picture(width: u32, height: u32) -> (r: Vec<u8>)
    requires
        width * height * 4 <= u32::MAX,
    ensures
        is_picture(r@, width as int, height as int),
        forall|x: int, y: int|
            0 <= x < width && 0 <= y < height ==> #[trigger] pixel(r@, width as int, x, y) == (
                30u8,
                30u8,
                46u8,
                255u8,
            ),
{
    let count: u32 = width * height;
    let mut buf: Vec<u8> = Vec::new();
    let mut i: u32 = 0;
    while i < count
        invariant
            i <= count,
            count * 4 <= u32::MAX,
            buf@.len() == 4 * i,
            forall|k: int| 0 <= k < i ==> #[trigger] four(buf@, k) == (30u8, 30u8, 46u8, 255u8),
        decreases count - i,
    {
        let ghost before = buf@;
        buf.push(30);
        buf.push(30);
        buf.push(46);
        buf.push(255);
        proof {
            assert forall|k: int| 0 <= k < i + 1 implies #[trigger] four(buf@, k) == (
                30u8,
                30u8,
                46u8,
                255u8,
            ) by {
                if k < i {
                    assert(four(buf@, k) == four(before, k));
                }
            }
        }
        i = i + 1;
    }
    proof {
        assert forall|x: int, y: int| 0 <= x < width && 0 <= y < height implies #[trigger] pixel(
            buf@,
            width as int,
            x,
            y,
        ) == (30u8, 30u8, 46u8, 255u8) by {
            lemma_inside(width as int, height as int, x, y);
            assert(four(buf@, y * width + x) == pixel(buf@, width as int, x, y));
        }
    }
    buf
}

/// The four bytes at place `k` of a buffer.
spec fn four(buf: Seq<u8>, k: int) -> (u8, u8, u8, u8) {
    (buf[4 * k], buf[4 * k + 1], buf[4 * k + 2], buf[4 * k + 3])
}

/// The edges of the cells in pixels: where each row, or column, begins, and where the last ends.
pub open spec fn are_edges(edges: Seq<u32>, n: int) -> bool {
    edges.len() == n + 1
}

/// Every visible cell is there.
pub open spec fn complete(g: GridView) -> bool {
    &&& 0 <= g.rows <= g.screen.lines.len()
    &&& 0 <= g.cols
    &&& forall|i: int| 0 <= i < g.rows ==> (#[trigger] g.screen.lines[i]).len() >= g.cols
}

/// The background at a pixel once the rows before `row` and the first `col` cells of it are
/// painted: that of the last painted cell that covers the pixel and has one of its own, else the
/// default.
pub open spec fn ground(
    g: GridView,
    row_edges: Seq<u32>,
    col_edges: Seq<u32>,
    row: nat,
    col: nat,
    x: int,
    y: int,
) -> (u8, u8, u8, u8)
    decreases row, col,
{
    if col > 0 {
        let c = g.screen.lines[row as int][col - 1];
        if c.bg != Color::Default && in_rect(
            x,
            y,
            col_edges[col - 1] as int,
            row_edges[row as int] as int,
            col_edges[col as int] as int,
            row_edges[row as int + 1] as int,
        ) {
            let rgb = rgb_of(c.bg, false);
            (rgb[0], rgb[1], rgb[2], 255)
        } else {
            ground(g, row_edges, col_edges, row, (col - 1) as nat, x, y)
        }
    } else if row > 0 {
        ground(g, row_edges, col_edges, (row - 1) as nat, g.cols as nat, x, y)
    } else {
        (30, 30, 46, 255)
    }
}

/// A buffer shows the backgrounds of the rows before `row` and of the first `col` cells of it.
pub open spec fn shows_ground(
    buf: Seq<u8>,
    width: int,
    height: int,
    g: GridView,
    row_edges: Seq<u32>,
    col_edges: Seq<u32>,
    row: nat,
    col: nat,
) -> bool {
    &&& is_picture(buf, width, height)
    &&& forall|x: int, y: int|
        0 <= x < width && 0 <= y < height ==> #[trigger] pixel(buf, width, x, y) == ground(
            g,
            row_edges,
            col_edges,
            row,
            col,
            x,
            y,
        )
}

/// Paints the background of one cell.
fn paint_cell(
    grid: &Grid,
    buf: &mut Vec<u8>,
    width: u32,
    height: u32,
    row_edges: &Vec<u32>,
    col_edges: &Vec<u32>,
    row: usize,
    col: usize,
)
    requires
        complete(grid@),
        row < grid@.rows,
        col < grid@.cols,
        are_edges(row_edges@, grid@.rows),
        are_edges(col_edges@, grid@.cols),
        shows_ground(
            old(buf)@,
            width as int,
            height as int,
            grid@,
            row_edges@,
            col_edges@,
            row as nat,
            col as nat,
        ),
    ensures
        shows_ground(
            final(buf)@,
            width as int,
            height as int,
            grid@,
            row_edges@,
            col_edges@,
            row as nat,
            (col + 1) as nat,
        ),
{
    let ghost before = buf@;
    let cell = grid.cell_at(row, col);
    if let Color::Default = cell.bg {
        return;
    }
    let rgb = color_to_rgb(&cell.bg, false);
    let c: (u8, u8, u8, u8) = (rgb[0], rgb[1], rgb[2], 255);
    let brush = Brush::Solid(c);
    assert(col + 1 < col_edges.len() && row + 1 < row_edges.len());
    paint(
        buf,
        width,
        height,
        col_edges[col],
        row_edges[row],
        col_edges[col + 1],
        row_edges[row + 1],
        &brush,
    );
    proof {
        let w = width as int;
        assert forall|x: int, y: int| 0 <= x < w && 0 <= y < height implies #[trigger] pixel(
            buf@,
            w,
            x,
            y,
        ) == ground(grid@, row_edges@, col_edges@, row as nat, (col + 1) as nat, x, y) by {
            assert(pixel(buf@, w, x, y) == painting(
                col_edges@[col as int] as int,
                row_edges@[row as int] as int,
                col_edges@[col + 1] as int,
                row_edges@[row + 1] as int,
                brush,
            )(x, y, pixel(before, w, x, y)));
        }
    }
}

/// Paints the backgrounds of all cells over a blank picture.
pub fn paint_backgrounds(
    grid: &Grid,
    width: u32,
    height: u32,
    row_edges: &Vec<u32>,
    col_edges: &Vec<u32>,
) -> (r: Vec<u8>)
    requires
        width * height * 4 <= u32::MAX,
        complete(grid@),
        are_edges(row_edges@, grid@.rows),
        are_edges(col_edges@, grid@.cols),
    ensures
        shows_ground(
            r@,
            width as int,
            height as int,
            grid@,
            row_edges@,
            col_edges@,
            grid@.rows as nat,
            0,
        ),
{
    proof {
        grid.lemma_fields();
    }
    let mut buf: Vec<u8> = blank_picture(width, height);
    let mut row: usize = 0;
    while row < grid.rows
        invariant
            grid.rows == grid@.rows,
            grid.cols == grid@.cols,
            row <= grid.rows,
            complete(grid@),
            are_edges(row_edges@, grid@.rows),
            are_edges(col_edges@, grid@.cols),
            shows_ground(
                buf@,
                width as int,
                height as int,
                grid@,
                row_edges@,
                col_edges@,
                row as nat,
                0,
            ),
        decreases grid.rows - row,
    {
        let mut col: usize = 0;
        while col < grid.cols
            invariant
                grid.rows == grid@.rows,
                grid.cols == grid@.cols,
                row < grid.rows,
                col <= grid.cols,
                complete(grid@),
                are_edges(row_edges@, grid@.rows),
                are_edges(col_edges@, grid@.cols),
                shows_ground(
                    buf@,
                    width as int,
                    height as int,
                    grid@,
                    row_edges@,
                    col_edges@,
                    row as nat,
                    col as nat,
                ),
            decreases grid.cols - col,
        {
            paint_cell(grid, &mut buf, width, height, row_edges, col_edges, row, col);
            col = col + 1;
        }
        assert forall|x: int, y: int| 0 <= x < width && 0 <= y < height implies #[trigger] pixel(
            buf@,
            width as int,
            x,
            y,
        ) == ground(grid@, row_edges@, col_edges@, (row + 1) as nat, 0, x, y) by {}
        row = row + 1;
    }
    buf
}

/// The text of a screen row that has to be shaped: its characters without trailing whitespace, or
/// nothing for a blank row.
pub fn text_to_shape(grid: &Grid, row: usize) -> (r: Option<String>)
    requires
        complete(grid@),
        row < grid@.rows,
    ensures
        ({
            let t = text::trimmed_end(readout::chars_of(grid@.screen.lines[row as int]));
            match r {
                Some(s) => s@ == t && t.len() > 0,
                None => t.len() == 0,
            }
        }),
{
    let mut chars: Vec<char> = grid.line_chars(row);
    text::trim_end(&mut chars);
    if chars.len() == 0 {
        None
    } else {
        Some(text::to_string(&chars))
    }
}

/// The colour of a glyph that begins in a column: its cell's foreground, or the default beyond the
/// last column.
pub fn glyph_color(grid: &Grid, row: usize, col: usize) -> (r: [u8; 3])
    requires
        complete(grid@),
        row < grid@.rows,
    ensures
        r == if col < grid@.cols {
            rgb_of(grid@.screen.lines[row as int][col as int].fg, true)
        } else {
            default_fg()
        },
{
    proof {
        grid.lemma_fields();
    }
    if col < grid.cols {
        let cell = grid.cell_at(row, col);
        color_to_rgb(&cell.fg, true)
    } else {
        [205, 214, 244]
    }
}

/// Full coverage gives the glyph's own colour, and no coverage leaves a pixel as it is.
pub proof fn law_coverage_ends(c: [u8; 3], p: (u8, u8, u8, u8), image: GlyphImage, k: int)
    requires
        image.kind == ImageKind::Mask,
        0 <= k < image.data@.len(),
    ensures
        laid_over(c, p, 255) == (c[0], c[1], c[2], 255u8),
        image.data@[k] == 0 ==> drawn_at(image, k, c, p) == p,
{
}

/// Blending never leaves the range between the two colours.
pub proof fn law_blend_between(over: u8, under: u8, alpha: u8)
    ensures
        over <= under ==> over <= blended(over, under, alpha) <= under,
        under <= over ==> under <= blended(over, under, alpha) <= over,
{
    let a = alpha as int;
    let o = over as int;
    let u = under as int;
    let sum = o * a + u * (255 - a);
    assert(o <= u ==> 255 * o <= sum <= 255 * u) by (nonlinear_arith)
        requires
            sum == o * a + u * (255 - a),
            0 <= a <= 255,
    ;
    assert(u <= o ==> 255 * u <= sum <= 255 * o) by (nonlinear_arith)
        requires
            sum == o * a + u * (255 - a),
            0 <= a <= 255,
    ;
}

/// A direct colour is painted as it was given; the colour cube and the greys of the palette are
/// painted as on the other way to the screen, whatever the theme there.
pub proof fn law_painted_colours(
    t: crate::theme::ThemeBytes,
    r: u8,
    g: u8,
    b: u8,
    i: u8,
    is_fg: bool,
)
    requires
        i >= 16,
    ensures
        rgb_of(Color::Rgb(r, g, b), is_fg)@ == seq![r, g, b],
        ({
            let c = crate::scene::in_theme(t, Color::Indexed(i), is_fg);
            rgb_of(Color::Indexed(i), is_fg)@ == seq![c.0, c.1, c.2]
        }),
{
    let c = crate::scene::in_theme(t, Color::Indexed(i), is_fg);
    assert(rgb_of(Color::Indexed(i), is_fg)@ =~= seq![c.0, c.1, c.2]);
    assert(rgb_of(Color::Rgb(r, g, b), is_fg)@ =~= seq![r, g, b]);
}

proof fn lemma_ground(
    g: GridView,
    row_edges: Seq<u32>,
    col_edges: Seq<u32>,
    row: nat,
    col: nat,
    x: int,
    y: int,
    r: int,
    c: int,
)
    requires
        are_edges(row_edges, g.rows),
        are_edges(col_edges, g.cols),
        forall|i: int, j: int| 0 <= i <= j <= g.rows ==> row_edges[i] <= row_edges[j],
        forall|i: int, j: int| 0 <= i <= j <= g.cols ==> col_edges[i] <= col_edges[j],
        0 <= r < g.rows,
        0 <= c < g.cols,
        row_edges[r] <= y < row_edges[r + 1],
        col_edges[c] <= x < col_edges[c + 1],
        row <= g.rows,
        col <= g.cols,
        row == g.rows ==> col == 0,
    ensures
        ground(g, row_edges, col_edges, row, col, x, y) == if (row > r || row == r && col > c)
            && g.screen.lines[r][c].bg != Color::Default {
            let rgb = rgb_of(g.screen.lines[r][c].bg, false);
            (rgb[0], rgb[1], rgb[2], 255u8)
        } else {
            (30u8, 30u8, 46u8, 255u8)
        },
    decreases row, col,
{
    if col > 0 {
        lemma_ground(g, row_edges, col_edges, row, (col - 1) as nat, x, y, r, c);
        if row < r {
            assert(row_edges[row as int + 1] <= row_edges[r]);
        } else if row > r {
            assert(row_edges[r + 1] <= row_edges[row as int]);
        } else if col - 1 < c {
            assert(col_edges[col as int] <= col_edges[c]);
        } else if col - 1 > c {
            assert(col_edges[c + 1] <= col_edges[col - 1]);
        }
    } else if row > 0 {
        lemma_ground(g, row_edges, col_edges, (row - 1) as nat, g.cols as nat, x, y, r, c);
    }
}

/// Every pixel of a cell has the cell's own background, or the default where the cell has none, as
/// long as the edges of the cells are in order.
pub proof fn law_background_of_cell(
    g: GridView,
    row_edges: Seq<u32>,
    col_edges: Seq<u32>,
    x: int,
    y: int,
    r: int,
    c: int,
)
    requires
        are_edges(row_edges, g.rows),
        are_edges(col_edges, g.cols),
        forall|i: int, j: int| 0 <= i <= j <= g.rows ==> row_edges[i] <= row_edges[j],
        forall|i: int, j: int| 0 <= i <= j <= g.cols ==> col_edges[i] <= col_edges[j],
        0 <= r < g.rows,
        0 <= c < g.cols,
        row_edges[r] <= y < row_edges[r + 1],
        col_edges[c] <= x < col_edges[c + 1],
    ensures
        ({
            let p = ground(g, row_edges, col_edges, g.rows as nat, 0, x, y);
            match g.screen.lines[r][c].bg {
                Color::Rgb(red, green, blue) => p == (red, green, blue, 255u8),
                Color::Default => p == (30u8, 30u8, 46u8, 255u8),
                Color::Indexed(i) => {
                    let rgb = rgb_of(Color::Indexed(i), false);
                    p == (rgb[0], rgb[1], rgb[2], 255u8)
                },
            }
        }),
{
    lemma_ground(g, row_edges, col_edges, g.rows as nat, 0, x, y, r, c);
}

} // verus!
