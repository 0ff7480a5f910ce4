//! Built-in pixel-perfect drawing for box-drawing and block-element characters.
//!
//! Fonts draw `─│╭╮╰╯█▀▄` etc. per glyph, so adjacent cells often have sub-pixel gaps or uneven
//! alignment. Here each glyph is drawn as a bitmap of the cell's size, so that neighbouring
//! cells connect. A glyph is a union of rectangles, one shade all over, or a rounded corner.

use crate::canvas::{Canvas, Rect};
use crate::canvas;
use vstd::prelude::*;

verus! {

pub const COLOR_FILL: u8 = 255;

pub const COLOR_FILL_ALPHA_STEP_1: u8 = 192;

pub const COLOR_FILL_ALPHA_STEP_2: u8 = 128;

pub const COLOR_FILL_ALPHA_STEP_3: u8 = 64;

/// A rasterized bitmap ready to be copied into the atlas.
#[derive(Debug, Clone)]
pub struct BuiltinGlyph {
    /// Row-major R8 pixel buffer of length `width * height`.
    pub data: Vec<u8>,
    pub width: u32,
    pub height: u32,
    /// Offset from the cell's top-left to the bitmap's top-left.
    pub offset_x: i32,
    pub offset_y: i32,
}

/// The box-drawing characters without diagonals, and the block elements.
pub open spec fn builtin(c: char) -> bool {
    0x2500 <= c as u32 <= 0x2570 || 0x2574 <= c as u32 <= 0x259f
}

/// True if `c` belongs to a range that is drawn here.
pub fn is_builtin(c: char) -> (r: bool)
    ensures
        r == builtin(c),
{
    let u: u32 = c as u32;
    (u >= 0x2500 && u <= 0x2570) || (u >= 0x2574 && u <= 0x259f)
}

/// Line width: one eighth of the cell width, rounded, and at least one pixel.
pub open spec fn stroke_of(width: int) -> int {
    crate::grid::max((width + 4) / 8, 1)
}

/// Line width. One-eighth of the cell width, rounded, at least 1 px.
pub fn calculate_stroke_size(cell_width: usize) -> (r: usize)
    requires
        cell_width <= canvas::MAX_SIDE,
    ensures
        r == stroke_of(cell_width as int),
        1 <= r <= canvas::MAX_SIDE / 4,
{
    let s: usize = (cell_width + 4) / 8;
    if s >= 1 {
        s
    } else {
        1
    }
}

/// The weight of the left arm of a box character: 0 for none, 1 for light, 2 for heavy.
pub open spec fn left_weight(c: char) -> int {
    match c {
        '\u{2500}' | '\u{2510}' | '\u{2512}' | '\u{2518}' | '\u{251a}' | '\u{2524}' | '\u{2526}'
        | '\u{2527}' | '\u{2528}' | '\u{252c}' | '\u{252e}' | '\u{2530}' | '\u{2532}' | '\u{2534}'
        | '\u{2536}' | '\u{2538}' | '\u{253a}' | '\u{253c}' | '\u{253e}' | '\u{2540}' | '\u{2541}'
        | '\u{2542}' | '\u{2544}' | '\u{2546}' | '\u{254a}' | '\u{2574}' | '\u{257c}' => 1,
        '\u{2501}' | '\u{2511}' | '\u{2513}' | '\u{2519}' | '\u{251b}' | '\u{2525}' | '\u{2529}'
        | '\u{252a}' | '\u{252b}' | '\u{252d}' | '\u{252f}' | '\u{2531}' | '\u{2533}' | '\u{2535}'
        | '\u{2537}' | '\u{2539}' | '\u{253b}' | '\u{253d}' | '\u{253f}' | '\u{2543}' | '\u{2545}'
        | '\u{2547}' | '\u{2548}' | '\u{2549}' | '\u{254b}' | '\u{2578}' | '\u{257e}' => 2,
        _ => 0,
    }
}

/// The weight of the left arm of a box character.
fn left(c: char) -> (r: usize)
    ensures
        r == left_weight(c),
        r <= 2,
{
    match c {
        '\u{2500}' | '\u{2510}' | '\u{2512}' | '\u{2518}' | '\u{251a}' | '\u{2524}' | '\u{2526}'
        | '\u{2527}' | '\u{2528}' | '\u{252c}' | '\u{252e}' | '\u{2530}' | '\u{2532}' | '\u{2534}'
        | '\u{2536}' | '\u{2538}' | '\u{253a}' | '\u{253c}' | '\u{253e}' | '\u{2540}' | '\u{2541}'
        | '\u{2542}' | '\u{2544}' | '\u{2546}' | '\u{254a}' | '\u{2574}' | '\u{257c}' => 1,
        '\u{2501}' | '\u{2511}' | '\u{2513}' | '\u{2519}' | '\u{251b}' | '\u{2525}' | '\u{2529}'
        | '\u{252a}' | '\u{252b}' | '\u{252d}' | '\u{252f}' | '\u{2531}' | '\u{2533}' | '\u{2535}'
        | '\u{2537}' | '\u{2539}' | '\u{253b}' | '\u{253d}' | '\u{253f}' | '\u{2543}' | '\u{2545}'
        | '\u{2547}' | '\u{2548}' | '\u{2549}' | '\u{254b}' | '\u{2578}' | '\u{257e}' => 2,
        _ => 0,
    }
}

/// The weight of the right arm of a box character: 0 for none, 1 for light, 2 for heavy.
pub open spec fn right_weight(c: char) -> int {
    match c {
        '\u{2500}' | '\u{250c}' | '\u{250e}' | '\u{2514}' | '\u{2516}' | '\u{251c}' | '\u{251e}'
        | '\u{251f}' | '\u{2520}' | '\u{252c}' | '\u{252d}' | '\u{2530}' | '\u{2531}' | '\u{2534}'
        | '\u{2535}' | '\u{2538}' | '\u{2539}' | '\u{253c}' | '\u{253d}' | '\u{2540}' | '\u{2541}'
        | '\u{2542}' | '\u{2543}' | '\u{2545}' | '\u{2549}' | '\u{2576}' | '\u{257e}' => 1,
        '\u{2501}' | '\u{250d}' | '\u{250f}' | '\u{2515}' | '\u{2517}' | '\u{251d}' | '\u{2521}'
        | '\u{2522}' | '\u{2523}' | '\u{252e}' | '\u{252f}' | '\u{2532}' | '\u{2533}' | '\u{2536}'
        | '\u{2537}' | '\u{253a}' | '\u{253b}' | '\u{253e}' | '\u{253f}' | '\u{2544}' | '\u{2546}'
        | '\u{2547}' | '\u{2548}' | '\u{254a}' | '\u{254b}' | '\u{257a}' | '\u{257c}' => 2,
        _ => 0,
    }
}

/// The weight of the right arm of a box character.
fn right(c: char) -> (r: usize)
    ensures
        r == right_weight(c),
        r <= 2,
{
    match c {
        '\u{2500}' | '\u{250c}' | '\u{250e}' | '\u{2514}' | '\u{2516}' | '\u{251c}' | '\u{251e}'
        | '\u{251f}' | '\u{2520}' | '\u{252c}' | '\u{252d}' | '\u{2530}' | '\u{2531}' | '\u{2534}'
        | '\u{2535}' | '\u{2538}' | '\u{2539}' | '\u{253c}' | '\u{253d}' | '\u{2540}' | '\u{2541}'
        | '\u{2542}' | '\u{2543}' | '\u{2545}' | '\u{2549}' | '\u{2576}' | '\u{257e}' => 1,
        '\u{2501}' | '\u{250d}' | '\u{250f}' | '\u{2515}' | '\u{2517}' | '\u{251d}' | '\u{2521}'
        | '\u{2522}' | '\u{2523}' | '\u{252e}' | '\u{252f}' | '\u{2532}' | '\u{2533}' | '\u{2536}'
        | '\u{2537}' | '\u{253a}' | '\u{253b}' | '\u{253e}' | '\u{253f}' | '\u{2544}' | '\u{2546}'
        | '\u{2547}' | '\u{2548}' | '\u{254a}' | '\u{254b}' | '\u{257a}' | '\u{257c}' => 2,
        _ => 0,
    }
}

/// The weight of the upper arm of a box character: 0 for none, 1 for light, 2 for heavy.
pub open spec fn upper_weight(c: char) -> int {
    match c {
        '\u{2502}' | '\u{2514}' | '\u{2515}' | '\u{2518}' | '\u{2519}' | '\u{251c}' | '\u{251d}'
        | '\u{251f}' | '\u{2522}' | '\u{2524}' | '\u{2525}' | '\u{2527}' | '\u{252a}' | '\u{2534}'
        | '\u{2535}' | '\u{2536}' | '\u{2537}' | '\u{253c}' | '\u{253d}' | '\u{253e}' | '\u{253f}'
        | '\u{2541}' | '\u{2545}' | '\u{2546}' | '\u{2548}' | '\u{2575}' | '\u{257d}' => 1,
        '\u{2503}' | '\u{2516}' | '\u{2517}' | '\u{251a}' | '\u{251b}' | '\u{251e}' | '\u{2520}'
        | '\u{2521}' | '\u{2523}' | '\u{2526}' | '\u{2528}' | '\u{2529}' | '\u{252b}' | '\u{2538}'
        | '\u{2539}' | '\u{253a}' | '\u{253b}' | '\u{2540}' | '\u{2542}' | '\u{2543}' | '\u{2544}'
        | '\u{2547}' | '\u{2549}' | '\u{254a}' | '\u{254b}' | '\u{2579}' | '\u{257f}' => 2,
        _ => 0,
    }
}

/// The weight of the upper arm of a box character.
fn upper(c: char) -> (r: usize)
    ensures
        r == upper_weight(c),
        r <= 2,
{
    match c {
        '\u{2502}' | '\u{2514}' | '\u{2515}' | '\u{2518}' | '\u{2519}' | '\u{251c}' | '\u{251d}'
        | '\u{251f}' | '\u{2522}' | '\u{2524}' | '\u{2525}' | '\u{2527}' | '\u{252a}' | '\u{2534}'
        | '\u{2535}' | '\u{2536}' | '\u{2537}' | '\u{253c}' | '\u{253d}' | '\u{253e}' | '\u{253f}'
        | '\u{2541}' | '\u{2545}' | '\u{2546}' | '\u{2548}' | '\u{2575}' | '\u{257d}' => 1,
        '\u{2503}' | '\u{2516}' | '\u{2517}' | '\u{251a}' | '\u{251b}' | '\u{251e}' | '\u{2520}'
        | '\u{2521}' | '\u{2523}' | '\u{2526}' | '\u{2528}' | '\u{2529}' | '\u{252b}' | '\u{2538}'
        | '\u{2539}' | '\u{253a}' | '\u{253b}' | '\u{2540}' | '\u{2542}' | '\u{2543}' | '\u{2544}'
        | '\u{2547}' | '\u{2549}' | '\u{254a}' | '\u{254b}' | '\u{2579}' | '\u{257f}' => 2,
        _ => 0,
    }
}

/// The weight of the lower arm of a box character: 0 for none, 1 for light, 2 for heavy.
pub open spec fn lower_weight(c: char) -> int {
    match c {
        '\u{2502}' | '\u{250c}' | '\u{250d}' | '\u{2510}' | '\u{2511}' | '\u{251c}' | '\u{251d}'
        | '\u{251e}' | '\u{2521}' | '\u{2524}' | '\u{2525}' | '\u{2526}' | '\u{2529}' | '\u{252c}'
        | '\u{252d}' | '\u{252e}' | '\u{252f}' | '\u{253c}' | '\u{253d}' | '\u{253e}' | '\u{253f}'
        | '\u{2540}' | '\u{2543}' | '\u{2544}' | '\u{2547}' | '\u{2577}' | '\u{257f}' => 1,
        '\u{2503}' | '\u{250e}' | '\u{250f}' | '\u{2512}' | '\u{2513}' | '\u{251f}' | '\u{2520}'
        | '\u{2522}' | '\u{2523}' | '\u{2527}' | '\u{2528}' | '\u{252a}' | '\u{252b}' | '\u{2530}'
        | '\u{2531}' | '\u{2532}' | '\u{2533}' | '\u{2541}' | '\u{2542}' | '\u{2545}' | '\u{2546}'
        | '\u{2548}' | '\u{2549}' | '\u{254a}' | '\u{254b}' | '\u{257b}' | '\u{257d}' => 2,
        _ => 0,
    }
}

/// The weight of the lower arm of a box character.
fn lower(c: char) -> (r: usize)
    ensures
        r == lower_weight(c),
        r <= 2,
{
    match c {
        '\u{2502}' | '\u{250c}' | '\u{250d}' | '\u{2510}' | '\u{2511}' | '\u{251c}' | '\u{251d}'
        | '\u{251e}' | '\u{2521}' | '\u{2524}' | '\u{2525}' | '\u{2526}' | '\u{2529}' | '\u{252c}'
        | '\u{252d}' | '\u{252e}' | '\u{252f}' | '\u{253c}' | '\u{253d}' | '\u{253e}' | '\u{253f}'
        | '\u{2540}' | '\u{2543}' | '\u{2544}' | '\u{2547}' | '\u{2577}' | '\u{257f}' => 1,
        '\u{2503}' | '\u{250e}' | '\u{250f}' | '\u{2512}' | '\u{2513}' | '\u{251f}' | '\u{2520}'
        | '\u{2522}' | '\u{2523}' | '\u{2527}' | '\u{2528}' | '\u{252a}' | '\u{252b}' | '\u{2530}'
        | '\u{2531}' | '\u{2532}' | '\u{2533}' | '\u{2541}' | '\u{2542}' | '\u{2545}' | '\u{2546}'
        | '\u{2548}' | '\u{2549}' | '\u{254a}' | '\u{254b}' | '\u{257b}' | '\u{257d}' => 2,
        _ => 0,
    }
}

/// The stroke of an arm of the given weight.
pub open spec fn weighed(weight: int, light: int, heavy: int) -> int {
    if weight == 0 {
        0
    } else if weight == 1 {
        light
    } else {
        heavy
    }
}

/// Dispatch the four stroke sizes (left/right horizontal, top/bottom vertical)
/// for a single box-drawing code point (excluding diagonals).
pub fn box_line_strokes(c: char, stroke_size: usize, heavy_stroke_size: usize) -> (r: (
    usize,
    usize,
    usize,
    usize,
))
    ensures
        r.0 == weighed(left_weight(c), stroke_size as int, heavy_stroke_size as int),
        r.1 == weighed(right_weight(c), stroke_size as int, heavy_stroke_size as int),
        r.2 == weighed(upper_weight(c), stroke_size as int, heavy_stroke_size as int),
        r.3 == weighed(lower_weight(c), stroke_size as int, heavy_stroke_size as int),
{
    (
        weigh(left(c), stroke_size, heavy_stroke_size),
        weigh(right(c), stroke_size, heavy_stroke_size),
        weigh(upper(c), stroke_size, heavy_stroke_size),
        weigh(lower(c), stroke_size, heavy_stroke_size),
    )
}

fn weigh(weight: usize, light: usize, heavy: usize) -> (r: usize)
    ensures
        r == weighed(weight as int, light as int, heavy as int),
{
    if weight == 0 {
        0
    } else if weight == 1 {
        light
    } else {
        heavy
    }
}

pub open spec fn rect(x: int, y: int, w: int, h: int) -> Rect {
    Rect { x: x as i64, y: y as i64, w: w as i64, h: h as i64 }
}

/// The first pixel of a line of thickness `s` whose middle is at `mid` half pixels.
pub open spec fn line_start(mid: int, s: int) -> int {
    if mid < s {
        0
    } else {
        (mid - s) / 2
    }
}

/// One past the last pixel of a line, on a side of `side` pixels.
pub open spec fn line_end(mid: int, s: int, side: int) -> int {
    crate::grid::min((mid + s) / 2, side)
}

/// A horizontal line from `x`, `n` long, with its middle at `y`, on a canvas `height` high; all
/// but the height in half pixels.
pub open spec fn h_line(x: int, y: int, n: int, s: int, height: int) -> Rect {
    rect(x, 2 * line_start(y, s), n, 2 * (line_end(y, s, height) - line_start(y, s)))
}

/// A vertical line from `y`, `n` long, with its middle at `x`, on a canvas `width` wide; all but
/// the width in half pixels.
pub open spec fn v_line(x: int, y: int, n: int, s: int, width: int) -> Rect {
    rect(2 * line_start(x, s), y, 2 * (line_end(x, s, width) - line_start(x, s)), n)
}

/// Measures that stay far from the limits of the integers that hold them.
pub open spec fn small(v: int) -> bool {
    -0x100_0000 <= v <= 0x100_0000
}

fn start_of(mid: i64, s: i64) -> (r: i64)
    requires
        0 <= mid <= 0x100_0000,
        0 <= s <= 0x40_0000,
    ensures
        r == line_start(mid as int, s as int),
        0 <= r <= mid,
{
    if mid < s {
        0
    } else {
        (mid - s) / 2
    }
}

fn end_of(mid: i64, s: i64, side: i64) -> (r: i64)
    requires
        0 <= mid <= 0x100_0000,
        0 <= s <= 0x40_0000,
        0 <= side <= 0x40_0000,
    ensures
        r == line_end(mid as int, s as int, side as int),
        0 <= r <= side,
{
    let e: i64 = (mid + s) / 2;
    if e <= side {
        e
    } else {
        side
    }
}

fn make_h_line(x: i64, y: i64, n: i64, s: i64, height: i64) -> (r: Rect)
    requires
        small(x as int),
        small(n as int),
        0 <= y <= 0x100_0000,
        0 <= s <= 0x40_0000,
        0 <= height <= 0x40_0000,
    ensures
        r == h_line(x as int, y as int, n as int, s as int, height as int),
        canvas::modest(r),
{
    let a: i64 = start_of(y, s);
    let b: i64 = end_of(y, s, height);
    Rect { x, y: 2 * a, w: n, h: 2 * (b - a) }
}

fn make_v_line(x: i64, y: i64, n: i64, s: i64, width: i64) -> (r: Rect)
    requires
        small(y as int),
        small(n as int),
        0 <= x <= 0x100_0000,
        0 <= s <= 0x40_0000,
        0 <= width <= 0x40_0000,
    ensures
        r == v_line(x as int, y as int, n as int, s as int, width as int),
        canvas::modest(r),
{
    let a: i64 = start_of(x, s);
    let b: i64 = end_of(x, s, width);
    Rect { x: 2 * a, y, w: 2 * (b - a), h: n }
}

/// Number of gaps in a dashed line.
pub open spec fn dash_gaps(c: char) -> int {
    match c {
        '\u{2504}' | '\u{2505}' | '\u{2506}' | '\u{2507}' => 2,
        '\u{2508}' | '\u{2509}' | '\u{250a}' | '\u{250b}' => 3,
        _ => 1,
    }
}

/// A dashed line that is drawn heavy.
pub open spec fn dash_heavy(c: char) -> bool {
    match c {
        '\u{2505}' | '\u{2507}' | '\u{2509}' | '\u{250b}' | '\u{254d}' | '\u{254f}' => true,
        _ => false,
    }
}

/// A horizontally dashed line.
pub open spec fn dashed_h(c: char) -> bool {
    match c {
        '\u{2504}' | '\u{2505}' | '\u{2508}' | '\u{2509}' | '\u{254c}' | '\u{254d}' => true,
        _ => false,
    }
}

/// A vertically dashed line.
pub open spec fn dashed_v(c: char) -> bool {
    match c {
        '\u{2506}' | '\u{2507}' | '\u{250a}' | '\u{250b}' | '\u{254e}' | '\u{254f}' => true,
        _ => false,
    }
}

/// Length of a gap between dashes.
pub open spec fn gap_len(side: int) -> int {
    crate::grid::max(side / 8, 1)
}

/// Length of a dash.
pub open spec fn dash_len(side: int, gaps: int) -> int {
    crate::grid::max(crate::blocks::monus(side, gap_len(side) * gaps) / (gaps + 1), 1)
}

/// Where dash `k` starts.
pub open spec fn dash_start(side: int, gaps: int, k: int) -> int {
    crate::grid::min(k * (dash_len(side, gaps) + gap_len(side)), side)
}

/// The dashes of a dashed line.
pub open spec fn dash_rects(c: char, w: int, h: int, s: int) -> Seq<Rect> {
    let gaps = dash_gaps(c);
    let t = if dash_heavy(c) {
        2 * s
    } else {
        s
    };
    Seq::new(
        (gaps + 1) as nat,
        |k: int|
            if dashed_h(c) {
                h_line(2 * dash_start(w, gaps, k), h, 2 * dash_len(w, gaps), t, h)
            } else {
                v_line(w, 2 * dash_start(h, gaps, k), 2 * dash_len(h, gaps), t, w)
            },
    )
}

fn is_dashed_h(c: char) -> (r: bool)
    ensures
        r == dashed_h(c),
{
    match c {
        '\u{2504}' | '\u{2505}' | '\u{2508}' | '\u{2509}' | '\u{254c}' | '\u{254d}' => true,
        _ => false,
    }
}

fn is_dashed_v(c: char) -> (r: bool)
    ensures
        r == dashed_v(c),
{
    match c {
        '\u{2506}' | '\u{2507}' | '\u{250a}' | '\u{250b}' | '\u{254e}' | '\u{254f}' => true,
        _ => false,
    }
}

fn make_dashes(c: char, w: i64, h: i64, s: i64) -> (r: Vec<Rect>)
    requires
        1 <= w <= 0x40_0000,
        1 <= h <= 0x40_0000,
        1 <= s <= 0x10_0000,
        dashed_h(c) || dashed_v(c),
    ensures
        r@ == dash_rects(c, w as int, h as int, s as int),
        forall|i: int| 0 <= i < r@.len() ==> canvas::modest(#[trigger] r@[i]),
{
    let gaps: i64 = match c {
        '\u{2504}' | '\u{2505}' | '\u{2506}' | '\u{2507}' => 2,
        '\u{2508}' | '\u{2509}' | '\u{250a}' | '\u{250b}' => 3,
        _ => 1,
    };
    let heavy: bool = match c {
        '\u{2505}' | '\u{2507}' | '\u{2509}' | '\u{250b}' | '\u{254d}' | '\u{254f}' => true,
        _ => false,
    };
    let t: i64 = if heavy {
        2 * s
    } else {
        s
    };
    let across: bool = is_dashed_h(c);
    let side: i64 = if across {
        w
    } else {
        h
    };
    let gap: i64 = if side / 8 >= 1 {
        side / 8
    } else {
        1
    };
    let rest: i64 = if side >= gap * gaps {
        side - gap * gaps
    } else {
        0
    };
    let part: i64 = if gaps == 1 {
        rest / 2
    } else if gaps == 2 {
        rest / 3
    } else {
        rest / 4
    };
    let dash: i64 = if part >= 1 {
        part
    } else {
        1
    };
    assert(gap == gap_len(side as int));
    assert(gap * gaps == gap_len(side as int) * gaps);
    assert(part == rest as int / (gaps + 1));
    assert(dash == dash_len(side as int, gaps as int));
    let mut out: Vec<Rect> = Vec::new();
    let mut k: i64 = 0;
    let mut at: i64 = 0;
    while k <= gaps
        invariant
            0 <= k <= gaps + 1,
            1 <= gaps <= 3,
            1 <= w <= 0x40_0000,
            1 <= h <= 0x40_0000,
            1 <= s <= 0x10_0000,
            t == (if dash_heavy(c) {
                2 * s
            } else {
                s as int
            }),
            gaps == dash_gaps(c),
            across == dashed_h(c),
            side == (if across {
                w
            } else {
                h
            }),
            gap == gap_len(side as int),
            dash == dash_len(side as int, gaps as int),
            1 <= dash <= 0x40_0000,
            1 <= gap <= 0x40_0000,
            at == k * (dash + gap),
            0 <= at <= k * 0x80_0000,
            out@ == dash_rects(c, w as int, h as int, s as int).take(k as int),
            forall|i: int| 0 <= i < out@.len() ==> canvas::modest(#[trigger] out@[i]),
        decreases gaps + 1 - k,
    {
        let from: i64 = if at <= side {
            at
        } else {
            side
        };
        assert(from == dash_start(side as int, gaps as int, k as int));
        let r: Rect = if across {
            make_h_line(2 * from, h, 2 * dash, t, h)
        } else {
            make_v_line(w, 2 * from, 2 * dash, t, w)
        };
        out.push(r);
        assert((k + 1) * (dash + gap) == k * (dash + gap) + (dash + gap)) by (nonlinear_arith);
        at = at + (dash + gap);
        k = k + 1;
        assert(out@ =~= dash_rects(c, w as int, h as int, s as int).take(k as int));
    }
    assert(out@ =~= dash_rects(c, w as int, h as int, s as int));
    out
}

/// Four arms of the given thicknesses, left, right, upper and lower. Each reaches over the
/// crossing lines.
pub open spec fn arm_rects(w: int, h: int, sl: int, sr: int, su: int, sd: int) -> Seq<Rect> {
    let left_to = crate::grid::max(line_end(w, su, w), line_end(w, sd, w));
    let right_from = crate::grid::min(line_start(w, su), line_start(w, sd));
    let upper_to = crate::grid::max(line_end(h, sl, h), line_end(h, sr, h));
    let lower_from = crate::grid::min(line_start(h, sl), line_start(h, sr));
    seq![
        h_line(0, h, 2 * left_to, sl, h),
        h_line(2 * right_from, h, 2 * (w - right_from), sr, h),
        v_line(w, 0, 2 * upper_to, su, w),
        v_line(w, 2 * lower_from, 2 * (h - lower_from), sd, w),
    ]
}

/// The arms of a box character.
pub open spec fn box_rects(c: char, w: int, h: int, s: int) -> Seq<Rect> {
    arm_rects(
        w,
        h,
        weighed(left_weight(c), s, 2 * s),
        weighed(right_weight(c), s, 2 * s),
        weighed(upper_weight(c), s, 2 * s),
        weighed(lower_weight(c), s, 2 * s),
    )
}

fn larger(a: i64, b: i64) -> (r: i64)
    ensures
        r == crate::grid::max(a as int, b as int),
{
    if a >= b {
        a
    } else {
        b
    }
}

fn lesser(a: i64, b: i64) -> (r: i64)
    ensures
        r == crate::grid::min(a as int, b as int),
{
    if a <= b {
        a
    } else {
        b
    }
}

fn make_arms(w: i64, h: i64, sl: i64, sr: i64, su: i64, sd: i64) -> (r: Vec<Rect>)
    requires
        1 <= w <= 0x40_0000,
        1 <= h <= 0x40_0000,
        0 <= sl <= 0x20_0000,
        0 <= sr <= 0x20_0000,
        0 <= su <= 0x20_0000,
        0 <= sd <= 0x20_0000,
    ensures
        r@ == arm_rects(w as int, h as int, sl as int, sr as int, su as int, sd as int),
        forall|i: int| 0 <= i < r@.len() ==> canvas::modest(#[trigger] r@[i]),
{
    let left_to: i64 = larger(end_of(w, su, w), end_of(w, sd, w));
    let right_from: i64 = lesser(start_of(w, su), start_of(w, sd));
    let upper_to: i64 = larger(end_of(h, sl, h), end_of(h, sr, h));
    let lower_from: i64 = lesser(start_of(h, sl), start_of(h, sr));
    let left_arm: Rect = make_h_line(0, h, 2 * left_to, sl, h);
    let right_arm: Rect = make_h_line(2 * right_from, h, 2 * (w - right_from), sr, h);
    let upper_arm: Rect = make_v_line(w, 0, 2 * upper_to, su, w);
    let lower_arm: Rect = make_v_line(w, 2 * lower_from, 2 * (h - lower_from), sd, w);
    let out: Vec<Rect> = vec![left_arm, right_arm, upper_arm, lower_arm];
    assert(out@ =~= arm_rects(w as int, h as int, sl as int, sr as int, su as int, sd as int));
    out
}

fn make_box(c: char, w: i64, h: i64, s: usize) -> (r: Vec<Rect>)
    requires
        1 <= w <= 0x40_0000,
        1 <= h <= 0x40_0000,
        1 <= s <= 0x10_0000,
    ensures
        r@ == box_rects(c, w as int, h as int, s as int),
        forall|i: int| 0 <= i < r@.len() ==> canvas::modest(#[trigger] r@[i]),
{
    let (sl, sr, su, sd): (usize, usize, usize, usize) = box_line_strokes(c, s, 2 * s);
    make_arms(w, h, sl as i64, sr as i64, su as i64, sd as i64)
}

/// Double-line characters whose vertical line is single.
pub open spec fn single_v(u: u32) -> bool {
    u == 0x2552 || u == 0x2555 || u == 0x2558 || u == 0x255b || u == 0x255e || u == 0x2561 || u
        == 0x2564 || u == 0x2567 || u == 0x256a
}

/// Double-line characters whose horizontal line is single.
pub open spec fn single_h(u: u32) -> bool {
    u == 0x2553 || u == 0x2556 || u == 0x2559 || u == 0x255c || u == 0x255f || u == 0x2562 || u
        == 0x2565 || u == 0x2568 || u == 0x256b
}

/// The middles of a pair of lines in half pixels: one line in the middle of the side, or two a
/// pixel outside of where it would be.
pub open spec fn line_pair(single: bool, side: int, s: int) -> (int, int) {
    if single {
        (side, side)
    } else {
        (
            2 * crate::grid::max(line_start(side, s) - 1, 0),
            2 * crate::grid::min(line_end(side, s, side) + 1, side),
        )
    }
}

fn make_pair(single: bool, side: i64, s: i64) -> (r: (i64, i64))
    requires
        1 <= side <= 0x40_0000,
        1 <= s <= 0x10_0000,
    ensures
        r.0 == line_pair(single, side as int, s as int).0,
        r.1 == line_pair(single, side as int, s as int).1,
        0 <= r.0 <= 0x80_0000,
        0 <= r.1 <= 0x80_0000,
{
    if single {
        (side, side)
    } else {
        (
            2 * larger(start_of(side, s) - 1, 0),
            2 * lesser(end_of(side, s, side) + 1, side),
        )
    }
}

/// Lengths of the upper and the lower line to the left; `xc` is the middle, `l1` and `r1` the ends of the vertical lines.
pub open spec fn left_sizes(u: u32, xc: int, l1: int, r1: int) -> (int, int) {
    if u == 0x2550 || u == 0x256b {
        (xc, xc)
    } else if (0x2555 <= u && u <= 0x2557) {
        (r1, l1)
    } else if (0x255b <= u && u <= 0x255d) {
        (l1, r1)
    } else if (0x2561 <= u && u <= 0x2563) || u == 0x256a || u == 0x256c {
        (l1, l1)
    } else if (0x2564 <= u && u <= 0x2568) {
        (xc, l1)
    } else if u == 0x2569 {
        (l1, xc)
    } else {
        (0, 0)
    }
}

fn make_left_sizes(u: u32, xc: i64, l1: i64, r1: i64) -> (r: (i64, i64))
    ensures
        r.0 == left_sizes(u, xc as int, l1 as int, r1 as int).0,
        r.1 == left_sizes(u, xc as int, l1 as int, r1 as int).1,
{
    if u == 0x2550 || u == 0x256b {
        (xc, xc)
    } else if (0x2555 <= u && u <= 0x2557) {
        (r1, l1)
    } else if (0x255b <= u && u <= 0x255d) {
        (l1, r1)
    } else if (0x2561 <= u && u <= 0x2563) || u == 0x256a || u == 0x256c {
        (l1, l1)
    } else if (0x2564 <= u && u <= 0x2568) {
        (xc, l1)
    } else if u == 0x2569 {
        (l1, xc)
    } else {
        (0, 0)
    }
}

/// Starts of the upper and the lower line to the right and their length; `l0` and `r0` are the starts of the vertical lines.
pub open spec fn right_starts(u: u32, xc: int, l0: int, r0: int, w: int) -> (int, int, int) {
    if u == 0x2550 || u == 0x2565 || u == 0x256b {
        (xc, xc, w)
    } else if (0x2552 <= u && u <= 0x2554) || u == 0x2568 {
        (l0, r0, w)
    } else if (0x2558 <= u && u <= 0x255a) {
        (r0, l0, w)
    } else if (0x255e <= u && u <= 0x2560) || u == 0x256a || u == 0x256c {
        (r0, r0, w)
    } else if u == 0x2564 || u == 0x2566 {
        (xc, r0, w)
    } else if u == 0x2567 || u == 0x2569 {
        (r0, xc, w)
    } else {
        (0, 0, 0)
    }
}

fn make_right_starts(u: u32, xc: i64, l0: i64, r0: i64, w: i64) -> (r: (i64, i64, i64))
    ensures
        r.0 == right_starts(u, xc as int, l0 as int, r0 as int, w as int).0,
        r.1 == right_starts(u, xc as int, l0 as int, r0 as int, w as int).1,
        r.2 == right_starts(u, xc as int, l0 as int, r0 as int, w as int).2,
{
    if u == 0x2550 || u == 0x2565 || u == 0x256b {
        (xc, xc, w)
    } else if (0x2552 <= u && u <= 0x2554) || u == 0x2568 {
        (l0, r0, w)
    } else if (0x2558 <= u && u <= 0x255a) {
        (r0, l0, w)
    } else if (0x255e <= u && u <= 0x2560) || u == 0x256a || u == 0x256c {
        (r0, r0, w)
    } else if u == 0x2564 || u == 0x2566 {
        (xc, r0, w)
    } else if u == 0x2567 || u == 0x2569 {
        (r0, xc, w)
    } else {
        (0, 0, 0)
    }
}

/// Lengths of the left and the right line upwards; `yc` is the middle, `t1` and `b1` the ends of the horizontal lines.
pub open spec fn upper_sizes(u: u32, yc: int, t1: int, b1: int) -> (int, int) {
    if u == 0x2551 || u == 0x256a {
        (yc, yc)
    } else if (0x2558 <= u && u <= 0x255c) || u == 0x2568 {
        (b1, t1)
    } else if u == 0x255d {
        (t1, b1)
    } else if (0x255e <= u && u <= 0x2560) {
        (yc, t1)
    } else if (0x2561 <= u && u <= 0x2563) {
        (t1, yc)
    } else if u == 0x2567 || u == 0x2569 || u == 0x256b || u == 0x256c {
        (t1, t1)
    } else {
        (0, 0)
    }
}

fn make_upper_sizes(u: u32, yc: i64, t1: i64, b1: i64) -> (r: (i64, i64))
    ensures
        r.0 == upper_sizes(u, yc as int, t1 as int, b1 as int).0,
        r.1 == upper_sizes(u, yc as int, t1 as int, b1 as int).1,
{
    if u == 0x2551 || u == 0x256a {
        (yc, yc)
    } else if (0x2558 <= u && u <= 0x255c) || u == 0x2568 {
        (b1, t1)
    } else if u == 0x255d {
        (t1, b1)
    } else if (0x255e <= u && u <= 0x2560) {
        (yc, t1)
    } else if (0x2561 <= u && u <= 0x2563) {
        (t1, yc)
    } else if u == 0x2567 || u == 0x2569 || u == 0x256b || u == 0x256c {
        (t1, t1)
    } else {
        (0, 0)
    }
}

/// Starts of the left and the right line downwards and their length; `t0` and `b0` are the starts of the horizontal lines.
pub open spec fn lower_starts(u: u32, yc: int, t0: int, b0: int, h: int) -> (int, int, int) {
    if u == 0x2551 || u == 0x256a {
        (yc, yc, h)
    } else if (0x2552 <= u && u <= 0x2554) {
        (t0, b0, h)
    } else if (0x2555 <= u && u <= 0x2557) {
        (b0, t0, h)
    } else if (0x255e <= u && u <= 0x2560) {
        (yc, b0, h)
    } else if (0x2561 <= u && u <= 0x2563) {
        (b0, yc, h)
    } else if (0x2564 <= u && u <= 0x2566) || u == 0x256b || u == 0x256c {
        (b0, b0, h)
    } else {
        (0, 0, 0)
    }
}

fn make_lower_starts(u: u32, yc: i64, t0: i64, b0: i64, h: i64) -> (r: (i64, i64, i64))
    ensures
        r.0 == lower_starts(u, yc as int, t0 as int, b0 as int, h as int).0,
        r.1 == lower_starts(u, yc as int, t0 as int, b0 as int, h as int).1,
        r.2 == lower_starts(u, yc as int, t0 as int, b0 as int, h as int).2,
{
    if u == 0x2551 || u == 0x256a {
        (yc, yc, h)
    } else if (0x2552 <= u && u <= 0x2554) {
        (t0, b0, h)
    } else if (0x2555 <= u && u <= 0x2557) {
        (b0, t0, h)
    } else if (0x255e <= u && u <= 0x2560) {
        (yc, b0, h)
    } else if (0x2561 <= u && u <= 0x2563) {
        (b0, yc, h)
    } else if (0x2564 <= u && u <= 0x2566) || u == 0x256b || u == 0x256c {
        (b0, b0, h)
    } else {
        (0, 0, 0)
    }
}

/// The lines of a double-line character.
pub open spec fn double_rects(u: u32, w: int, h: int, s: int) -> Seq<Rect> {
    let (vl, vr) = line_pair(single_v(u), w, s);
    let (ht, hb) = line_pair(single_h(u), h, s);
    let (tl, bl) = left_sizes(u, w, 2 * line_end(vl, s, w), 2 * line_end(vr, s, w));
    let (tr, br, rn) = right_starts(u, w, 2 * line_start(vl, s), 2 * line_start(vr, s), 2 * w);
    let (lt, rt) = upper_sizes(u, h, 2 * line_end(ht, s, h), 2 * line_end(hb, s, h));
    let (lb, rb, bn) = lower_starts(u, h, 2 * line_start(ht, s), 2 * line_start(hb, s), 2 * h);
    seq![
        h_line(0, ht, tl, s, h),
        h_line(0, hb, bl, s, h),
        h_line(tr, ht, rn, s, h),
        h_line(br, hb, rn, s, h),
        v_line(vl, 0, lt, s, w),
        v_line(vr, 0, rt, s, w),
        v_line(vl, lb, bn, s, w),
        v_line(vr, rb, bn, s, w),
    ]
}

fn is_single_v(u: u32) -> (r: bool)
    ensures
        r == single_v(u),
{
    u == 0x2552 || u == 0x2555 || u == 0x2558 || u == 0x255b || u == 0x255e || u == 0x2561 || u
        == 0x2564 || u == 0x2567 || u == 0x256a
}

fn is_single_h(u: u32) -> (r: bool)
    ensures
        r == single_h(u),
{
    u == 0x2553 || u == 0x2556 || u == 0x2559 || u == 0x255c || u == 0x255f || u == 0x2562 || u
        == 0x2565 || u == 0x2568 || u == 0x256b
}

fn make_double(c: char, w: i64, h: i64, s: i64) -> (r: Vec<Rect>)
    requires
        1 <= w <= 0x40_0000,
        1 <= h <= 0x40_0000,
        1 <= s <= 0x10_0000,
    ensures
        r@ == double_rects(c as u32, w as int, h as int, s as int),
        forall|i: int| 0 <= i < r@.len() ==> canvas::modest(#[trigger] r@[i]),
{
    let u: u32 = c as u32;
    let (vl, vr): (i64, i64) = make_pair(is_single_v(u), w, s);
    let (ht, hb): (i64, i64) = make_pair(is_single_h(u), h, s);
    let vl0: i64 = 2 * start_of(vl, s);
    let vl1: i64 = 2 * end_of(vl, s, w);
    let vr0: i64 = 2 * start_of(vr, s);
    let vr1: i64 = 2 * end_of(vr, s, w);
    let ht0: i64 = 2 * start_of(ht, s);
    let ht1: i64 = 2 * end_of(ht, s, h);
    let hb0: i64 = 2 * start_of(hb, s);
    let hb1: i64 = 2 * end_of(hb, s, h);
    let (tl, bl): (i64, i64) = make_left_sizes(u, w, vl1, vr1);
    let (tr, br, rn): (i64, i64, i64) = make_right_starts(u, w, vl0, vr0, 2 * w);
    let (lt, rt): (i64, i64) = make_upper_sizes(u, h, ht1, hb1);
    let (lb, rb, bn): (i64, i64, i64) = make_lower_starts(u, h, ht0, hb0, 2 * h);
    let out: Vec<Rect> = vec![
        make_h_line(0, ht, tl, s, h),
        make_h_line(0, hb, bl, s, h),
        make_h_line(tr, ht, rn, s, h),
        make_h_line(br, hb, rn, s, h),
        make_v_line(vl, 0, lt, s, w),
        make_v_line(vr, 0, rt, s, w),
        make_v_line(vl, lb, bn, s, w),
        make_v_line(vr, rb, bn, s, w),
    ];
    assert(out@ =~= double_rects(u, w as int, h as int, s as int));
    out
}

/// Draws a double-line box component (U+2550..U+256C).
pub fn draw_double_lines(canvas: &mut Canvas, c: char, stroke_size: usize)
    requires
        old(canvas).wf(),
        1 <= stroke_size <= 0x10_0000,
    ensures
        final(canvas).wf(),
        final(canvas).w() == old(canvas).w(),
        final(canvas).h() == old(canvas).h(),
        final(canvas).pixels() == canvas::all_painted(
            old(canvas).pixels(),
            double_rects(c as u32, old(canvas).w(), old(canvas).h(), stroke_size as int),
            COLOR_FILL,
        ),
{
    let rects: Vec<Rect> = make_double(
        c,
        canvas.width() as i64,
        canvas.height() as i64,
        stroke_size as i64,
    );
    canvas.draw_rects(&rects, COLOR_FILL);
}

/// Eighths of a side, rounded to the nearest pixel.
pub open spec fn eighths(side: int, k: int) -> int {
    (side * k + 4) / 8
}

/// How many eighths of the width a block element takes.
pub open spec fn block_width(u: u32) -> int {
    if 0x2589 <= u <= 0x258f {
        0x2590 - u
    } else if u == 0x2590 {
        4
    } else if u == 0x2595 {
        1
    } else {
        8
    }
}

/// How many eighths of the height a block element takes.
pub open spec fn block_height(u: u32) -> int {
    if u == 0x2580 {
        4
    } else if 0x2581 <= u <= 0x2587 {
        u - 0x2580
    } else if u == 0x2594 {
        1
    } else {
        8
    }
}

/// How many eighths of the height lie above a block element.
pub open spec fn block_above(u: u32) -> int {
    if 0x2581 <= u <= 0x2587 {
        8 - (u - 0x2580)
    } else {
        0
    }
}

/// A block element: a part of the cell at one of its edges.
pub open spec fn block_rect(u: u32, w: int, h: int) -> Rect {
    let bw = crate::grid::max(eighths(w, block_width(u)), 1);
    let bh = crate::grid::max(eighths(h, block_height(u)), 1);
    let x = if u == 0x2590 {
        w
    } else if u == 0x2595 {
        2 * (w - bw)
    } else {
        0
    };
    rect(x, 2 * eighths(h, block_above(u)), 2 * bw, 2 * bh)
}

fn make_block(c: char, w: i64, h: i64) -> (r: Vec<Rect>)
    requires
        1 <= w <= 0x40_0000,
        1 <= h <= 0x40_0000,
    ensures
        r@ == seq![block_rect(c as u32, w as int, h as int)],
        forall|i: int| 0 <= i < r@.len() ==> canvas::modest(#[trigger] r@[i]),
{
    let u: u32 = c as u32;
    let kw: i64 = if 0x2589 <= u && u <= 0x258f {
        0x2590 - u as i64
    } else if u == 0x2590 {
        4
    } else if u == 0x2595 {
        1
    } else {
        8
    };
    let kh: i64 = if u == 0x2580 {
        4
    } else if 0x2581 <= u && u <= 0x2587 {
        u as i64 - 0x2580
    } else if u == 0x2594 {
        1
    } else {
        8
    };
    let ka: i64 = if 0x2581 <= u && u <= 0x2587 {
        8 - (u as i64 - 0x2580)
    } else {
        0
    };
    assert(0 <= w * kw <= 8 * w) by (nonlinear_arith)
        requires
            0 <= kw <= 8,
            1 <= w,
    ;
    assert(0 <= h * kh <= 8 * h) by (nonlinear_arith)
        requires
            0 <= kh <= 8,
            1 <= h,
    ;
    assert(0 <= h * ka <= 8 * h) by (nonlinear_arith)
        requires
            0 <= ka <= 8,
            1 <= h,
    ;
    let bw: i64 = larger((w * kw + 4) / 8, 1);
    let bh: i64 = larger((h * kh + 4) / 8, 1);
    let above: i64 = (h * ka + 4) / 8;
    let x: i64 = if u == 0x2590 {
        w
    } else if u == 0x2595 {
        2 * (w - bw)
    } else {
        0
    };
    let out: Vec<Rect> = vec![Rect { x, y: 2 * above, w: 2 * bw, h: 2 * bh }];
    assert(out@ =~= seq![block_rect(u, w as int, h as int)]);
    out
}

/// Which quadrants are filled: top left, top right, bottom left, bottom right.
pub open spec fn quadrants(u: u32) -> (bool, bool, bool, bool) {
    (
        0x2598 <= u <= 0x259c,
        0x259b <= u <= 0x259f,
        u == 0x2596 || u == 0x2599 || u == 0x259b || u == 0x259e || u == 0x259f,
        u == 0x2597 || u == 0x2599 || u == 0x259a || u == 0x259c || u == 0x259f,
    )
}

/// A quadrant, or nothing.
pub open spec fn quadrant(on: bool, x: int, y: int, xc: int, yc: int) -> Rect {
    if on {
        rect(2 * x, 2 * y, 2 * xc, 2 * yc)
    } else {
        rect(2 * x, 2 * y, 0, 0)
    }
}

/// The quadrants of a cell.
pub open spec fn quadrant_rects(u: u32, w: int, h: int) -> Seq<Rect> {
    let xc = (w + 1) / 2;
    let yc = (h + 1) / 2;
    let (tl, tr, bl, br) = quadrants(u);
    seq![
        quadrant(tl, 0, 0, xc, yc),
        quadrant(tr, xc, 0, xc, yc),
        quadrant(bl, 0, yc, xc, yc),
        quadrant(br, xc, yc, xc, yc),
    ]
}

fn make_quadrant(on: bool, x: i64, y: i64, xc: i64, yc: i64) -> (r: Rect)
    requires
        0 <= x <= 0x40_0000,
        0 <= y <= 0x40_0000,
        0 <= xc <= 0x40_0000,
        0 <= yc <= 0x40_0000,
    ensures
        r == quadrant(on, x as int, y as int, xc as int, yc as int),
        canvas::modest(r),
{
    if on {
        Rect { x: 2 * x, y: 2 * y, w: 2 * xc, h: 2 * yc }
    } else {
        Rect { x: 2 * x, y: 2 * y, w: 0, h: 0 }
    }
}

fn make_quadrants(c: char, w: i64, h: i64) -> (r: Vec<Rect>)
    requires
        1 <= w <= 0x40_0000,
        1 <= h <= 0x40_0000,
    ensures
        r@ == quadrant_rects(c as u32, w as int, h as int),
        forall|i: int| 0 <= i < r@.len() ==> canvas::modest(#[trigger] r@[i]),
{
    let u: u32 = c as u32;
    let xc: i64 = (w + 1) / 2;
    let yc: i64 = (h + 1) / 2;
    let tl: bool = 0x2598 <= u && u <= 0x259c;
    let tr: bool = 0x259b <= u && u <= 0x259f;
    let bl: bool = u == 0x2596 || u == 0x2599 || u == 0x259b || u == 0x259e || u == 0x259f;
    let br: bool = u == 0x2597 || u == 0x2599 || u == 0x259a || u == 0x259c || u == 0x259f;
    let out: Vec<Rect> = vec![
        make_quadrant(tl, 0, 0, xc, yc),
        make_quadrant(tr, xc, 0, xc, yc),
        make_quadrant(bl, 0, yc, xc, yc),
        make_quadrant(br, xc, yc, xc, yc),
    ];
    assert(out@ =~= quadrant_rects(u, w as int, h as int));
    out
}

/// The shade that fills a cell, where the character is a full block or a shade.
pub open spec fn shade(u: u32) -> Option<u8> {
    if u == 0x2588 {
        Some(COLOR_FILL)
    } else if u == 0x2591 {
        Some(COLOR_FILL_ALPHA_STEP_3)
    } else if u == 0x2592 {
        Some(COLOR_FILL_ALPHA_STEP_2)
    } else if u == 0x2593 {
        Some(COLOR_FILL_ALPHA_STEP_1)
    } else {
        None
    }
}

/// A rounded corner.
pub open spec fn rounded(u: u32) -> bool {
    0x256d <= u <= 0x2570
}

/// The rectangles of a glyph that is made of such.
pub open spec fn glyph_rects(c: char, w: int, h: int) -> Seq<Rect> {
    let s = stroke_of(w);
    let u = c as u32;
    if dashed_h(c) || dashed_v(c) {
        dash_rects(c, w, h, s)
    } else if 0x2550 <= u <= 0x256c {
        double_rects(u, w, h, s)
    } else if u < 0x2580 {
        box_rects(c, w, h, s)
    } else if 0x2596 <= u {
        quadrant_rects(u, w, h)
    } else {
        seq![block_rect(u, w, h)]
    }
}

/// A rounded corner in the orientation of the character.
pub open spec fn corner_rows(u: u32, w: int, h: int) -> Seq<Seq<u8>> {
    let s = stroke_of(w);
    let base = canvas::cornered(canvas::plain(w, h, 0), w, h, s);
    let across = if u == 0x256d || u == 0x2570 {
        canvas::flipped_x(base, canvas::off_center(w, s))
    } else {
        base
    };
    if u == 0x256d || u == 0x256e {
        canvas::mirrored(across, canvas::off_center(h, s))
    } else {
        across
    }
}

/// The pixels of a glyph.
pub open spec fn glyph_rows(c: char, w: int, h: int) -> Seq<Seq<u8>> {
    match shade(c as u32) {
        Some(v) => canvas::plain(w, h, v),
        None => if rounded(c as u32) {
            corner_rows(c as u32, w, h)
        } else {
            canvas::all_painted(canvas::plain(w, h, 0), glyph_rects(c, w, h), COLOR_FILL)
        },
    }
}

/// Rasterize a built-in glyph at exact cell dimensions.
pub fn builtin_glyph(c: char, cell_width: u32, cell_height: u32) -> (r: Option<BuiltinGlyph>)
    requires
        cell_width <= canvas::MAX_SIDE,
        cell_height <= canvas::MAX_SIDE,
    ensures
        r.is_some() == builtin(c),
        r matches Some(g) ==> {
            let w = crate::grid::max(cell_width as int, 1);
            let h = crate::grid::max(cell_height as int, 1);
            &&& g.width == w
            &&& g.height == h
            &&& g.data@ == canvas::flat(glyph_rows(c, w, h))
            &&& canvas::shaped(glyph_rows(c, w, h), w, h)
            &&& g.offset_x == 0
            &&& g.offset_y == 0
        },
{
    if !is_builtin(c) {
        return None;
    }
    let width: u32 = if cell_width >= 1 {
        cell_width
    } else {
        1
    };
    let height: u32 = if cell_height >= 1 {
        cell_height
    } else {
        1
    };
    let mut canvas = Canvas::new(width as usize, height as usize);
    let stroke_size: usize = calculate_stroke_size(width as usize);
    let u: u32 = c as u32;
    if u == 0x2588 {
        canvas.fill(COLOR_FILL);
    } else if u == 0x2591 {
        canvas.fill(COLOR_FILL_ALPHA_STEP_3);
    } else if u == 0x2592 {
        canvas.fill(COLOR_FILL_ALPHA_STEP_2);
    } else if u == 0x2593 {
        canvas.fill(COLOR_FILL_ALPHA_STEP_1);
    } else if 0x256d <= u && u <= 0x2570 {
        draw_corner(&mut canvas, u, stroke_size);
    } else if 0x2550 <= u && u <= 0x256c {
        draw_double_lines(&mut canvas, c, stroke_size);
    } else {
        draw_parts(&mut canvas, c, stroke_size);
    }
    Some(
        BuiltinGlyph { data: canvas.into_buffer(), width, height, offset_x: 0, offset_y: 0 },
    )
}

/// Draws a rounded corner in the orientation of the character.
fn draw_corner(canvas: &mut Canvas, u: u32, stroke_size: usize)
    requires
        old(canvas).wf(),
        old(canvas).pixels() == canvas::plain(old(canvas).w(), old(canvas).h(), 0),
        stroke_size == stroke_of(old(canvas).w()),
        1 <= stroke_size <= canvas::MAX_SIDE,
    ensures
        final(canvas).wf(),
        final(canvas).w() == old(canvas).w(),
        final(canvas).h() == old(canvas).h(),
        final(canvas).pixels() == corner_rows(u, old(canvas).w(), old(canvas).h()),
{
    canvas.draw_rounded_corner(stroke_size);
    if u == 0x256d || u == 0x2570 {
        canvas.flip_horizontal_with_stroke(stroke_size);
    }
    if u == 0x256d || u == 0x256e {
        canvas.flip_vertical_with_stroke(stroke_size);
    }
}

/// Draws a glyph that is made of rectangles and is not a double line.
fn draw_parts(canvas: &mut Canvas, c: char, stroke_size: usize)
    requires
        old(canvas).wf(),
        !(0x2550 <= c as u32 <= 0x256c),
        stroke_size == stroke_of(old(canvas).w()),
        1 <= stroke_size <= 0x10_0000,
    ensures
        final(canvas).wf(),
        final(canvas).w() == old(canvas).w(),
        final(canvas).h() == old(canvas).h(),
        final(canvas).pixels() == canvas::all_painted(
            old(canvas).pixels(),
            glyph_rects(c, old(canvas).w(), old(canvas).h()),
            COLOR_FILL,
        ),
{
    let w: i64 = canvas.width() as i64;
    let h: i64 = canvas.height() as i64;
    let u: u32 = c as u32;
    let rects: Vec<Rect> = if is_dashed_h(c) || is_dashed_v(c) {
        make_dashes(c, w, h, stroke_size as i64)
    } else if u < 0x2580 {
        make_box(c, w, h, stroke_size)
    } else if 0x2596 <= u {
        make_quadrants(c, w, h)
    } else {
        make_block(c, w, h)
    };
    canvas.draw_rects(&rects, COLOR_FILL);
}

/// A drawn glyph has the cell's size, and each pixel of a glyph made of rectangles is full where
/// one of them covers it and empty elsewhere.
pub proof fn law_glyph_pixels(c: char, w: int, h: int, x: int, y: int)
    requires
        builtin(c),
        1 <= w <= canvas::MAX_SIDE,
        1 <= h <= canvas::MAX_SIDE,
        0 <= x < w,
        0 <= y < h,
        shade(c as u32) is None,
        !rounded(c as u32),
    ensures
        glyph_rows(c, w, h)[y][x] == if canvas::covered(glyph_rects(c, w, h), x, y) {
            COLOR_FILL
        } else {
            0u8
        },
{
    canvas::law_painted_is_union(canvas::plain(w, h, 0), glyph_rects(c, w, h), COLOR_FILL, w, h);
}

/// The light horizontal line spans the whole width of the cell without a gap, at the row of the
/// middle.
pub proof fn law_horizontal_line_spans(w: int, h: int, x: int)
    requires
        1 <= w <= canvas::MAX_SIDE,
        2 <= h <= canvas::MAX_SIDE,
        0 <= x < w,
        stroke_of(w) <= h,
    ensures
        glyph_rows('\u{2500}', w, h)[line_start(h, stroke_of(w))][x] == COLOR_FILL,
{
    let c = '\u{2500}';
    let s = stroke_of(w);
    let y = line_start(h, s);
    let rects = glyph_rects(c, w, h);
    assert(left_weight(c) == 1 && right_weight(c) == 1);
    assert(upper_weight(c) == 0 && lower_weight(c) == 0);
    assert(line_end(w, 0, w) == w / 2);
    assert(line_start(w, 0) == w / 2);
    assert(line_end(h, s, h) > y);
    if x < w / 2 {
        assert(rects[0].covers(x, y));
    } else {
        assert(rects[1].covers(x, y));
    }
    law_glyph_pixels(c, w, h, x, y);
}

/// The light vertical line spans the whole height of the cell without a gap, at the column of
/// the middle.
pub proof fn law_vertical_line_spans(w: int, h: int, y: int)
    requires
        2 <= w <= canvas::MAX_SIDE,
        1 <= h <= canvas::MAX_SIDE,
        0 <= y < h,
    ensures
        glyph_rows('\u{2502}', w, h)[y][line_start(w, stroke_of(w))] == COLOR_FILL,
{
    let c = '\u{2502}';
    let s = stroke_of(w);
    let x = line_start(w, s);
    let rects = glyph_rects(c, w, h);
    assert(left_weight(c) == 0 && right_weight(c) == 0);
    assert(upper_weight(c) == 1 && lower_weight(c) == 1);
    assert(line_end(h, 0, h) == h / 2);
    assert(line_start(h, 0) == h / 2);
    assert(line_end(w, s, w) > x);
    if y < h / 2 {
        assert(rects[2].covers(x, y));
    } else {
        assert(rects[3].covers(x, y));
    }
    law_glyph_pixels(c, w, h, x, y);
}

/// The lower block elements fill a cell from below, each by its eighths, and the upper half its
/// upper half, in a cell whose sides can be parted into eighths.
#[verifier::spinoff_prover]
#[verifier::rlimit(40)]
pub proof fn law_lower_blocks(w: int, h: int, x: int, y: int)
    requires
        8 <= w <= canvas::MAX_SIDE,
        8 <= h <= canvas::MAX_SIDE,
        w % 8 == 0,
        h % 8 == 0,
        0 <= x < w,
        0 <= y < h,
    ensures
        (glyph_rows('\u{2580}', w, h)[y][x] == 255) == (2 * y < h),
        (glyph_rows('\u{2584}', w, h)[y][x] == 255) == (2 * y >= h),
        (glyph_rows('\u{2581}', w, h)[y][x] == 255) == (8 * y >= 7 * h),
        (glyph_rows('\u{2587}', w, h)[y][x] == 255) == (8 * y >= h),
{
    let n = h / 8;
    assert(h == 8 * n);
    assert(eighths(h, 1) == n && eighths(h, 4) == 4 * n && eighths(h, 7) == 7 * n && eighths(h, 8)
        == h);
    assert(eighths(h, 0) == 0 && eighths(w, 8) == w);
    lemma_one_block('\u{2580}', w, h, x, y);
    lemma_one_block('\u{2584}', w, h, x, y);
    lemma_one_block('\u{2581}', w, h, x, y);
    lemma_one_block('\u{2587}', w, h, x, y);
}

/// The left block elements fill a cell from the left, each by its eighths, and the right half its
/// right half, in a cell whose sides can be parted into eighths.
#[verifier::spinoff_prover]
#[verifier::rlimit(40)]
pub proof fn law_left_blocks(w: int, h: int, x: int, y: int)
    requires
        8 <= w <= canvas::MAX_SIDE,
        8 <= h <= canvas::MAX_SIDE,
        w % 8 == 0,
        h % 8 == 0,
        0 <= x < w,
        0 <= y < h,
    ensures
        (glyph_rows('\u{258c}', w, h)[y][x] == 255) == (2 * x < w),
        (glyph_rows('\u{2590}', w, h)[y][x] == 255) == (2 * x >= w),
        (glyph_rows('\u{2589}', w, h)[y][x] == 255) == (8 * x < 7 * w),
        (glyph_rows('\u{258f}', w, h)[y][x] == 255) == (8 * x < w),
{
    let m = w / 8;
    assert(w == 8 * m);
    assert(eighths(w, 1) == m && eighths(w, 4) == 4 * m && eighths(w, 7) == 7 * m && eighths(w, 8)
        == w);
    assert(eighths(h, 0) == 0 && eighths(h, 8) == h);
    lemma_one_block('\u{258c}', w, h, x, y);
    lemma_one_block('\u{2590}', w, h, x, y);
    lemma_one_block('\u{2589}', w, h, x, y);
    lemma_one_block('\u{258f}', w, h, x, y);
}

/// The full block fills the cell, and the shades fill it evenly, lighter before darker.
pub proof fn law_full_block(w: int, h: int, x: int, y: int)
    requires
        0 <= x < w,
        0 <= y < h,
    ensures
        glyph_rows('\u{2588}', w, h)[y][x] == 255,
        glyph_rows('\u{2591}', w, h)[y][x] == 64,
        glyph_rows('\u{2592}', w, h)[y][x] == 128,
        glyph_rows('\u{2593}', w, h)[y][x] == 192,
{
}

/// A quarter block fills the quarter of a cell of even sides that it is named for, and nothing
/// else.
pub proof fn law_quarter_blocks(w: int, h: int, x: int, y: int)
    requires
        2 <= w <= canvas::MAX_SIDE,
        2 <= h <= canvas::MAX_SIDE,
        w % 2 == 0,
        h % 2 == 0,
        0 <= x < w,
        0 <= y < h,
    ensures
        (glyph_rows('\u{2598}', w, h)[y][x] == 255) == (2 * x < w && 2 * y < h),
        (glyph_rows('\u{259d}', w, h)[y][x] == 255) == (2 * x >= w && 2 * y < h),
        (glyph_rows('\u{2596}', w, h)[y][x] == 255) == (2 * x < w && 2 * y >= h),
        (glyph_rows('\u{2597}', w, h)[y][x] == 255) == (2 * x >= w && 2 * y >= h),
{
    lemma_one_quadrant('\u{2598}', w, h, x, y);
    lemma_one_quadrant('\u{259d}', w, h, x, y);
    lemma_one_quadrant('\u{2596}', w, h, x, y);
    lemma_one_quadrant('\u{2597}', w, h, x, y);
}

proof fn lemma_one_block(c: char, w: int, h: int, x: int, y: int)
    requires
        1 <= w <= canvas::MAX_SIDE,
        1 <= h <= canvas::MAX_SIDE,
        0 <= x < w,
        0 <= y < h,
        0x2580 <= c as u32 <= 0x2595,
        shade(c as u32) is None,
    ensures
        glyph_rows(c, w, h)[y][x] == if block_rect(c as u32, w, h).covers(x, y) {
            255u8
        } else {
            0u8
        },
{
    law_glyph_pixels(c, w, h, x, y);
    let rects = glyph_rects(c, w, h);
    assert(rects =~= seq![block_rect(c as u32, w, h)]);
    if block_rect(c as u32, w, h).covers(x, y) {
        assert(rects[0].covers(x, y));
    }
}

proof fn lemma_one_quadrant(c: char, w: int, h: int, x: int, y: int)
    requires
        1 <= w <= canvas::MAX_SIDE,
        1 <= h <= canvas::MAX_SIDE,
        0 <= x < w,
        0 <= y < h,
        0x2596 <= c as u32 <= 0x259f,
    ensures
        ({
            let r = quadrant_rects(c as u32, w, h);
            glyph_rows(c, w, h)[y][x] == if r[0].covers(x, y) || r[1].covers(x, y) || r[2].covers(
                x,
                y,
            ) || r[3].covers(x, y) {
                255u8
            } else {
                0u8
            }
        }),
{
    law_glyph_pixels(c, w, h, x, y);
    let r = quadrant_rects(c as u32, w, h);
    assert(glyph_rects(c, w, h) == r);
    if canvas::covered(r, x, y) {
        let i = choose|i: int| 0 <= i < r.len() && (#[trigger] r[i]).covers(x, y);
        assert(i == 0 || i == 1 || i == 2 || i == 3);
    }
    if r[0].covers(x, y) || r[1].covers(x, y) || r[2].covers(x, y) || r[3].covers(x, y) {
        assert(canvas::covered(r, x, y));
    }
}

} // verus!
