//! What the control functions for colours, attributes, modes, margins, reports and the title do.

use crate::cell::{CellAttrs, Color, CursorStyle};
use crate::effects::{after_csi, cursor_stands};
use crate::grid::{GridView, ScreenView};
use crate::laws::sound;
use crate::sgr::Pen;
use crate::term::TermView;
use crate::vt::EventView;
use vstd::prelude::*;

verus! {

/// The terminal is as before, but its pen is this one and no line break is due.
pub open spec fn pen_is(before: TermView, after: Option<TermView>, pen: Pen) -> bool {
    after == Some(TermView { pen, in_ground: true, pending_wrap: false, ..before })
}

proof fn lemma_rendition(t: TermView, p: Seq<u16>, now: [u8; 8])
    requires
        p.len() <= 32,
    ensures
        pen_is(t, after_csi(t, p, 'm', now), t.pen.after(p)),
{
    crate::effects::lemma_public(t, p, 'm', now);
    reveal(TermView::csi_public);
}

/// A direct colour is the pen's from then on as it was given, for text with 38 and for the
/// background with 48; so is an entry of the palette.
#[verifier::rlimit(40)]
pub proof fn law_extended_colours(t: TermView, r: u8, g: u8, b: u8, now: [u8; 8])
    ensures
        pen_is(
            t,
            after_csi(t, seq![38, 2, r as u16, g as u16, b as u16], 'm', now),
            Pen { fg: Color::Rgb(r, g, b), ..t.pen },
        ),
        pen_is(
            t,
            after_csi(t, seq![48, 2, r as u16, g as u16, b as u16], 'm', now),
            Pen { bg: Color::Rgb(r, g, b), ..t.pen },
        ),
        pen_is(
            t,
            after_csi(t, seq![38, 5, r as u16], 'm', now),
            Pen { fg: Color::Indexed(r), ..t.pen },
        ),
        pen_is(
            t,
            after_csi(t, seq![48, 5, r as u16], 'm', now),
            Pen { bg: Color::Indexed(r), ..t.pen },
        ),
{
    lemma_rendition(t, seq![38, 2, r as u16, g as u16, b as u16], now);
    lemma_rendition(t, seq![48, 2, r as u16, g as u16, b as u16], now);
    lemma_rendition(t, seq![38, 5, r as u16], now);
    lemma_rendition(t, seq![48, 5, r as u16], now);
    reveal_with_fuel(Pen::after_from, 3);
}

/// The eight colours and their bright variants, for text and for the background, and the way back
/// to the defaults.
#[verifier::rlimit(40)]
pub proof fn law_basic_colours(t: TermView, k: u16, now: [u8; 8])
    requires
        k < 8,
    ensures
        pen_is(
            t,
            after_csi(t, seq![(30 + k) as u16], 'm', now),
            Pen { fg: Color::Indexed(k as u8), ..t.pen },
        ),
        pen_is(
            t,
            after_csi(t, seq![(40 + k) as u16], 'm', now),
            Pen { bg: Color::Indexed(k as u8), ..t.pen },
        ),
        pen_is(
            t,
            after_csi(t, seq![(90 + k) as u16], 'm', now),
            Pen { fg: Color::Indexed((8 + k) as u8), ..t.pen },
        ),
        pen_is(
            t,
            after_csi(t, seq![(100 + k) as u16], 'm', now),
            Pen { bg: Color::Indexed((8 + k) as u8), ..t.pen },
        ),
        pen_is(t, after_csi(t, seq![39], 'm', now), Pen { fg: Color::Default, ..t.pen }),
        pen_is(t, after_csi(t, seq![49], 'm', now), Pen { bg: Color::Default, ..t.pen }),
{
    lemma_rendition(t, seq![(30 + k) as u16], now);
    lemma_rendition(t, seq![(40 + k) as u16], now);
    lemma_rendition(t, seq![(90 + k) as u16], now);
    lemma_rendition(t, seq![(100 + k) as u16], now);
    lemma_rendition(t, seq![39], now);
    lemma_rendition(t, seq![49], now);
    reveal_with_fuel(Pen::after_from, 2);
}


/// Attributes are switched on one by one, bold, dim, italic, underlined, blinking, inverse, hidden
/// and struck through, and off again, bold together with dim, and leave the others and the colours
/// alone.
#[verifier::rlimit(40)]
pub proof fn law_attributes(t: TermView, now: [u8; 8])
    ensures
        ({
            let bits = t.pen.attrs.bits;
            let with = |m: u16| Pen { attrs: CellAttrs { bits: bits | m }, ..t.pen };
            let without = |m: u16| Pen { attrs: CellAttrs { bits: bits & !m }, ..t.pen };
            &&& pen_is(t, after_csi(t, seq![1], 'm', now), with(0x01))
            &&& pen_is(t, after_csi(t, seq![2], 'm', now), with(0x02))
            &&& pen_is(t, after_csi(t, seq![3], 'm', now), with(0x04))
            &&& pen_is(t, after_csi(t, seq![4], 'm', now), with(0x08))
            &&& pen_is(t, after_csi(t, seq![5], 'm', now), with(0x10))
            &&& pen_is(t, after_csi(t, seq![7], 'm', now), with(0x20))
            &&& pen_is(t, after_csi(t, seq![8], 'm', now), with(0x40))
            &&& pen_is(t, after_csi(t, seq![9], 'm', now), with(0x80))
            &&& pen_is(t, after_csi(t, seq![22], 'm', now), without(0x03))
            &&& pen_is(t, after_csi(t, seq![23], 'm', now), without(0x04))
            &&& pen_is(t, after_csi(t, seq![24], 'm', now), without(0x08))
            &&& pen_is(t, after_csi(t, seq![25], 'm', now), without(0x10))
            &&& pen_is(t, after_csi(t, seq![27], 'm', now), without(0x20))
            &&& pen_is(t, after_csi(t, seq![28], 'm', now), without(0x40))
            &&& pen_is(t, after_csi(t, seq![29], 'm', now), without(0x80))
        }),
{
    assert(0x01u16 | 0x02u16 == 0x03u16) by (bit_vector);
    reveal_with_fuel(Pen::after_from, 2);
    lemma_rendition(t, seq![1], now);
    lemma_rendition(t, seq![2], now);
    lemma_rendition(t, seq![3], now);
    lemma_rendition(t, seq![4], now);
    lemma_rendition(t, seq![5], now);
    lemma_rendition(t, seq![7], now);
    lemma_rendition(t, seq![8], now);
    lemma_rendition(t, seq![9], now);
    lemma_rendition(t, seq![22], now);
    lemma_rendition(t, seq![23], now);
    lemma_rendition(t, seq![24], now);
    lemma_rendition(t, seq![25], now);
    lemma_rendition(t, seq![27], now);
    lemma_rendition(t, seq![28], now);
    lemma_rendition(t, seq![29], now);
}

/// Without parameters, or with a zero, colours and attributes are what they are at first.
pub proof fn law_rendition_reset(t: TermView, now: [u8; 8])
    ensures
        ({
            let plain = Pen {
                fg: Color::Default,
                bg: Color::Default,
                attrs: CellAttrs { bits: 0 },
            };
            &&& pen_is(t, after_csi(t, Seq::empty(), 'm', now), plain)
            &&& pen_is(t, after_csi(t, seq![0], 'm', now), plain)
        }),
{
    lemma_rendition(t, Seq::empty(), now);
    lemma_rendition(t, seq![0], now);
    reveal_with_fuel(Pen::after_from, 2);
}

#[verifier::rlimit(40)]
proof fn lemma_rendition_shift(pen: Pen, a: Seq<u16>, b: Seq<u16>, i: int)
    requires
        0 <= i,
    ensures
        pen.after_from(a + b, a.len() + i) == pen.after_from(b, i),
    decreases b.len() - i,
{
    if i < b.len() {
        let all = a + b;
        let k = a.len() + i;
        assert(all[k] == b[i]);
        assert(i + 1 < b.len() ==> all[k + 1] == b[i + 1]);
        assert(i + 2 < b.len() ==> all[k + 2] == b[i + 2]);
        assert(i + 3 < b.len() ==> all[k + 3] == b[i + 3]);
        assert(i + 4 < b.len() ==> all[k + 4] == b[i + 4]);
        let (next, j) = pen.after_one(b, i);
        assert(pen.after_one(all, k) == (next, a.len() + j));
        lemma_rendition_shift(next, a, b, j);
    }
}

/// The parameters of one sequence count as those of two: what comes first is done first. The first
/// part is one parameter that introduces no colour, or a whole extended colour.
#[verifier::rlimit(40)]
pub proof fn law_rendition_in_order(t: TermView, a: Seq<u16>, b: Seq<u16>, now: [u8; 8])
    requires
        b.len() > 0,
        a.len() + b.len() <= 32,
        ({
            ||| a.len() == 1 && a[0] != 38 && a[0] != 48
            ||| a.len() == 3 && (a[0] == 38 || a[0] == 48) && a[1] == 5
            ||| a.len() == 5 && (a[0] == 38 || a[0] == 48) && a[1] == 2
        }),
    ensures
        after_csi(t, a + b, 'm', now) == after_csi(
            after_csi(t, a, 'm', now).unwrap(),
            b,
            'm',
            now,
        ),
{
    lemma_rendition(t, a + b, now);
    lemma_rendition(t, a, now);
    lemma_rendition(after_csi(t, a, 'm', now).unwrap(), b, now);
    let all = a + b;
    assert(all[0] == a[0]);
    assert(a.len() > 1 ==> all[1] == a[1]);
    assert(a.len() > 2 ==> all[2] == a[2]);
    assert(a.len() > 3 ==> all[3] == a[3]);
    assert(a.len() > 4 ==> all[4] == a[4]);
    let (next, j) = t.pen.after_one(a, 0);
    assert(j == a.len());
    assert(t.pen.after_one(all, 0) == (next, j));
    assert(t.pen.after(a) == next) by {
        reveal_with_fuel(Pen::after_from, 2);
    }
    lemma_rendition_shift(next, a, b, 0);
}

/// The terminal after private modes are set or reset.
#[verifier::opaque]
pub open spec fn after_modes(t: TermView, p: Seq<u16>, on: bool, now: [u8; 8]) -> Option<TermView> {
    t.performed(
        EventView::Csi(
            p.map_values(|v: u16| seq![v]),
            seq![63u8],
            false,
            if on {
                'h'
            } else {
                'l'
            },
        ),
        now,
    )
}

/// The terminal is as before, but its grid is this one and no line break is due.
pub open spec fn grid_is(before: TermView, after: Option<TermView>, grid: GridView) -> bool {
    after == Some(TermView { grid, in_ground: true, pending_wrap: false, ..before })
}

proof fn lemma_modes(t: TermView, p: Seq<u16>, on: bool, now: [u8; 8])
    requires
        p.len() <= 32,
    ensures
        after_modes(t, p, on, now) == Some(
            TermView { in_ground: true, pending_wrap: false, ..t }.modes_changed(p, 0, on),
        ),
{
    reveal(after_modes);
    crate::effects::lemma_params(p);
}

pub(crate) proof fn lemma_one_mode(t: TermView, m: u16, on: bool, now: [u8; 8])
    ensures
        ({
            let u = TermView { in_ground: true, pending_wrap: false, ..t };
            after_modes(t, seq![m], on, now) == Some(
                if on {
                    u.mode_set(m)
                } else {
                    u.mode_reset(m)
                },
            )
        }),
{
    lemma_modes(t, seq![m], on, now);
    reveal_with_fuel(TermView::modes_changed, 2);
}

#[verifier::rlimit(40)]
proof fn lemma_switch(t: TermView, m: u16, on: bool, now: [u8; 8])
    requires
        m != 6 && m != 47 && m != 1047 && m != 1048 && m != 1049,
    ensures
        grid_is(t, after_modes(t, seq![m], on, now), t.grid.switched(m, on)),
{
    lemma_one_mode(t, m, on, now);
    reveal(TermView::mode_set);
    reveal(TermView::mode_reset);
}

/// Each mode that is a switch is on after it is set and off after it is reset, and nothing else
/// changes: the application's cursor keys, automatic wrapping, the cursor's visibility, the
/// application's keypad and bracketed pasting.
pub proof fn law_switches(t: TermView, on: bool, now: [u8; 8])
    ensures
        grid_is(
            t,
            after_modes(t, seq![1], on, now),
            GridView { application_cursor_keys: on, ..t.grid },
        ),
        grid_is(t, after_modes(t, seq![7], on, now), GridView { auto_wrap: on, ..t.grid }),
        grid_is(t, after_modes(t, seq![25], on, now), GridView { cursor_visible: on, ..t.grid }),
        grid_is(
            t,
            after_modes(t, seq![66], on, now),
            GridView { application_keypad: on, ..t.grid },
        ),
        grid_is(
            t,
            after_modes(t, seq![2004], on, now),
            GridView { bracketed_paste: on, ..t.grid },
        ),
{
    lemma_switch(t, 1, on, now);
    lemma_switch(t, 7, on, now);
    lemma_switch(t, 25, on, now);
    lemma_switch(t, 66, on, now);
    lemma_switch(t, 2004, on, now);
}

/// The mouse is reported as the mode that was set last asks for, and no longer after any of these
/// modes is reset; the extended format of reports is on from its being set to its being reset.
pub proof fn law_mouse_modes(t: TermView, mode: u16, now: [u8; 8])
    requires
        mode == 1000 || mode == 1002 || mode == 1003,
    ensures
        grid_is(
            t,
            after_modes(t, seq![mode], true, now),
            GridView { mouse_tracking: mode, ..t.grid },
        ),
        grid_is(
            t,
            after_modes(t, seq![mode], false, now),
            GridView { mouse_tracking: 0, ..t.grid },
        ),
        grid_is(
            t,
            after_modes(t, seq![1006], true, now),
            GridView { mouse_format: 1006, ..t.grid },
        ),
        grid_is(
            t,
            after_modes(t, seq![1006], false, now),
            GridView { mouse_format: 0, ..t.grid },
        ),
{
    lemma_switch(t, mode, true, now);
    lemma_switch(t, mode, false, now);
    lemma_switch(t, 1006, true, now);
    lemma_switch(t, 1006, false, now);
}

/// Origin mode puts the cursor at the start of the top margin's row, and leaving it at home.
pub proof fn law_origin_mode(t: TermView, now: [u8; 8])
    ensures
        cursor_stands(
            TermView { grid: GridView { origin_mode: true, ..t.grid }, ..t },
            after_modes(t, seq![6], true, now),
            t.grid.screen.top,
            0,
        ),
        cursor_stands(
            TermView { grid: GridView { origin_mode: false, ..t.grid }, ..t },
            after_modes(t, seq![6], false, now),
            0,
            0,
        ),
{
    lemma_one_mode(t, 6, true, now);
    lemma_one_mode(t, 6, false, now);
    reveal(TermView::mode_set);
    reveal(TermView::mode_reset);
}

/// Modes of one sequence are changed one after the other, in the order given.
#[verifier::rlimit(40)]
pub proof fn law_modes_in_order(t: TermView, m: u16, p: Seq<u16>, on: bool, now: [u8; 8])
    requires
        p.len() <= 31,
    ensures
        after_modes(t, seq![m] + p, on, now) == after_modes(
            after_modes(t, seq![m], on, now).unwrap(),
            p,
            on,
            now,
        ),
{
    let u = TermView { in_ground: true, pending_wrap: false, ..t };
    lemma_modes(t, seq![m] + p, on, now);
    lemma_modes(t, seq![m], on, now);
    let first = if on {
        u.mode_set(m)
    } else {
        u.mode_reset(m)
    };
    assert(after_modes(t, seq![m], on, now) == Some(first)) by {
        reveal_with_fuel(TermView::modes_changed, 2);
    }
    assert(first.in_ground && !first.pending_wrap) by {
        reveal(TermView::mode_set);
        reveal(TermView::mode_reset);
    }
    lemma_modes(first, p, on, now);
    assert(TermView { in_ground: true, pending_wrap: false, ..first } == first);
    assert((seq![m] + p)[0] == m);
    lemma_modes_shift(first, m, p, 0, on);
}

proof fn lemma_modes_shift(t: TermView, m: u16, p: Seq<u16>, i: int, on: bool)
    requires
        0 <= i,
    ensures
        t.modes_changed(seq![m] + p, i + 1, on) == t.modes_changed(p, i, on),
    decreases p.len() - i,
{
    if i < p.len() {
        assert((seq![m] + p)[i + 1] == p[i]);
        let next = if on {
            t.mode_set(p[i])
        } else {
            t.mode_reset(p[i])
        };
        lemma_modes_shift(next, m, p, i + 1, on);
    }
}

proof fn lemma_margins(t: TermView, p: Seq<u16>, now: [u8; 8])
    requires
        p.len() <= 32,
    ensures
        after_csi(t, p, 'r', now) == Some(
            TermView { in_ground: true, pending_wrap: false, ..t }.margins_set(p),
        ),
{
    crate::effects::lemma_public(t, p, 'r', now);
    reveal(TermView::csi_public);
}

/// Margins, counted from 1, hold where they leave at least two rows; a bottom margin beyond the
/// screen is its last row. The cursor goes home, in origin mode to the top margin. Margins that
/// leave fewer rows are not taken, and the cursor goes home all the same.
#[verifier::rlimit(40)]
pub proof fn law_margins(t: TermView, top: u16, bottom: u16, now: [u8; 8])
    requires
        sound(t),
        top >= 1,
        bottom >= 1,
    ensures
        ({
            let low = if bottom <= t.grid.rows {
                bottom - 1
            } else {
                t.grid.rows - 1
            };
            let s = t.grid.screen;
            let set = ScreenView { top: top - 1, bottom: low, ..s };
            let after = after_csi(t, seq![top, bottom], 'r', now);
            &&& top - 1 < low ==> cursor_stands(
                TermView { grid: GridView { screen: set, ..t.grid }, ..t },
                after,
                if t.grid.origin_mode {
                    top - 1
                } else {
                    0
                },
                0,
            )
            &&& top - 1 >= low ==> cursor_stands(
                t,
                after,
                if t.grid.origin_mode {
                    s.top
                } else {
                    0
                },
                0,
            )
        }),
{
    reveal(sound);
    lemma_margins(t, seq![top, bottom], now);
}

/// Without parameters the margins are the edges of the screen, of at least two and less than 65536
/// rows.
pub proof fn law_margins_off(t: TermView, now: [u8; 8])
    requires
        sound(t),
        2 <= t.grid.rows < 0x1_0000,
    ensures
        cursor_stands(
            TermView {
                grid: GridView {
                    screen: ScreenView { top: 0, bottom: t.grid.rows - 1, ..t.grid.screen },
                    ..t.grid
                },
                ..t
            },
            after_csi(t, Seq::empty(), 'r', now),
            0,
            0,
        ),
{
    reveal(sound);
    lemma_margins(t, Seq::empty(), now);
}

/// The terminal is as before, but it has given one more answer and no line break is due.
pub open spec fn replies(before: TermView, after: Option<TermView>, reply: Seq<u8>) -> bool {
    after == Some(
        TermView {
            replies: before.replies.push(reply),
            in_ground: true,
            pending_wrap: false,
            ..before
        },
    )
}

/// Asked for its state, the terminal says that it is well; asked for the cursor, it gives its row
/// and column in decimal, counted from 1: the numbers that bring the cursor back there.
#[verifier::rlimit(40)]
pub proof fn law_reports(t: TermView, now: [u8; 8])
    requires
        sound(t),
    ensures
        replies(t, after_csi(t, seq![5], 'n', now), seq![27u8, 91u8, 48u8, 110u8]),
        ({
            let row = crate::number::decimal((t.grid.screen.row + 1) as nat);
            let col = crate::number::decimal((t.grid.screen.col + 1) as nat);
            &&& replies(
                t,
                after_csi(t, seq![6], 'n', now),
                seq![27u8, 91u8] + row + seq![59u8] + col + seq![82u8],
            )
            &&& crate::number::value(row) == t.grid.screen.row + 1
            &&& crate::number::value(col) == t.grid.screen.col + 1
        }),
{
    reveal(sound);
    crate::effects::lemma_public(t, seq![5], 'n', now);
    crate::effects::lemma_public(t, seq![6], 'n', now);
    reveal(TermView::csi_public);
    crate::number::law_decimal_reads_back((t.grid.screen.row + 1) as nat);
    crate::number::law_decimal_reads_back((t.grid.screen.col + 1) as nat);
}

/// The cursor's style is a block for 0 to 2, a line below for 3 and 4, a line to the left for 5 and
/// 6, and a block for any other number.
#[verifier::rlimit(40)]
pub proof fn law_cursor_style(t: TermView, v: u16, now: [u8; 8])
    ensures
        grid_is(
            t,
            t.performed(EventView::Csi(seq![seq![v]], seq![32u8], false, 'q'), now),
            GridView {
                style: if v == 3 || v == 4 {
                    CursorStyle::Underline
                } else if v == 5 || v == 6 {
                    CursorStyle::Bar
                } else {
                    CursorStyle::Block
                },
                ..t.grid
            },
        ),
{
    reveal(TermView::csi_public);
    assert(crate::term::first_params(seq![seq![v]]) =~= seq![v]);
}

/// The commands 0 and 2 make a text the title, and change nothing else.
#[verifier::rlimit(40)]
pub proof fn law_title(t: TermView, text: Seq<char>, now: [u8; 8])
    ensures
        ({
            let s = Some(
                TermView { grid: GridView { title: text, ..t.grid }, in_ground: true, ..t },
            );
            &&& t.performed(
                EventView::Osc(seq![seq![48u8], vstd::utf8::encode_utf8(text)], true),
                now,
            ) == s
            &&& t.performed(
                EventView::Osc(seq![seq![50u8], vstd::utf8::encode_utf8(text)], true),
                now,
            ) == s
        }),
{
    vstd::utf8::encode_utf8_valid_utf8(text);
    vstd::utf8::encode_utf8_decode_utf8(text);
}

} // verus!
