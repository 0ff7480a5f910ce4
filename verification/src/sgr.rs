//! Select Graphic Rendition: the colours and attributes that new text gets.

use crate::cell::{Cell, CellAttrs, Color};
use vstd::prelude::*;

verus! {

/// Colours and attributes of text that is printed.
#[derive(Debug, Clone, Copy, PartialEq, Eq, Structural)]
pub struct Pen {
    pub fg: Color,
    pub bg: Color,
    pub attrs: CellAttrs,
}

/// A colour given by the parameters from `i + 1` on: `5;n` for a palette entry, `2;r;g;b` for a
/// direct colour. With it comes the number of parameters that it takes.
pub open spec fn extended_color(p: Seq<u16>, i: int) -> Option<(Color, int)> {
    if i + 2 < p.len() && p[i + 1] == 5 {
        Some((Color::Indexed(low_byte(p[i + 2])), 2))
    } else if i + 4 < p.len() && p[i + 1] == 2 {
        Some((Color::Rgb(low_byte(p[i + 2]), low_byte(p[i + 3]), low_byte(p[i + 4])), 4))
    } else {
        None
    }
}

/// The low eight bits of a parameter.
pub open spec fn low_byte(v: u16) -> u8 {
    (v % 256) as u8
}

/// The attributes that a parameter switches on.
pub open spec fn switched_on(v: u16) -> u16 {
    if v == 1 {
        CellAttrs::BOLD
    } else if v == 2 {
        CellAttrs::DIM
    } else if v == 3 {
        CellAttrs::ITALIC
    } else if v == 4 {
        CellAttrs::UNDERLINE
    } else if v == 5 || v == 6 {
        CellAttrs::BLINK
    } else if v == 7 {
        CellAttrs::INVERSE
    } else if v == 8 {
        CellAttrs::HIDDEN
    } else {
        CellAttrs::STRIKETHROUGH
    }
}

/// The attributes that a parameter switches off.
pub open spec fn switched_off(v: u16) -> u16 {
    if v == 22 {
        CellAttrs::BOLD | CellAttrs::DIM
    } else if v == 23 {
        CellAttrs::ITALIC
    } else if v == 24 {
        CellAttrs::UNDERLINE
    } else if v == 25 {
        CellAttrs::BLINK
    } else if v == 27 {
        CellAttrs::INVERSE
    } else if v == 28 {
        CellAttrs::HIDDEN
    } else {
        CellAttrs::STRIKETHROUGH
    }
}

impl Pen {
    /// Default colours, no attributes.
    pub open spec fn plain() -> Pen {
        Pen { fg: Color::Default, bg: Color::Default, attrs: CellAttrs::none() }
    }

    /// What the pen leaves behind when it erases: a space in its colours.
    pub open spec fn erased_cell(self) -> Cell {
        Cell { ch: ' ', fg: self.fg, bg: self.bg, attrs: CellAttrs::none() }
    }

    /// What the pen leaves behind when it prints `ch`.
    pub open spec fn printed(self, ch: char) -> Cell {
        Cell { ch, fg: self.fg, bg: self.bg, attrs: self.attrs }
    }

    /// What the pen leaves behind when it prints `ch` with further attributes `mask`.
    pub open spec fn printed_with(self, ch: char, mask: u16) -> Cell {
        Cell { ch, fg: self.fg, bg: self.bg, attrs: self.attrs.plus(mask) }
    }

    /// The pen after the parameter at `i`, and the index of the next parameter.
    pub open spec fn after_one(self, p: Seq<u16>, i: int) -> (Pen, int) {
        let v = p[i];
        if v == 0 {
            (Pen::plain(), i + 1)
        } else if 1 <= v <= 9 {
            (Pen { attrs: self.attrs.plus(switched_on(v)), ..self }, i + 1)
        } else if 22 <= v <= 29 && v != 26 {
            (Pen { attrs: self.attrs.minus(switched_off(v)), ..self }, i + 1)
        } else if 30 <= v <= 37 {
            (Pen { fg: Color::Indexed((v - 30) as u8), ..self }, i + 1)
        } else if v == 39 {
            (Pen { fg: Color::Default, ..self }, i + 1)
        } else if 40 <= v <= 47 {
            (Pen { bg: Color::Indexed((v - 40) as u8), ..self }, i + 1)
        } else if v == 49 {
            (Pen { bg: Color::Default, ..self }, i + 1)
        } else if 90 <= v <= 97 {
            (Pen { fg: Color::Indexed((v - 82) as u8), ..self }, i + 1)
        } else if 100 <= v <= 107 {
            (Pen { bg: Color::Indexed((v - 92) as u8), ..self }, i + 1)
        } else if v == 38 {
            match extended_color(p, i) {
                Some((c, n)) => (Pen { fg: c, ..self }, i + 1 + n),
                None => (self, i + 1),
            }
        } else if v == 48 {
            match extended_color(p, i) {
                Some((c, n)) => (Pen { bg: c, ..self }, i + 1 + n),
                None => (self, i + 1),
            }
        } else {
            (self, i + 1)
        }
    }

    /// The pen after the parameters from `i` on.
    pub open spec fn after_from(self, p: Seq<u16>, i: int) -> Pen
        decreases p.len() - i,
    {
        if i < 0 || i >= p.len() {
            self
        } else {
            let (pen, next) = self.after_one(p, i);
            pen.after_from(p, next)
        }
    }

    /// The pen after an SGR sequence; without parameters it resets the pen.
    pub open spec fn after(self, p: Seq<u16>) -> Pen {
        if p.len() == 0 {
            Pen::plain()
        } else {
            self.after_from(p, 0)
        }
    }

    /// Default colours, no attributes.
    pub fn reset() -> (r: Pen)
        ensures
            r == Pen::plain(),
    {
        Pen { fg: Color::Default, bg: Color::Default, attrs: CellAttrs::empty() }
    }

    /// What the pen leaves behind when it erases.
    pub fn erase_cell(&self) -> (r: Cell)
        ensures
            r == self.erased_cell(),
    {
        Cell { ch: ' ', fg: self.fg, bg: self.bg, attrs: CellAttrs::empty() }
    }

    /// What the pen leaves behind when it prints `ch`.
    pub fn cell(&self, ch: char) -> (r: Cell)
        ensures
            r == self.printed(ch),
    {
        Cell { ch, fg: self.fg, bg: self.bg, attrs: self.attrs }
    }

    /// What the pen leaves behind when it prints `ch` with further attributes `mask`.
    pub fn cell_with(&self, ch: char, mask: u16) -> (r: Cell)
        ensures
            r == self.printed_with(ch, mask),
    {
        Cell { ch, fg: self.fg, bg: self.bg, attrs: self.attrs.insert(mask) }
    }

    /// The pen after one parameter, and the index of the next one.
    fn step(&self, p: &[u16], i: usize) -> (r: (Pen, usize))
        requires
            i < p@.len(),
        ensures
            r.0 == self.after_one(p@, i as int).0,
            r.1 == self.after_one(p@, i as int).1,
            i < r.1 <= p@.len(),
    {
        let v: u16 = p[i];
        let mut pen: Pen = *self;
        let mut next: usize = i + 1;
        if v == 0 {
            pen = Pen::reset();
        } else if v == 1 {
            pen.attrs = self.attrs.insert(CellAttrs::BOLD);
        } else if v == 2 {
            pen.attrs = self.attrs.insert(CellAttrs::DIM);
        } else if v == 3 {
            pen.attrs = self.attrs.insert(CellAttrs::ITALIC);
        } else if v == 4 {
            pen.attrs = self.attrs.insert(CellAttrs::UNDERLINE);
        } else if v == 5 || v == 6 {
            pen.attrs = self.attrs.insert(CellAttrs::BLINK);
        } else if v == 7 {
            pen.attrs = self.attrs.insert(CellAttrs::INVERSE);
        } else if v == 8 {
            pen.attrs = self.attrs.insert(CellAttrs::HIDDEN);
        } else if v == 9 {
            pen.attrs = self.attrs.insert(CellAttrs::STRIKETHROUGH);
        } else if v == 22 {
            pen.attrs = self.attrs.remove(CellAttrs::BOLD | CellAttrs::DIM);
        } else if v == 23 {
            pen.attrs = self.attrs.remove(CellAttrs::ITALIC);
        } else if v == 24 {
            pen.attrs = self.attrs.remove(CellAttrs::UNDERLINE);
        } else if v == 25 {
            pen.attrs = self.attrs.remove(CellAttrs::BLINK);
        } else if v == 27 {
            pen.attrs = self.attrs.remove(CellAttrs::INVERSE);
        } else if v == 28 {
            pen.attrs = self.attrs.remove(CellAttrs::HIDDEN);
        } else if v == 29 {
            pen.attrs = self.attrs.remove(CellAttrs::STRIKETHROUGH);
        } else if v >= 30 && v <= 37 {
            pen.fg = Color::Indexed((v - 30) as u8);
        } else if v == 39 {
            pen.fg = Color::Default;
        } else if v >= 40 && v <= 47 {
            pen.bg = Color::Indexed((v - 40) as u8);
        } else if v == 49 {
            pen.bg = Color::Default;
        } else if v >= 90 && v <= 97 {
            pen.fg = Color::Indexed((v - 82) as u8);
        } else if v >= 100 && v <= 107 {
            pen.bg = Color::Indexed((v - 92) as u8);
        } else if v == 38 || v == 48 {
            let color: Option<(Color, usize)> = parse_color(p, i);
            match color {
                Some((c, n)) => {
                    if v == 38 {
                        pen.fg = c;
                    } else {
                        pen.bg = c;
                    }
                    next = i + 1 + n;
                },
                None => {},
            }
        }
        (pen, next)
    }

    /// The pen after an SGR sequence with the parameters `p`.
    pub fn select(&self, p: &[u16]) -> (r: Pen)
        ensures
            r == self.after(p@),
    {
        if p.len() == 0 {
            return Pen::reset();
        }
        let mut pen: Pen = *self;
        let mut i: usize = 0;
        while i < p.len()
            invariant
                i <= p@.len(),
                p@.len() > 0,
                pen.after_from(p@, i as int) == self.after(p@),
            decreases p@.len() - i,
        {
            let (stepped, next): (Pen, usize) = pen.step(p, i);
            pen = stepped;
            i = next;
        }
        pen
    }
}

/// Reads the colour that follows a parameter 38 or 48 at `i`.
fn parse_color(p: &[u16], i: usize) -> (r: Option<(Color, usize)>)
    requires
        i < p@.len(),
    ensures
        match (r, extended_color(p@, i as int)) {
            (Some((c, n)), Some((d, m))) => c == d && n == m && i + n < p@.len(),
            (None, None) => true,
            _ => false,
        },
{
    let left: usize = p.len() - i;
    if left > 2 && p[i + 1] == 5 {
        Some((Color::Indexed((p[i + 2] % 256) as u8), 2))
    } else if left > 4 && p[i + 1] == 2 {
        Some(
            (
                Color::Rgb(
                    (p[i + 2] % 256) as u8,
                    (p[i + 3] % 256) as u8,
                    (p[i + 4] % 256) as u8,
                ),
                4,
            ),
        )
    } else {
        None
    }
}

/// A reset parameter forgets whatever the pen was.
pub proof fn law_reset_forgets(a: Pen, b: Pen, p: Seq<u16>)
    requires
        p.len() > 0,
        p[0] == 0,
    ensures
        a.after(p) == b.after(p),
{
}

} // verus!
