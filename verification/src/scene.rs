//! What a pane shows: which rows, in which order, and for each cell which glyph in which colours.
//!
//! A pane in log mode has a gutter with line numbers and times, bars and rules that set command
//! blocks apart, and folds. The result is a list of quads; drawing them needs only the size of a
//! cell, the pane's corner and the glyphs' pictures.

use crate::blocks;
use crate::cell::{Cell, CellAttrs, Color, CursorStyle};
use crate::grid::{Grid, GridView};
use crate::number;
use crate::osc;
use crate::places::CellSet;
use crate::text;
use crate::theme::ThemeBytes;
use std::collections::HashSet;
use vstd::prelude::*;
use vstd::string::StringExecFns;

verus! {

broadcast use {vstd::std_specs::hash::group_hash_axioms, vstd::array::group_array_axioms};

/// Number of columns reserved for the log-mode gutter (fold indicator, line number, timestamp,
/// separator).
pub const LOG_GUTTER_COLS: usize = 20;

/// A colour: one of the theme's, as bytes, or one by its part in the picture.
#[derive(Debug, Clone, Copy, PartialEq, Eq, Structural)]
pub enum Ink {
    Rgba(u8, u8, u8, u8),
    /// The theme's background, a little lighter.
    Tint,
    MatchFg,
    MatchBg,
    CurrentFg,
    CurrentBg,
    GutterFg,
    GutterBg,
    GutterTime,
    GutterRule,
    FoldMark,
    SummaryFg,
    SummaryBg,
    BlockRule,
    TabBar,
    TabActive,
    /// The bar of a command block; six colours take turns.
    Block(u8),
}

/// What is drawn at a quad's place.
#[derive(Debug, Clone, Copy, PartialEq, Eq, Structural)]
pub enum Shape {
    /// A cell of the terminal.
    Cell,
    /// A cell of the gutter or of a summary line.
    Label,
    /// The bar beside a block's rows.
    Bar,
    /// The rule above a block's first row.
    Rule,
    /// The cursor as a line below the cell.
    CursorUnderline,
    /// The cursor as a line left of the cell.
    CursorBar,
}

/// One thing to draw: its place in cells from the pane's corner, its glyph and its colours.
#[derive(Debug, Clone, Copy, PartialEq, Eq, Structural)]
pub struct Quad {
    pub pane: usize,
    pub row: usize,
    pub col: usize,
    pub shape: Shape,
    pub glyph: Option<char>,
    pub fg: Ink,
    pub bg: Ink,
    /// The cell is two columns wide.
    pub wide: bool,
}

/// What a pane shows and how, as plain values.
pub ghost struct Look {
    pub pane: usize,
    pub g: GridView,
    pub theme: ThemeBytes,
    pub log: bool,
    pub show_cursor: bool,
    pub folds: Set<u64>,
    pub all: Set<(usize, usize)>,
    pub current: Set<(usize, usize)>,
}

/// A colour in a theme, as bytes.
pub open spec fn in_theme(t: ThemeBytes, color: Color, is_fg: bool) -> (u8, u8, u8, u8) {
    match color {
        Color::Default => if is_fg {
            t.fg
        } else {
            t.bg
        },
        Color::Indexed(i) => if i < 16 {
            let c = t.ansi@[i as int];
            (c.0, c.1, c.2, 255)
        } else if i < 232 {
            (
                ((i - 16) / 36 * 51) as u8,
                ((i - 16) / 6 % 6 * 51) as u8,
                ((i - 16) % 6 * 51) as u8,
                255,
            )
        } else {
            (
                ((i - 232) * 10 + 8) as u8,
                ((i - 232) * 10 + 8) as u8,
                ((i - 232) * 10 + 8) as u8,
                255,
            )
        },
        Color::Rgb(r, g, b) => (r, g, b, 255),
    }
}

pub open spec fn ink(c: (u8, u8, u8, u8)) -> Ink {
    Ink::Rgba(c.0, c.1, c.2, c.3)
}

/// The glyph of a character: none for a space or anything before it.
pub open spec fn glyph_of(c: char) -> Option<char> {
    if c as int > ' ' as int {
        Some(c)
    } else {
        None
    }
}

/// The cell in a column of a line; beyond its end a blank one.
pub open spec fn cell_in(line: Seq<Cell>, col: int) -> Cell {
    if col < line.len() {
        line[col]
    } else {
        Cell::blank()
    }
}

impl Look {
    /// The cursor's absolute row; the largest number stands for a pane that is scrolled back.
    pub open spec fn cursor(self) -> int {
        if self.g.offset > 0 {
            usize::MAX as int
        } else {
            self.g.cursor_abs()
        }
    }

    /// The columns before the terminal's first.
    pub open spec fn gutter(self) -> int {
        if self.log {
            20
        } else {
            0
        }
    }

    /// The colours of a cell: its own, then those of a selection, then those of a search match,
    /// and swapped under a block cursor.
    pub open spec fn inks(self, cell: Cell, abs: int, col: int, block: int) -> (Ink, Ink) {
        let under = in_theme(self.theme, cell.bg, false);
        let plain = if self.log && block % 2 == 1 && under == self.theme.bg {
            Ink::Tint
        } else {
            ink(under)
        };
        let selected = self.g.selection matches Some(s) && s.covers(abs, col);
        let bg = if selected {
            ink(self.theme.selection_bg)
        } else {
            plain
        };
        let (fg, bg) = if self.current.contains((abs as usize, col as usize)) {
            (Ink::CurrentFg, Ink::CurrentBg)
        } else if self.all.contains((abs as usize, col as usize)) {
            (Ink::MatchFg, Ink::MatchBg)
        } else {
            (ink(in_theme(self.theme, cell.fg, true)), bg)
        };
        if self.show_cursor && abs == self.cursor() && col == self.g.screen.col && self.g.style
            == CursorStyle::Block {
            (bg, fg)
        } else {
            (fg, bg)
        }
    }

    /// The quad of a cell.
    pub open spec fn cell_quad(self, cell: Cell, abs: int, col: int, v: int, block: int) -> Quad {
        let (fg, bg) = self.inks(cell, abs, col, block);
        Quad {
            pane: self.pane,
            row: v as usize,
            col: (self.gutter() + col) as usize,
            shape: Shape::Cell,
            glyph: glyph_of(cell.ch),
            fg,
            bg,
            wide: cell.attrs.has(CellAttrs::WIDE),
        }
    }

    /// The quads of the first `n` columns of a line; the right half of a wide character has none.
    pub open spec fn cell_quads(
        self,
        line: Seq<Cell>,
        abs: int,
        v: int,
        block: int,
        n: nat,
    ) -> Seq<Quad>
        decreases n,
    {
        if n == 0 {
            Seq::empty()
        } else {
            let before = self.cell_quads(line, abs, v, block, (n - 1) as nat);
            let cell = cell_in(line, n - 1);
            if cell.attrs.has(CellAttrs::WIDE_TAIL) {
                before
            } else {
                before.push(self.cell_quad(cell, abs, n - 1, v, block))
            }
        }
    }
}

/// A pane to plan.
pub struct Pane<'a> {
    /// The pane's place among the panes of the frame.
    pub pane: usize,
    pub grid: &'a Grid,
    pub theme: &'a ThemeBytes,
    /// The pane shows the log view.
    pub log: bool,
    pub show_cursor: bool,
    /// The blocks that are folded.
    pub folds: &'a HashSet<u64>,
    /// The cells of all search matches and of the current one.
    pub all: &'a CellSet,
    pub current: &'a CellSet,
}

impl<'a> Pane<'a> {
    pub open spec fn look(self) -> Look {
        Look {
            pane: self.pane,
            g: self.grid@,
            theme: *self.theme,
            log: self.log,
            show_cursor: self.show_cursor,
            folds: self.folds@,
            all: self.all@,
            current: self.current@,
        }
    }

    pub open spec fn wf(self) -> bool {
        &&& self.grid@.wf()
        &&& self.theme.ansi@.len() == 16
        &&& self.all.wf()
        &&& self.current.wf()
        &&& self.grid@.cols <= crate::grid::size_limit()
        &&& self.grid@.rows <= crate::grid::size_limit()
    }

    /// Whether the cursor shows: it is on, it blinks on, the pane has the focus, and it is not
    /// scrolled back.
    pub fn cursor_shows(grid: &Grid, blink_on: bool, focused: bool) -> (r: bool)
        ensures
            r == (grid@.cursor_visible && blink_on && focused && grid@.offset == 0),
    {
        proof {
            grid.lemma_fields();
        }
        grid.cursor_visible && blink_on && focused && grid.scroll_offset == 0
    }

    /// The cursor's absolute row, or the largest number for a pane that is scrolled back.
    fn cursor_row(&self) -> (r: usize)
        requires
            self.wf(),
        ensures
            r == self.look().cursor(),
    {
        proof {
            self.grid.lemma_fields();
        }
        if self.grid.scroll_offset > 0 {
            usize::MAX
        } else {
            self.grid.scrollback.len() + self.grid.cursor_row
        }
    }
}

/// A colour in a theme, as bytes.
pub fn theme_color(theme: &ThemeBytes, color: &Color, is_fg: bool) -> (r: (u8, u8, u8, u8))
    requires
        theme.ansi@.len() == 16,
    ensures
        r == in_theme(*theme, *color, is_fg),
{
    match *color {
        Color::Default => if is_fg {
            theme.fg
        } else {
            theme.bg
        },
        Color::Indexed(i) => if i < 16 {
            let c = theme.ansi[i as usize];
            (c.0, c.1, c.2, 255)
        } else if i < 232 {
            let k: u8 = i - 16;
            (k / 36 * 51, k / 6 % 6 * 51, k % 6 * 51, 255)
        } else {
            let v: u8 = (i - 232) * 10 + 8;
            (v, v, v, 255)
        },
        Color::Rgb(r, g, b) => (r, g, b, 255),
    }
}

fn to_ink(c: (u8, u8, u8, u8)) -> (r: Ink)
    ensures
        r == ink(c),
{
    Ink::Rgba(c.0, c.1, c.2, c.3)
}

fn glyph(c: char) -> (r: Option<char>)
    ensures
        r == glyph_of(c),
{
    if c > ' ' {
        Some(c)
    } else {
        None
    }
}

fn same_color(a: (u8, u8, u8, u8), b: (u8, u8, u8, u8)) -> (r: bool)
    ensures
        r == (a == b),
{
    a.0 == b.0 && a.1 == b.1 && a.2 == b.2 && a.3 == b.3
}

fn cell_or_blank(line: &Vec<Cell>, col: usize) -> (r: Cell)
    ensures
        r == cell_in(line@, col as int),
{
    if col < line.len() {
        line[col]
    } else {
        Cell::default()
    }
}

impl<'a> Pane<'a> {
    fn cell_inks(&self, cell: &Cell, abs: usize, col: usize, block: usize) -> (r: (Ink, Ink))
        requires
            self.wf(),
        ensures
            r == self.look().inks(*cell, abs as int, col as int, block as int),
    {
        proof {
            self.grid.lemma_fields();
        }
        let under: (u8, u8, u8, u8) = theme_color(self.theme, &cell.bg, false);
        let plain: Ink = if self.log && block % 2 == 1 && same_color(under, self.theme.bg) {
            Ink::Tint
        } else {
            to_ink(under)
        };
        let selected: bool = match &self.grid.selection {
            Some(s) => s.contains(abs, col),
            None => false,
        };
        let own_bg: Ink = if selected {
            to_ink(self.theme.selection_bg)
        } else {
            plain
        };
        let (fg, bg): (Ink, Ink) = if self.current.contains(abs, col) {
            (Ink::CurrentFg, Ink::CurrentBg)
        } else if self.all.contains(abs, col) {
            (Ink::MatchFg, Ink::MatchBg)
        } else {
            (to_ink(theme_color(self.theme, &cell.fg, true)), own_bg)
        };
        if self.show_cursor && abs == self.cursor_row() && col == self.grid.cursor_col
            && self.grid.cursor_style == CursorStyle::Block {
            (bg, fg)
        } else {
            (fg, bg)
        }
    }

    /// Appends the quads of a line.
    pub fn push_cells(
        &self,
        out: &mut Vec<Quad>,
        line: &Vec<Cell>,
        abs: usize,
        v: usize,
        block: usize,
    )
        requires
            self.wf(),
        ensures
            final(out)@ == old(out)@ + self.look().cell_quads(
                line@,
                abs as int,
                v as int,
                block as int,
                self.grid@.cols as nat,
            ),
    {
        proof {
            self.grid.lemma_fields();
        }
        let ghost look = self.look();
        let ghost base = out@;
        let gutter: usize = if self.log {
            LOG_GUTTER_COLS
        } else {
            0
        };
        let mut col: usize = 0;
        assert(out@ =~= base + look.cell_quads(line@, abs as int, v as int, block as int, 0));
        while col < self.grid.cols
            invariant
                self.wf(),
                look == self.look(),
                self.grid.cols == self.grid@.cols,
                col <= self.grid.cols,
                gutter == look.gutter(),
                out@ == base + look.cell_quads(
                    line@,
                    abs as int,
                    v as int,
                    block as int,
                    col as nat,
                ),
            decreases self.grid.cols - col,
        {
            let cell: Cell = cell_or_blank(line, col);
            if !cell.attrs.contains(CellAttrs::WIDE_TAIL) {
                let (fg, bg): (Ink, Ink) = self.cell_inks(&cell, abs, col, block);
                out.push(
                    Quad {
                        pane: self.pane,
                        row: v,
                        col: gutter + col,
                        shape: Shape::Cell,
                        glyph: glyph(cell.ch),
                        fg,
                        bg,
                        wide: cell.attrs.contains(CellAttrs::WIDE),
                    },
                );
            }
            col = col + 1;
            assert(out@ =~= base + look.cell_quads(
                line@,
                abs as int,
                v as int,
                block as int,
                col as nat,
            ));
        }
    }
}

/// A quad of the gutter or of a summary line.
pub open spec fn label_quad(pane: usize, v: int, col: int, c: char, fg: Ink, bg: Ink) -> Quad {
    Quad {
        pane,
        row: v as usize,
        col: col as usize,
        shape: Shape::Label,
        glyph: glyph_of(c),
        fg,
        bg,
        wide: false,
    }
}

/// A quad that is one colour.
pub open spec fn flat_quad(pane: usize, v: int, col: int, shape: Shape, c: Ink) -> Quad {
    Quad { pane, row: v as usize, col: col as usize, shape, glyph: None, fg: c, bg: c, wide: false }
}

/// How many of the rows `from..to` begin a logical line.
pub open spec fn logical_lines(g: GridView, from: int, to: int) -> nat
    decreases to - from,
{
    if to <= from {
        0
    } else {
        logical_lines(g, from, to - 1) + if g.screen.continues(to - 1) {
            0nat
        } else {
            1nat
        }
    }
}

/// What a row of the pane shows.
pub ghost enum RowItem {
    /// A line that stands for the folded rows `from..to`.
    Summary { from: int, to: int },
    /// A row of the terminal: its block, whether the block starts here, and how many logical lines
    /// there are up to it.
    Line { abs: int, block: int, id: u64, starts: bool, number: nat },
}

/// Where the walk down the rows has come to: the absolute row, the block it is in, and how many
/// logical lines lie above.
pub ghost struct Walk {
    pub abs: int,
    pub block: int,
    pub id: u64,
    pub line: nat,
}

impl Look {
    /// The first row that is shown.
    pub open spec fn first_row(self) -> int {
        if self.log {
            self.g.blocks.top_row(
                self.folds,
                self.g.screen.total(),
                self.cursor(),
                self.g.rows,
                self.g.offset,
            )
        } else {
            self.g.view_start()
        }
    }

    /// Where the walk begins.
    pub open spec fn start(self) -> Walk {
        let abs = self.first_row();
        let k = self.g.blocks.upper(abs);
        let known = self.log && k > 0;
        Walk {
            abs,
            block: if known {
                k - 1
            } else {
                0
            },
            id: if known {
                self.g.blocks.blocks[k - 1].id
            } else {
                0
            },
            line: if self.log {
                logical_lines(self.g, 0, abs)
            } else {
                0
            },
        }
    }

    /// The walk's row is left out: what once was wrapped into it is gone.
    pub open spec fn skips(self, w: Walk) -> bool {
        self.log && w.abs != self.cursor() && self.g.screen.phantom(w.abs)
    }

    /// A block starts at the walk's row.
    pub open spec fn starts(self, w: Walk) -> bool {
        self.log && self.g.blocks.starts_at(w.abs)
    }

    /// The walk with the block that starts at its row.
    pub open spec fn entered(self, w: Walk) -> Walk {
        if self.starts(w) {
            let k = self.g.blocks.upper(w.abs);
            Walk { block: k - 1, id: self.g.blocks.blocks[k - 1].id, ..w }
        } else {
            w
        }
    }

    /// Where the fold at the walk's row ends: at its block's end or at the cursor.
    pub open spec fn fold_to(self, w: Walk) -> int {
        blocks::clip(self.g.blocks.end_row(w.block, self.g.screen.total()), self.cursor())
    }

    /// The walk's row is folded away, with those below it.
    pub open spec fn folds_here(self, w: Walk) -> bool {
        self.log && !self.starts(w) && self.folds.contains(w.id) && self.fold_to(w) > w.abs
    }

    /// The row that the walk has come to.
    pub open spec fn line_item(self, w: Walk) -> RowItem {
        RowItem::Line {
            abs: w.abs,
            block: w.block,
            id: w.id,
            starts: self.starts(w),
            number: self.line_after(w),
        }
    }

    /// The logical lines up to and with the walk's row.
    pub open spec fn line_after(self, w: Walk) -> nat {
        if self.log && !self.g.screen.continues(w.abs) {
            w.line + 1
        } else {
            w.line
        }
    }

    /// The rows that the pane shows from the walk's row on, when `v` are filled.
    pub open spec fn layout(self, w: Walk, v: nat) -> Seq<RowItem>
        decreases blocks::monus(self.g.screen.total(), w.abs),
    {
        if v >= self.g.rows || w.abs >= self.g.screen.total() {
            Seq::empty()
        } else if self.skips(w) {
            self.layout(Walk { abs: w.abs + 1, ..w }, v)
        } else {
            let e = self.entered(w);
            if self.folds_here(e) {
                seq![RowItem::Summary { from: e.abs, to: self.fold_to(e) }] + self.layout(
                    Walk { abs: self.fold_to(e), ..e },
                    v + 1,
                )
            } else {
                seq![self.line_item(e)] + self.layout(
                    Walk { abs: e.abs + 1, line: self.line_after(e), ..e },
                    v + 1,
                )
            }
        }
    }

    /// The text of a line that stands for folded rows.
    pub open spec fn summary_text(self, from: int, to: int) -> Seq<char> {
        "  --- "@ + number::digits(logical_lines(self.g, from, to)) + " lines folded ---"@
    }

    /// The quads of a line that stands for folded rows: the empty gutter, then the text as far as
    /// there are columns, then empty cells.
    pub open spec fn summary_quads(self, from: int, to: int, v: int) -> Seq<Quad> {
        let t = self.summary_text(from, to);
        Seq::new(20, |i: int| label_quad(self.pane, v, i, ' ', Ink::GutterFg, Ink::SummaryBg))
            + Seq::new(
            self.g.cols as nat,
            |i: int|
                label_quad(
                    self.pane,
                    v,
                    20 + i,
                    if i < t.len() {
                        t[i]
                    } else {
                        ' '
                    },
                    Ink::SummaryFg,
                    Ink::SummaryBg,
                ),
        )
    }

    /// The time in the gutter.
    pub open spec fn time_text(self, abs: int) -> Seq<char> {
        match self.g.stamp_of(abs) {
            Some(ts) => if vstd::utf8::valid_utf8(ts@) {
                vstd::utf8::decode_utf8(ts@)
            } else {
                "--:--:--"@
            },
            None => "        "@,
        }
    }

    /// The text of the gutter: the fold mark of a block's first row, the line's number and time; a
    /// wrapped row has a dot.
    pub open spec fn gutter_text(self, abs: int, id: u64, starts: bool, n: nat) -> Seq<char> {
        let wrapped = self.g.screen.continues(abs);
        let mark = if !starts || wrapped {
            ' '
        } else if self.folds.contains(id) {
            '>'
        } else {
            'v'
        };
        let label = if wrapped {
            "   ·"@
        } else {
            number::spaced(n, 4)
        };
        let time = if wrapped {
            "        "@
        } else {
            self.time_text(abs)
        };
        seq![mark] + label + " "@ + time + " | "@
    }

    /// The colour of a column of the gutter.
    pub open spec fn gutter_ink(i: int, starts: bool) -> Ink {
        if i == 0 && starts {
            Ink::FoldMark
        } else if 6 <= i < 14 {
            Ink::GutterTime
        } else if i == 18 {
            Ink::GutterRule
        } else {
            Ink::GutterFg
        }
    }

    /// The quads of the gutter: its text as far as there is room, the block's bar, and the rule
    /// above a block's first row, unless that is the very first.
    pub open spec fn gutter_quads(
        self,
        abs: int,
        block: int,
        id: u64,
        starts: bool,
        n: nat,
        v: int,
    ) -> Seq<Quad> {
        let t = self.gutter_text(abs, id, starts, n);
        let text = Seq::new(
            crate::grid::min(t.len() as int, 20) as nat,
            |i: int|
                label_quad(self.pane, v, i, t[i], Look::gutter_ink(i, starts), Ink::GutterBg),
        );
        let bar = text.push(flat_quad(self.pane, v, 20, Shape::Bar, Ink::Block((block % 6) as u8)));
        if starts && abs > 0 {
            bar.push(flat_quad(self.pane, v, 0, Shape::Rule, Ink::BlockRule))
        } else {
            bar
        }
    }

    /// The quads of a row.
    pub open spec fn row_quads(self, item: RowItem, v: int) -> Seq<Quad> {
        match item {
            RowItem::Summary { from, to } => self.summary_quads(from, to, v),
            RowItem::Line { abs, block, id, starts, number } => {
                let cells = self.cell_quads(
                    self.g.screen.line(abs).unwrap(),
                    abs,
                    v,
                    block,
                    self.g.cols as nat,
                );
                if self.log {
                    self.gutter_quads(abs, block, id, starts, number, v) + cells
                } else {
                    cells
                }
            },
        }
    }

    /// The quads of rows, one below the other from the top.
    pub open spec fn rows_quads(self, items: Seq<RowItem>) -> Seq<Quad>
        decreases items.len(),
    {
        if items.len() == 0 {
            Seq::empty()
        } else {
            self.rows_quads(items.drop_last()) + self.row_quads(items.last(), items.len() - 1)
        }
    }

    /// The row of the pane where the cursor's row is shown, if it is.
    pub open spec fn cursor_place(self, items: Seq<RowItem>) -> Option<int>
        decreases items.len(),
    {
        if items.len() == 0 {
            None
        } else if items.last() matches RowItem::Line { abs, .. } && abs == self.cursor() {
            Some(items.len() - 1)
        } else {
            self.cursor_place(items.drop_last())
        }
    }

    /// The quad of a cursor that is no block.
    pub open spec fn overlay(self, items: Seq<RowItem>) -> Seq<Quad> {
        match self.cursor_place(items) {
            Some(v) => if self.show_cursor && self.g.style != CursorStyle::Block {
                seq![
                    flat_quad(
                        self.pane,
                        v,
                        self.gutter() + self.g.screen.col,
                        if self.g.style == CursorStyle::Underline {
                            Shape::CursorUnderline
                        } else {
                            Shape::CursorBar
                        },
                        ink(self.theme.cursor_bg),
                    ),
                ]
            } else {
                Seq::empty()
            },
            None => Seq::empty(),
        }
    }

    /// The rows of the pane.
    pub open spec fn items(self) -> Seq<RowItem> {
        self.layout(self.start(), 0)
    }

    /// Everything that the pane shows.
    pub open spec fn quads(self) -> Seq<Quad> {
        self.rows_quads(self.items()) + self.overlay(self.items())
    }

    /// The pane's rows can be counted.
    pub open spec fn countable(self) -> bool {
        self.log ==> self.g.blocks.vtotal(self.folds, self.g.screen.total(), self.cursor())
            <= usize::MAX && self.g.rows + self.g.offset <= usize::MAX
    }
}

impl<'a> Pane<'a> {
    fn label(&self, v: usize, col: usize, c: char, fg: Ink, bg: Ink) -> (r: Quad)
        ensures
            r == label_quad(self.pane, v as int, col as int, c, fg, bg),
    {
        Quad {
            pane: self.pane,
            row: v,
            col,
            shape: Shape::Label,
            glyph: glyph(c),
            fg,
            bg,
            wide: false,
        }
    }

    fn flat(&self, v: usize, col: usize, shape: Shape, c: Ink) -> (r: Quad)
        ensures
            r == flat_quad(self.pane, v as int, col as int, shape, c),
    {
        Quad { pane: self.pane, row: v, col, shape, glyph: None, fg: c, bg: c, wide: false }
    }

    /// How many of the rows `from..to` begin a logical line.
    fn count_lines(&self, from: usize, to: usize) -> (r: usize)
        requires
            self.wf(),
            from <= to,
        ensures
            r == logical_lines(self.grid@, from as int, to as int),
            r <= to - from,
    {
        let mut n: usize = 0;
        let mut i: usize = from;
        while i < to
            invariant
                self.wf(),
                from <= i <= to,
                n == logical_lines(self.grid@, from as int, i as int),
                n <= i - from,
            decreases to - i,
        {
            if !self.grid.is_row_wrapped(i) {
                n = n + 1;
            }
            i = i + 1;
        }
        n
    }

    /// Appends the quads of a line that stands for the folded rows `from..to`.
    fn push_summary(&self, out: &mut Vec<Quad>, from: usize, to: usize, v: usize)
        requires
            self.wf(),
            from <= to,
        ensures
            final(out)@ == old(out)@ + self.look().summary_quads(from as int, to as int, v as int),
    {
        proof {
            self.grid.lemma_fields();
        }
        let ghost look = self.look();
        let ghost want = look.summary_quads(from as int, to as int, v as int);
        let ghost base = out@;
        let mut line: String = "  --- ".to_owned();
        let n: usize = self.count_lines(from, to);
        number::push_digits(&mut line, n as u64);
        line.append(" lines folded ---");
        assert(line@ =~= look.summary_text(from as int, to as int));
        let chars: Vec<char> = text::to_chars(line.as_str());
        let mut i: usize = 0;
        while i < LOG_GUTTER_COLS
            invariant
                i <= 20,
                want == look.summary_quads(from as int, to as int, v as int),
                look == self.look(),
                out@ == base + want.take(i as int),
            decreases 20 - i,
        {
            out.push(self.label(v, i, ' ', Ink::GutterFg, Ink::SummaryBg));
            i = i + 1;
            assert(out@ =~= base + want.take(i as int));
        }
        let mut col: usize = 0;
        while col < self.grid.cols
            invariant
                self.wf(),
                self.grid.cols == self.grid@.cols,
                col <= self.grid.cols,
                look == self.look(),
                chars@ == look.summary_text(from as int, to as int),
                want == look.summary_quads(from as int, to as int, v as int),
                want.len() == 20 + self.grid.cols,
                out@ == base + want.take(20 + col),
            decreases self.grid.cols - col,
        {
            let c: char = if col < chars.len() {
                chars[col]
            } else {
                ' '
            };
            out.push(self.label(v, LOG_GUTTER_COLS + col, c, Ink::SummaryFg, Ink::SummaryBg));
            col = col + 1;
            assert(out@ =~= base + want.take(20 + col));
        }
        assert(want.take(20 + col) =~= want);
    }

    fn gutter_line(&self, abs: usize, id: u64, starts: bool, n: usize) -> (r: Vec<char>)
        requires
            self.wf(),
        ensures
            r@ == self.look().gutter_text(abs as int, id, starts, n as nat),
    {
        let wrapped: bool = self.grid.is_row_wrapped(abs);
        let mut line: String = String::new();
        if !starts || wrapped {
            text::push_char(&mut line, ' ');
        } else if self.folds.contains(&id) {
            text::push_char(&mut line, '>');
        } else {
            text::push_char(&mut line, 'v');
        }
        if wrapped {
            line.append("   ·");
            line.append(" ");
            line.append("        ");
        } else {
            number::push_spaced(&mut line, n as u64, 4);
            line.append(" ");
            match self.grid.row_timestamp(abs) {
                Some(ts) => {
                    match osc::decode(ts.as_slice()) {
                        Some(t) => line.append(t),
                        None => line.append("--:--:--"),
                    }
                },
                None => line.append("        "),
            }
        }
        line.append(" | ");
        assert(line@ =~= self.look().gutter_text(abs as int, id, starts, n as nat));
        text::to_chars(line.as_str())
    }

    /// Appends the quads of the gutter.
    fn push_gutter(
        &self,
        out: &mut Vec<Quad>,
        abs: usize,
        block: usize,
        id: u64,
        starts: bool,
        n: usize,
        v: usize,
    )
        requires
            self.wf(),
        ensures
            final(out)@ == old(out)@ + self.look().gutter_quads(
                abs as int,
                block as int,
                id,
                starts,
                n as nat,
                v as int,
            ),
    {
        let ghost look = self.look();
        let ghost t = look.gutter_text(abs as int, id, starts, n as nat);
        let ghost want = look.gutter_quads(abs as int, block as int, id, starts, n as nat, v as int);
        let ghost base = out@;
        let line: Vec<char> = self.gutter_line(abs, id, starts, n);
        let mut i: usize = 0;
        while i < line.len() && i < LOG_GUTTER_COLS
            invariant
                i <= line@.len(),
                i <= 20,
                line@ == t,
                t == look.gutter_text(abs as int, id, starts, n as nat),
                look == self.look(),
                want == look.gutter_quads(
                    abs as int,
                    block as int,
                    id,
                    starts,
                    n as nat,
                    v as int,
                ),
                out@ == base + want.take(i as int),
            decreases line@.len() - i,
        {
            let fg: Ink = if i == 0 && starts {
                Ink::FoldMark
            } else if i >= 6 && i < 14 {
                Ink::GutterTime
            } else if i == LOG_GUTTER_COLS - 2 {
                Ink::GutterRule
            } else {
                Ink::GutterFg
            };
            out.push(self.label(v, i, line[i], fg, Ink::GutterBg));
            i = i + 1;
            assert(out@ =~= base + want.take(i as int));
        }
        out.push(self.flat(v, LOG_GUTTER_COLS, Shape::Bar, Ink::Block((block % 6) as u8)));
        if starts && abs > 0 {
            out.push(self.flat(v, 0, Shape::Rule, Ink::BlockRule));
        }
        assert(out@ =~= base + want);
    }
}

/// What a pane shows, and where in it each row begins.
#[derive(Debug)]
pub struct PanePlan {
    pub quads: Vec<Quad>,
    /// For each row the number of quads before it, then the number of all quads.
    pub row_marks: Vec<usize>,
}

impl PanePlan {
    /// The plan is the one of a pane.
    pub open spec fn of(self, look: Look) -> bool {
        let items = look.items();
        &&& self.quads@ == look.quads()
        &&& self.row_marks@.len() == items.len() + 1
        &&& forall|i: int|
            0 <= i < items.len() ==> #[trigger] self.row_marks@[i] == look.rows_quads(
                items.take(i),
            ).len()
        &&& self.row_marks@[items.len() as int] == look.quads().len()
    }

    /// Every mark lies among the quads.
    pub open spec fn wf(self) -> bool {
        forall|i: int|
            0 <= i < self.row_marks@.len() ==> #[trigger] self.row_marks@[i] <= self.quads@.len()
    }
}

/// The walk of `plan`, as plain numbers.
struct Step {
    abs: usize,
    block: usize,
    id: u64,
    line: usize,
}

impl Step {
    spec fn walk(self) -> Walk {
        Walk { abs: self.abs as int, block: self.block as int, id: self.id, line: self.line as nat }
    }
}

proof fn lemma_rows_push(look: Look, items: Seq<RowItem>, item: RowItem)
    ensures
        look.rows_quads(items.push(item)) == look.rows_quads(items) + look.row_quads(
            item,
            items.len() as int,
        ),
        look.cursor_place(items.push(item)) == if item matches RowItem::Line { abs, .. } && abs
            == look.cursor() {
            Some(items.len() as int)
        } else {
            look.cursor_place(items)
        },
{
    assert(items.push(item).drop_last() =~= items);
}

impl<'a> Pane<'a> {
    /// Where the walk begins.
    fn first_step(&self) -> (r: Step)
        requires
            self.wf(),
            self.look().countable(),
        ensures
            r.walk() == self.look().start(),
            r.block < usize::MAX,
            r.line <= r.abs,
    {
        proof {
            self.grid.lemma_fields();
        }
        if !self.log {
            return Step { abs: self.grid.viewport_start(), block: 0, id: 0, line: 0 };
        }
        let total: usize = self.grid.total_rows();
        let abs: usize = self.grid.block_list.render_start(
            self.folds,
            total,
            self.cursor_row(),
            self.grid.rows,
            self.grid.scroll_offset,
        );
        let line: usize = self.count_lines(0, abs);
        match self.grid.block_list.block_for_row(abs) {
            Some((i, b)) => Step { abs, block: i, id: b.id, line },
            None => Step { abs, block: 0, id: 0, line },
        }
    }

    /// The step with the block that starts at its row, and whether one does.
    fn enter(&self, s: Step) -> (r: (Step, bool))
        requires
            self.wf(),
            s.block < usize::MAX,
        ensures
            r.0.walk() == self.look().entered(s.walk()),
            r.1 == self.look().starts(s.walk()),
            r.0.block < usize::MAX,
            r.0.abs == s.abs,
            r.0.line == s.line,
    {
        proof {
            self.grid.lemma_fields();
        }
        let starts: bool = self.log && self.grid.is_block_start(s.abs);
        if !starts {
            return (s, false);
        }
        match self.grid.block_list.block_for_row(s.abs) {
            Some((i, b)) => (Step { abs: s.abs, block: i, id: b.id, line: s.line }, true),
            None => (s, true),
        }
    }

    /// Where the fold at a step's row ends, if the row is folded away.
    fn fold_end(&self, s: &Step, starts: bool, total: usize) -> (r: Option<usize>)
        requires
            self.wf(),
            total == self.grid@.screen.total(),
            s.block < usize::MAX,
            starts == self.look().starts(s.walk()),
        ensures
            match r {
                Some(to) => self.look().folds_here(s.walk()) && to == self.look().fold_to(s.walk()),
                None => !self.look().folds_here(s.walk()),
            },
    {
        proof {
            self.grid.lemma_fields();
        }
        if !self.log || starts || !self.folds.contains(&s.id) {
            return None;
        }
        let end: usize = self.grid.block_list.block_end_row(s.block, total);
        let cursor: usize = self.cursor_row();
        let to: usize = if cursor != usize::MAX && end > cursor {
            cursor
        } else {
            end
        };
        if to > s.abs {
            Some(to)
        } else {
            None
        }
    }

    /// Appends the quads of a row of the terminal. Returns the logical lines up to and with it.
    fn push_row(&self, out: &mut Vec<Quad>, s: &Step, starts: bool, v: usize) -> (line: usize)
        requires
            self.wf(),
            s.abs < self.grid@.screen.total(),
            s.line <= s.abs,
            starts == self.look().starts(s.walk()),
        ensures
            line == self.look().line_after(s.walk()),
            line <= s.abs + 1,
            final(out)@ == old(out)@ + self.look().row_quads(
                self.look().line_item(s.walk()),
                v as int,
            ),
    {
        let ghost base = out@;
        let line: usize = if self.log && !self.grid.is_row_wrapped(s.abs) {
            s.line + 1
        } else {
            s.line
        };
        if self.log {
            self.push_gutter(out, s.abs, s.block, s.id, starts, line, v);
        }
        let ghost mid = out@;
        match self.grid.absolute_row(s.abs) {
            Some(row) => {
                self.push_cells(out, row, s.abs, v, s.block);
            },
            None => {
                assert(false);
            },
        }
        assert(out@ =~= base + self.look().row_quads(
            self.look().line_item(s.walk()),
            v as int,
        ));
        line
    }

    /// Appends the quad of a cursor that is no block.
    fn push_overlay(&self, out: &mut Vec<Quad>, place: Option<usize>, Ghost(items): Ghost<Seq<RowItem>>)
        requires
            self.wf(),
            match place {
                Some(v) => self.look().cursor_place(items) == Some(v as int),
                None => self.look().cursor_place(items) is None,
            },
        ensures
            final(out)@ == old(out)@ + self.look().overlay(items),
    {
        proof {
            self.grid.lemma_fields();
        }
        let ghost base = out@;
        if let Some(v) = place {
            if self.show_cursor && self.grid.cursor_style != CursorStyle::Block {
                let gutter: usize = if self.log {
                    LOG_GUTTER_COLS
                } else {
                    0
                };
                let shape: Shape = if self.grid.cursor_style == CursorStyle::Underline {
                    Shape::CursorUnderline
                } else {
                    Shape::CursorBar
                };
                let c: Ink = to_ink(self.theme.cursor_bg);
                out.push(self.flat(v, gutter + self.grid.cursor_col, shape, c));
            }
        }
        assert(out@ =~= base + self.look().overlay(items));
    }

    /// Plans everything that the pane shows.
    pub fn plan(&self) -> (r: PanePlan)
        requires
            self.wf(),
            self.look().countable(),
        ensures
            r.of(self.look()),
            r.wf(),
    {
        proof {
            self.grid.lemma_fields();
        }
        let ghost look = self.look();
        let total: usize = self.grid.total_rows();
        let cursor: usize = self.cursor_row();
        let mut quads: Vec<Quad> = Vec::new();
        let mut row_marks: Vec<usize> = Vec::new();
        let mut place: Option<usize> = None;
        let mut step: Step = self.first_step();
        let mut v: usize = 0;
        let ghost mut done: Seq<RowItem> = Seq::empty();
        assert(done + look.layout(step.walk(), 0) =~= look.items());
        assert(look.rows_quads(done) =~= Seq::empty());
        while v < self.grid.rows && step.abs < total
            invariant
                self.wf(),
                look == self.look(),
                self.grid.rows == self.grid@.rows,
                total == self.grid@.screen.total(),
                cursor == look.cursor(),
                step.block < usize::MAX,
                step.line <= step.abs,
                v == done.len(),
                v <= self.grid.rows,
                look.items() == done + look.layout(step.walk(), v as nat),
                quads@ == look.rows_quads(done),
                row_marks@.len() == v,
                forall|i: int|
                    0 <= i < v ==> #[trigger] row_marks@[i] == look.rows_quads(done.take(i)).len(),
                forall|i: int| 0 <= i < v ==> #[trigger] row_marks@[i] <= quads@.len(),
                match place {
                    Some(p) => look.cursor_place(done) == Some(p as int),
                    None => look.cursor_place(done) is None,
                },
            decreases blocks::monus(total as int, step.abs as int),
        {
            let ghost w = step.walk();
            if self.log && step.abs != cursor && self.grid.is_phantom_wrap(step.abs) {
                assert(look.skips(w));
                step.abs = step.abs + 1;
                continue ;
            }
            let (entered, starts): (Step, bool) = self.enter(step);
            let ghost e = entered.walk();
            row_marks.push(quads.len());
            assert(done.take(done.len() as int) =~= done);
            let ghost before = done;
            match self.fold_end(&entered, starts, total) {
                Some(to) => {
                    self.push_summary(&mut quads, entered.abs, to, v);
                    proof {
                        let item = RowItem::Summary { from: e.abs, to: to as int };
                        lemma_rows_push(look, before, item);
                        done = before.push(item);
                        assert(look.items() =~= done + look.layout(
                            Walk { abs: to as int, ..e },
                            (v + 1) as nat,
                        ));
                    }
                    step = Step { abs: to, block: entered.block, id: entered.id, line: entered.line };
                },
                None => {
                    if entered.abs == cursor {
                        place = Some(v);
                    }
                    let line: usize = self.push_row(&mut quads, &entered, starts, v);
                    proof {
                        let item = look.line_item(e);
                        lemma_rows_push(look, before, item);
                        done = before.push(item);
                        assert(look.items() =~= done + look.layout(
                            Walk { abs: e.abs + 1, line: line as nat, ..e },
                            (v + 1) as nat,
                        ));
                    }
                    step = Step {
                        abs: entered.abs + 1,
                        block: entered.block,
                        id: entered.id,
                        line,
                    };
                },
            }
            proof {
                assert forall|i: int| 0 <= i < v + 1 implies #[trigger] row_marks@[i]
                    == look.rows_quads(done.take(i)).len() by {
                    assert(done.take(i) =~= before.take(i));
                }
            }
            v = v + 1;
        }
        assert(look.layout(step.walk(), v as nat) =~= Seq::empty());
        assert(done =~= look.items());
        self.push_overlay(&mut quads, place, Ghost(done));
        row_marks.push(quads.len());
        PanePlan { quads, row_marks }
    }
}

impl<'a> Pane<'a> {
    /// The quads of one row of a pane without a log view; a row that is not there has none.
    pub fn plain_row(&self, v: usize) -> (r: Vec<Quad>)
        requires
            self.wf(),
            !self.log,
            self.grid@.view_start() + v <= usize::MAX,
        ensures
            r@ == self.look().plain_quads(v as int),
    {
        let abs: usize = self.grid.viewport_to_absolute(v);
        let mut out: Vec<Quad> = Vec::new();
        match self.grid.absolute_row(abs) {
            Some(row) => {
                self.push_cells(&mut out, row, abs, v, 0);
            },
            None => {},
        }
        assert(out@ =~= self.look().plain_quads(v as int));
        out
    }
}

impl Look {
    /// The quads of row `v` of a pane without a log view.
    pub open spec fn plain_quads(self, v: int) -> Seq<Quad> {
        let abs = self.g.view_start() + v;
        match self.g.screen.line(abs) {
            Some(line) => self.cell_quads(line, abs, v, 0, self.g.cols as nat),
            None => Seq::empty(),
        }
    }
}

proof fn lemma_plain_layout(look: Look, w: Walk, v: nat)
    requires
        !look.log,
        look.g.rows >= v,
        w.block == 0,
        w.abs >= 0,
    ensures
        ({
            let items = look.layout(w, v);
            &&& items.len() == crate::grid::min(
                look.g.rows - v,
                blocks::monus(look.g.screen.total(), w.abs),
            )
            &&& forall|i: int|
                0 <= i < items.len() ==> (#[trigger] items[i] matches RowItem::Line {
                    abs,
                    block,
                    ..
                } && abs == w.abs + i && block == 0)
        }),
    decreases blocks::monus(look.g.screen.total(), w.abs),
{
    if v < look.g.rows && w.abs < look.g.screen.total() {
        let e = look.entered(w);
        let next = Walk { abs: e.abs + 1, line: look.line_after(e), ..e };
        lemma_plain_layout(look, next, v + 1);
        let rest = look.layout(next, v + 1);
        let items = look.layout(w, v);
        assert(items =~= seq![look.line_item(e)] + rest);
        assert forall|i: int| 0 <= i < items.len() implies (#[trigger] items[i] matches RowItem::Line {
            abs,
            block,
            ..
        } && abs == w.abs + i && block == 0) by {
            if i > 0 {
                assert(items[i] == rest[i - 1]);
            }
        }
    }
}

/// The rows of a pane without a log view.
pub(crate) proof fn lemma_plain_items(look: Look)
    requires
        !look.log,
        look.g.rows >= 0,
    ensures
        look.items().len() == crate::grid::min(
            look.g.rows,
            blocks::monus(look.g.screen.total(), look.g.view_start()),
        ),
        forall|v: int|
            0 <= v < look.items().len() ==> (#[trigger] look.items()[v] matches RowItem::Line {
                abs,
                ..
            } && abs == look.g.view_start() + v),
{
    lemma_plain_layout(look, look.start(), 0);
}

/// Without a log view a pane shows the rows from the top of the viewport on, as many as there are
/// and fit, and each row is what drawing it alone gives.
pub proof fn law_plain_rows(look: Look, v: int)
    requires
        !look.log,
        look.g.rows >= 0,
        look.g.view_start() >= 0,
        0 <= v < look.items().len(),
    ensures
        look.items().len() == crate::grid::min(
            look.g.rows,
            blocks::monus(look.g.screen.total(), look.g.view_start()),
        ),
        look.row_quads(look.items()[v], v) == look.plain_quads(v),
{
    lemma_plain_layout(look, look.start(), 0);
}

/// The rows come in order, each once, and no more than fit: every row shown lies below the one
/// shown above it.
pub proof fn law_rows_descend(look: Look, w: Walk, v: nat, i: int, j: int)
    requires
        0 <= i < j < look.layout(w, v).len(),
    ensures
        v + look.layout(w, v).len() <= look.g.rows,
        item_end(look.layout(w, v)[i]) <= item_start(look.layout(w, v)[j]),
        w.abs <= item_start(look.layout(w, v)[i]),
{
    lemma_layout_order(look, w, v);
}

/// The first row that an item stands for.
pub open spec fn item_start(item: RowItem) -> int {
    match item {
        RowItem::Summary { from, to } => from,
        RowItem::Line { abs, .. } => abs,
    }
}

/// The first row below those that an item stands for.
pub open spec fn item_end(item: RowItem) -> int {
    match item {
        RowItem::Summary { from, to } => to,
        RowItem::Line { abs, .. } => abs + 1,
    }
}

/// An item stands for at least one row, and a summary does not hide the cursor's row.
pub open spec fn item_sound(look: Look, item: RowItem) -> bool {
    &&& item_start(item) < item_end(item)
    &&& item matches RowItem::Summary { from, to } ==> to <= look.cursor() || look.cursor()
        == usize::MAX
}

proof fn lemma_layout_order(look: Look, w: Walk, v: nat)
    ensures
        ({
            let items = look.layout(w, v);
            &&& items.len() > 0 ==> v + items.len() <= look.g.rows
            &&& forall|i: int|
                0 <= i < items.len() ==> w.abs <= #[trigger] item_start(items[i]) && item_sound(
                    look,
                    items[i],
                )
            &&& forall|i: int, j: int|
                0 <= i < j < items.len() ==> #[trigger] item_end(items[i]) <= #[trigger] item_start(
                    items[j],
                )
        }),
    decreases blocks::monus(look.g.screen.total(), w.abs),
{
    let items = look.layout(w, v);
    if v >= look.g.rows || w.abs >= look.g.screen.total() {
    } else if look.skips(w) {
        lemma_layout_order(look, Walk { abs: w.abs + 1, ..w }, v);
    } else {
        let e = look.entered(w);
        let (item, next) = if look.folds_here(e) {
            (
                RowItem::Summary { from: e.abs, to: look.fold_to(e) },
                Walk { abs: look.fold_to(e), ..e },
            )
        } else {
            (look.line_item(e), Walk { abs: e.abs + 1, line: look.line_after(e), ..e })
        };
        lemma_layout_order(look, next, v + 1);
        let rest = look.layout(next, v + 1);
        assert(items =~= seq![item] + rest);
        assert forall|i: int| 0 <= i < items.len() implies w.abs <= #[trigger] item_start(items[i])
            && item_sound(look, items[i]) by {
            if i > 0 {
                assert(items[i] == rest[i - 1]);
                assert(next.abs <= item_start(rest[i - 1]));
            }
        }
        assert forall|i: int, j: int| 0 <= i < j < items.len() implies #[trigger] item_end(items[i])
            <= #[trigger] item_start(items[j]) by {
            assert(items[j] == rest[j - 1]);
            assert(next.abs <= item_start(rest[j - 1]));
            if i > 0 {
                assert(items[i] == rest[i - 1]);
            }
        }
    }
}

/// A fold never hides the row of the cursor: in a pane that is not scrolled back no summary stands
/// for it.
pub proof fn law_cursor_not_folded(look: Look, i: int)
    requires
        0 <= i < look.items().len(),
        look.cursor() < usize::MAX,
        look.items()[i] is Summary,
    ensures
        look.items()[i]->to <= look.cursor(),
{
    lemma_layout_order(look, look.start(), 0);
    assert(item_sound(look, look.items()[i]));
    assert(look.start().abs <= item_start(look.items()[i]));
}

/// A row of a pane without wide characters has one quad for each column.
pub proof fn law_one_quad_per_column(look: Look, line: Seq<Cell>, abs: int, v: int, block: int, n: nat)
    requires
        forall|i: int|
            0 <= i < n ==> !(#[trigger] cell_in(line, i)).attrs.has(CellAttrs::WIDE_TAIL),
    ensures
        look.cell_quads(line, abs, v, block, n).len() == n,
        forall|i: int|
            0 <= i < n ==> #[trigger] look.cell_quads(line, abs, v, block, n)[i] == look.cell_quad(
                cell_in(line, i),
                abs,
                i,
                v,
                block,
            ),
    decreases n,
{
    if n > 0 {
        law_one_quad_per_column(look, line, abs, v, block, (n - 1) as nat);
        assert(!cell_in(line, n - 1).attrs.has(CellAttrs::WIDE_TAIL));
    }
}

} // verus!
