//! From grid to quads, glyphs and pixels.

use std::collections::{HashMap, HashSet};

use nexterm::atlas::{average_rgb, GlyphCache, Raster};
use nexterm::cell::{Color, CursorStyle, Selection};
use nexterm::folds::same_folds;
use nexterm::frame::{
    arrange, arrange_terminal, plan_panes, plan_rows, plan_tab_bar, plan_terminal, refresh,
    remember, Damage, FrameNow, PaneNow, PrevFrame, Refresh,
};
use nexterm::grid::Grid;
use nexterm::pixels::{
    color_to_rgb, draw_cursor, draw_glyph, glyph_color, paint_backgrounds, text_to_shape,
    GlyphImage, ImageKind,
};
use nexterm::places::CellSet;
use nexterm::scene::{theme_color, Ink, Pane, PanePlan, Quad, Shape};
use nexterm::theme::{nord, resolve_theme, ThemeBytes};
use nexterm::upload::{
    accepts_size, batches, changed_window, choose_format, estimate_instances, frame_step,
    grown_capacity, key_for_terminal, surface_size, Acquired, Batch, FrameStep, InstanceUpload,
};
use nexterm::vt::TerminalParser;

const NOW: [u8; 8] = *b"12:34:56";

fn fed(cols: usize, rows: usize, bytes: &[u8]) -> TerminalParser {
    let mut t = TerminalParser::new(cols, rows);
    assert!(t.process_at(bytes, NOW));
    t
}

struct Scene {
    theme: ThemeBytes,
    folds: HashSet<u64>,
    all: CellSet,
    current: CellSet,
}

impl Scene {
    fn new() -> Scene {
        Scene {
            theme: resolve_theme(&nord()),
            folds: HashSet::new(),
            all: CellSet::new(),
            current: CellSet::new(),
        }
    }

    fn plan(&self, grid: &Grid, log: bool) -> PanePlan {
        self.pane(grid, log).plan()
    }

    fn pane<'a>(&'a self, grid: &'a Grid, log: bool) -> Pane<'a> {
        Pane {
            pane: 0,
            grid,
            theme: &self.theme,
            log,
            show_cursor: Pane::cursor_shows(grid, true, true),
            folds: &self.folds,
            all: &self.all,
            current: &self.current,
        }
    }
}

fn line(plan: &PanePlan, row: usize) -> String {
    plan.quads[plan.row_marks[row]..plan.row_marks[row + 1]]
        .iter()
        .filter(|q| q.shape == Shape::Cell || q.shape == Shape::Label)
        .map(|q| q.glyph.unwrap_or(' '))
        .collect()
}

#[test]
fn a_plain_pane_shows_its_cells() {
    let s = Scene::new();
    let t = fed(4, 2, "a漢b\r\nc".as_bytes());
    let plan = s.plan(t.grid(), false);
    assert_eq!(plan.row_marks, vec![0, 3, 7]);
    assert_eq!(line(&plan, 0), "a漢b");
    assert!(plan.quads[1].wide);
    assert_eq!(plan.quads[2].col, 3);
    assert_eq!(plan.quads[3], Quad {
        pane: 0,
        row: 1,
        col: 0,
        shape: Shape::Cell,
        glyph: Some('c'),
        fg: plan.quads[0].fg,
        bg: plan.quads[0].bg,
        wide: false,
    });
    let cursor = &plan.quads[4];
    assert_eq!((cursor.fg, cursor.bg), (plan.quads[0].bg, plan.quads[0].fg));
}

#[test]
fn selections_and_matches_colour_cells() {
    let mut s = Scene::new();
    let mut t = fed(4, 1, b"abcd\x1b[?25l");
    t.grid_mut().selection = Some(Selection { start_row: 0, start_col: 0, end_row: 0, end_col: 1 });
    s.all = CellSet::of(&vec![(0, 1), (0, 2)]);
    s.current = CellSet::of(&vec![(0, 2)]);
    let plan = s.plan(t.grid(), false);
    let b = s.theme.selection_bg;
    assert_eq!(plan.quads[0].bg, Ink::Rgba(b.0, b.1, b.2, b.3));
    assert_eq!((plan.quads[1].fg, plan.quads[1].bg), (Ink::MatchFg, Ink::MatchBg));
    assert_eq!((plan.quads[2].fg, plan.quads[2].bg), (Ink::CurrentFg, Ink::CurrentBg));
    let d = s.theme.bg;
    assert_eq!(plan.quads[3].bg, Ink::Rgba(d.0, d.1, d.2, d.3));
}

#[test]
fn line_cursors_are_laid_over() {
    let s = Scene::new();
    let mut t = fed(4, 2, b"ab");
    t.grid_mut().cursor_style = CursorStyle::Bar;
    let plan = s.plan(t.grid(), false);
    let q = plan.quads.last().unwrap();
    assert_eq!((q.shape, q.row, q.col), (Shape::CursorBar, 0, 2));
    assert_eq!(*plan.row_marks.last().unwrap(), plan.quads.len());
    t.grid_mut().cursor_style = CursorStyle::Underline;
    let (rows, cursor) = plan_terminal(&s.pane(t.grid(), false));
    assert_eq!(rows.len(), 8);
    assert_eq!(cursor.unwrap().shape, Shape::CursorUnderline);
    assert_eq!(rows, s.plan(t.grid(), false).quads[..8]);
    let plain: Vec<Quad> = s.pane(t.grid(), false).plain_row(1);
    assert_eq!(plain, rows[4..8]);
    assert!(!Pane::cursor_shows(t.grid(), false, true));
    assert!(!Pane::cursor_shows(t.grid(), true, false));
}

fn log_terminal() -> TerminalParser {
    fed(
        24,
        8,
        b"\x1b]133;A\x07$ make\r\none\r\ntwo\r\nthree\r\n\x1b]133;A\x07$ ls",
    )
}

#[test]
fn the_log_view_has_a_gutter() {
    let s = Scene::new();
    let t = log_terminal();
    let plan = s.plan(t.grid(), true);
    assert_eq!(line(&plan, 0), format!("v   1 12:34:56 | {:<24}", "$ make"));
    assert_eq!(line(&plan, 1), format!("    2 12:34:56 | {:<24}", "one"));
    assert_eq!(line(&plan, 4), format!("v   5 12:34:56 | {:<24}", "$ ls"));
    assert_eq!(line(&plan, 7), format!("    8          | {:<24}", ""));
    let row4 = &plan.quads[plan.row_marks[4]..plan.row_marks[5]];
    assert_eq!(row4[0].fg, Ink::FoldMark);
    assert_eq!(row4[6].fg, Ink::GutterTime);
    assert_eq!((row4[17].shape, row4[17].fg), (Shape::Bar, Ink::Block(1)));
    assert_eq!(row4[18].shape, Shape::Rule);
    assert_eq!(row4[19].col, 20);
    assert_eq!(row4[30].bg, Ink::Tint);
    let row0 = &plan.quads[plan.row_marks[0]..plan.row_marks[1]];
    assert!(row0.iter().all(|q| q.shape != Shape::Rule));
}

#[test]
fn folds_leave_a_summary() {
    let mut s = Scene::new();
    let t = log_terminal();
    let id = t.grid().block_list.blocks()[0].id;
    s.folds.insert(id);
    let plan = s.plan(t.grid(), true);
    assert!(line(&plan, 0).starts_with('>'));
    assert_eq!(line(&plan, 1), format!("{:20}{:<24}", "", "  --- 3 lines folded ---"));
    assert!(line(&plan, 2).starts_with("v   2 12:34:56 | $ ls"));
    let id = t.grid().block_list.blocks()[1].id;
    s.folds.insert(id);
    let plan = s.plan(t.grid(), true);
    assert!(line(&plan, 2).contains("$ ls"));
}

#[test]
fn wide_glyphs_are_drawn_last() {
    let s = Scene::new();
    let t = fed(3, 2, b"abcdef");
    let plan = s.plan(t.grid(), false);
    let mut spans = vec![1u32; plan.quads.len()];
    spans[1] = 2;
    let quads = plan.quads.clone();
    let plans = vec![plan];
    let f = arrange(&plans, &vec![spans.clone()]);
    assert_eq!(f.has_overflow, vec![true]);
    assert_eq!(f.row_starts, vec![vec![0, 2, 5]]);
    assert_eq!(f.quads.len(), 6);
    assert_eq!(f.quads[5], quads[1]);
    let f = arrange(&plans, &vec![vec![1; 6]]);
    assert_eq!(f.quads, quads);
    let c = quads[0];
    let out = arrange_terminal(&quads, &spans, Some(c));
    assert_eq!(out[5], quads[1]);
    assert_eq!(out[6], c);
}

fn clean(rows: usize) -> Damage {
    Damage { full: false, cells_dirty: false, lines: vec![false; rows] }
}

fn now<'a>(t: &'a TerminalParser, damage: &'a Damage, x: i32) -> PaneNow<'a> {
    PaneNow {
        pane_id: 7,
        grid: t.grid(),
        viewport_x_q: x,
        viewport_y_q: 20,
        focused: true,
        damage,
    }
}

fn asked<'a>(s: &'a Scene, folds: &'a HashMap<usize, HashSet<u64>>, log_mode: bool) -> FrameNow<'a> {
    FrameNow {
        blink_on: true,
        log_mode,
        find_all: &s.all,
        find_current: &s.current,
        folds,
    }
}

fn draw_all(s: &Scene, panes: &Vec<PaneNow>, f: &FrameNow) -> PrevFrame {
    let plans = plan_panes(panes, f, &s.theme);
    let spans: Vec<Vec<u32>> = plans.iter().map(|p| vec![1; p.quads.len()]).collect();
    remember(panes, f, &arrange(&plans, &spans))
}

#[test]
fn only_moved_selections_are_redrawn() {
    let s = Scene::new();
    let mut t = fed(4, 3, b"abcd\r\nefgh\r\nijkl");
    let damage = clean(3);
    let folds = HashMap::from([(7, HashSet::from([1, 2]))]);
    let f = asked(&s, &folds, false);
    let mut prev = draw_all(&s, &vec![now(&t, &damage, 10)], &f);
    t.grid_mut().selection = Some(Selection { start_row: 1, start_col: 1, end_row: 1, end_col: 2 });
    let mut hit = clean(3);
    hit.lines[1] = true;
    let panes = vec![now(&t, &hit, 10)];
    let Refresh::Rows(rows) = refresh(&prev, &panes, &f) else { panic!("rows") };
    assert_eq!(rows, vec![(0, 1)]);
    assert!(matches!(refresh(&prev, &vec![now(&t, &hit, 11)], &f), Refresh::Rebuild));
    let dark = FrameNow { blink_on: false, ..asked(&s, &folds, false) };
    assert!(matches!(refresh(&prev, &panes, &dark), Refresh::Rebuild));
    assert!(matches!(refresh(&prev, &panes, &asked(&s, &folds, true)), Refresh::Rebuild));
    let other = HashMap::from([(7, HashSet::from([1]))]);
    assert!(matches!(refresh(&prev, &panes, &asked(&s, &other, false)), Refresh::Rebuild));
    let mut dirty = clean(3);
    dirty.cells_dirty = true;
    assert!(matches!(refresh(&prev, &vec![now(&t, &dirty, 10)], &f), Refresh::Rebuild));
    assert!(!clean(3).is_damaged() && hit.is_damaged());
    let planned = plan_rows(&panes, &f, &s.theme, &rows);
    let before = prev.quads.clone();
    assert!(!prev.redraw(&panes, &rows, &planned, &vec![vec![2; 4]]));
    assert_eq!(prev.quads, before);
    assert!(prev.redraw(&panes, &rows, &planned, &vec![vec![1; 4]]));
    assert_eq!(prev.quads, draw_all(&s, &panes, &f).quads);
    assert_ne!(prev.quads, before);
    assert!(matches!(refresh(&prev, &vec![now(&t, &damage, 10)], &f), Refresh::Unchanged));
}

#[test]
fn folded_blocks_are_compared_as_sets() {
    let a = HashMap::from([(1usize, HashSet::from([3u64, 4])), (2, HashSet::from([5]))]);
    let b = HashMap::from([(2usize, HashSet::from([5u64])), (1, HashSet::from([4, 3]))]);
    assert!(same_folds(&a, &b));
    assert!(!same_folds(&a, &HashMap::from([(1, HashSet::from([3, 4]))])));
    assert!(!same_folds(&a, &HashMap::from([(1, HashSet::from([3, 4])), (2, HashSet::from([6]))])));
    assert!(!same_folds(&a, &HashMap::from([(1, HashSet::from([3, 4])), (3, HashSet::from([5]))])));
}

#[test]
fn full_screen_programs_have_no_gutter() {
    let s = Scene::new();
    let mut t = fed(4, 2, b"ab");
    let damage = clean(2);
    let folds = HashMap::new();
    let f = asked(&s, &folds, true);
    assert!(plan_panes(&vec![now(&t, &damage, 0)], &f, &s.theme)[0].quads.len() > 8);
    assert!(t.process_at(b"\x1b[?1049h", NOW));
    assert_eq!(plan_panes(&vec![now(&t, &damage, 0)], &f, &s.theme)[0].quads.len(), 8);
}

#[test]
fn tab_titles_stand_side_by_side() {
    let tabs = vec![("ab".to_string(), false), ("c".to_string(), true)];
    let q = plan_tab_bar(&tabs, Ink::Rgba(1, 2, 3, 255), 12);
    assert_eq!(q.len(), 12 + 4 + 3);
    assert_eq!((q[13].col, q[13].glyph, q[13].bg), (2, Some('a'), Ink::TabBar));
    assert_eq!((q[17].col, q[17].glyph, q[17].bg), (7, Some('c'), Ink::TabActive));
    assert_eq!(q[11].bg, Ink::TabBar);
}

#[test]
fn glyphs_are_packed_side_by_side() {
    let mut c = GlyphCache::new(8, 16);
    assert!(c.has_dirty_pages());
    let a = c.pack_r8(3, 2, 1, -1, &[1, 2, 3, 4, 5, 6]).unwrap();
    let b = c.pack_r8(2, 4, 0, 0, &[9; 8]).unwrap();
    assert_eq!((a.atlas_idx, a.atlas_x, a.atlas_y, a.offset_x, a.offset_y), (0, 0, 0, 1, -1));
    assert_eq!((b.atlas_x, b.atlas_y), (4, 0));
    assert_eq!(c.pages[0].data[4096..4099], [4, 5, 6]);
    assert_eq!(c.pages[0].data[3], 0);
    assert_eq!(c.pages[0].data[3 * 4096 + 4], 9);
    let wide = c.pack_r8(4096, 1, 0, 0, &[7; 4096]).unwrap();
    assert_eq!((wide.atlas_x, wide.atlas_y), (0, 5));
    assert!(c.pack_r8(0, 1, 0, 0, &[]).is_none());
    assert!(c.pack_r8(2, 2, 0, 0, &[1]).is_none());
    assert!(c.pack_r8(4097, 1, 0, 0, &[1; 4097]).is_none());
}

#[test]
fn a_full_page_is_followed_by_another() {
    let mut c = GlyphCache::new(8, 16);
    let big = vec![1u8; 4096 * 2048];
    assert_eq!(c.pack_r8(4096, 2048, 0, 0, &big).unwrap().atlas_idx, 0);
    let second = c.pack_r8(4096, 2048, 0, 0, &big).unwrap();
    assert_eq!((second.atlas_idx, second.atlas_x, second.atlas_y), (1, 0, 0));
    assert_eq!(c.pages.len(), 2);
    let small = c.pack_r8(5, 5, 0, 0, &[2; 25]).unwrap();
    assert_eq!((small.atlas_idx, small.atlas_y), (0, 2049));
}

#[test]
fn changed_rows_are_uploaded_once() {
    let mut c = GlyphCache::new(8, 16);
    let up = c.take_uploads();
    assert_eq!(up.len(), 1);
    assert_eq!((up[0].y_min, up[0].y_max, up[0].offset, up[0].size), (0, 4096, 0, 4096 * 4096));
    assert!(!c.has_dirty_pages());
    assert!(c.take_uploads().is_empty());
    c.pack_r8(4096, 3, 0, 0, &[1; 4096 * 3]).unwrap();
    c.take_uploads();
    c.pack_r8(1, 2, 0, 0, &[5, 6]).unwrap();
    let up = c.take_uploads();
    assert_eq!((up[0].y_min, up[0].y_max), (4, 6));
    assert_eq!((up[0].offset, up[0].size), (4 * 4096, 2 * 4096));
}

#[test]
fn characters_are_settled() {
    let mut c = GlyphCache::new(8, 16);
    assert_eq!(c.lookup('a'), None);
    assert!(c.settle(' '));
    assert_eq!(c.lookup(' '), Some(None));
    assert!(!c.settle('a'));
    assert!(c.settle('█'));
    let g = c.lookup('█').unwrap().unwrap();
    assert_eq!((g.width, g.height), (8, 16));
    assert_eq!(c.pages[0].data[0], 255);
    let r = Raster { width: 1, height: 2, offset_x: 0, offset_y: 3, subpixel: true, data: vec![3, 3, 6, 255, 255, 255] };
    let g = c.insert_raster('a', Some(&r)).unwrap();
    assert!(c.settle('a'));
    assert_eq!(c.lookup('a'), Some(Some(g)));
    let at = g.atlas_y as usize * 4096 + g.atlas_x as usize;
    assert_eq!((c.pages[0].data[at], c.pages[0].data[at + 4096]), (4, 255));
    assert!(c.insert_raster('b', None).is_none());
    assert_eq!(c.lookup('b'), Some(None));
    assert_eq!(average_rgb(&[0, 0, 1, 10, 20, 30], 2), vec![0, 20]);
}

#[test]
fn colours_of_the_palettes() {
    assert_eq!(color_to_rgb(&Color::Default, true), [205, 214, 244]);
    assert_eq!(color_to_rgb(&Color::Default, false), [30, 30, 46]);
    assert_eq!(color_to_rgb(&Color::Indexed(9), true), [243, 139, 168]);
    assert_eq!(color_to_rgb(&Color::Indexed(15), true), [205, 214, 244]);
    assert_eq!(color_to_rgb(&Color::Indexed(16), true), [0, 0, 0]);
    assert_eq!(color_to_rgb(&Color::Indexed(231), true), [255, 255, 255]);
    assert_eq!(color_to_rgb(&Color::Indexed(67), true), [51, 102, 153]);
    assert_eq!(color_to_rgb(&Color::Indexed(232), true), [8, 8, 8]);
    assert_eq!(color_to_rgb(&Color::Indexed(255), true), [238, 238, 238]);
    assert_eq!(color_to_rgb(&Color::Rgb(1, 2, 3), false), [1, 2, 3]);
    let t = resolve_theme(&nord());
    assert_eq!(theme_color(&t, &Color::Default, true), t.fg);
    assert_eq!(theme_color(&t, &Color::Indexed(67), true), (51, 102, 153, 255));
    let red = t.ansi[1];
    assert_eq!(theme_color(&t, &Color::Indexed(1), true), (red.0, red.1, red.2, 255));
}

fn pixel(buf: &[u8], width: usize, x: usize, y: usize) -> [u8; 4] {
    let k = (y * width + x) * 4;
    [buf[k], buf[k + 1], buf[k + 2], buf[k + 3]]
}

#[test]
fn backgrounds_fill_their_cells() {
    let t = fed(2, 2, b"\x1b[48;2;9;8;7mX\x1b[0m \x1b[48;2;1;1;1m");
    let buf = paint_backgrounds(t.grid(), 5, 4, &vec![0, 2, 5], &vec![0, 2, 4]);
    assert_eq!(buf.len(), 80);
    assert_eq!(pixel(&buf, 5, 1, 1), [9, 8, 7, 255]);
    assert_eq!(pixel(&buf, 5, 2, 1), [30, 30, 46, 255]);
    assert_eq!(pixel(&buf, 5, 1, 2), [30, 30, 46, 255]);
    assert_eq!(text_to_shape(t.grid(), 0).unwrap(), "X");
    assert!(text_to_shape(t.grid(), 1).is_none());
    assert_eq!(glyph_color(t.grid(), 0, 5), [205, 214, 244]);
}

#[test]
fn glyph_pictures_are_blended_and_clipped() {
    let t = fed(2, 2, b"");
    let mut buf = paint_backgrounds(t.grid(), 4, 4, &vec![0, 2, 4], &vec![0, 2, 4]);
    let mask = GlyphImage { width: 2, height: 2, kind: ImageKind::Mask, data: vec![0, 255, 128, 9] };
    draw_glyph(&mut buf, 4, 4, -1, 0, &mask, [200, 100, 0]);
    assert_eq!(pixel(&buf, 4, 0, 0), [200, 100, 0, 255]);
    assert_eq!(pixel(&buf, 4, 1, 0), [30, 30, 46, 255]);
    let v = |c: u32, d: u32| ((c * 9 + d * 246) / 255) as u8;
    assert_eq!(pixel(&buf, 4, 0, 1), [v(200, 30), v(100, 30), v(0, 46), 255]);
    let color = GlyphImage { width: 1, height: 2, kind: ImageKind::Color, data: vec![1, 2, 3, 4] };
    draw_glyph(&mut buf, 4, 4, 3, 3, &color, [0, 0, 0]);
    assert_eq!(pixel(&buf, 4, 3, 3), [1, 2, 3, 4]);
    let other = GlyphImage { width: 4, height: 4, kind: ImageKind::Other, data: vec![9; 64] };
    let before = buf.clone();
    draw_glyph(&mut buf, 4, 4, 0, 0, &other, [0, 0, 0]);
    assert_eq!(buf, before);
    draw_cursor(&mut buf, 4, 4, 2, 2, 9, 1);
    let w = |c: u32, d: u32| ((c * 160 + d * 95) / 255) as u8;
    assert_eq!(pixel(&buf, 4, 2, 2), [w(205, 30), w(214, 30), w(244, 46), 255]);
    assert_eq!(pixel(&buf, 4, 1, 2), [30, 30, 46, 255]);
    assert_eq!(pixel(&buf, 4, 2, 3), [30, 30, 46, 255]);
}

#[test]
fn the_changed_window_is_the_shortest() {
    let a = [1u8, 1, 2, 2, 3, 3, 4, 4];
    let mut b = a;
    assert_eq!(changed_window(&a, 4, &b, 4, 2), InstanceUpload::Nothing);
    b[3] = 9;
    assert_eq!(changed_window(&a, 4, &b, 4, 2), InstanceUpload::Window { first: 1, last: 2 });
    b[6] = 9;
    assert_eq!(changed_window(&a, 4, &b, 4, 2), InstanceUpload::Window { first: 1, last: 4 });
    let mut card = a;
    card[2..8].copy_from_slice(&b[2..8]);
    assert_eq!(card, b);
    assert_eq!(changed_window(&a, 4, &b[..6], 3, 2), InstanceUpload::Whole);
}

#[test]
fn runs_of_a_page_are_one_call() {
    let b = batches(&vec![0, 0, 1, 1, 1, 5], 2);
    assert_eq!(
        b,
        vec![
            Batch { page: 0, start: 0, end: 2 },
            Batch { page: 1, start: 2, end: 5 },
            Batch { page: 1, start: 5, end: 6 },
        ]
    );
    assert!(batches(&vec![], 2).is_empty());
    assert_eq!(batches(&vec![3], 0), vec![Batch { page: 0, start: 0, end: 1 }]);
}

#[test]
fn buffers_and_surfaces() {
    assert_eq!(grown_capacity(100, 100), None);
    assert_eq!(grown_capacity(101, 100), Some(1125));
    assert_eq!(estimate_instances(&vec![(24, 80), (10, 20)], false), 24 * 80 + 200 + 512);
    assert_eq!(estimate_instances(&vec![(24, 80)], true), 24 * 80 + 480 + 512);
    assert_eq!(choose_format(&vec![false, true, true]), 1);
    assert_eq!(choose_format(&vec![false, false]), 0);
    assert_eq!(surface_size(0, 7), (1, 7));
    assert!(accepts_size(1, 1) && !accepts_size(0, 5) && !accepts_size(5, 0));
    assert_eq!(frame_step(Acquired::Image), FrameStep::Draw);
    assert_eq!(frame_step(Acquired::Outdated), FrameStep::Reconfigure);
    assert_eq!(frame_step(Acquired::Lost), FrameStep::Reconfigure);
    assert_eq!(frame_step(Acquired::Timeout), FrameStep::Skip);
    assert_eq!(frame_step(Acquired::OutOfMemory), FrameStep::Fail);
    assert_eq!(frame_step(Acquired::Other), FrameStep::Fail);
    assert!(key_for_terminal(true, false) && !key_for_terminal(true, true));
}
