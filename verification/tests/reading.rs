//! Reading the grid back: search, command texts, folds and selections.

use std::collections::HashSet;

use nexterm::blocks::{BlockList, BlockTrigger};
use nexterm::cell::Selection;
use nexterm::grid::Grid;
use nexterm::search::find_plain;
use nexterm::vt::TerminalParser;

const NOW: [u8; 8] = *b"12:34:56";

fn fed(cols: usize, rows: usize, bytes: &[u8]) -> TerminalParser {
    let mut t = TerminalParser::new(cols, rows);
    assert!(t.process_at(bytes, NOW));
    t
}

#[test]
fn plain_search_finds_every_match() {
    let t = fed(20, 3, b"foo bar foo\r\nFOO food");
    let g = t.grid();
    assert_eq!(g.search_text("foo", true, false, false), vec![(0, 0, 3), (0, 8, 3), (1, 4, 3)]);
    assert_eq!(
        g.search_text("foo", false, false, false),
        vec![(0, 0, 3), (0, 8, 3), (1, 0, 3), (1, 4, 3)]
    );
    assert_eq!(g.search_text("foo", false, true, false), vec![(0, 0, 3), (0, 8, 3), (1, 0, 3)]);
    assert_eq!(g.search_text("", false, false, false), vec![]);
    assert_eq!(g.search_text("quux", false, false, false), vec![]);
}

#[test]
fn regex_search_uses_the_pattern() {
    let t = fed(20, 3, b"a1 b22 c333");
    let g = t.grid();
    assert_eq!(g.search_text("[0-9]+", true, false, true), vec![(0, 1, 1), (0, 4, 2), (0, 8, 3)]);
    assert_eq!(g.search_text("B2", false, false, true), vec![(0, 3, 2)]);
    assert_eq!(g.search_text("B2", true, false, true), vec![]);
    assert_eq!(g.search_text("b2", true, true, true), vec![]);
    assert_eq!(g.search_text("(", true, false, true), vec![]);
}

#[test]
fn search_reaches_into_history() {
    let t = fed(10, 2, b"needle\r\nb\r\nc\r\nneedle");
    assert_eq!(t.grid().search_text("needle", true, false, false), vec![(0, 0, 6), (3, 0, 6)]);
}

fn found(line: &str, query: &str, case: bool, word: bool) -> Vec<(usize, usize)> {
    let line: Vec<char> = line.chars().collect();
    let query: Vec<char> = query.chars().collect();
    find_plain(&line, &query, case, word)
}

#[test]
fn plain_hits_are_columns() {
    assert_eq!(found("abcabc", "bc", true, false), vec![(1, 2), (4, 2)]);
    assert_eq!(found("abc bc", "bc", true, true), vec![(4, 2)]);
    assert_eq!(found("aaa", "aa", true, false), vec![(0, 2), (1, 2)]);
    assert_eq!(found("\u{e9}x", "x", true, false), vec![(1, 1)]);
    assert_eq!(found("\u{c9}X", "\u{e9}x", false, false), vec![(0, 2)]);
    assert_eq!(found("\u{130}x", "X", false, false), vec![(1, 1)]);
    assert_eq!(found("ab", "B", true, false), vec![]);
    assert_eq!(found("\u{391}\u{3a3}", "\u{3c3}", false, false), vec![]);
    assert_eq!(found("\u{391}\u{3a3}", "\u{3c2}", false, false), vec![(1, 1)]);
    assert_eq!(found("\u{3a3}\u{391}", "\u{3a3}", false, false), vec![(0, 1)]);
    assert_eq!(found("\u{130}\u{3a3}x", "X", false, false), vec![(2, 1)]);
    assert_eq!(found("a\u{130}", "i", false, false), vec![(1, 1)]);
    assert_eq!(found("\u{130}b", "i\u{307}B", false, false), vec![(0, 2)]);
    assert_eq!(found("ab", "", true, false), vec![]);
}

#[test]
fn search_counts_columns() {
    let mut g = Grid::new(3, 1, 0);
    g.cells[0][0].ch = '\u{e9}';
    g.cells[0][1].ch = 'x';
    assert_eq!(g.search_text("x", true, false, false), vec![(0, 1, 1)]);
    assert_eq!(g.search_text("x", true, false, true), vec![(0, 1, 1)]);
    assert_eq!(g.search_text("\u{e9}", true, false, false), vec![(0, 0, 1)]);
    assert_eq!(g.search_text("\u{c9}X", false, false, false), vec![(0, 0, 2)]);
    assert_eq!(g.search_text(".x", true, false, true), vec![(0, 0, 2)]);
}

#[test]
fn a_reset_gives_a_new_id() {
    let mut l = BlockList::new();
    let a = l.start_block(BlockTrigger::Osc133A, 0, *b"10:00:00");
    let b = l.start_block(BlockTrigger::Osc133A, 5, *b"10:00:01");
    l.adjust_on_evict(6);
    l.reset(2, *b"10:00:02");
    assert_eq!(l.len(), 1);
    assert!(l.blocks()[0].id > a && l.blocks()[0].id > b);
}

#[test]
fn selections_read_the_same_both_ways() {
    let a = Selection { start_row: 1, start_col: 5, end_row: 3, end_col: 2 };
    let b = Selection { start_row: 3, start_col: 2, end_row: 1, end_col: 5 };
    for row in 0..5 {
        for col in 0..8 {
            assert_eq!(a.contains(row, col), b.contains(row, col));
        }
    }
    assert!(a.contains(1, 5) && a.contains(3, 2) && a.contains(2, 0));
    assert!(!a.contains(1, 4) && !a.contains(3, 3) && !a.contains(0, 9));
    assert_eq!(b.ordered(), (1, 5, 3, 2));
}

fn three_blocks() -> BlockList {
    let mut l = BlockList::new();
    l.start_block(BlockTrigger::Initial, 0, NOW);
    l.start_block(BlockTrigger::Osc133A, 10, NOW);
    l.start_block(BlockTrigger::Osc133A, 20, NOW);
    l
}

#[test]
fn folds_hide_rows_and_conserve_the_rest() {
    let l = three_blocks();
    let ids: Vec<u64> = l.blocks().iter().map(|b| b.id).collect();
    let n = l.len();
    assert_eq!(l.blocks()[n - 2].start_row, 10);
    let mut folds = HashSet::new();
    assert_eq!(l.fold_savings(&folds, 30, usize::MAX), 0);
    assert_eq!(l.virtual_total(&folds, 30, usize::MAX) + l.blocks()[0].start_row, 30);
    folds.insert(ids[n - 2]);
    assert_eq!(l.fold_savings(&folds, 30, usize::MAX), 8);
    let whole = l.virtual_total(&HashSet::new(), 30, usize::MAX);
    assert_eq!(l.virtual_total(&folds, 30, usize::MAX) + 8, whole);
    assert_eq!(l.render_start(&folds, 30, usize::MAX, 5, 0), 25);
}

#[test]
fn blocks_move_up_when_history_is_dropped() {
    let mut l = three_blocks();
    let n = l.len();
    l.adjust_on_evict(5);
    let rows: Vec<usize> = l.blocks().iter().map(|b| b.start_row).collect();
    assert_eq!(rows[rows.len() - 2..], [5, 15]);
    assert_eq!(l.start_row_for_id(l.blocks()[rows.len() - 1].id), Some(15));
    assert!(l.len() <= n);
}

#[test]
fn blocks_go_through_their_states() {
    let mut l = BlockList::new();
    assert!(l.is_empty());
    l.start_block(BlockTrigger::Osc133A, 3, NOW);
    l.mark_executing(7);
    l.mark_completed(Some(2));
    let b = l.current().unwrap();
    assert_eq!(b.exit_code, Some(2));
    assert_eq!(b.start_row, 3);
    assert_eq!(l.block_id_at_row(3), Some(b.id));
    assert_eq!(l.block_id_at_row(2), None);
}

#[test]
fn visual_rows_skip_folds() {
    let mut g = Grid::new(5, 4, 100);
    for i in 0..12 {
        g.cells[3][0].ch = (b'a' + i as u8) as char;
        g.scroll_up();
    }
    let folds = HashSet::new();
    assert_eq!(g.visual_to_absolute(0, &folds), g.viewport_start());
    assert_eq!(g.visual_to_absolute(2, &folds), g.viewport_start() + 2);
}
