//! The terminal as a host sees it: bytes in, screen out.

use nexterm::cell::{CellAttrs, Color, CursorStyle};
use nexterm::grid::Grid;
use nexterm::vt::TerminalParser;

const NOW: [u8; 8] = *b"12:34:56";

fn fed(cols: usize, rows: usize, bytes: &[u8]) -> TerminalParser {
    let mut t = TerminalParser::new(cols, rows);
    assert!(t.process_at(bytes, NOW));
    t
}

fn row(g: &Grid, i: usize) -> String {
    g.row_text_at(i).unwrap()
}

fn screen(g: &Grid) -> Vec<String> {
    (0..g.rows).map(|i| row(g, g.scrollback.len() + i)).collect()
}

#[test]
fn text_is_printed_and_lines_break() {
    let t = fed(10, 3, b"hello\r\nworld");
    assert_eq!(screen(t.grid()), vec!["hello", "world", ""]);
    assert_eq!((t.grid().cursor_row, t.grid().cursor_col), (1, 5));
}

#[test]
fn long_lines_wrap_and_are_flagged() {
    let t = fed(4, 3, b"abcdefgh");
    assert_eq!(screen(t.grid()), vec!["abcd", "efgh", ""]);
    assert!(!t.grid().is_row_wrapped(0));
    assert!(t.grid().is_row_wrapped(1));
    assert_eq!(t.grid().cursor_col, 3);
    let t = fed(4, 3, b"abcd\x1b[2;1Hefgh");
    assert!(!t.grid().is_row_wrapped(1));
}

#[test]
fn auto_wrap_can_be_switched_off() {
    let t = fed(4, 2, b"\x1b[?7labcdef");
    assert_eq!(screen(t.grid()), vec!["abcf", ""]);
}

#[test]
fn full_screen_scrolls_into_history() {
    let t = fed(5, 2, b"one\r\ntwo\r\nthree");
    assert_eq!(t.grid().scrollback.len(), 1);
    assert_eq!(row(t.grid(), 0), "one");
    assert_eq!(screen(t.grid()), vec!["two", "three"]);
    assert_eq!(t.grid().total_rows(), 3);
    assert_eq!(t.grid().row_timestamp(0), Some(&NOW));
}

#[test]
fn history_is_kept_up_to_its_limit() {
    let mut g = Grid::new(3, 2, 2);
    for i in 0..5u8 {
        g.cells[0][0].ch = (b'a' + i) as char;
        g.scroll_up();
        g.cells[0][0].ch = ' ';
    }
    assert_eq!(g.scrollback.len(), 2);
    assert_eq!(g.row_text_at(0).unwrap(), "d");
    assert_eq!(g.row_text_at(1).unwrap(), "e");
}

#[test]
fn cursor_moves_stay_on_screen() {
    let t = fed(10, 5, b"\x1b[3;4H\x1b[A\x1b[2C");
    assert_eq!((t.grid().cursor_row, t.grid().cursor_col), (1, 5));
    let t = fed(10, 5, b"\x1b[99;99H");
    assert_eq!((t.grid().cursor_row, t.grid().cursor_col), (4, 9));
    let t = fed(10, 5, b"\x1b[99A\x1b[99D");
    assert_eq!((t.grid().cursor_row, t.grid().cursor_col), (0, 0));
}

#[test]
fn erasing_lines_and_display() {
    let t = fed(5, 3, b"aaaaa\r\nbbbbb\r\nccccc\x1b[2;3H\x1b[K");
    assert_eq!(screen(t.grid()), vec!["aaaaa", "bb", "ccccc"]);
    let t = fed(5, 3, b"aaaaa\r\nbbbbb\r\nccccc\x1b[2;3H\x1b[1K");
    assert_eq!(screen(t.grid()), vec!["aaaaa", "   bb", "ccccc"]);
    let t = fed(5, 3, b"aaaaa\r\nbbbbb\r\nccccc\x1b[2;3H\x1b[J");
    assert_eq!(screen(t.grid()), vec!["aaaaa", "bb", ""]);
    let t = fed(5, 3, b"aaaaa\r\nbbbbb\r\nccccc\x1b[2;3H\x1b[1J");
    assert_eq!(screen(t.grid()), vec!["", "   bb", "ccccc"]);
    let t = fed(5, 3, b"aaaaa\r\nbbbbb\r\nccccc\x1b[2J");
    assert_eq!(screen(t.grid()), vec!["", "", ""]);
}

#[test]
fn inserting_and_deleting() {
    let t = fed(5, 3, b"a\r\nb\r\nc\x1b[1;1H\x1b[L");
    assert_eq!(screen(t.grid()), vec!["", "a", "b"]);
    let t = fed(5, 3, b"a\r\nb\r\nc\x1b[1;1H\x1b[M");
    assert_eq!(screen(t.grid()), vec!["b", "c", ""]);
    let t = fed(5, 1, b"abcde\x1b[1;2H\x1b[2@");
    assert_eq!(screen(t.grid()), vec!["a  bc"]);
    let t = fed(5, 1, b"abcde\x1b[1;2H\x1b[2P");
    assert_eq!(screen(t.grid()), vec!["ade"]);
    let t = fed(5, 1, b"abcde\x1b[1;2H\x1b[2X");
    assert_eq!(screen(t.grid()), vec!["a  de"]);
}

#[test]
fn scroll_region_keeps_the_rest() {
    let t = fed(3, 4, b"a\r\nb\r\nc\r\nd\x1b[2;3r\x1b[3;1H\n");
    assert_eq!(screen(t.grid()), vec!["a", "c", "", "d"]);
    assert_eq!(t.grid().scrollback.len(), 0);
    let t = fed(3, 4, b"a\r\nb\r\nc\r\nd\x1b[2;3r\x1b[2;1H\x1bM");
    assert_eq!(screen(t.grid()), vec!["a", "", "b", "d"]);
}

#[test]
fn colours_and_attributes_are_selected() {
    let t = fed(10, 1, b"\x1b[1;31mA\x1b[38;5;200mB\x1b[48;2;1;2;3mC\x1b[0mD");
    let c = &t.grid().cells[0];
    assert_eq!(c[0].fg, Color::Indexed(1));
    assert!(c[0].attrs.contains(CellAttrs::BOLD));
    assert_eq!(c[1].fg, Color::Indexed(200));
    assert_eq!(c[2].bg, Color::Rgb(1, 2, 3));
    assert_eq!(c[3].fg, Color::Default);
    assert_eq!(c[3].bg, Color::Default);
    assert_eq!(c[3].attrs, CellAttrs::empty());
}

#[test]
fn attributes_come_and_go() {
    let a = CellAttrs::empty().insert(CellAttrs::BOLD).insert(CellAttrs::ITALIC);
    assert!(a.contains(CellAttrs::BOLD) && a.contains(CellAttrs::ITALIC));
    let b = a.remove(CellAttrs::BOLD);
    assert!(!b.contains(CellAttrs::BOLD) && b.contains(CellAttrs::ITALIC));
}

#[test]
fn wide_characters_take_two_cells() {
    let t = fed(6, 1, "a漢b".as_bytes());
    let c = &t.grid().cells[0];
    assert_eq!(c[1].ch, '漢');
    assert!(c[1].attrs.contains(CellAttrs::WIDE));
    assert!(c[2].attrs.contains(CellAttrs::WIDE_TAIL));
    assert_eq!(c[3].ch, 'b');
    assert_eq!(nexterm::width::char_width('漢'), 2);
    assert_eq!(nexterm::width::char_width('a'), 1);
}

#[test]
fn alternate_screen_keeps_the_primary() {
    let mut t = fed(5, 2, b"one\r\ntwo");
    assert!(t.process_at(b"\x1b[?1049hzzz", NOW));
    assert!(t.grid().is_alt_screen);
    assert_eq!(screen(t.grid()), vec!["zzz", ""]);
    assert!(t.process_at(b"\x1b[?1049l", NOW));
    assert!(!t.grid().is_alt_screen);
    assert_eq!(screen(t.grid()), vec!["one", "two"]);
    assert_eq!((t.grid().cursor_row, t.grid().cursor_col), (1, 3));
}

#[test]
fn saved_cursor_comes_back() {
    let t = fed(10, 5, b"\x1b[3;4H\x1b7\x1b[1;1H\x1b8");
    assert_eq!((t.grid().cursor_row, t.grid().cursor_col), (2, 3));
}

#[test]
fn modes_are_switched() {
    let t = fed(10, 5, b"\x1b[?25l\x1b[?1h\x1b[?2004h\x1b[?1002h\x1b[?1006h\x1b[4 q");
    let g = t.grid();
    assert!(!g.cursor_visible);
    assert!(g.application_cursor_keys);
    assert!(g.bracketed_paste);
    assert_eq!(g.mouse_tracking, 1002);
    assert_eq!(g.mouse_format, 1006);
    assert_eq!(g.cursor_style, CursorStyle::Underline);
}

#[test]
fn reports_are_answered() {
    let t = fed(10, 5, b"\x1b[3;4H\x1b[6n");
    assert_eq!(t.state.pending_replies, vec![b"\x1b[3;4R".to_vec()]);
}

#[test]
fn titles_are_taken_over() {
    let t = fed(10, 5, "\x1b]0;größe\x07".as_bytes());
    assert_eq!(t.grid().title, "größe");
    let t = fed(10, 5, b"\x1b]2;\xff\xfe\x07");
    assert_eq!(t.grid().title, "");
}

#[test]
fn bytes_may_come_in_pieces() {
    let whole = fed(10, 3, "\x1b[2;2Hab漢\x1b[1mc".as_bytes());
    let mut pieces = TerminalParser::new(10, 3);
    for b in "\x1b[2;2Hab漢\x1b[1mc".as_bytes() {
        assert!(pieces.process_at(&[*b], NOW));
    }
    assert_eq!(screen(whole.grid()), screen(pieces.grid()));
    assert_eq!(whole.grid().cells, pieces.grid().cells);
}

#[test]
fn resizing_reflows() {
    let mut t = fed(5, 2, b"abcde\r\nfg");
    t.grid_mut().resize(3, 3);
    assert_eq!(screen(t.grid()), vec!["abc", "de", "fg"]);
    assert_eq!((t.grid().cols, t.grid().rows), (3, 3));
    assert_eq!((t.grid().cursor_row, t.grid().cursor_col), (2, 2));
    assert!(t.grid().is_row_wrapped(1));
    assert!(t.process_at(b"\r\nx", NOW));
    assert_eq!(row(t.grid(), 0), "abc");
    assert_eq!(screen(t.grid()), vec!["de", "fg", "x"]);
    let mut t = fed(4, 2, b"abcd");
    t.grid_mut().resize(2, 2);
    assert_eq!(screen(t.grid()), vec!["ab", "cd"]);
    t.grid_mut().resize(4, 2);
    assert_eq!(screen(t.grid()), vec!["abcd", ""]);
}

#[test]
fn resizing_moves_blocks_with_their_rows() {
    let mut t = fed(4, 4, b"\x1b]133;A\x07abcd\r\n\x1b]133;A\x07ef");
    t.grid_mut().resize(2, 4);
    assert_eq!(screen(t.grid()), vec!["ab", "cd", "ef", ""]);
    let blocks = t.grid().block_list.blocks();
    assert_eq!((blocks[0].start_row, blocks[1].start_row), (0, 2));
}

#[test]
fn a_wide_character_is_not_torn_apart() {
    let mut t = fed(5, 2, "ab\u{65e5}c".as_bytes());
    t.grid_mut().resize(3, 3);
    assert_eq!(row(t.grid(), 0), "ab");
    assert_eq!(t.grid().cells[1][0].ch, '\u{65e5}');
    assert_eq!(t.grid().cells[1][2].ch, 'c');
}

#[test]
fn resizing_reaches_the_screen_set_aside() {
    let mut g = Grid::new(4, 3, 10);
    g.cells[0][0].ch = 'x';
    g.enter_alt_screen();
    g.resize(6, 5);
    g.leave_alt_screen();
    assert_eq!((g.rows, g.cols), (5, 6));
    assert_eq!(g.cells.len(), 5);
    assert!(g.cells.iter().all(|r| r.len() == 6));
    assert_eq!(g.cells[0][0].ch, 'x');
}

#[test]
fn a_string_terminator_is_not_printed() {
    let t = fed(10, 2, b"\x1b]0;hi\x1b\\");
    assert_eq!(t.grid().title, "hi");
    assert_eq!(screen(t.grid()), vec!["", ""]);
    assert_eq!((t.grid().cursor_row, t.grid().cursor_col), (0, 0));
    let t = fed(10, 2, b"\x1bP1$q\x1b\\x");
    assert_eq!(screen(t.grid()), vec!["x", ""]);
    let t = fed(10, 2, b"\x1b]0;hi\x07x");
    assert_eq!(screen(t.grid()), vec!["x", ""]);
}

#[test]
fn two_calls_leave_what_one_leaves() {
    let bytes = "a\x1b[31mb\u{e9}\x1b]133;A\x07\r\nc\x1b]2;t\x1b\\d".as_bytes();
    let once = fed(4, 2, bytes);
    for cut in 0..bytes.len() {
        let mut twice = TerminalParser::new(4, 2);
        assert!(twice.process_at(&bytes[..cut], NOW));
        assert!(twice.process_at(&bytes[cut..], *b"12:34:57"));
        assert_eq!(twice.grid().cells, once.grid().cells);
        assert_eq!(twice.grid().title, once.grid().title);
        assert_eq!(twice.grid().cursor_col, once.grid().cursor_col);
    }
}

#[test]
fn a_command_goes_on_to_the_first_blank_row() {
    let t = fed(3, 6, b"a\r\nb\r\nc\r\nd\r\ne");
    assert_eq!(t.grid().block_command_text(0).unwrap(), "a b c d e");
}

#[test]
fn viewport_scrolls_through_history() {
    let mut t = fed(3, 2, b"a\r\nb\r\nc\r\nd");
    let g = t.grid_mut();
    assert_eq!(g.viewport_start(), 2);
    g.scroll_viewport_up(1);
    assert_eq!(g.viewport_start(), 1);
    assert_eq!(g.viewport_row(0).unwrap()[0].ch, 'b');
    g.scroll_viewport_up(10);
    assert_eq!(g.scroll_offset, 2);
    g.scroll_viewport_down(1);
    assert_eq!(g.viewport_to_absolute(1), 2);
    g.scroll_reset();
    assert_eq!(g.scroll_offset, 0);
    assert!(g.viewport_row(2).is_none());
}

#[test]
fn many_lines_scroll_through_a_full_history() {
    let mut t = TerminalParser::new(20, 5);
    for i in 0..200 {
        assert!(t.process_at(format!("line {i}\r\n").as_bytes(), NOW));
    }
    assert_eq!(t.grid().scrollback.len(), 196);
    assert_eq!(row(t.grid(), 0), "line 0");
    assert_eq!(row(t.grid(), 199), "line 199");
}

#[test]
fn the_clock_gives_a_time_of_day() {
    assert_eq!(nexterm::clock::timestamp_of(86_399), *b"23:59:59");
    assert_eq!(nexterm::clock::timestamp_of(86_400 + 3_661), *b"01:01:01");
    let now = Grid::now_timestamp();
    assert_eq!((now[2], now[5]), (b':', b':'));
    assert!(!nexterm::clock::is_unset(&now));
    assert!(nexterm::clock::is_unset(&nexterm::clock::unset_stamp()));
    let mut t = TerminalParser::new(5, 2);
    assert!(t.process(b"hi"));
    assert!(t.grid().row_timestamp(0).is_some());
    assert!(t.grid().row_timestamp(1).is_none());
}

#[test]
fn prompt_marks_make_blocks() {
    let t = fed(
        20,
        10,
        b"\x1b]133;A\x07$ ls\x1b]133;B\x07\r\nout\r\n\x1b]133;D;0\x07\x1b]133;A\x07$ ",
    );
    let list = &t.grid().block_list;
    assert!(list.has_osc133());
    assert_eq!(list.len(), 2);
    assert_eq!(list.blocks()[0].exit_code, Some(0));
    assert_eq!(list.block_for_row(1).unwrap().0, 0);
    assert!(t.grid().is_block_start(2));
    assert!(!t.grid().is_block_start(1));
    assert_eq!(list.block_end_row(0, t.grid().total_rows()), 2);
}

#[test]
fn reset_clears_everything() {
    let t = fed(5, 2, b"\x1b[31mabc\x1bcx");
    assert_eq!(screen(t.grid()), vec!["x", ""]);
    assert_eq!(t.grid().cells[0][0].fg, Color::Default);
}

#[test]
fn the_command_of_a_block_is_read_back() {
    let mut t = TerminalParser::new(20, 6);
    assert!(t.process_at(b"\x1b]133;A\x07$ \x1b]133;B\x07make  all\r\ndone\r\n", NOW));
    assert_eq!(t.grid().block_command_text(0).unwrap(), "make  all done");
    assert_eq!(t.grid().block_command_text(9), None);
    assert!(t.process_at(b"\x1b]133;D;3\x07\x1b]133;A\x07$ ls", NOW));
    let blocks = t.grid().block_list.blocks();
    assert_eq!(blocks[0].exit_code, Some(3));
    assert_eq!(t.grid().block_command_text(1).unwrap(), "$ ls");
    assert_eq!(t.grid().block_list.block_id_at_row(0), Some(blocks[0].id));
    assert_eq!(t.grid().block_list.start_row_for_id(blocks[1].id), Some(2));
}

#[test]
fn any_bytes_leave_the_cursor_inside() {
    let mut t = TerminalParser::new(7, 4);
    let mut x: u32 = 12345;
    for _ in 0..400 {
        let mut bytes = Vec::new();
        for _ in 0..40 {
            x = x.wrapping_mul(1664525).wrapping_add(1013904223);
            let pick = (x >> 24) as u8;
            let b = if pick < 60 { b"\x1b[;?0123456789HJKLMPSTmrhlABCD"[(pick as usize) % 30] } else { pick };
            bytes.push(b);
        }
        assert!(t.process_at(&bytes, NOW));
        let g = t.grid();
        assert!(g.cursor_row < 4 && g.cursor_col < 7);
        assert!(g.scroll_top < g.scroll_bottom && g.scroll_bottom < 4);
        assert_eq!(g.cells.len(), 4);
        assert!(g.cells.iter().all(|l| l.len() == 7));
    }
}

#[test]
fn a_run_is_read_back_from_its_line() {
    let t = fed(8, 2, b"........\x1b[1;3H\x1b[31mabc");
    let g = t.grid();
    assert_eq!(screen(g), vec!["..abc...", ""]);
    assert_eq!((g.cursor_row, g.cursor_col), (0, 5));
    assert_eq!(g.cells[0][2].fg, Color::Indexed(1));
    assert_eq!(g.cells[0][5].fg, Color::Default);
}

#[test]
fn resizing_keeps_what_is_shown() {
    let mut t = fed(6, 3, b"abcdef\r\nghijkl\r\nmnopqr");
    t.grid_mut().resize(4, 2);
    let all: Vec<String> = (0..6).map(|i| row(t.grid(), i)).collect();
    assert_eq!(all, vec!["abcd", "ef", "ghij", "kl", "mnop", "qr"]);
    t.grid_mut().resize(6, 3);
    assert_eq!(screen(t.grid()), vec!["mnopqr", "", ""]);
}

#[test]
fn the_primary_screen_comes_back_after_anything() {
    let mut t = fed(6, 3, b"one\r\ntwo\r\nthree\r\nfour\x1b[2;3r\x1b[2;2H");
    let cells = t.grid().cells.clone();
    let history = t.grid().scrollback.clone();
    let at = (t.grid().cursor_row, t.grid().cursor_col);
    assert!(t.process_at(b"\x1b[?1047hxyz\r\n\n\n\x1b[?47h\x1b[2J\x1b[1;2r\x1b[9L\x1b[?7l", NOW));
    assert!(t.grid().is_alt_screen);
    assert!(t.process_at(b"\x1b[?1047l", NOW));
    assert!(!t.grid().is_alt_screen);
    assert_eq!(t.grid().cells, cells);
    assert_eq!(t.grid().scrollback, history);
    assert_eq!((t.grid().cursor_row, t.grid().cursor_col), at);
    assert_eq!((t.grid().scroll_top, t.grid().scroll_bottom), (1, 2));
}

#[test]
fn the_saved_cursor_comes_back_after_anything() {
    let t = fed(6, 3, b"ab\x1b[31m\x1b7\x1b[3;3H\x1b[0;1mx\r\n\x1b[2J\x1b[?1047hq\x1b[?1047l\x1b8y");
    assert_eq!(t.grid().cells[0][2].ch, 'y');
    assert_eq!(t.grid().cells[0][2].fg, Color::Indexed(1));
    assert!(!t.grid().cells[0][2].attrs.contains(CellAttrs::BOLD));
}
