use zenith::cell::{ansi_color, default_bg, default_fg, Color, BOLD, INVERSE};
use zenith::term::{display_width, wheel_keys, Terminal};

/// Hands what the VT parser reports to the terminal state machine.
struct Feed<'a>(&'a mut Terminal);

impl<'a> vte::Perform for Feed<'a> {
    fn print(&mut self, c: char) {
        self.0.print(c);
    }

    fn execute(&mut self, byte: u8) {
        self.0.execute(byte);
    }

    fn csi_dispatch(&mut self, params: &vte::Params, intermediates: &[u8], _ignore: bool, action: char) {
        let ps: Vec<u16> = params.iter().map(|p| p[0]).collect();
        self.0.csi_dispatch(&ps, intermediates, action);
    }

    fn esc_dispatch(&mut self, _intermediates: &[u8], _ignore: bool, byte: u8) {
        self.0.esc_dispatch(byte);
    }

    fn osc_dispatch(&mut self, params: &[&[u8]], _bell_terminated: bool) {
        let ps: Vec<Vec<u8>> = params.iter().map(|p| p.to_vec()).collect();
        self.0.osc_dispatch(&ps);
    }
}

fn feed(t: &mut Terminal, bytes: &[u8]) {
    let mut parser = vte::Parser::new();
    for &b in bytes {
        parser.advance(&mut Feed(t), b);
    }
}

fn row_text(term: &Terminal, row: usize) -> String {
    (0..term.grid().cols())
        .map(|col| term.grid().cell(col, row).c)
        .collect::<String>()
        .trim_end()
        .to_string()
}

#[test]
fn ich_shifts_right() {
    let mut t = Terminal::new(20, 5);
    feed(&mut t, b"abcdef\r\x1b[2@");
    assert_eq!(row_text(&t, 0), "  abcdef");
    assert_eq!(t.cursor(), (0, 0));
}

#[test]
fn dch_shifts_left() {
    let mut t = Terminal::new(20, 5);
    feed(&mut t, b"abcdef\r\x1b[2P");
    assert_eq!(row_text(&t, 0), "cdef");
}

#[test]
fn ech_erases_in_place() {
    let mut t = Terminal::new(20, 5);
    feed(&mut t, b"abcdef\r\x1b[2X");
    assert_eq!(row_text(&t, 0), "  cdef");
}

#[test]
fn mid_line_insert_then_type() {
    // readline inserting 'X' between "ab" and "cd"
    let mut t = Terminal::new(20, 5);
    feed(&mut t, b"abcd\x1b[2D\x1b[@X");
    assert_eq!(row_text(&t, 0), "abXcd");
    assert_eq!(t.cursor(), (3, 0));
}

#[test]
fn rep_repeats_last_char() {
    let mut t = Terminal::new(20, 5);
    feed(&mut t, b"-\x1b[4b");
    assert_eq!(row_text(&t, 0), "-----");
}

#[test]
fn selection_single_row() {
    let mut t = Terminal::new(20, 5);
    feed(&mut t, b"hello world");
    assert_eq!(t.grid().display_text_range((0, 0), (4, 0)), "hello");
}

#[test]
fn selection_multi_row() {
    let mut t = Terminal::new(20, 5);
    feed(&mut t, b"abc\r\ndef");
    // row 0: cols 1..=19 gives "bc" once trimmed; row 1: cols 0..=1 gives "de"
    assert_eq!(t.grid().display_text_range((1, 0), (1, 1)), "bc\nde");
}

#[test]
fn selection_reversed_endpoints() {
    let mut t = Terminal::new(20, 5);
    feed(&mut t, b"hello world");
    assert_eq!(
        t.grid().display_text_range((4, 0), (0, 0)),
        t.grid().display_text_range((0, 0), (4, 0))
    );
}

#[test]
fn selection_trailing_whitespace_trimmed() {
    let mut t = Terminal::new(20, 5);
    feed(&mut t, b"hi");
    let result = t.grid().display_text_range((0, 0), (19, 0));
    assert_eq!(result, "hi");
}

#[test]
fn screen_text_includes_scrollback_and_screen() {
    let mut term = Terminal::new(10, 2);
    feed(&mut term, b"one\r\ntwo\r\nthree\r\nfour");
    // "one" and "two" scrolled into the scrollback, "three" and "four" on screen
    assert_eq!(term.grid().screen_text(50), "one\ntwo\nthree\nfour");
    // the scrollback limited to its last line
    assert_eq!(term.grid().screen_text(1), "two\nthree\nfour");
}

fn cell_at(t: &Terminal, col: usize, row: usize) -> zenith::cell::Cell {
    *t.grid().cell(col, row)
}

#[test]
fn extended_colour_from_256_palette_cube() {
    let mut idx = 0usize;
    let c = Terminal::parse_color_from_params(&[5, 196], &mut idx);
    assert_eq!(c, Some(Color::rgb(255, 0, 0)));
    assert_eq!(idx, 2);
    let mut idx = 0usize;
    let c = Terminal::parse_color_from_params(&[5, 110], &mut idx);
    // 110 - 16 = 94 = 2*36 + 3*6 + 4
    assert_eq!(c, Some(Color::rgb(102, 153, 204)));
}

#[test]
fn extended_colour_from_256_palette_grays_and_ansi() {
    let mut idx = 0usize;
    assert_eq!(Terminal::parse_color_from_params(&[5, 244], &mut idx), Some(Color::rgb(128, 128, 128)));
    let mut idx = 0usize;
    assert_eq!(Terminal::parse_color_from_params(&[5, 3], &mut idx), Some(ansi_color(3)));
    assert_eq!(ansi_color(3), Color::rgb(0xe0, 0xaf, 0x68));
}

#[test]
fn extended_colour_direct_rgb_and_failures() {
    let mut idx = 1usize;
    assert_eq!(Terminal::parse_color_from_params(&[38, 2, 10, 20, 30, 1], &mut idx), Some(Color::rgb(10, 20, 30)));
    assert_eq!(idx, 5);
    let mut idx = 0usize;
    assert_eq!(Terminal::parse_color_from_params(&[2, 10, 20], &mut idx), None);
    assert_eq!(idx, 1);
    let mut idx = 0usize;
    assert_eq!(Terminal::parse_color_from_params(&[5], &mut idx), None);
    assert_eq!(idx, 1);
    let mut idx = 0usize;
    assert_eq!(Terminal::parse_color_from_params(&[7, 1], &mut idx), None);
    assert_eq!(idx, 0);
    let mut idx = 3usize;
    assert_eq!(Terminal::parse_color_from_params(&[2, 1, 1], &mut idx), None);
    assert_eq!(idx, 3);
}

#[test]
fn sgr_sets_and_clears_attributes_and_colours() {
    let mut t = Terminal::new(10, 2);
    feed(&mut t, b"\x1b[1;7;31mA\x1b[22;27;39mB\x1b[38;5;196;48;2;1;2;3mC\x1b[mD");
    let a = cell_at(&t, 0, 0);
    assert!(a.attrs.contains(BOLD) && a.attrs.contains(INVERSE));
    assert_eq!(a.fg, ansi_color(1));
    let b = cell_at(&t, 1, 0);
    assert!(!b.attrs.contains(BOLD) && !b.attrs.contains(INVERSE));
    assert_eq!(b.fg, default_fg());
    let c = cell_at(&t, 2, 0);
    assert_eq!(c.fg, Color::rgb(255, 0, 0));
    assert_eq!(c.bg, Color::rgb(1, 2, 3));
    let d = cell_at(&t, 3, 0);
    assert_eq!(d.fg, default_fg());
    assert_eq!(d.bg, default_bg());
    assert_eq!(d.attrs.bits, 0);
}

#[test]
fn sgr_extended_colour_without_its_mode_reads_on() {
    // "38;7": no colour follows 38, so 7 is read as inverse
    let mut t = Terminal::new(10, 2);
    feed(&mut t, b"\x1b[38;7mA");
    let a = cell_at(&t, 0, 0);
    assert!(a.attrs.contains(INVERSE));
    assert_eq!(a.fg, default_fg());
}

#[test]
fn bright_colours_use_upper_palette() {
    let mut t = Terminal::new(10, 2);
    feed(&mut t, b"\x1b[91;102mA");
    let a = cell_at(&t, 0, 0);
    assert_eq!(a.fg, ansi_color(9));
    assert_eq!(a.bg, ansi_color(10));
}

#[test]
fn alt_screen_round_trip_restores_main_screen() {
    let mut t = Terminal::new(10, 3);
    feed(&mut t, b"main\r\nline\x1b[31m");
    let before = t.cursor();
    feed(&mut t, b"\x1b[?1049h");
    assert_eq!(row_text(&t, 0), "");
    assert_eq!(row_text(&t, 1), "");
    feed(&mut t, b"\x1b[3;2H\x1b[1;32mALT");
    assert_eq!(row_text(&t, 2), " ALT");
    assert_eq!(t.grid().scrollback_len(), 0);
    feed(&mut t, b"\x1b[?1049l");
    assert_eq!(row_text(&t, 0), "main");
    assert_eq!(row_text(&t, 1), "line");
    assert_eq!(row_text(&t, 2), "");
    assert_eq!(t.cursor(), before);
    assert!(t.grid().is_dirty(0) && t.grid().is_dirty(2));
    feed(&mut t, b"Z");
    let z = cell_at(&t, 4, 1);
    assert_eq!(z.c, 'Z');
    assert_eq!(z.fg, ansi_color(1));
    assert!(!z.attrs.contains(BOLD));
}

#[test]
fn alt_screen_keeps_main_scrollback() {
    let mut t = Terminal::new(4, 2);
    feed(&mut t, b"a\r\nb\r\nc");
    assert_eq!(t.grid().scrollback_len(), 1);
    feed(&mut t, b"\x1b[?1049h1\r\n2\r\n3\r\n4");
    assert_eq!(t.grid().scrollback_len(), 0);
    feed(&mut t, b"\x1b[?1049l");
    assert_eq!(t.grid().scrollback_len(), 1);
    assert_eq!(t.grid().screen_text(10), "a\nb\nc");
}

#[test]
fn cursor_moves_are_clamped_to_the_screen() {
    let mut t = Terminal::new(10, 4);
    feed(&mut t, b"\x1b[999;999H");
    assert_eq!(t.cursor(), (9, 3));
    feed(&mut t, b"\x1b[99A\x1b[99D");
    assert_eq!(t.cursor(), (0, 0));
    feed(&mut t, b"\x1b[3C\x1b[2B");
    assert_eq!(t.cursor(), (3, 2));
    feed(&mut t, b"\x1b[7G\x1b[1d");
    assert_eq!(t.cursor(), (6, 0));
}

#[test]
fn wide_character_takes_two_cells() {
    let mut t = Terminal::new(10, 2);
    feed(&mut t, "中a".as_bytes());
    assert_eq!(cell_at(&t, 0, 0).c, '中');
    assert_eq!(cell_at(&t, 0, 0).width, 2);
    assert_eq!(cell_at(&t, 1, 0).width, 0);
    assert_eq!(cell_at(&t, 2, 0).c, 'a');
    assert_eq!(t.cursor(), (3, 0));
}

#[test]
fn printing_past_the_last_column_wraps() {
    let mut t = Terminal::new(4, 2);
    feed(&mut t, b"abcdef");
    assert_eq!(row_text(&t, 0), "abcd");
    assert_eq!(row_text(&t, 1), "ef");
    assert_eq!(t.cursor(), (2, 1));
}

#[test]
fn linefeed_at_bottom_scrolls_into_scrollback() {
    let mut t = Terminal::new(4, 2);
    feed(&mut t, b"a\r\nb\r\nc");
    assert_eq!(row_text(&t, 0), "b");
    assert_eq!(row_text(&t, 1), "c");
    assert_eq!(t.grid().scrollback_len(), 1);
    assert_eq!(t.grid().total_lines(), 1);
}

#[test]
fn osc_sets_title_with_lossy_decoding() {
    let mut t = Terminal::new(10, 2);
    feed(&mut t, "\x1b]0;héllo\x07".as_bytes());
    assert_eq!(t.title(), "héllo");
    t.osc_dispatch(&vec![b"2".to_vec(), vec![0x66, 0xff]]);
    assert_eq!(t.title(), "f\u{FFFD}");
    t.osc_dispatch(&vec![b"9".to_vec(), b"ignored".to_vec()]);
    assert_eq!(t.title(), "f\u{FFFD}");
}

#[test]
fn cursor_visibility_mode() {
    let mut t = Terminal::new(10, 2);
    assert!(t.show_cursor());
    feed(&mut t, b"\x1b[?25l");
    assert!(!t.show_cursor());
    feed(&mut t, b"\x1b[?25h");
    assert!(t.show_cursor());
}

#[test]
fn tab_and_backspace_move_the_cursor() {
    let mut t = Terminal::new(20, 2);
    feed(&mut t, b"ab\t");
    assert_eq!(t.cursor(), (8, 0));
    feed(&mut t, b"\x08\x08");
    assert_eq!(t.cursor(), (6, 0));
    feed(&mut t, b"\t\t\t");
    assert_eq!(t.cursor(), (19, 0));
}

#[test]
fn erase_in_display_and_line() {
    let mut t = Terminal::new(6, 3);
    feed(&mut t, b"aaaaaa\r\nbbbbbb\r\ncccccc\x1b[2;3H\x1b[K");
    assert_eq!(row_text(&t, 1), "bb");
    feed(&mut t, b"\x1b[1J");
    assert_eq!(row_text(&t, 0), "");
    assert_eq!(row_text(&t, 2), "cccccc");
    feed(&mut t, b"\x1b[2J");
    assert_eq!(row_text(&t, 2), "");
}

#[test]
fn save_and_restore_cursor() {
    let mut t = Terminal::new(10, 4);
    feed(&mut t, b"\x1b[3;4H\x1b[s\x1b[1;1H\x1b[u");
    assert_eq!(t.cursor(), (3, 2));
}

#[test]
fn resize_keeps_cursor_on_screen() {
    let mut t = Terminal::new(10, 4);
    feed(&mut t, b"\x1b[4;10H");
    t.resize(5, 2);
    assert_eq!(t.grid().cols(), 5);
    assert_eq!(t.grid().rows(), 2);
    assert_eq!(t.cursor(), (4, 1));
}

#[test]
fn scroll_display_and_reset_on_terminal() {
    let mut t = Terminal::new(4, 2);
    feed(&mut t, b"a\r\nb\r\nc");
    t.scroll_display(1);
    assert_eq!(t.grid().display_offset(), 1);
    assert_eq!(t.grid().display_cell(0, 0).c, 'a');
    t.reset_display_offset();
    assert_eq!(t.grid().display_offset(), 0);
    t.clear_dirty();
    assert!(!t.grid().is_dirty(0));
}

#[test]
fn cursor_saved_for_alt_screen_follows_a_resize() {
    let mut t = Terminal::new(10, 4);
    feed(&mut t, b"\x1b[4;10H\x1b[?1049h");
    t.resize(5, 2);
    feed(&mut t, b"\x1b[?1049l");
    assert_eq!(t.cursor(), (4, 1));
    assert_eq!(t.grid().cols(), 5);
}

#[test]
fn print_with_a_given_width_pads_the_following_cells() {
    let mut t = Terminal::new(6, 2);
    t.print_with_width('X', 3);
    assert_eq!(cell_at(&t, 0, 0).c, 'X');
    assert_eq!(cell_at(&t, 0, 0).width, 3);
    assert_eq!(cell_at(&t, 1, 0).width, 0);
    assert_eq!(cell_at(&t, 2, 0).width, 0);
    assert_eq!(t.cursor(), (3, 0));
    t.print_with_width('Y', 3);
    assert_eq!(t.cursor(), (5, 0));
    // the next wide character does not fit and wraps
    t.print_with_width('Z', 2);
    assert_eq!(cell_at(&t, 0, 1).c, 'Z');
    assert_eq!(t.cursor(), (2, 1));
}

#[test]
fn new_terminal_defaults() {
    let t = Terminal::new(10, 4);
    assert_eq!(t.title(), "Zenith");
    assert_eq!(t.cursor(), (0, 0));
    assert!(t.show_cursor());
    assert_eq!(t.grid().cols(), 10);
    assert_eq!(t.grid().rows(), 4);
}

#[test]
fn control_characters_print_one_column_wide() {
    let mut t = Terminal::new(10, 2);
    t.print('\u{85}');
    assert_eq!(cell_at(&t, 0, 0).width, 1);
    assert_eq!(t.cursor(), (1, 0));
}

#[test]
fn display_widths() {
    assert_eq!(display_width('a'), 1);
    assert_eq!(display_width('\u{7}'), 1);
    assert_eq!(display_width('\u{90}'), 1);
    assert_eq!(display_width('中'), 2);
    assert_eq!(display_width('\u{301}'), 0);
}

#[test]
fn try_print_prints_only_where_defined() {
    let mut t = Terminal::new(4, 1);
    assert!(t.try_print('a'));
    assert_eq!(cell_at(&t, 0, 0).c, 'a');
    assert_eq!(t.cursor(), (1, 0));
    let mut empty = Terminal::new(0, 0);
    assert!(!empty.try_print('a'));
    assert_eq!(empty.cursor(), (0, 0));
}

#[test]
fn alt_screen_is_reported() {
    let mut t = Terminal::new(10, 3);
    assert!(!t.is_alt_screen());
    feed(&mut t, b"\x1b[?1049h");
    assert!(t.is_alt_screen());
    feed(&mut t, b"\x1b[?1049l");
    assert!(!t.is_alt_screen());
}

#[test]
fn wheel_sends_arrow_keys() {
    assert_eq!(wheel_keys(2), b"\x1b[A\x1b[A".to_vec());
    assert_eq!(wheel_keys(-1), b"\x1b[B".to_vec());
    assert!(wheel_keys(0).is_empty());
}

#[test]
fn scrolls_of_nothing_accept_any_region() {
    let mut g = zenith::grid::Grid::new(2, 2, 5);
    g.scroll_up(0, 9, 0);
    g.scroll_down(9, 9, 0);
    assert_eq!(g.total_lines(), 0);
}

#[test]
fn osc_title_and_cwd_of_valid_utf8() {
    let mut t = Terminal::new(10, 2);
    t.osc_dispatch(&vec![b"7".to_vec(), "/tmp/é".as_bytes().to_vec()]);
    t.osc_dispatch(&vec![b"2".to_vec(), "tïtle".as_bytes().to_vec()]);
    assert_eq!(t.title(), "tïtle");
}
