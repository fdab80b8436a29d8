use zenith::cell::{ansi_color, default_bg, default_fg, Cell, CellAttrs, Color, BOLD, INVERSE, ITALIC};
use zenith::text::{cells_text, char_is_whitespace, chars_string, str_chars, trim_end_vec, trim_vec};

#[test]
fn whitespace_classes() {
    assert!(char_is_whitespace(' '));
    assert!(char_is_whitespace('\t'));
    assert!(char_is_whitespace('\n'));
    assert!(char_is_whitespace('\u{3000}'));
    assert!(!char_is_whitespace('a'));
    assert!(!char_is_whitespace('\0'));
}

#[test]
fn trimming_char_vectors() {
    let mut v: Vec<char> = " a b \t".chars().collect();
    trim_end_vec(&mut v);
    assert_eq!(v.iter().collect::<String>(), " a b");
    let t = trim_vec(&"  x y  ".chars().collect());
    assert_eq!(t.iter().collect::<String>(), "x y");
    assert!(trim_vec(&"   ".chars().collect()).is_empty());
}

#[test]
fn strings_and_char_vectors_convert_both_ways() {
    let v = str_chars("héllo");
    assert_eq!(v, vec!['h', 'é', 'l', 'l', 'o']);
    assert_eq!(chars_string(&v), "héllo");
}

#[test]
fn cell_text_skips_continuations_and_trailing_blanks() {
    let mut cells = vec![Cell::default(); 5];
    cells[0].c = '中';
    cells[0].width = 2;
    cells[1].width = 0;
    cells[2].c = 'x';
    assert_eq!(cells_text(&cells).iter().collect::<String>(), "中x");
}

#[test]
fn attribute_sets() {
    let mut a = CellAttrs::empty();
    assert!(!a.contains(BOLD));
    a.insert(BOLD);
    a.insert(INVERSE);
    assert!(a.contains(BOLD) && a.contains(INVERSE) && !a.contains(ITALIC));
    assert!(a.contains(BOLD | INVERSE));
    a.remove(BOLD);
    assert!(!a.contains(BOLD) && a.contains(INVERSE));
}

#[test]
fn palette_and_defaults() {
    assert_eq!(ansi_color(0), Color::rgb(0x15, 0x16, 0x1e));
    assert_eq!(ansi_color(15), Color::rgb(0xc0, 0xca, 0xf5));
    assert_eq!(default_fg(), Color::rgb(200, 200, 200));
    assert_eq!(default_bg(), Color::rgb(26, 27, 38));
    let blank = Cell::default();
    assert_eq!(blank.c, ' ');
    assert_eq!(blank.width, 1);
    assert_eq!(blank.attrs.bits, 0);
    assert_eq!(blank.fg, default_fg());
    assert_eq!(blank.bg, default_bg());
}
