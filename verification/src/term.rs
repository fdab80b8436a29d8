use vstd::prelude::*;
use crate::cell::{
    ansi_color, default_bg, default_fg, spec_ansi_color, spec_default_bg, spec_default_fg, Cell,
    CellAttrs, Color, BOLD, DIM, HIDDEN, INVERSE, ITALIC, STRIKETHROUGH, UNDERLINE,
};
use crate::grid::{
    gs_clear, gs_delete_chars, gs_erase_line, gs_insert_chars, gs_new, gs_resize,
    gs_reset_display_offset, gs_scroll_display, gs_scroll_down, gs_scroll_up, gs_set_dirty,
    gs_write_flat, law_scroll_up_counts_lines, lemma_write_state, min, Grid, GridState,
};

verus! {

/// The display width that the `unicode-width` crate gives a character.
pub uninterp spec fn unicode_char_width(c: char) -> Option<usize>;

/// Calls `UnicodeWidthChar::width` of the `unicode-width` crate. Its source
/// returns `None` exactly for the control characters U+0000..U+001F and
/// U+007F..U+009F, 1 for the rest of ASCII, and otherwise a table entry of
/// at most 3 columns; the table itself is not restated here.
#[verifier::external_body]
fn char_width(c: char) -> (w: Option<usize>)
    ensures
        w == unicode_char_width(c),
        ((c as u32) < 0x20 || (0x7f <= (c as u32) && (c as u32) < 0xa0)) <==> w is None,
        (0x20 <= (c as u32) && (c as u32) < 0x7f) ==> w == Some(1usize),
        w matches Some(n) ==> n <= 3,
{
    unicode_width::UnicodeWidthChar::width(c)
}

/// The columns that printing `c` takes: its Unicode width, 1 for control
/// characters.
pub open spec fn print_width(c: char) -> nat {
    match unicode_char_width(c) {
        Some(n) => n as nat,
        None => 1,
    }
}

/// What lossy UTF-8 decoding (`String::from_utf8_lossy`) makes of bytes.
pub uninterp spec fn utf8_lossy(b: Seq<u8>) -> Seq<char>;

/// Calls `String::from_utf8_lossy`: valid UTF-8 decodes to its characters,
/// invalid sequences to U+FFFD; the replacement rule is not restated.
#[verifier::external_body]
fn decode_lossy(b: &[u8]) -> (s: String)
    ensures
        s@ == utf8_lossy(b@),
        vstd::utf8::valid_utf8(b@) ==> s@ == vstd::utf8::decode_utf8(b@),
{
    String::from_utf8_lossy(b).into()
}

/// A cursor as it is saved on entering the alternate screen: its position,
/// its pending wrap, and the attributes and colours of the text it writes.
pub struct CursorState {
    pub col: nat,
    pub row: nat,
    pub pending_wrap: bool,
    pub attrs: CellAttrs,
    pub fg: Color,
    pub bg: Color,
}

/// The columns that printing `c` takes (see [`print_width`]): one for a
/// control character, one for printable ASCII, otherwise the width that the
/// `unicode-width` crate gives, at most three.
pub fn display_width(c: char) -> (w: usize)
    ensures
        w == print_width(c),
        (c as u32) < 0x7f ==> w == 1,
        (0x7f <= (c as u32) && (c as u32) < 0xa0) ==> w == 1,
        w <= 3,
{
    match char_width(c) {
        Some(w) => w,
        None => 1,
    }
}

/// The abstract state of a [`Terminal`].
pub struct TermView {
    pub grid: GridState,
    /// The main screen, kept aside while the alternate screen is shown.
    pub alt_grid: Option<GridState>,
    /// The cursor of the main screen, saved on entering the alternate one.
    pub alt_saved: CursorState,
    pub cursor_col: nat,
    pub cursor_row: nat,
    pub saved_cursor_col: nat,
    pub saved_cursor_row: nat,
    pub attrs: CellAttrs,
    pub fg: Color,
    pub bg: Color,
    pub scroll_top: nat,
    pub scroll_bottom: nat,
    pub title: Seq<char>,
    pub cwd: Seq<char>,
    pub show_cursor: bool,
    pub auto_wrap: bool,
    pub pending_wrap: bool,
    pub last_char: Option<char>,
}

impl TermView {
    /// What every reachable state satisfies.
    pub open spec fn inv(self) -> bool {
        &&& (self.grid.rows > 0 ==> self.scroll_bottom < self.grid.rows)
        &&& (self.grid.rows == 0 ==> self.scroll_bottom == 0)
        &&& (self.alt_grid matches Some(a) ==> a.cols == self.grid.cols && a.rows == self.grid.rows)
    }

    pub open spec fn cols(self) -> int {
        self.grid.cols as int
    }

    pub open spec fn rows(self) -> int {
        self.grid.rows as int
    }
}

/// Line feed: at the bottom of the scroll region the region scrolls up,
/// elsewhere the cursor moves down a row unless it is on the last row.
pub open spec fn lf(t: TermView) -> TermView {
    if t.cursor_row == t.scroll_bottom {
        TermView { grid: gs_scroll_up(t.grid, t.scroll_top as int, t.scroll_bottom as int, 1), ..t }
    } else if t.cursor_row + 1 < t.rows() {
        TermView { cursor_row: t.cursor_row + 1, ..t }
    } else {
        t
    }
}

/// A line feed is defined: the screen has rows, and the line count of the
/// scrollback has room for the line that may leave the screen.
pub open spec fn lf_ok(t: TermView) -> bool {
    &&& t.rows() > 0
    &&& (t.cursor_row == t.scroll_bottom && t.scroll_top == 0 ==> t.grid.total_lines() + 1 <= usize::MAX)
}

/// Reverse index: at the top of the scroll region the region scrolls down,
/// elsewhere the cursor moves up a row unless it is on the first row.
pub open spec fn ri(t: TermView) -> TermView {
    if t.cursor_row == t.scroll_top {
        TermView { grid: gs_scroll_down(t.grid, t.scroll_top as int, t.scroll_bottom as int, 1), ..t }
    } else if t.cursor_row > 0 {
        TermView { cursor_row: (t.cursor_row - 1) as nat, ..t }
    } else {
        t
    }
}

pub open spec fn ri_ok(t: TermView) -> bool {
    t.cursor_row == t.scroll_top ==> t.scroll_top < t.rows()
}

/// Before printing: a wrap left pending by the previous character is
/// carried out when auto-wrap is on.
pub open spec fn wrap_pending(t: TermView) -> TermView {
    if t.pending_wrap && t.auto_wrap {
        lf(TermView { cursor_col: 0, pending_wrap: false, ..t })
    } else {
        t
    }
}

/// Whether a character of width `w` printed in state `t` (after
/// [`wrap_pending`]) gets written; when it does not fit on the line it
/// wraps with auto-wrap on and is dropped with auto-wrap off.
pub open spec fn print_fits(t: TermView, w: nat) -> bool {
    t.cursor_col + w <= t.cols() || t.auto_wrap
}

/// The state in which the character is written, after any wrap.
pub open spec fn print_pos(t: TermView, w: nat) -> TermView {
    if t.cursor_col + w > t.cols() && t.auto_wrap {
        lf(TermView { cursor_col: 0, ..t })
    } else {
        t
    }
}

/// The padding cells after the first cell of a wide character, in columns
/// `col + from .. col + w` of row `row` that lie on the screen.
pub open spec fn write_pads(g: GridState, col: int, row: int, from: int, w: int, pad: Cell) -> GridState
    decreases w - from,
{
    if from >= w {
        g
    } else {
        let g1 = if col + from < g.cols {
            gs_write_flat(g, row * g.cols + col + from, row, pad)
        } else {
            g
        };
        write_pads(g1, col, row, from + 1, w, pad)
    }
}

/// The cell that printing `c` writes in state `t`.
pub open spec fn printed_cell(t: TermView, c: char, w: nat) -> Cell {
    Cell { c, fg: t.fg, bg: t.bg, attrs: t.attrs, width: w as u8 }
}

/// The padding cell that follows a wide character.
pub open spec fn pad_cell(t: TermView) -> Cell {
    Cell { c: ' ', fg: t.fg, bg: t.bg, attrs: t.attrs, width: 0 }
}

/// Printing `c`: the character is written at the cursor in the current
/// colours and attributes, followed by padding cells for a wide character;
/// the cursor advances, and when it passes the last column it stays on the
/// last column with a wrap pending.
pub open spec fn print_spec(t: TermView, c: char) -> TermView {
    print_as(t, c, print_width(c))
}

/// Printing `c` as a character `w` columns wide (see [`print_spec`]).
pub open spec fn print_as(t: TermView, c: char, w: nat) -> TermView {
    let t1 = wrap_pending(t);
    if !print_fits(t1, w) {
        t1
    } else {
        put_char_spec(print_pos(t1, w), c, w)
    }
}

/// Writing `c`, of width `w`, at the cursor of `t`: the character cell,
/// its padding cells, then the cursor moves on.
pub open spec fn put_char_spec(t: TermView, c: char, w: nat) -> TermView {
    let col = t.cursor_col as int;
    let row = t.cursor_row as int;
    let g1 = gs_write_flat(t.grid, row * t.cols() + col, row, printed_cell(t, c, w));
    let g2 = write_pads(g1, col, row, 1, w as int, pad_cell(t));
    let next = col + w;
    TermView {
        grid: g2,
        cursor_col: if next >= t.cols() { (t.cols() - 1) as nat } else { next as nat },
        pending_wrap: if next >= t.cols() { true } else { t.pending_wrap },
        last_char: Some(c),
        ..t
    }
}

/// Printing `c` is defined: each line feed it makes is defined, and the
/// cell it writes lies on the screen.
pub open spec fn print_ok(t: TermView, c: char) -> bool {
    print_as_ok(t, print_width(c))
}

/// Printing a character `w` columns wide is defined (see [`print_ok`]).
pub open spec fn print_as_ok(t: TermView, w: nat) -> bool {
    let t1 = wrap_pending(t);
    let t2 = print_pos(t1, w);
    &&& (t.pending_wrap && t.auto_wrap ==> lf_ok(t))
    &&& t1.cursor_col + w <= usize::MAX
    &&& (t1.cursor_col + w > t1.cols() && t1.auto_wrap ==> lf_ok(t1))
    &&& (print_fits(t1, w) ==> {
        &&& t2.cursor_row < t2.rows()
        &&& t2.cursor_row * t2.cols() + t2.cursor_col < t2.cols() * t2.rows()
    })
}

/// Printing `c` `n` times.
pub open spec fn repeat_print(t: TermView, c: char, n: nat) -> TermView
    decreases n,
{
    if n == 0 {
        t
    } else {
        repeat_print(print_spec(t, c), c, (n - 1) as nat)
    }
}

pub open spec fn repeat_ok(t: TermView, c: char, n: nat) -> bool
    decreases n,
{
    n == 0 || (print_ok(t, c) && repeat_ok(print_spec(t, c), c, (n - 1) as nat))
}


/// The result of a control byte.
pub open spec fn execute_spec(t: TermView, byte: u8) -> TermView {
    if byte == 0x0a || byte == 0x0b || byte == 0x0c {
        lf(t)
    } else if byte == 0x0d {
        TermView { cursor_col: 0, pending_wrap: false, ..t }
    } else if byte == 0x09 {
        TermView { cursor_col: min(((t.cursor_col / 8 + 1) * 8) as int, t.cols() - 1) as nat, ..t }
    } else if byte == 0x08 {
        if t.cursor_col > 0 {
            TermView { cursor_col: (t.cursor_col - 1) as nat, pending_wrap: false, ..t }
        } else {
            t
        }
    } else {
        t
    }
}

pub open spec fn execute_ok(t: TermView, byte: u8) -> bool {
    if byte == 0x0a || byte == 0x0b || byte == 0x0c {
        lf_ok(t)
    } else if byte == 0x09 {
        t.cols() > 0 && (t.cursor_col / 8 + 1) * 8 <= usize::MAX
    } else {
        true
    }
}

/// The result of an escape sequence with final byte `byte`.
pub open spec fn esc_spec(t: TermView, byte: u8) -> TermView {
    if byte == 0x4d {
        ri(t)
    } else if byte == 0x44 {
        lf(t)
    } else if byte == 0x45 {
        lf(TermView { cursor_col: 0, ..t })
    } else if byte == 0x37 {
        TermView { saved_cursor_col: t.cursor_col, saved_cursor_row: t.cursor_row, ..t }
    } else if byte == 0x38 {
        TermView { cursor_col: t.saved_cursor_col, cursor_row: t.saved_cursor_row, ..t }
    } else {
        t
    }
}

pub open spec fn esc_ok(t: TermView, byte: u8) -> bool {
    if byte == 0x4d {
        ri_ok(t)
    } else if byte == 0x44 || byte == 0x45 {
        lf_ok(t)
    } else {
        true
    }
}

/// The result of an operating-system command: `0` and `2` set the title,
/// `7` the working directory, both decoded as lossy UTF-8.
pub open spec fn osc_spec(t: TermView, params: Seq<Seq<u8>>) -> TermView {
    if params.len() == 0 {
        t
    } else if params[0] == seq![0x30u8] || params[0] == seq![0x32u8] {
        if params.len() > 1 {
            TermView { title: utf8_lossy(params[1]), ..t }
        } else {
            t
        }
    } else if params[0] == seq![0x37u8] {
        if params.len() > 1 {
            TermView { cwd: utf8_lossy(params[1]), ..t }
        } else {
            t
        }
    } else {
        t
    }
}

/// Entry `n` of the 256-colour palette: the 16 ANSI colours, a 6x6x6 colour
/// cube, then a grey ramp (whose value wraps modulo 256 for indices past 255).
pub open spec fn color_256(n: int) -> Color {
    if n < 16 {
        spec_ansi_color(n)
    } else if n < 232 {
        let m = n - 16;
        Color { r: ((m / 36) * 51) as u8, g: (((m % 36) / 6) * 51) as u8, b: ((m % 6) * 51) as u8 }
    } else {
        let gray = ((n - 232) * 10 + 8) as u8;
        Color { r: gray, g: gray, b: gray }
    }
}

/// The extended colour that SGR parameters `ps` give from index `idx`, and
/// the index after the parameters it uses: `2;r;g;b` (each channel taken
/// modulo 256) or `5;n`.
pub open spec fn parse_color_spec(ps: Seq<u16>, idx: int) -> (Option<Color>, int) {
    if idx >= ps.len() {
        (None, idx)
    } else if ps[idx] == 2 {
        if idx + 3 < ps.len() {
            (Some(Color { r: ps[idx + 1] as u8, g: ps[idx + 2] as u8, b: ps[idx + 3] as u8 }), idx + 4)
        } else {
            (None, idx + 1)
        }
    } else if ps[idx] == 5 {
        if idx + 1 < ps.len() {
            (Some(color_256(ps[idx + 1] as int)), idx + 2)
        } else {
            (None, idx + 1)
        }
    } else {
        (None, idx)
    }
}

pub open spec fn sgr_reset(t: TermView) -> TermView {
    TermView { attrs: CellAttrs { bits: 0 }, fg: spec_default_fg(), bg: spec_default_bg(), ..t }
}

pub open spec fn with_attr(t: TermView, flag: u16) -> TermView {
    TermView { attrs: CellAttrs { bits: t.attrs.bits | flag }, ..t }
}

pub open spec fn without_attr(t: TermView, flag: u16) -> TermView {
    TermView { attrs: CellAttrs { bits: t.attrs.bits & !flag }, ..t }
}

/// One SGR parameter other than 38 and 48.
pub open spec fn sgr_one(t: TermView, p: u16) -> TermView {
    if p == 0 {
        sgr_reset(t)
    } else if p == 1 {
        with_attr(t, BOLD)
    } else if p == 2 {
        with_attr(t, DIM)
    } else if p == 3 {
        with_attr(t, ITALIC)
    } else if p == 4 {
        with_attr(t, UNDERLINE)
    } else if p == 7 {
        with_attr(t, INVERSE)
    } else if p == 8 {
        with_attr(t, HIDDEN)
    } else if p == 9 {
        with_attr(t, STRIKETHROUGH)
    } else if p == 22 {
        without_attr(without_attr(t, BOLD), DIM)
    } else if p == 23 {
        without_attr(t, ITALIC)
    } else if p == 24 {
        without_attr(t, UNDERLINE)
    } else if p == 27 {
        without_attr(t, INVERSE)
    } else if p == 28 {
        without_attr(t, HIDDEN)
    } else if p == 29 {
        without_attr(t, STRIKETHROUGH)
    } else if 30 <= p <= 37 {
        TermView { fg: spec_ansi_color(p - 30), ..t }
    } else if p == 39 {
        TermView { fg: spec_default_fg(), ..t }
    } else if 40 <= p <= 47 {
        TermView { bg: spec_ansi_color(p - 40), ..t }
    } else if p == 49 {
        TermView { bg: spec_default_bg(), ..t }
    } else if 90 <= p <= 97 {
        TermView { fg: spec_ansi_color(p - 90 + 8), ..t }
    } else if 100 <= p <= 107 {
        TermView { bg: spec_ansi_color(p - 100 + 8), ..t }
    } else {
        t
    }
}

/// The SGR parameters `ps` from index `i` on, applied in order.
pub open spec fn sgr(t: TermView, ps: Seq<u16>, i: int) -> TermView
    decreases ps.len() - i,
{
    if i < 0 || i >= ps.len() {
        t
    } else if ps[i] == 38 || ps[i] == 48 {
        let (c, j) = parse_color_spec(ps, i + 1);
        let t1 = match c {
            Some(col) => if ps[i] == 38 {
                TermView { fg: col, ..t }
            } else {
                TermView { bg: col, ..t }
            },
            None => t,
        };
        if j > i {
            sgr(t1, ps, j)
        } else {
            t1
        }
    } else {
        sgr(sgr_one(t, ps[i]), ps, i + 1)
    }
}

/// The cursor state that entering the alternate screen saves.
pub open spec fn cursor_state(t: TermView) -> CursorState {
    CursorState {
        col: t.cursor_col,
        row: t.cursor_row,
        pending_wrap: t.pending_wrap,
        attrs: t.attrs,
        fg: t.fg,
        bg: t.bg,
    }
}

/// Entering the alternate screen (DECSET 1049): the cursor is saved and the
/// screen is swapped for a blank one without scrollback, the main screen
/// being kept aside.
pub open spec fn enter_alt_screen_spec(t: TermView) -> TermView {
    TermView {
        grid: gs_new(t.grid.cols, t.grid.rows, 0),
        alt_grid: Some(t.grid),
        alt_saved: cursor_state(t),
        ..t
    }
}

/// Leaving the alternate screen: the main screen comes back, every row to
/// be redrawn, and so do the cursor, attributes and colours saved on entry.
pub open spec fn exit_alt_screen_spec(t: TermView) -> TermView {
    match t.alt_grid {
        Some(main) => TermView {
            grid: gs_set_dirty(main, true),
            alt_grid: None,
            cursor_col: t.alt_saved.col,
            cursor_row: t.alt_saved.row,
            pending_wrap: t.alt_saved.pending_wrap,
            attrs: t.alt_saved.attrs,
            fg: t.alt_saved.fg,
            bg: t.alt_saved.bg,
            ..t
        },
        None => t,
    }
}

/// Rows `from..to` erased.
pub open spec fn erase_rows(g: GridState, from: int, to: int) -> GridState {
    GridState {
        screen: Seq::new(
            g.rows,
            |r: int| if from <= r < to { crate::grid::blanked(g.screen[r], 0, g.cols as int) } else { g.screen[r] },
        ),
        dirty: Seq::new(g.rows, |r: int| if from <= r < to { true } else { g.dirty[r] }),
        ..g
    }
}

pub open spec fn sat_sub(a: int, b: int) -> int {
    if a >= b { a - b } else { 0 }
}

pub open spec fn param(ps: Seq<u16>, i: int) -> int {
    if 0 <= i < ps.len() { ps[i] as int } else { 0 }
}

/// A count parameter: 0 or absent means 1.
pub open spec fn count_param(ps: Seq<u16>, i: int) -> int {
    if param(ps, i) == 0 { 1 } else { param(ps, i) }
}

/// The bottom margin parameter of DECSTBM; absent means the screen height
/// (taken modulo 2^16).
pub open spec fn stbm_bottom(t: TermView, ps: Seq<u16>) -> int {
    if param(ps, 1) == 0 { (t.grid.rows as u16) as int } else { param(ps, 1) }
}

/// The result of a control sequence with parameters `ps` and final
/// character `action`, apart from the private modes.
pub open spec fn csi_main(t: TermView, ps: Seq<u16>, action: char) -> TermView {
    let p0 = param(ps, 0);
    let n = count_param(ps, 0);
    let row = t.cursor_row as int;
    let col = t.cursor_col as int;
    if action == 'A' {
        TermView { cursor_row: sat_sub(row, n) as nat, ..t }
    } else if action == 'B' {
        TermView { cursor_row: min(row + n, t.rows() - 1) as nat, ..t }
    } else if action == 'C' {
        TermView { cursor_col: min(col + n, t.cols() - 1) as nat, pending_wrap: false, ..t }
    } else if action == 'D' {
        TermView { cursor_col: sat_sub(col, n) as nat, pending_wrap: false, ..t }
    } else if action == 'H' || action == 'f' {
        TermView {
            cursor_row: min(count_param(ps, 0) - 1, t.rows() - 1) as nat,
            cursor_col: min(count_param(ps, 1) - 1, t.cols() - 1) as nat,
            pending_wrap: false,
            ..t
        }
    } else if action == 'J' {
        if p0 == 0 {
            TermView { grid: erase_rows(gs_erase_line(t.grid, row, col, t.cols()), row + 1, t.rows()), ..t }
        } else if p0 == 1 {
            TermView { grid: gs_erase_line(erase_rows(t.grid, 0, row), row, 0, col + 1), ..t }
        } else if p0 == 2 || p0 == 3 {
            TermView { grid: gs_clear(t.grid), ..t }
        } else {
            t
        }
    } else if action == 'K' {
        if p0 == 0 {
            TermView { grid: gs_erase_line(t.grid, row, col, t.cols()), ..t }
        } else if p0 == 1 {
            TermView { grid: gs_erase_line(t.grid, row, 0, col + 1), ..t }
        } else if p0 == 2 {
            TermView { grid: gs_erase_line(t.grid, row, 0, t.cols()), ..t }
        } else {
            t
        }
    } else if action == 'L' {
        TermView { grid: gs_scroll_down(t.grid, row, t.scroll_bottom as int, n), ..t }
    } else if action == 'M' {
        TermView { grid: gs_scroll_up(t.grid, row, t.scroll_bottom as int, n), ..t }
    } else if action == '@' {
        TermView { grid: gs_insert_chars(t.grid, row, col, n), ..t }
    } else if action == 'P' {
        TermView { grid: gs_delete_chars(t.grid, row, col, n), ..t }
    } else if action == 'X' {
        TermView { grid: gs_erase_line(t.grid, row, col, col + n), ..t }
    } else if action == 'b' {
        match t.last_char {
            Some(c) => repeat_print(t, c, n as nat),
            None => t,
        }
    } else if action == 's' {
        TermView { saved_cursor_col: t.cursor_col, saved_cursor_row: t.cursor_row, ..t }
    } else if action == 'u' {
        TermView { cursor_col: t.saved_cursor_col, cursor_row: t.saved_cursor_row, pending_wrap: false, ..t }
    } else if action == 'S' {
        TermView { grid: gs_scroll_up(t.grid, t.scroll_top as int, t.scroll_bottom as int, n), ..t }
    } else if action == 'T' {
        TermView { grid: gs_scroll_down(t.grid, t.scroll_top as int, t.scroll_bottom as int, n), ..t }
    } else if action == 'd' {
        TermView { cursor_row: min(n - 1, t.rows() - 1) as nat, ..t }
    } else if action == 'G' || action == '`' {
        TermView { cursor_col: min(n - 1, t.cols() - 1) as nat, ..t }
    } else if action == 'r' {
        TermView {
            scroll_top: min(count_param(ps, 0) - 1, t.rows() - 1) as nat,
            scroll_bottom: min(stbm_bottom(t, ps) - 1, t.rows() - 1) as nat,
            cursor_col: 0,
            cursor_row: 0,
            ..t
        }
    } else if action == 'm' {
        if ps.len() == 0 {
            sgr_reset(t)
        } else {
            sgr(t, ps, 0)
        }
    } else {
        t
    }
}

/// When the sequence is defined: where it moves the cursor by the screen
/// size the screen is not empty, the rows it edits exist, and the counts it
/// adds stay within the machine word.
pub open spec fn csi_main_ok(t: TermView, ps: Seq<u16>, action: char) -> bool {
    let p0 = param(ps, 0);
    let n = count_param(ps, 0);
    let row = t.cursor_row as int;
    let col = t.cursor_col as int;
    if action == 'B' {
        t.rows() > 0 && row + n <= usize::MAX
    } else if action == 'C' {
        t.cols() > 0 && col + n <= usize::MAX
    } else if action == 'H' || action == 'f' {
        t.rows() > 0 && t.cols() > 0
    } else if action == 'J' {
        (p0 == 0 ==> row < t.rows()) && (p0 == 1 ==> row < t.rows() && col + 1 <= usize::MAX)
    } else if action == 'K' {
        (p0 == 0 || p0 == 2 ==> row < t.rows()) && (p0 == 1 ==> row < t.rows() && col + 1 <= usize::MAX)
    } else if action == 'L' {
        row < t.rows()
    } else if action == 'M' {
        t.rows() > 0 && (row == 0 ==> t.grid.total_lines() + n <= usize::MAX)
    } else if action == '@' || action == 'P' {
        row < t.rows() && col <= t.cols()
    } else if action == 'X' {
        row < t.rows() && col + n <= usize::MAX
    } else if action == 'b' {
        t.last_char matches Some(c) ==> repeat_ok(t, c, n as nat)
    } else if action == 'S' {
        t.rows() > 0 && (t.scroll_top == 0 ==> t.grid.total_lines() + n <= usize::MAX)
    } else if action == 'T' {
        t.scroll_top < t.rows()
    } else if action == 'd' {
        t.rows() > 0
    } else if action == 'G' || action == '`' {
        t.cols() > 0
    } else if action == 'r' {
        t.rows() > 0 && stbm_bottom(t, ps) > 0
    } else {
        true
    }
}

/// Whether a sequence with these intermediates and final character sets
/// or resets a private mode.
pub open spec fn is_private_mode(intermediates: Seq<u8>, action: char) -> bool {
    intermediates.len() > 0 && intermediates[0] == 0x3f && (action == 'h' || action == 'l')
}

/// The result of a control sequence: private modes 25 (cursor shown), 1049
/// (alternate screen) and 7 (auto-wrap) with `?`, everything else by
/// [`csi_main`].
pub open spec fn csi_spec(t: TermView, ps: Seq<u16>, intermediates: Seq<u8>, action: char) -> TermView {
    let p0 = param(ps, 0);
    if is_private_mode(intermediates, action) {
        let set = action == 'h';
        if p0 == 25 {
            TermView { show_cursor: set, ..t }
        } else if p0 == 1049 {
            if set {
                enter_alt_screen_spec(t)
            } else {
                exit_alt_screen_spec(t)
            }
        } else if p0 == 7 {
            TermView { auto_wrap: set, ..t }
        } else {
            t
        }
    } else {
        csi_main(t, ps, action)
    }
}

pub open spec fn csi_ok(t: TermView, ps: Seq<u16>, intermediates: Seq<u8>, action: char) -> bool {
    is_private_mode(intermediates, action) || csi_main_ok(t, ps, action)
}


/// The cursor saved on entering the alternate screen.
#[derive(Clone, Copy)]
struct SavedCursor {
    col: usize,
    row: usize,
    pending_wrap: bool,
    attrs: CellAttrs,
    fg: Color,
    bg: Color,
}

/// The state machine of a terminal: the screen grid (and the main screen
/// while the alternate one is shown), cursor, colours and modes, driven by
/// the characters, control bytes and sequences that a VT parser reports.
pub struct Terminal {
    grid: Grid,
    alt_grid: Option<Grid>,
    alt_saved: SavedCursor,
    cursor_col: usize,
    cursor_row: usize,
    saved_cursor_col: usize,
    saved_cursor_row: usize,
    current_attrs: CellAttrs,
    current_fg: Color,
    current_bg: Color,
    scroll_top: usize,
    scroll_bottom: usize,
    title: String,
    cwd: String,
    show_cursor: bool,
    auto_wrap: bool,
    pending_wrap: bool,
    last_char: Option<char>,
}

impl View for Terminal {
    type V = TermView;

    closed spec fn view(&self) -> TermView {
        TermView {
            grid: self.grid@.state(),
            alt_grid: match self.alt_grid {
                Some(g) => Some(g@.state()),
                None => None,
            },
            alt_saved: CursorState {
                col: self.alt_saved.col as nat,
                row: self.alt_saved.row as nat,
                pending_wrap: self.alt_saved.pending_wrap,
                attrs: self.alt_saved.attrs,
                fg: self.alt_saved.fg,
                bg: self.alt_saved.bg,
            },
            cursor_col: self.cursor_col as nat,
            cursor_row: self.cursor_row as nat,
            saved_cursor_col: self.saved_cursor_col as nat,
            saved_cursor_row: self.saved_cursor_row as nat,
            attrs: self.current_attrs,
            fg: self.current_fg,
            bg: self.current_bg,
            scroll_top: self.scroll_top as nat,
            scroll_bottom: self.scroll_bottom as nat,
            title: self.title@,
            cwd: self.cwd@,
            show_cursor: self.show_cursor,
            auto_wrap: self.auto_wrap,
            pending_wrap: self.pending_wrap,
            last_char: self.last_char,
        }
    }
}

impl Terminal {
    /// Well-formedness: both grids are well formed and the view invariant holds.
    pub closed spec fn inv(&self) -> bool {
        &&& self.grid@.wf()
        &&& (self.alt_grid matches Some(a) ==> a@.wf())
        &&& self@.inv()
    }

    /// A terminal of `cols` by `rows` with a 10 000-line scrollback, the
    /// cursor home, default colours, auto-wrap on and the title "Zenith".
    pub fn new(cols: usize, rows: usize) -> (t: Terminal)
        requires
            cols * rows <= usize::MAX,
        ensures
            t.inv(),
            t@.grid == gs_new(cols as nat, rows as nat, 10_000),
            t@.alt_grid is None,
            t@.alt_saved == (CursorState {
                col: 0,
                row: 0,
                pending_wrap: false,
                attrs: CellAttrs { bits: 0 },
                fg: spec_default_fg(),
                bg: spec_default_bg(),
            }),
            t@.cursor_col == 0,
            t@.cursor_row == 0,
            t@.saved_cursor_col == 0,
            t@.saved_cursor_row == 0,
            t@.attrs.bits == 0,
            t@.fg == spec_default_fg(),
            t@.bg == spec_default_bg(),
            t@.scroll_top == 0,
            t@.scroll_bottom == (if rows > 0 { rows - 1 } else { 0 }),
            t@.title == seq!['Z', 'e', 'n', 'i', 't', 'h'],
            t@.cwd == Seq::<char>::empty(),
            t@.show_cursor,
            t@.auto_wrap,
            !t@.pending_wrap,
            t@.last_char is None,
    {
        let mut title = String::new();
        crate::text::push_char(&mut title, 'Z');
        crate::text::push_char(&mut title, 'e');
        crate::text::push_char(&mut title, 'n');
        crate::text::push_char(&mut title, 'i');
        crate::text::push_char(&mut title, 't');
        crate::text::push_char(&mut title, 'h');
        let t = Terminal {
            grid: Grid::new(cols, rows, 10_000),
            alt_grid: None,
            alt_saved: SavedCursor {
                col: 0,
                row: 0,
                pending_wrap: false,
                attrs: CellAttrs::empty(),
                fg: default_fg(),
                bg: default_bg(),
            },
            cursor_col: 0,
            cursor_row: 0,
            saved_cursor_col: 0,
            saved_cursor_row: 0,
            current_attrs: CellAttrs::empty(),
            current_fg: default_fg(),
            current_bg: default_bg(),
            scroll_top: 0,
            scroll_bottom: if rows > 0 { rows - 1 } else { 0 },
            title,
            cwd: String::new(),
            show_cursor: true,
            auto_wrap: true,
            pending_wrap: false,
            last_char: None,
        };
        assert(t@.title =~= seq!['Z', 'e', 'n', 'i', 't', 'h']);
        t
    }

    /// The screen grid.
    pub fn grid(&self) -> (g: &Grid)
        requires
            self.inv(),
        ensures
            g@.wf(),
            g@.state() == self@.grid,
    {
        &self.grid
    }

    /// The cursor as (column, row).
    pub fn cursor(&self) -> (c: (usize, usize))
        ensures
            c.0 == self@.cursor_col,
            c.1 == self@.cursor_row,
    {
        (self.cursor_col, self.cursor_row)
    }

    pub fn show_cursor(&self) -> (b: bool)
        ensures
            b == self@.show_cursor,
    {
        self.show_cursor
    }

    /// Whether the alternate screen is shown (the main screen being kept
    /// aside).
    pub fn is_alt_screen(&self) -> (b: bool)
        ensures
            b == self@.alt_grid is Some,
    {
        self.alt_grid.is_some()
    }

    pub fn title(&self) -> (s: &str)
        ensures
            s@ == self@.title,
    {
        self.title.as_str()
    }

    fn linefeed(&mut self)
        requires
            old(self).inv(),
            lf_ok(old(self)@),
        ensures
            final(self).inv(),
            final(self)@ == lf(old(self)@),
    {
        if self.cursor_row == self.scroll_bottom {
            self.grid.scroll_up(self.scroll_top, self.scroll_bottom, 1);
        } else if self.cursor_row < self.grid.rows() - 1 {
            self.cursor_row = self.cursor_row + 1;
        }
    }

    fn reverse_index(&mut self)
        requires
            old(self).inv(),
            ri_ok(old(self)@),
        ensures
            final(self).inv(),
            final(self)@ == ri(old(self)@),
    {
        if self.cursor_row == self.scroll_top {
            self.grid.scroll_down(self.scroll_top, self.scroll_bottom, 1);
        } else if self.cursor_row > 0 {
            self.cursor_row = self.cursor_row - 1;
        }
    }
}


impl Terminal {
    /// Writes `cell` at `(col, row)` of the screen grid.
    fn write_cell(&mut self, col: usize, row: usize, cell: Cell)
        requires
            old(self).inv(),
            row < old(self)@.rows(),
            row * old(self)@.cols() + col < old(self)@.cols() * old(self)@.rows(),
        ensures
            final(self).inv(),
            final(self)@ == (TermView {
                grid: gs_write_flat(old(self)@.grid, row * old(self)@.cols() + col, row as int, cell),
                ..old(self)@
            }),
    {
        proof {
            lemma_write_state(self.grid@, col as int, row as int, cell);
        }
        *self.grid.cell_mut(col, row) = cell;
    }

    /// Writes `c`, of width `width`, at the cursor and advances it.
    fn put_char(&mut self, c: char, width: usize)
        requires
            old(self).inv(),
            width <= 3,
            old(self)@.cursor_row < old(self)@.rows(),
            old(self)@.cursor_row * old(self)@.cols() + old(self)@.cursor_col < old(self)@.cols() * old(self)@.rows(),
            old(self)@.cursor_col + width <= usize::MAX,
        ensures
            final(self).inv(),
            final(self)@ == put_char_spec(old(self)@, c, width as nat),
    {
        let ghost t2 = self@;
        let col = self.cursor_col;
        let row = self.cursor_row;
        let cols = self.grid.cols();
        assert(cols > 0) by (nonlinear_arith)
            requires
                row * cols + col < cols * t2.rows(),
                col >= 0,
                row >= 0,
        ;
        let cell = Cell {
            c,
            fg: self.current_fg,
            bg: self.current_bg,
            attrs: self.current_attrs,
            width: width as u8,
        };
        self.write_cell(col, row, cell);
        let ghost g1 = self@.grid;
        let pad = Cell { c: ' ', fg: self.current_fg, bg: self.current_bg, attrs: self.current_attrs, width: 0 };
        let mut i: usize = 1;
        while i < width
            invariant
                self.inv(),
                1 <= i,
                width <= 3,
                col + width <= usize::MAX,
                cols == self@.cols(),
                row < self@.rows(),
                self@ == (TermView { grid: self@.grid, ..t2 }),
                self@.grid.cols == t2.grid.cols,
                self@.grid.rows == t2.grid.rows,
                write_pads(self@.grid, col as int, row as int, i as int, width as int, pad)
                    == write_pads(g1, col as int, row as int, 1, width as int, pad),
            decreases width - i,
        {
            if col + i < cols {
                proof {
                    crate::grid::lemma_cell_index(row as int, (col + i) as int, cols as int, self@.rows());
                }
                self.write_cell(col + i, row, pad);
            }
            i = i + 1;
        }
        self.cursor_col = col + width;
        if self.cursor_col >= cols {
            self.pending_wrap = true;
            self.cursor_col = cols - 1;
        }
        self.last_char = Some(c);
    }

    /// Prints character `c` at the cursor (see [`print_spec`]), as wide as
    /// the `unicode-width` crate makes it, control characters one column.
    pub fn print(&mut self, c: char)
        requires
            old(self).inv(),
            print_ok(old(self)@, c),
        ensures
            final(self).inv(),
            final(self)@ == print_spec(old(self)@, c),
    {
        let width = display_width(c);
        self.print_with_width(c, width);
    }

    /// Prints character `c` at the cursor as a character `width` columns
    /// wide (see [`print_as`]).
    pub fn print_with_width(&mut self, c: char, width: usize)
        requires
            old(self).inv(),
            width <= 3,
            print_as_ok(old(self)@, width as nat),
        ensures
            final(self).inv(),
            final(self)@ == print_as(old(self)@, c, width as nat),
    {
        let ghost t0 = self@;
        if self.pending_wrap && self.auto_wrap {
            self.cursor_col = 0;
            self.linefeed();
            self.pending_wrap = false;
        }
        let ghost t1 = self@;
        assert(t1 == wrap_pending(t0));
        if self.cursor_col + width > self.grid.cols() {
            if self.auto_wrap {
                self.cursor_col = 0;
                self.linefeed();
            } else {
                return;
            }
        }
        assert(self@ == print_pos(t1, width as nat));
        self.put_char(c, width);
    }
}


impl Terminal {
    /// Handles a C0 control byte: line feed (also VT and FF), carriage
    /// return, tab (to the next multiple of 8, at most the last column) and
    /// backspace; other bytes are ignored.
    pub fn execute(&mut self, byte: u8)
        requires
            old(self).inv(),
            execute_ok(old(self)@, byte),
        ensures
            final(self).inv(),
            final(self)@ == execute_spec(old(self)@, byte),
    {
        if byte == 0x0a || byte == 0x0b || byte == 0x0c {
            self.linefeed();
        } else if byte == 0x0d {
            self.cursor_col = 0;
            self.pending_wrap = false;
        } else if byte == 0x09 {
            let next_tab = (self.cursor_col / 8 + 1) * 8;
            let last = self.grid.cols() - 1;
            self.cursor_col = if next_tab < last { next_tab } else { last };
        } else if byte == 0x08 {
            if self.cursor_col > 0 {
                self.cursor_col = self.cursor_col - 1;
                self.pending_wrap = false;
            }
        }
    }

    /// Handles an escape sequence by its final byte: `M` reverse index, `D`
    /// line feed, `E` next line, `7` save and `8` restore the cursor.
    pub fn esc_dispatch(&mut self, byte: u8)
        requires
            old(self).inv(),
            esc_ok(old(self)@, byte),
        ensures
            final(self).inv(),
            final(self)@ == esc_spec(old(self)@, byte),
    {
        if byte == 0x4d {
            self.reverse_index();
        } else if byte == 0x44 {
            self.linefeed();
        } else if byte == 0x45 {
            self.cursor_col = 0;
            self.linefeed();
        } else if byte == 0x37 {
            self.saved_cursor_col = self.cursor_col;
            self.saved_cursor_row = self.cursor_row;
        } else if byte == 0x38 {
            self.cursor_col = self.saved_cursor_col;
            self.cursor_row = self.saved_cursor_row;
        }
    }

    /// Handles an operating-system command (see [`osc_spec`]).
    pub fn osc_dispatch(&mut self, params: &Vec<Vec<u8>>)
        requires
            old(self).inv(),
        ensures
            final(self).inv(),
            final(self)@ == osc_spec(old(self)@, params@.map_values(|p: Vec<u8>| p@)),
            params@.len() > 1 && (params@[0]@ == seq![0x30u8] || params@[0]@ == seq![0x32u8])
                && vstd::utf8::valid_utf8(params@[1]@) ==> final(self)@.title == vstd::utf8::decode_utf8(
                params@[1]@,
            ),
            params@.len() > 1 && params@[0]@ == seq![0x37u8] && vstd::utf8::valid_utf8(params@[1]@)
                ==> final(self)@.cwd == vstd::utf8::decode_utf8(params@[1]@),
    {
        let ghost ps = params@.map_values(|p: Vec<u8>| p@);
        if params.len() == 0 {
            return;
        }
        let first = &params[0];
        assert(first@ == ps[0]);
        let is_title = first.len() == 1 && (first[0] == 0x30 || first[0] == 0x32);
        let is_cwd = first.len() == 1 && first[0] == 0x37;
        proof {
            assert(is_title <==> (ps[0] == seq![0x30u8] || ps[0] == seq![0x32u8])) by {
                if ps[0] == seq![0x30u8] || ps[0] == seq![0x32u8] {
                    assert(ps[0][0] == first[0]);
                }
                if is_title {
                    if first[0] == 0x30 {
                        assert(ps[0] =~= seq![0x30u8]);
                    } else {
                        assert(ps[0] =~= seq![0x32u8]);
                    }
                }
            }
            assert(is_cwd <==> ps[0] == seq![0x37u8]) by {
                if ps[0] == seq![0x37u8] {
                    assert(ps[0][0] == first[0]);
                }
                if is_cwd {
                    assert(ps[0] =~= seq![0x37u8]);
                }
            }
        }
        if is_title {
            if params.len() > 1 {
                assert(params[1]@ == ps[1]);
                self.title = decode_lossy(params[1].as_slice());
            }
        } else if is_cwd {
            if params.len() > 1 {
                assert(params[1]@ == ps[1]);
                self.cwd = decode_lossy(params[1].as_slice());
            }
        }
    }

    /// Reads an extended colour from SGR parameters starting at `*idx`
    /// (`2;r;g;b` or `5;n`) and moves `*idx` past the parameters used.
    pub fn parse_color_from_params(params: &[u16], idx: &mut usize) -> (c: Option<Color>)
        ensures
            (c, *final(idx) as int) == parse_color_spec(params@, *old(idx) as int),
    {
        if *idx >= params.len() {
            return None;
        }
        if params[*idx] == 2 {
            *idx = *idx + 1;
            if params.len() - *idx > 2 {
                let r = params[*idx] as u8;
                let g = params[*idx + 1] as u8;
                let b = params[*idx + 2] as u8;
                *idx = *idx + 3;
                Some(Color::rgb(r, g, b))
            } else {
                None
            }
        } else if params[*idx] == 5 {
            *idx = *idx + 1;
            if *idx < params.len() {
                let n = params[*idx] as usize;
                *idx = *idx + 1;
                if n < 16 {
                    Some(ansi_color(n))
                } else if n < 232 {
                    let n = n - 16;
                    let r = (n / 36) * 51;
                    let g = ((n % 36) / 6) * 51;
                    let b = (n % 6) * 51;
                    Some(Color::rgb(r as u8, g as u8, b as u8))
                } else {
                    let gray = ((n - 232) * 10 + 8) as u8;
                    Some(Color::rgb(gray, gray, gray))
                }
            } else {
                None
            }
        } else {
            None
        }
    }

    /// Applies the SGR parameters `ps` in order (see [`sgr`]).
    fn apply_sgr(&mut self, ps: &[u16])
        requires
            old(self).inv(),
        ensures
            final(self).inv(),
            final(self)@ == sgr(old(self)@, ps@, 0),
    {
        let ghost t0 = self@;
        let mut i: usize = 0;
        while i < ps.len()
            invariant
                self.inv(),
                i <= ps@.len(),
                sgr(self@, ps@, i as int) == sgr(t0, ps@, 0),
            decreases ps@.len() - i,
        {
            let p = ps[i];
            if p == 38 || p == 48 {
                i = i + 1;
                let col = Self::parse_color_from_params(ps, &mut i);
                if let Some(c) = col {
                    if p == 38 {
                        self.current_fg = c;
                    } else {
                        self.current_bg = c;
                    }
                }
                continue;
            }
            if p == 0 {
                self.current_attrs = CellAttrs::empty();
                self.current_fg = default_fg();
                self.current_bg = default_bg();
            } else if p == 1 {
                self.current_attrs.insert(BOLD);
            } else if p == 2 {
                self.current_attrs.insert(DIM);
            } else if p == 3 {
                self.current_attrs.insert(ITALIC);
            } else if p == 4 {
                self.current_attrs.insert(UNDERLINE);
            } else if p == 7 {
                self.current_attrs.insert(INVERSE);
            } else if p == 8 {
                self.current_attrs.insert(HIDDEN);
            } else if p == 9 {
                self.current_attrs.insert(STRIKETHROUGH);
            } else if p == 22 {
                self.current_attrs.remove(BOLD);
                self.current_attrs.remove(DIM);
            } else if p == 23 {
                self.current_attrs.remove(ITALIC);
            } else if p == 24 {
                self.current_attrs.remove(UNDERLINE);
            } else if p == 27 {
                self.current_attrs.remove(INVERSE);
            } else if p == 28 {
                self.current_attrs.remove(HIDDEN);
            } else if p == 29 {
                self.current_attrs.remove(STRIKETHROUGH);
            } else if 30 <= p && p <= 37 {
                self.current_fg = ansi_color((p - 30) as usize);
            } else if p == 39 {
                self.current_fg = default_fg();
            } else if 40 <= p && p <= 47 {
                self.current_bg = ansi_color((p - 40) as usize);
            } else if p == 49 {
                self.current_bg = default_bg();
            } else if 90 <= p && p <= 97 {
                self.current_fg = ansi_color((p - 90 + 8) as usize);
            } else if 100 <= p && p <= 107 {
                self.current_bg = ansi_color((p - 100 + 8) as usize);
            }
            i = i + 1;
        }
    }

    fn enter_alt_screen(&mut self)
        requires
            old(self).inv(),
        ensures
            final(self).inv(),
            final(self)@ == enter_alt_screen_spec(old(self)@),
    {
        let cols = self.grid.cols();
        let rows = self.grid.rows();
        self.alt_saved = SavedCursor {
            col: self.cursor_col,
            row: self.cursor_row,
            pending_wrap: self.pending_wrap,
            attrs: self.current_attrs,
            fg: self.current_fg,
            bg: self.current_bg,
        };
        let mut main = Grid::new(cols, rows, 0);
        std::mem::swap(&mut self.grid, &mut main);
        self.alt_grid = Some(main);
    }

    fn exit_alt_screen(&mut self)
        requires
            old(self).inv(),
        ensures
            final(self).inv(),
            final(self)@ == exit_alt_screen_spec(old(self)@),
    {
        if let Some(main) = self.alt_grid.take() {
            self.grid = main;
            self.grid.mark_all_dirty();
            self.cursor_col = self.alt_saved.col;
            self.cursor_row = self.alt_saved.row;
            self.pending_wrap = self.alt_saved.pending_wrap;
            self.current_attrs = self.alt_saved.attrs;
            self.current_fg = self.alt_saved.fg;
            self.current_bg = self.alt_saved.bg;
        }
    }
}


proof fn lemma_erase_rows_step(g: GridState, from: int, r: int)
    requires
        0 <= from <= r < g.rows,
        g.screen.len() == g.rows,
        g.dirty.len() == g.rows,
    ensures
        gs_erase_line(erase_rows(g, from, r), r, 0, g.cols as int) == erase_rows(g, from, r + 1),
{
    assert(gs_erase_line(erase_rows(g, from, r), r, 0, g.cols as int).screen =~= erase_rows(g, from, r + 1).screen);
    assert(gs_erase_line(erase_rows(g, from, r), r, 0, g.cols as int).dirty =~= erase_rows(g, from, r + 1).dirty);
}

proof fn lemma_erase_rows_none(g: GridState, from: int)
    requires
        g.screen.len() == g.rows,
        g.dirty.len() == g.rows,
    ensures
        erase_rows(g, from, from) == g,
{
    assert(erase_rows(g, from, from).screen =~= g.screen);
    assert(erase_rows(g, from, from).dirty =~= g.dirty);
}

impl Terminal {
    proof fn lemma_state_lens(&self)
        requires
            self.inv(),
        ensures
            self@.grid.screen.len() == self@.grid.rows,
            self@.grid.dirty.len() == self@.grid.rows,
            self@.grid.cols * self@.grid.rows <= usize::MAX,
            self@.grid.rows <= usize::MAX,
            self@.grid.cols <= usize::MAX,
    {
    }

    /// Erases rows `from..to` of the screen.
    fn erase_rows(&mut self, from: usize, to: usize)
        requires
            old(self).inv(),
            from <= to <= old(self)@.rows(),
        ensures
            final(self).inv(),
            final(self)@ == (TermView { grid: erase_rows(old(self)@.grid, from as int, to as int), ..old(self)@ }),
    {
        let ghost t0 = self@;
        proof {
            self.lemma_state_lens();
            lemma_erase_rows_none(t0.grid, from as int);
        }
        let mut r = from;
        while r < to
            invariant
                self.inv(),
                from <= r <= to,
                to <= t0.rows(),
                t0.grid.screen.len() == t0.grid.rows,
                t0.grid.dirty.len() == t0.grid.rows,
                self@ == (TermView { grid: erase_rows(t0.grid, from as int, r as int), ..t0 }),
            decreases to - r,
        {
            let cols = self.grid.cols();
            self.grid.erase_line(r, 0, cols);
            proof {
                lemma_erase_rows_step(t0.grid, from as int, r as int);
            }
            r = r + 1;
        }
    }

    /// Prints `c` `n` times.
    fn repeat_char(&mut self, c: char, n: usize)
        requires
            old(self).inv(),
            repeat_ok(old(self)@, c, n as nat),
        ensures
            final(self).inv(),
            final(self)@ == repeat_print(old(self)@, c, n as nat),
    {
        let ghost t0 = self@;
        let mut k: usize = 0;
        while k < n
            invariant
                self.inv(),
                k <= n,
                repeat_ok(self@, c, (n - k) as nat),
                repeat_print(self@, c, (n - k) as nat) == repeat_print(t0, c, n as nat),
            decreases n - k,
        {
            self.print(c);
            k = k + 1;
        }
    }

    /// Cursor motions and margins: `A B C D H f d G `` s u r`.
    fn csi_cursor(&mut self, ps: &[u16], action: char)
        requires
            old(self).inv(),
            csi_main_ok(old(self)@, ps@, action),
            action == 'A' || action == 'B' || action == 'C' || action == 'D' || action == 'H' || action
                == 'f' || action == 'd' || action == 'G' || action == '`' || action == 's' || action == 'u'
                || action == 'r',
        ensures
            final(self).inv(),
            final(self)@ == csi_main(old(self)@, ps@, action),
    {
        let p0: u16 = if ps.len() > 0 { ps[0] } else { 0 };
        let p1: u16 = if ps.len() > 1 { ps[1] } else { 0 };
        let n: usize = if p0 == 0 { 1 } else { p0 as usize };
        assert(n == count_param(ps@, 0));
        if action == 'A' {
            self.cursor_row = if self.cursor_row >= n { self.cursor_row - n } else { 0 };
        } else if action == 'B' {
            let last = self.grid.rows() - 1;
            let r = self.cursor_row + n;
            self.cursor_row = if r < last { r } else { last };
        } else if action == 'C' {
            let last = self.grid.cols() - 1;
            let c = self.cursor_col + n;
            self.cursor_col = if c < last { c } else { last };
            self.pending_wrap = false;
        } else if action == 'D' {
            self.cursor_col = if self.cursor_col >= n { self.cursor_col - n } else { 0 };
            self.pending_wrap = false;
        } else if action == 'H' || action == 'f' {
            let row: usize = if p0 == 0 { 1 } else { p0 as usize };
            let col: usize = if p1 == 0 { 1 } else { p1 as usize };
            let last_row = self.grid.rows() - 1;
            let last_col = self.grid.cols() - 1;
            self.cursor_row = if row - 1 < last_row { row - 1 } else { last_row };
            self.cursor_col = if col - 1 < last_col { col - 1 } else { last_col };
            self.pending_wrap = false;
        } else if action == 'd' {
            let last_row = self.grid.rows() - 1;
            self.cursor_row = if n - 1 < last_row { n - 1 } else { last_row };
        } else if action == 'G' || action == '`' {
            let last_col = self.grid.cols() - 1;
            self.cursor_col = if n - 1 < last_col { n - 1 } else { last_col };
        } else if action == 's' {
            self.saved_cursor_col = self.cursor_col;
            self.saved_cursor_row = self.cursor_row;
        } else if action == 'u' {
            self.cursor_col = self.saved_cursor_col;
            self.cursor_row = self.saved_cursor_row;
            self.pending_wrap = false;
        } else {
            let top: usize = if p0 == 0 { 1 } else { p0 as usize };
            #[verifier::truncate]
            let rows16: u16 = self.grid.rows() as u16;
            let bottom: usize = (if p1 == 0 { rows16 } else { p1 }) as usize;
            let last_row = self.grid.rows() - 1;
            self.scroll_top = if top - 1 < last_row { top - 1 } else { last_row };
            self.scroll_bottom = if bottom - 1 < last_row { bottom - 1 } else { last_row };
            self.cursor_col = 0;
            self.cursor_row = 0;
        }
    }

    /// Erasing: `J K X`.
    fn csi_erase(&mut self, ps: &[u16], action: char)
        requires
            old(self).inv(),
            csi_main_ok(old(self)@, ps@, action),
            action == 'J' || action == 'K' || action == 'X',
        ensures
            final(self).inv(),
            final(self)@ == csi_main(old(self)@, ps@, action),
    {
        let p0: u16 = if ps.len() > 0 { ps[0] } else { 0 };
        let n: usize = if p0 == 0 { 1 } else { p0 as usize };
        let row = self.cursor_row;
        let col = self.cursor_col;
        let cols = self.grid.cols();
        let rows = self.grid.rows();
        if action == 'J' {
            if p0 == 0 {
                self.grid.erase_line(row, col, cols);
                self.erase_rows(row + 1, rows);
            } else if p0 == 1 {
                self.erase_rows(0, row);
                self.grid.erase_line(row, 0, col + 1);
            } else if p0 == 2 || p0 == 3 {
                self.grid.clear();
            }
        } else if action == 'K' {
            if p0 == 0 {
                self.grid.erase_line(row, col, cols);
            } else if p0 == 1 {
                self.grid.erase_line(row, 0, col + 1);
            } else if p0 == 2 {
                self.grid.erase_line(row, 0, cols);
            }
        } else {
            self.grid.erase_line(row, col, col + n);
        }
    }

    /// Scrolling and character editing: `L M S T @ P`.
    fn csi_edit(&mut self, ps: &[u16], action: char)
        requires
            old(self).inv(),
            csi_main_ok(old(self)@, ps@, action),
            action == 'L' || action == 'M' || action == 'S' || action == 'T' || action == '@' || action == 'P',
        ensures
            final(self).inv(),
            final(self)@ == csi_main(old(self)@, ps@, action),
    {
        let p0: u16 = if ps.len() > 0 { ps[0] } else { 0 };
        let n: usize = if p0 == 0 { 1 } else { p0 as usize };
        let row = self.cursor_row;
        let col = self.cursor_col;
        if action == 'L' {
            self.grid.scroll_down(row, self.scroll_bottom, n);
        } else if action == 'M' {
            self.grid.scroll_up(row, self.scroll_bottom, n);
        } else if action == 'S' {
            self.grid.scroll_up(self.scroll_top, self.scroll_bottom, n);
        } else if action == 'T' {
            self.grid.scroll_down(self.scroll_top, self.scroll_bottom, n);
        } else if action == '@' {
            self.grid.insert_chars(row, col, n);
        } else {
            self.grid.delete_chars(row, col, n);
        }
    }

    /// Handles a control sequence with parameters `params` (the first
    /// sub-parameter of each), intermediate bytes `intermediates` and final
    /// character `action` (see [`csi_spec`]).
    pub fn csi_dispatch(&mut self, params: &[u16], intermediates: &[u8], action: char)
        requires
            old(self).inv(),
            csi_ok(old(self)@, params@, intermediates@, action),
        ensures
            final(self).inv(),
            final(self)@ == csi_spec(old(self)@, params@, intermediates@, action),
    {
        let p0: u16 = if params.len() > 0 { params[0] } else { 0 };
        if intermediates.len() > 0 && intermediates[0] == 0x3f {
            if action == 'h' {
                if p0 == 25 {
                    self.show_cursor = true;
                } else if p0 == 1049 {
                    self.enter_alt_screen();
                } else if p0 == 7 {
                    self.auto_wrap = true;
                }
                return;
            } else if action == 'l' {
                if p0 == 25 {
                    self.show_cursor = false;
                } else if p0 == 1049 {
                    self.exit_alt_screen();
                } else if p0 == 7 {
                    self.auto_wrap = false;
                }
                return;
            }
        }
        if action == 'A' || action == 'B' || action == 'C' || action == 'D' || action == 'H' || action
            == 'f' || action == 'd' || action == 'G' || action == '`' || action == 's' || action == 'u'
            || action == 'r' {
            self.csi_cursor(params, action);
        } else if action == 'J' || action == 'K' || action == 'X' {
            self.csi_erase(params, action);
        } else if action == 'L' || action == 'M' || action == 'S' || action == 'T' || action == '@'
            || action == 'P' {
            self.csi_edit(params, action);
        } else if action == 'b' {
            let n: usize = if p0 == 0 { 1 } else { p0 as usize };
            if let Some(c) = self.last_char {
                self.repeat_char(c, n);
            }
        } else if action == 'm' {
            if params.len() == 0 {
                self.current_attrs = CellAttrs::empty();
                self.current_fg = default_fg();
                self.current_bg = default_bg();
                return;
            }
            self.apply_sgr(params);
        }
    }
}


/// Resizing the terminal: both screens are resized, the scroll region
/// becomes the whole screen's bottom, the cursor is clamped to the screen
/// and every row is dirty.
pub open spec fn resize_spec(t: TermView, cols: nat, rows: nat) -> TermView {
    TermView {
        grid: gs_set_dirty(gs_resize(t.grid, cols, rows), true),
        alt_grid: match t.alt_grid {
            Some(a) => Some(gs_resize(a, cols, rows)),
            None => None,
        },
        scroll_bottom: if rows > 0 { (rows - 1) as nat } else { 0 },
        cursor_col: if cols > 0 { min(t.cursor_col as int, cols - 1) as nat } else { t.cursor_col },
        cursor_row: if rows > 0 { min(t.cursor_row as int, rows - 1) as nat } else { t.cursor_row },
        alt_saved: CursorState {
            col: if cols > 0 { min(t.alt_saved.col as int, cols - 1) as nat } else { t.alt_saved.col },
            row: if rows > 0 { min(t.alt_saved.row as int, rows - 1) as nat } else { t.alt_saved.row },
            ..t.alt_saved
        },
        ..t
    }
}

impl Terminal {
    /// Resizes the terminal to `cols` by `rows` (see [`resize_spec`]).
    pub fn resize(&mut self, cols: usize, rows: usize)
        requires
            old(self).inv(),
            cols * rows <= usize::MAX,
        ensures
            final(self).inv(),
            final(self)@ == resize_spec(old(self)@, cols as nat, rows as nat),
    {
        self.grid.resize(cols, rows);
        match &mut self.alt_grid {
            Some(alt) => {
                alt.resize(cols, rows);
            },
            None => {},
        }
        self.scroll_bottom = if rows > 0 { rows - 1 } else { 0 };
        if cols > 0 {
            self.cursor_col = if self.cursor_col < cols - 1 { self.cursor_col } else { cols - 1 };
        }
        if rows > 0 {
            self.cursor_row = if self.cursor_row < rows - 1 { self.cursor_row } else { rows - 1 };
        }
        if cols > 0 && self.alt_saved.col > cols - 1 {
            self.alt_saved.col = cols - 1;
        }
        if rows > 0 && self.alt_saved.row > rows - 1 {
            self.alt_saved.row = rows - 1;
        }
        self.grid.mark_all_dirty();
    }

    /// Marks every row of the screen clean.
    pub fn clear_dirty(&mut self)
        requires
            old(self).inv(),
        ensures
            final(self).inv(),
            final(self)@ == (TermView { grid: gs_set_dirty(old(self)@.grid, false), ..old(self)@ }),
    {
        self.grid.clear_dirty();
    }

    /// Scrolls the view `delta` lines into the scrollback (see
    /// [`Grid::scroll_display`]).
    pub fn scroll_display(&mut self, delta: i32)
        requires
            old(self).inv(),
            old(self)@.grid.scrollback.len() <= i64::MAX,
            old(self)@.grid.display_offset + delta <= i64::MAX,
        ensures
            final(self).inv(),
            final(self)@ == (TermView { grid: gs_scroll_display(old(self)@.grid, delta as int), ..old(self)@ }),
    {
        self.grid.scroll_display(delta);
    }

    /// Returns the view to the live screen.
    pub fn reset_display_offset(&mut self)
        requires
            old(self).inv(),
        ensures
            final(self).inv(),
            final(self)@ == (TermView { grid: gs_reset_display_offset(old(self)@.grid), ..old(self)@ }),
    {
        self.grid.reset_display_offset();
    }
}


/// `u` has the screen size, modes, margins and scrollback bound of `t`.
pub open spec fn same_frame(t: TermView, u: TermView) -> bool {
    &&& u.grid.cols == t.grid.cols
    &&& u.grid.rows == t.grid.rows
    &&& u.grid.scrollback_limit == t.grid.scrollback_limit
    &&& u.auto_wrap == t.auto_wrap
    &&& u.scroll_top == t.scroll_top
    &&& u.scroll_bottom == t.scroll_bottom
}

/// The scrollback of `t` is within its limit and the view within the scrollback.
pub open spec fn sane_scrollback(t: TermView) -> bool {
    &&& t.grid.scrollback.len() <= t.grid.scrollback_limit
    &&& t.grid.display_offset <= t.grid.scrollback.len()
}

proof fn lemma_write_pads_frame(g: GridState, col: int, row: int, from: int, w: int, pad: Cell)
    ensures
        write_pads(g, col, row, from, w, pad).cols == g.cols,
        write_pads(g, col, row, from, w, pad).rows == g.rows,
        write_pads(g, col, row, from, w, pad).scrollback == g.scrollback,
        write_pads(g, col, row, from, w, pad).scrollback_limit == g.scrollback_limit,
        write_pads(g, col, row, from, w, pad).trimmed == g.trimmed,
        write_pads(g, col, row, from, w, pad).display_offset == g.display_offset,
    decreases w - from,
{
    if from < w {
        let g1 = if col + from < g.cols {
            gs_write_flat(g, row * g.cols + col + from, row, pad)
        } else {
            g
        };
        lemma_write_pads_frame(g1, col, row, from + 1, w, pad);
    }
}

proof fn lemma_lf_frame(t: TermView)
    requires
        sane_scrollback(t),
    ensures
        same_frame(t, lf(t)),
        sane_scrollback(lf(t)),
        lf(t).cursor_col == t.cursor_col,
        lf(t).pending_wrap == t.pending_wrap,
        lf(t).grid.total_lines() == t.grid.total_lines() + (if t.cursor_row == t.scroll_bottom
            && t.scroll_top == 0 {
            1int
        } else {
            0int
        }),
{
    if t.cursor_row == t.scroll_bottom {
        law_scroll_up_counts_lines(t.grid, t.scroll_top as int, t.scroll_bottom as int, 1);
    }
}

impl Terminal {
    /// Where a line feed from row `row` leaves the cursor row and the line
    /// count, and whether it is defined.
    fn sim_lf(&self, row: usize, total: usize, Ghost(t): Ghost<TermView>) -> (r: (bool, usize, usize))
        requires
            self.inv(),
            same_frame(self@, t),
            sane_scrollback(t),
            t.cursor_row == row,
            t.grid.total_lines() == total,
        ensures
            r.0 == lf_ok(t),
            r.0 ==> r.1 == lf(t).cursor_row && r.2 == lf(t).grid.total_lines(),
    {
        proof {
            lemma_lf_frame(t);
        }
        let rows = self.grid.rows();
        if rows == 0 {
            return (false, row, total);
        }
        if row == self.scroll_bottom {
            if self.scroll_top == 0 {
                if total == usize::MAX {
                    return (false, row, total);
                }
                (true, row, total + 1)
            } else {
                (true, row, total)
            }
        } else if row < rows - 1 {
            (true, row + 1, total)
        } else {
            (true, row, total)
        }
    }

    /// The cursor, wrap flag and line count after printing `c` in a state
    /// like `t`, and whether the print is defined.
    fn sim_print(
        &self,
        c: char,
        col: usize,
        row: usize,
        pending: bool,
        total: usize,
        Ghost(t): Ghost<TermView>,
    ) -> (r: (bool, usize, usize, bool, usize))
        requires
            self.inv(),
            same_frame(self@, t),
            sane_scrollback(t),
            t.cursor_col == col,
            t.cursor_row == row,
            t.pending_wrap == pending,
            t.grid.total_lines() == total,
        ensures
            r.0 == print_ok(t, c),
            r.0 ==> {
                let u = print_spec(t, c);
                &&& same_frame(t, u)
                &&& sane_scrollback(u)
                &&& r.1 == u.cursor_col
                &&& r.2 == u.cursor_row
                &&& r.3 == u.pending_wrap
                &&& r.4 == u.grid.total_lines()
            },
    {
        let w: usize = match char_width(c) {
            Some(n) => n,
            None => 1,
        };
        let cols = self.grid.cols();
        let rows = self.grid.rows();
        let auto_wrap = self.auto_wrap;
        // A wrap left pending.
        let ghost t1 = wrap_pending(t);
        let (mut c1, mut r1, mut p1, mut n1) = (col, row, pending, total);
        if pending && auto_wrap {
            let ghost t0 = TermView { cursor_col: 0, pending_wrap: false, ..t };
            let (ok, r, n) = self.sim_lf(row, total, Ghost(t0));
            proof {
                lemma_lf_frame(t0);
            }
            if !ok {
                return (false, col, row, pending, total);
            }
            c1 = 0;
            r1 = r;
            p1 = false;
            n1 = n;
        }
        proof {
            lemma_lf_frame(TermView { cursor_col: 0, pending_wrap: false, ..t });
        }
        assert(c1 == t1.cursor_col && r1 == t1.cursor_row && p1 == t1.pending_wrap && n1
            == t1.grid.total_lines());
        if c1 > usize::MAX - w {
            return (false, col, row, pending, total);
        }
        // The wrap of a character that does not fit.
        let ghost t2 = print_pos(t1, w as nat);
        let (mut c2, mut r2, mut n2) = (c1, r1, n1);
        if c1 + w > cols && auto_wrap {
            let ghost t10 = TermView { cursor_col: 0, ..t1 };
            let (ok, r, n) = self.sim_lf(r1, n1, Ghost(t10));
            proof {
                lemma_lf_frame(t10);
            }
            if !ok {
                return (false, col, row, pending, total);
            }
            c2 = 0;
            r2 = r;
            n2 = n;
        }
        proof {
            lemma_lf_frame(TermView { cursor_col: 0, ..t1 });
        }
        assert(c2 == t2.cursor_col && r2 == t2.cursor_row && n2 == t2.grid.total_lines());
        if !(c1 + w <= cols || auto_wrap) {
            // The character is dropped.
            return (true, c1, r1, p1, n1);
        }
        if r2 >= rows {
            return (false, col, row, pending, total);
        }
        proof {
            assert(r2 * cols + cols <= rows * cols && 0 <= r2 * cols) by (nonlinear_arith)
                requires
                    r2 < rows,
            ;
            assert(cols * rows == rows * cols) by (nonlinear_arith);
        }
        if r2 * cols + c2 >= cols * rows {
            return (false, col, row, pending, total);
        }
        assert(cols > 0) by (nonlinear_arith)
            requires
                r2 * cols + c2 < cols * rows,
                c2 >= 0,
                r2 >= 0,
        ;
        let next = c2 + w;
        proof {
            let u = print_spec(t, c);
            let g1 = gs_write_flat(
                t2.grid,
                r2 * t2.cols() + c2,
                r2 as int,
                printed_cell(t2, c, w as nat),
            );
            lemma_write_pads_frame(g1, c2 as int, r2 as int, 1, w as int, pad_cell(t2));
        }
        if next >= cols {
            (true, cols - 1, r2, true, n2)
        } else {
            (true, next, r2, p1, n2)
        }
    }

    /// Prints `c` when printing it is defined in the current state (see
    /// [`print_ok`]) and says whether it did; otherwise leaves the terminal
    /// as it is.
    pub fn try_print(&mut self, c: char) -> (done: bool)
        requires
            old(self).inv(),
        ensures
            final(self).inv(),
            done == print_ok(old(self)@, c),
            done ==> final(self)@ == print_spec(old(self)@, c),
            !done ==> final(self)@ == old(self)@,
    {
        if self.can_print(c) {
            self.print(c);
            true
        } else {
            false
        }
    }

    /// Whether printing `c` is defined in the current state
    /// ([`print_ok`]).
    pub fn can_print(&self, c: char) -> (b: bool)
        requires
            self.inv(),
        ensures
            b == print_ok(self@, c),
    {
        proof {
            self.lemma_sane();
        }
        let r = self.sim_print(
            c,
            self.cursor_col,
            self.cursor_row,
            self.pending_wrap,
            self.grid.total_lines(),
            Ghost(self@),
        );
        r.0
    }

    proof fn lemma_sane(&self)
        requires
            self.inv(),
        ensures
            sane_scrollback(self@),
            self@.grid.total_lines() <= usize::MAX,
    {
    }

    /// Whether printing `c` `n` times is defined in the current state.
    fn can_repeat(&self, c: char, n: usize) -> (b: bool)
        requires
            self.inv(),
        ensures
            b == repeat_ok(self@, c, n as nat),
    {
        proof {
            self.lemma_sane();
        }
        let ghost mut tk = self@;
        let mut col = self.cursor_col;
        let mut row = self.cursor_row;
        let mut pending = self.pending_wrap;
        let mut total = self.grid.total_lines();
        let mut k: usize = 0;
        while k < n
            invariant
                self.inv(),
                k <= n,
                same_frame(self@, tk),
                sane_scrollback(tk),
                tk.cursor_col == col,
                tk.cursor_row == row,
                tk.pending_wrap == pending,
                tk.grid.total_lines() == total,
                repeat_ok(self@, c, n as nat) == repeat_ok(tk, c, (n - k) as nat),
            decreases n - k,
        {
            let r = self.sim_print(c, col, row, pending, total, Ghost(tk));
            if !r.0 {
                return false;
            }
            col = r.1;
            row = r.2;
            pending = r.3;
            total = r.4;
            proof {
                tk = print_spec(tk, c);
            }
            k = k + 1;
        }
        true
    }
}


impl Terminal {
    fn can_linefeed(&self) -> (b: bool)
        requires
            self.inv(),
        ensures
            b == lf_ok(self@),
    {
        proof {
            self.lemma_sane();
        }
        let r = self.sim_lf(self.cursor_row, self.grid.total_lines(), Ghost(self@));
        r.0
    }

    /// Whether control byte `byte` is defined in the current state
    /// ([`execute_ok`]).
    pub fn can_execute(&self, byte: u8) -> (b: bool)
        requires
            self.inv(),
        ensures
            b == execute_ok(self@, byte),
    {
        if byte == 0x0a || byte == 0x0b || byte == 0x0c {
            self.can_linefeed()
        } else if byte == 0x09 {
            self.grid.cols() > 0 && self.cursor_col / 8 < usize::MAX / 8
        } else {
            true
        }
    }

    /// Whether escape sequence `byte` is defined in the current state
    /// ([`esc_ok`]).
    pub fn can_esc_dispatch(&self, byte: u8) -> (b: bool)
        requires
            self.inv(),
        ensures
            b == esc_ok(self@, byte),
    {
        if byte == 0x4d {
            self.cursor_row != self.scroll_top || self.scroll_top < self.grid.rows()
        } else if byte == 0x44 || byte == 0x45 {
            self.can_linefeed()
        } else {
            true
        }
    }

    /// Whether the control sequence is defined in the current state
    /// ([`csi_ok`]).
    pub fn can_csi_dispatch(&self, params: &[u16], intermediates: &[u8], action: char) -> (b: bool)
        requires
            self.inv(),
        ensures
            b == csi_ok(self@, params@, intermediates@, action),
    {
        if intermediates.len() > 0 && intermediates[0] == 0x3f && (action == 'h' || action == 'l') {
            return true;
        }
        proof {
            self.lemma_sane();
        }
        let p0: u16 = if params.len() > 0 { params[0] } else { 0 };
        let p1: u16 = if params.len() > 1 { params[1] } else { 0 };
        let n: usize = if p0 == 0 { 1 } else { p0 as usize };
        let rows = self.grid.rows();
        let cols = self.grid.cols();
        let row = self.cursor_row;
        let col = self.cursor_col;
        let total = self.grid.total_lines();
        if action == 'B' {
            rows > 0 && row <= usize::MAX - n
        } else if action == 'C' {
            cols > 0 && col <= usize::MAX - n
        } else if action == 'H' || action == 'f' {
            rows > 0 && cols > 0
        } else if action == 'J' {
            (p0 != 0 || row < rows) && (p0 != 1 || (row < rows && col < usize::MAX))
        } else if action == 'K' {
            ((p0 != 0 && p0 != 2) || row < rows) && (p0 != 1 || (row < rows && col < usize::MAX))
        } else if action == 'L' {
            row < rows
        } else if action == 'M' {
            rows > 0 && (row != 0 || total <= usize::MAX - n)
        } else if action == '@' || action == 'P' {
            row < rows && col <= cols
        } else if action == 'X' {
            row < rows && col <= usize::MAX - n
        } else if action == 'b' {
            match self.last_char {
                Some(c) => self.can_repeat(c, n),
                None => true,
            }
        } else if action == 'S' {
            rows > 0 && (self.scroll_top != 0 || total <= usize::MAX - n)
        } else if action == 'T' {
            self.scroll_top < rows
        } else if action == 'd' {
            rows > 0
        } else if action == 'G' || action == '`' {
            cols > 0
        } else if action == 'r' {
            #[verifier::truncate]
            let rows16: u16 = rows as u16;
            rows > 0 && (if p1 == 0 { rows16 } else { p1 }) > 0
        } else {
            true
        }
    }
}


proof fn lemma_sgr_frame(t: TermView, ps: Seq<u16>, i: int)
    ensures
        sgr(t, ps, i) == (TermView { attrs: sgr(t, ps, i).attrs, fg: sgr(t, ps, i).fg, bg: sgr(t, ps, i).bg, ..t }),
    decreases ps.len() - i,
{
    if 0 <= i < ps.len() {
        if ps[i] == 38 || ps[i] == 48 {
            let (c, j) = parse_color_spec(ps, i + 1);
            let t1 = match c {
                Some(col) => if ps[i] == 38 {
                    TermView { fg: col, ..t }
                } else {
                    TermView { bg: col, ..t }
                },
                None => t,
            };
            if j > i {
                lemma_sgr_frame(t1, ps, j);
            }
        } else {
            lemma_sgr_frame(sgr_one(t, ps[i]), ps, i + 1);
        }
    }
}

/// Leaving the alternate screen right after entering it gives back the main
/// screen as it was (every row to be redrawn) and the cursor, attributes and
/// colours as they were; nothing else changes but the record of the cursor
/// saved on entry.
pub proof fn law_alt_screen_round_trip(t: TermView)
    requires
        t.alt_grid is None,
    ensures
        exit_alt_screen_spec(enter_alt_screen_spec(t)) == (TermView {
            grid: gs_set_dirty(t.grid, true),
            alt_saved: cursor_state(t),
            ..t
        }),
{
}

proof fn lemma_print_keeps_main(t: TermView, c: char)
    ensures
        print_spec(t, c).alt_grid == t.alt_grid,
        print_spec(t, c).alt_saved == t.alt_saved,
        print_spec(t, c).saved_cursor_col == t.saved_cursor_col,
        print_spec(t, c).saved_cursor_row == t.saved_cursor_row,
{
}

proof fn lemma_repeat_keeps_main(t: TermView, c: char, n: nat)
    ensures
        repeat_print(t, c, n).alt_grid == t.alt_grid,
        repeat_print(t, c, n).alt_saved == t.alt_saved,
        repeat_print(t, c, n).saved_cursor_col == t.saved_cursor_col,
        repeat_print(t, c, n).saved_cursor_row == t.saved_cursor_row,
    decreases n,
{
    if n > 0 {
        lemma_print_keeps_main(t, c);
        lemma_repeat_keeps_main(print_spec(t, c), c, (n - 1) as nat);
    }
}

/// What a VT parser reports to the terminal: a character to print, a
/// control byte, an escape sequence, an operating-system command, or a
/// control sequence with its parameters, intermediates and final character.
pub enum Event {
    Print(char),
    Execute(u8),
    Esc(u8),
    Osc(Seq<Seq<u8>>),
    Csi(Seq<u16>, Seq<u8>, char),
}

/// The state after one event.
pub open spec fn step(t: TermView, e: Event) -> TermView {
    match e {
        Event::Print(c) => print_spec(t, c),
        Event::Execute(b) => execute_spec(t, b),
        Event::Esc(b) => esc_spec(t, b),
        Event::Osc(params) => osc_spec(t, params),
        Event::Csi(ps, intermediates, action) => csi_spec(t, ps, intermediates, action),
    }
}

/// The state after the events `es`, in order.
pub open spec fn run(t: TermView, es: Seq<Event>) -> TermView
    decreases es.len(),
{
    if es.len() == 0 {
        t
    } else {
        step(run(t, es.drop_last()), es.last())
    }
}

/// Whether the terminal is defined on the event in state `t` (the
/// precondition of the method that handles it).
pub open spec fn event_ok(t: TermView, e: Event) -> bool {
    match e {
        Event::Print(c) => print_ok(t, c),
        Event::Execute(b) => execute_ok(t, b),
        Event::Esc(b) => esc_ok(t, b),
        Event::Osc(params) => true,
        Event::Csi(ps, intermediates, action) => csi_ok(t, ps, intermediates, action),
    }
}

/// Whether the terminal is defined on each of the events `es` in turn.
pub open spec fn run_ok(t: TermView, es: Seq<Event>) -> bool
    decreases es.len(),
{
    if es.len() == 0 {
        true
    } else {
        run_ok(t, es.drop_last()) && event_ok(run(t, es.drop_last()), es.last())
    }
}

/// Whether the event switches between the main and the alternate screen
/// (private mode 1049).
pub open spec fn switches_screen(e: Event) -> bool {
    e matches Event::Csi(ps, intermediates, action) && is_private_mode(intermediates, action) && param(ps, 0)
        == 1049
}

/// While the alternate screen is shown, the main screen kept aside and the
/// cursor saved with it are left alone by everything a program prints or
/// sends, except the sequence that switches screens.
pub proof fn law_main_screen_kept_aside(t: TermView, e: Event)
    requires
        !switches_screen(e),
    ensures
        step(t, e).alt_grid == t.alt_grid,
        step(t, e).alt_saved == t.alt_saved,
{
    match e {
        Event::Print(c) => lemma_print_keeps_main(t, c),
        Event::Csi(ps, intermediates, action) => {
            lemma_sgr_frame(t, ps, 0);
            if t.last_char is Some {
                lemma_repeat_keeps_main(t, t.last_char->0, count_param(ps, 0) as nat);
            }
        },
        _ => {},
    }
}

proof fn lemma_run_keeps_main(t: TermView, es: Seq<Event>)
    requires
        forall|i: int| 0 <= i < es.len() ==> !switches_screen(#[trigger] es[i]),
    ensures
        run(t, es).alt_grid == t.alt_grid,
        run(t, es).alt_saved == t.alt_saved,
    decreases es.len(),
{
    if es.len() > 0 {
        lemma_run_keeps_main(t, es.drop_last());
        law_main_screen_kept_aside(run(t, es.drop_last()), es.last());
    }
}

/// A program run in the alternate screen leaves no trace: whatever it
/// prints or sends, short of switching screens, leaving the alternate screen
/// gives back the main screen and its scrollback as they were on entry
/// (every row to be redrawn), and the cursor, attributes and colours it had.
pub proof fn law_alt_screen_leaves_no_trace(t: TermView, es: Seq<Event>)
    requires
        forall|i: int| 0 <= i < es.len() ==> !switches_screen(#[trigger] es[i]),
    ensures
        exit_alt_screen_spec(run(enter_alt_screen_spec(t), es)).grid == gs_set_dirty(t.grid, true),
        exit_alt_screen_spec(run(enter_alt_screen_spec(t), es)).alt_grid is None,
        cursor_state(exit_alt_screen_spec(run(enter_alt_screen_spec(t), es))) == cursor_state(t),
{
    lemma_run_keeps_main(enter_alt_screen_spec(t), es);
}

/// The cursor and the saved cursors are on a non-empty screen.
pub open spec fn on_screen(t: TermView) -> bool {
    &&& t.rows() > 0
    &&& t.cols() > 0
    &&& t.cursor_col < t.cols()
    &&& t.cursor_row < t.rows()
    &&& t.saved_cursor_col < t.cols()
    &&& t.saved_cursor_row < t.rows()
    &&& t.alt_saved.col < t.cols()
    &&& t.alt_saved.row < t.rows()
}

proof fn lemma_lf_on_screen(t: TermView)
    requires
        t.inv(),
        on_screen(t),
    ensures
        lf(t).inv(),
        on_screen(lf(t)),
{
}

proof fn lemma_print_on_screen(t: TermView, c: char)
    requires
        t.inv(),
        on_screen(t),
    ensures
        print_spec(t, c).inv(),
        on_screen(print_spec(t, c)),
{
    let w = print_width(c);
    let t0 = TermView { cursor_col: 0, pending_wrap: false, ..t };
    lemma_lf_on_screen(t0);
    let t1 = wrap_pending(t);
    lemma_lf_on_screen(TermView { cursor_col: 0, ..t1 });
    let t2 = print_pos(t1, w);
    let col = t2.cursor_col as int;
    let row = t2.cursor_row as int;
    let g1 = gs_write_flat(t2.grid, row * t2.cols() + col, row, printed_cell(t2, c, w));
    lemma_write_pads_frame(g1, col, row, 1, w as int, pad_cell(t2));
}

proof fn lemma_repeat_on_screen(t: TermView, c: char, n: nat)
    requires
        t.inv(),
        on_screen(t),
    ensures
        repeat_print(t, c, n).inv(),
        on_screen(repeat_print(t, c, n)),
    decreases n,
{
    if n > 0 {
        lemma_print_on_screen(t, c);
        lemma_repeat_on_screen(print_spec(t, c), c, (n - 1) as nat);
    }
}

/// Whether the event saves the cursor position: ESC 7, or CSI s.
pub open spec fn saves_cursor(e: Event) -> bool {
    ||| e matches Event::Esc(b) && b == 0x37
    ||| e matches Event::Csi(ps, intermediates, action) && !is_private_mode(intermediates, action) && action == 's'
}

proof fn lemma_step_keeps_saved_cursor(t: TermView, e: Event)
    requires
        !saves_cursor(e),
    ensures
        step(t, e).saved_cursor_col == t.saved_cursor_col,
        step(t, e).saved_cursor_row == t.saved_cursor_row,
{
    match e {
        Event::Print(c) => lemma_print_keeps_main(t, c),
        Event::Csi(ps, intermediates, action) => {
            lemma_sgr_frame(t, ps, 0);
            if t.last_char is Some {
                lemma_repeat_keeps_main(t, t.last_char->0, count_param(ps, 0) as nat);
            }
        },
        _ => {},
    }
}

proof fn lemma_run_keeps_saved_cursor(t: TermView, es: Seq<Event>)
    requires
        forall|i: int| 0 <= i < es.len() ==> !saves_cursor(#[trigger] es[i]),
    ensures
        run(t, es).saved_cursor_col == t.saved_cursor_col,
        run(t, es).saved_cursor_row == t.saved_cursor_row,
    decreases es.len(),
{
    if es.len() > 0 {
        lemma_run_keeps_saved_cursor(t, es.drop_last());
        lemma_step_keeps_saved_cursor(run(t, es.drop_last()), es.last());
    }
}

/// Saving and restoring the cursor: after ESC 7, whatever a program prints
/// or sends that does not save the cursor again, ESC 8 and CSI u bring the
/// cursor back to the column and the row it had at ESC 7.
pub proof fn law_restore_returns_to_saved_cursor(t: TermView, es: Seq<Event>)
    requires
        forall|i: int| 0 <= i < es.len() ==> !saves_cursor(#[trigger] es[i]),
    ensures
        esc_spec(run(esc_spec(t, 0x37), es), 0x38).cursor_col == t.cursor_col,
        esc_spec(run(esc_spec(t, 0x37), es), 0x38).cursor_row == t.cursor_row,
        csi_spec(run(esc_spec(t, 0x37), es), seq![], seq![], 'u').cursor_col == t.cursor_col,
        csi_spec(run(esc_spec(t, 0x37), es), seq![], seq![], 'u').cursor_row == t.cursor_row,
{
    lemma_run_keeps_saved_cursor(esc_spec(t, 0x37), es);
}

/// Once the cursor and the saved cursors are on the screen, each event a
/// program sends keeps them there, and keeps the terminal's invariant (only
/// a resize can leave the cursor saved by `CSI s` off the screen).
pub proof fn law_cursor_stays_on_screen(t: TermView, e: Event)
    requires
        t.inv(),
        on_screen(t),
        event_ok(t, e),
    ensures
        step(t, e).inv(),
        on_screen(step(t, e)),
{
    match e {
        Event::Print(c) => lemma_print_on_screen(t, c),
        Event::Execute(byte) => {
            lemma_lf_on_screen(t);
            lemma_lf_on_screen(TermView { cursor_col: 0, ..t });
        },
        Event::Esc(byte) => {
            lemma_lf_on_screen(t);
            lemma_lf_on_screen(TermView { cursor_col: 0, ..t });
        },
        Event::Osc(params) => {},
        Event::Csi(ps, intermediates, action) => lemma_csi_on_screen(t, ps, intermediates, action),
    }
}

/// The cursor stays on the screen through any sequence of events that the
/// terminal is defined on.
pub proof fn law_cursor_stays_on_screen_throughout(t: TermView, es: Seq<Event>)
    requires
        t.inv(),
        on_screen(t),
        run_ok(t, es),
    ensures
        run(t, es).inv(),
        on_screen(run(t, es)),
    decreases es.len(),
{
    if es.len() > 0 {
        law_cursor_stays_on_screen_throughout(t, es.drop_last());
        law_cursor_stays_on_screen(run(t, es.drop_last()), es.last());
    }
}

proof fn lemma_csi_on_screen(t: TermView, ps: Seq<u16>, intermediates: Seq<u8>, action: char)
    requires
        t.inv(),
        on_screen(t),
        csi_ok(t, ps, intermediates, action),
    ensures
        csi_spec(t, ps, intermediates, action).inv(),
        on_screen(csi_spec(t, ps, intermediates, action)),
{
    if !is_private_mode(intermediates, action) {
        if action == 'm' {
            lemma_sgr_frame(t, ps, 0);
        } else if action == 'b' {
            if t.last_char is Some {
                lemma_repeat_on_screen(t, t.last_char->0, count_param(ps, 0) as nat);
            }
        } else if action == 'J' || action == 'K' || action == 'L' || action == 'M' || action == '@'
            || action == 'P' || action == 'X' || action == 'S' || action == 'T' {
            lemma_csi_edit_on_screen(t, ps, action);
        } else {
            lemma_csi_move_on_screen(t, ps, action);
        }
    }
}

#[verifier::spinoff_prover]
proof fn lemma_csi_edit_on_screen(t: TermView, ps: Seq<u16>, action: char)
    requires
        t.inv(),
        on_screen(t),
        action == 'J' || action == 'K' || action == 'L' || action == 'M' || action == '@' || action == 'P'
            || action == 'X' || action == 'S' || action == 'T',
    ensures
        csi_main(t, ps, action).inv(),
        on_screen(csi_main(t, ps, action)),
{
}

#[verifier::spinoff_prover]
proof fn lemma_csi_move_on_screen(t: TermView, ps: Seq<u16>, action: char)
    requires
        t.inv(),
        on_screen(t),
        csi_main_ok(t, ps, action),
        !(action == 'J' || action == 'K' || action == 'L' || action == 'M' || action == '@' || action == 'P'
            || action == 'X' || action == 'S' || action == 'T' || action == 'm' || action == 'b'),
    ensures
        csi_main(t, ps, action).inv(),
        on_screen(csi_main(t, ps, action)),
{
}

/// `s` repeated `n` times.
pub open spec fn repeated(s: Seq<u8>, n: nat) -> Seq<u8>
    decreases n,
{
    if n == 0 {
        Seq::empty()
    } else {
        repeated(s, (n - 1) as nat) + s
    }
}

/// The bytes a scroll of the wheel by `delta` lines sends to a program on
/// the alternate screen, which has no scrollback: the up-arrow sequence
/// `ESC [ A` once per line for a positive `delta` (scrolling back), the
/// down-arrow sequence `ESC [ B` once per line for a negative one.
pub open spec fn wheel_keys_spec(delta: int) -> Seq<u8> {
    if delta > 0 {
        repeated(seq![0x1bu8, 0x5bu8, 0x41u8], delta as nat)
    } else {
        repeated(seq![0x1bu8, 0x5bu8, 0x42u8], (-delta) as nat)
    }
}

/// The arrow-key bytes for a wheel scroll of `delta` lines on the
/// alternate screen (see [`wheel_keys_spec`]).
pub fn wheel_keys(delta: i32) -> (keys: Vec<u8>)
    ensures
        keys@ == wheel_keys_spec(delta as int),
{
    let last: u8 = if delta > 0 { 0x41 } else { 0x42 };
    let n: u32 = if delta > 0 { delta as u32 } else { (0 - (delta as i64)) as u32 };
    let ghost arrow = seq![0x1bu8, 0x5bu8, last];
    let mut keys: Vec<u8> = Vec::new();
    let mut i: u32 = 0;
    while i < n
        invariant
            i <= n,
            arrow == seq![0x1bu8, 0x5bu8, last],
            keys@ == repeated(arrow, i as nat),
        decreases n - i,
    {
        keys.push(0x1b);
        keys.push(0x5b);
        keys.push(last);
        i = i + 1;
        proof {
            assert(keys@ =~= repeated(arrow, (i - 1) as nat) + arrow);
        }
    }
    assert(n == (if delta > 0 { delta as int } else { -delta }));
    keys
}

} // verus!
