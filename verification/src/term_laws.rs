use vstd::prelude::*;
use crate::cell::{blank_cell, spec_ansi_color, spec_default_bg, spec_default_fg, Cell, CellAttrs, Color};
use crate::grid::blank_row;
use crate::grid::GridState;
use crate::term::{
    color_256, csi_main, csi_spec, esc_spec, osc_spec, utf8_lossy, execute_spec, print_as, print_spec, repeat_print, resize_spec, sgr, sgr_one,
    write_pads, TermView,
};

verus! {

/// The state `t` with the attribute bits `bits` and the colours `fg`, `bg`.
pub open spec fn with_pen(t: TermView, bits: u16, fg: Color, bg: Color) -> TermView {
    TermView { attrs: CellAttrs { bits }, fg, bg, ..t }
}

proof fn lemma_sgr_single(t: TermView, p: u16)
    requires
        p != 38 && p != 48,
    ensures
        sgr(t, seq![p], 0) == sgr_one(t, p),
{
    let ps = seq![p];
    assert(ps.len() == 1 && ps[0] == p);
    assert(sgr(sgr_one(t, p), ps, 1) == sgr_one(t, p));
}

/// The text attributes that single SGR parameters select: 1 bold (bit 0),
/// 2 dim (bit 4), 3 italic (bit 1), 4 underline (bit 2), 7 inverse (bit 3),
/// 8 hidden (bit 5), 9 strikethrough (bit 6) each set their bit; 22 clears
/// bold and dim, 23, 24, 27, 28 and 29 clear the bit that 3, 4, 7, 8 and 9
/// set; 0 resets the attributes and both colours. Nothing else changes.
pub proof fn law_sgr_attributes(t: TermView)
    ensures
        sgr(t, seq![1u16], 0) == with_pen(t, t.attrs.bits | 0b0000_0001u16, t.fg, t.bg),
        sgr(t, seq![2u16], 0) == with_pen(t, t.attrs.bits | 0b0001_0000u16, t.fg, t.bg),
        sgr(t, seq![3u16], 0) == with_pen(t, t.attrs.bits | 0b0000_0010u16, t.fg, t.bg),
        sgr(t, seq![4u16], 0) == with_pen(t, t.attrs.bits | 0b0000_0100u16, t.fg, t.bg),
        sgr(t, seq![7u16], 0) == with_pen(t, t.attrs.bits | 0b0000_1000u16, t.fg, t.bg),
        sgr(t, seq![8u16], 0) == with_pen(t, t.attrs.bits | 0b0010_0000u16, t.fg, t.bg),
        sgr(t, seq![9u16], 0) == with_pen(t, t.attrs.bits | 0b0100_0000u16, t.fg, t.bg),
        sgr(t, seq![22u16], 0) == with_pen(t, t.attrs.bits & !0b0001_0001u16, t.fg, t.bg),
        sgr(t, seq![23u16], 0) == with_pen(t, t.attrs.bits & !0b0000_0010u16, t.fg, t.bg),
        sgr(t, seq![24u16], 0) == with_pen(t, t.attrs.bits & !0b0000_0100u16, t.fg, t.bg),
        sgr(t, seq![27u16], 0) == with_pen(t, t.attrs.bits & !0b0000_1000u16, t.fg, t.bg),
        sgr(t, seq![28u16], 0) == with_pen(t, t.attrs.bits & !0b0010_0000u16, t.fg, t.bg),
        sgr(t, seq![29u16], 0) == with_pen(t, t.attrs.bits & !0b0100_0000u16, t.fg, t.bg),
        sgr(t, seq![0u16], 0) == with_pen(t, 0, spec_default_fg(), spec_default_bg()),
        csi_main(t, Seq::<u16>::empty(), 'm') == with_pen(t, 0, spec_default_fg(), spec_default_bg()),
{
    let b = t.attrs.bits;
    lemma_sgr_single(t, 0);
    lemma_sgr_single(t, 1);
    lemma_sgr_single(t, 2);
    lemma_sgr_single(t, 3);
    lemma_sgr_single(t, 4);
    lemma_sgr_single(t, 7);
    lemma_sgr_single(t, 8);
    lemma_sgr_single(t, 9);
    lemma_sgr_single(t, 22);
    lemma_sgr_single(t, 23);
    lemma_sgr_single(t, 24);
    lemma_sgr_single(t, 27);
    lemma_sgr_single(t, 28);
    lemma_sgr_single(t, 29);
    assert((b & !0b0000_0001u16) & !0b0001_0000u16 == b & !0b0001_0001u16) by (bit_vector);
}

/// The colours that single SGR parameters select: 30–37 and 90–97 the
/// foreground from the 16-colour palette (normal, then bright), 40–47 and
/// 100–107 the background likewise, 39 and 49 the default foreground and
/// background. The attributes and the other colour do not change.
pub proof fn law_sgr_palette_colours(t: TermView, k: u16)
    requires
        k < 8,
    ensures
        sgr(t, seq![(30 + k) as u16], 0) == with_pen(t, t.attrs.bits, spec_ansi_color(k as int), t.bg),
        sgr(t, seq![(90 + k) as u16], 0) == with_pen(t, t.attrs.bits, spec_ansi_color(k + 8), t.bg),
        sgr(t, seq![(40 + k) as u16], 0) == with_pen(t, t.attrs.bits, t.fg, spec_ansi_color(k as int)),
        sgr(t, seq![(100 + k) as u16], 0) == with_pen(t, t.attrs.bits, t.fg, spec_ansi_color(k + 8)),
        sgr(t, seq![39u16], 0) == with_pen(t, t.attrs.bits, spec_default_fg(), t.bg),
        sgr(t, seq![49u16], 0) == with_pen(t, t.attrs.bits, t.fg, spec_default_bg()),
{
    lemma_sgr_single(t, (30 + k) as u16);
    lemma_sgr_single(t, (90 + k) as u16);
    lemma_sgr_single(t, (40 + k) as u16);
    lemma_sgr_single(t, (100 + k) as u16);
    lemma_sgr_single(t, 39);
    lemma_sgr_single(t, 49);
}

/// Extended colours: `38;5;n` and `48;5;n` select entry `n` of the
/// 256-colour palette, `38;2;r;g;b` and `48;2;r;g;b` the colour with those
/// channels, as foreground and background. Nothing else changes.
pub proof fn law_sgr_extended_colours(t: TermView, n: u16, r: u8, g: u8, b: u8)
    ensures
        sgr(t, seq![38u16, 5u16, n], 0) == with_pen(t, t.attrs.bits, color_256(n as int), t.bg),
        sgr(t, seq![48u16, 5u16, n], 0) == with_pen(t, t.attrs.bits, t.fg, color_256(n as int)),
        sgr(t, seq![38u16, 2u16, r as u16, g as u16, b as u16], 0) == with_pen(
            t,
            t.attrs.bits,
            Color { r, g, b },
            t.bg,
        ),
        sgr(t, seq![48u16, 2u16, r as u16, g as u16, b as u16], 0) == with_pen(
            t,
            t.attrs.bits,
            t.fg,
            Color { r, g, b },
        ),
{
    reveal_with_fuel(sgr, 3);
    let s1 = seq![38u16, 5u16, n];
    assert(s1[0] == 38 && s1[1] == 5 && s1[2] == n && s1.len() == 3);
    let s2 = seq![48u16, 5u16, n];
    assert(s2[0] == 48 && s2[1] == 5 && s2[2] == n && s2.len() == 3);
    let s3 = seq![38u16, 2u16, r as u16, g as u16, b as u16];
    assert(s3[0] == 38 && s3[1] == 2 && s3[2] == r as u16 && s3[3] == g as u16 && s3[4] == b as u16);
    let s4 = seq![48u16, 2u16, r as u16, g as u16, b as u16];
    assert(s4[0] == 48 && s4[1] == 2 && s4[2] == r as u16 && s4[3] == g as u16 && s4[4] == b as u16);
    assert((r as u16) as u8 == r) by (bit_vector);
    assert((g as u16) as u8 == g) by (bit_vector);
    assert((b as u16) as u8 == b) by (bit_vector);
}

/// The 256-colour palette: the 16 basic colours, then a 6×6×6 cube whose
/// channels step by 51, then 24 greys from 8 in steps of 10.
pub proof fn law_palette_256(n: int)
    requires
        0 <= n < 256,
    ensures
        n < 16 ==> color_256(n) == spec_ansi_color(n),
        16 <= n < 232 ==> color_256(n) == (Color {
            r: (((n - 16) / 36) * 51) as u8,
            g: ((((n - 16) / 6) % 6) * 51) as u8,
            b: (((n - 16) % 6) * 51) as u8,
        }),
        232 <= n ==> color_256(n) == (Color {
            r: (8 + 10 * (n - 232)) as u8,
            g: (8 + 10 * (n - 232)) as u8,
            b: (8 + 10 * (n - 232)) as u8,
        }),
{
    if 16 <= n < 232 {
        let m = n - 16;
        assert((m % 36) / 6 == (m / 6) % 6) by (nonlinear_arith)
            requires
                0 <= m,
        ;
    }
}

/// ESC 7 saves the cursor position and ESC 8 moves the cursor back to the
/// saved position, column and row; neither changes anything else.
pub proof fn law_save_restore_cursor(t: TermView)
    ensures
        esc_spec(t, 0x37) == (TermView { saved_cursor_col: t.cursor_col, saved_cursor_row: t.cursor_row, ..t }),
        esc_spec(t, 0x38) == (TermView { cursor_col: t.saved_cursor_col, cursor_row: t.saved_cursor_row, ..t }),
        esc_spec(esc_spec(t, 0x37), 0x38) == esc_spec(t, 0x37),
        csi_main(t, seq![], 's') == esc_spec(t, 0x37),
        csi_main(t, seq![], 'u') == (TermView { pending_wrap: false, ..esc_spec(t, 0x38) }),
{
}

/// Resizing gives a screen of the new size, every row to be redrawn; the
/// scroll region's bottom becomes the new last row, and the cursor and the
/// cursor saved for the alternate screen are pulled onto the new screen.
/// The scrollback, the pen and the modes are kept.
pub proof fn law_resize(t: TermView, cols: nat, rows: nat)
    ensures
        resize_spec(t, cols, rows).grid.cols == cols,
        resize_spec(t, cols, rows).grid.rows == rows,
        resize_spec(t, cols, rows).grid.screen.len() == rows,
        forall|r: int| 0 <= r < rows ==> (#[trigger] resize_spec(t, cols, rows).grid.screen[r]).len() == cols,
        forall|r: int| 0 <= r < rows ==> #[trigger] resize_spec(t, cols, rows).grid.dirty[r],
        resize_spec(t, cols, rows).grid.scrollback == t.grid.scrollback,
        rows > 0 ==> resize_spec(t, cols, rows).scroll_bottom == rows - 1,
        resize_spec(t, cols, rows).scroll_top == t.scroll_top,
        cols > 0 ==> resize_spec(t, cols, rows).cursor_col == (if t.cursor_col < cols { t.cursor_col } else {
            (cols - 1) as nat
        }),
        rows > 0 ==> resize_spec(t, cols, rows).cursor_row == (if t.cursor_row < rows { t.cursor_row } else {
            (rows - 1) as nat
        }),
        cols > 0 ==> resize_spec(t, cols, rows).alt_saved.col < cols,
        rows > 0 ==> resize_spec(t, cols, rows).alt_saved.row < rows,
        resize_spec(t, cols, rows).attrs == t.attrs && resize_spec(t, cols, rows).fg == t.fg
            && resize_spec(t, cols, rows).bg == t.bg,
        resize_spec(t, cols, rows).saved_cursor_col == t.saved_cursor_col,
        resize_spec(t, cols, rows).show_cursor == t.show_cursor,
        resize_spec(t, cols, rows).auto_wrap == t.auto_wrap,
{
}

/// Whether the screen of `t` has `rows` rows of `cols` cells each.
pub open spec fn screen_shaped(t: TermView) -> bool {
    &&& t.grid.screen.len() == t.grid.rows
    &&& forall|r: int| 0 <= r < t.grid.rows ==> (#[trigger] t.grid.screen[r]).len() == t.grid.cols
}

/// The cell at `(c, r)` of the screen of `t`.
pub open spec fn cell_at(t: TermView, c: int, r: int) -> Cell {
    t.grid.screen[r][c]
}

/// Whether erase-in-line mode `p` (0: from the cursor to the end of the
/// line, 1: from the start of the line through the cursor, 2: the whole
/// line) erases column `c` when the cursor is in column `col`.
pub open spec fn erased_in_line(p: int, c: int, col: int) -> bool {
    ||| p == 0 && c >= col
    ||| p == 1 && c <= col
    ||| p == 2
}

/// Erase in line (CSI K, CSI 1 K, CSI 2 K): on the cursor's row, the cells
/// of the mode's span become blank and the others keep what they held;
/// other rows, the cursor and the scrollback do not change. No parameter
/// means mode 0.
pub proof fn law_erase_in_line(t: TermView, p: u16, c: int, r: int)
    requires
        screen_shaped(t),
        t.cursor_row < t.grid.rows,
        p <= 2,
        0 <= c < t.grid.cols,
        0 <= r < t.grid.rows,
    ensures
        screen_shaped(csi_main(t, seq![p], 'K')),
        cell_at(csi_main(t, seq![p], 'K'), c, r) == (if r == t.cursor_row && erased_in_line(
            p as int,
            c,
            t.cursor_col as int,
        ) {
            blank_cell()
        } else {
            cell_at(t, c, r)
        }),
        csi_main(t, seq![p], 'K').cursor_col == t.cursor_col,
        csi_main(t, seq![p], 'K').cursor_row == t.cursor_row,
        csi_main(t, seq![p], 'K').grid.scrollback == t.grid.scrollback,
        csi_main(t, seq![], 'K') == csi_main(t, seq![0u16], 'K'),
{
    let ps = seq![p];
    assert(ps.len() == 1 && ps[0] == p);
    assert(seq![0u16][0] == 0);
}

/// Whether erase-in-display mode `p` (0: from the cursor to the end of the
/// screen, 1: from the start of the screen through the cursor, 2 and 3: the
/// whole screen) erases the cell `(c, r)` when the cursor is at
/// `(col, row)`.
pub open spec fn erased_in_display(p: int, c: int, r: int, col: int, row: int) -> bool {
    ||| p == 0 && (r > row || (r == row && c >= col))
    ||| p == 1 && (r < row || (r == row && c <= col))
    ||| p == 2
    ||| p == 3
}

/// Erase in display (CSI J, CSI 1 J, CSI 2 J, CSI 3 J): the cells of the
/// mode's span become blank and the others keep what they held; the cursor
/// and the scrollback do not change.
pub proof fn law_erase_in_display(t: TermView, p: u16, c: int, r: int)
    requires
        screen_shaped(t),
        t.cursor_row < t.grid.rows,
        p <= 3,
        0 <= c < t.grid.cols,
        0 <= r < t.grid.rows,
    ensures
        screen_shaped(csi_main(t, seq![p], 'J')),
        cell_at(csi_main(t, seq![p], 'J'), c, r) == (if erased_in_display(
            p as int,
            c,
            r,
            t.cursor_col as int,
            t.cursor_row as int,
        ) {
            blank_cell()
        } else {
            cell_at(t, c, r)
        }),
        csi_main(t, seq![p], 'J').cursor_col == t.cursor_col,
        csi_main(t, seq![p], 'J').cursor_row == t.cursor_row,
        csi_main(t, seq![p], 'J').grid.scrollback == t.grid.scrollback,
{
    let ps = seq![p];
    assert(ps.len() == 1 && ps[0] == p);
}

/// Erase characters (CSI n X): the `n` cells from the cursor (one when `n`
/// is 0), as far as the line goes, become blank; everything else keeps
/// what it held and the cursor does not move.
pub proof fn law_erase_characters(t: TermView, n: u16, c: int, r: int)
    requires
        screen_shaped(t),
        t.cursor_row < t.grid.rows,
        0 <= c < t.grid.cols,
        0 <= r < t.grid.rows,
    ensures
        screen_shaped(csi_main(t, seq![n], 'X')),
        cell_at(csi_main(t, seq![n], 'X'), c, r) == (if r == t.cursor_row && t.cursor_col <= c < t.cursor_col
            + (if n == 0 { 1 } else { n as int }) {
            blank_cell()
        } else {
            cell_at(t, c, r)
        }),
        csi_main(t, seq![n], 'X').cursor_col == t.cursor_col,
        csi_main(t, seq![n], 'X').cursor_row == t.cursor_row,
{
    let ps = seq![n];
    assert(ps.len() == 1 && ps[0] == n);
}

/// Insert characters (CSI n @): on the cursor's row, `n` blank cells (one
/// when `n` is 0) open at the cursor, the cells from the cursor on move
/// right by as many and those pushed past the end are lost. Delete
/// characters (CSI n P): the `n` cells from the cursor are removed, the
/// rest of the line moves left and blank cells fill the end.
pub proof fn law_insert_delete_characters(t: TermView, n: u16, c: int)
    requires
        screen_shaped(t),
        t.cursor_row < t.grid.rows,
        t.cursor_col <= t.grid.cols,
        0 <= c < t.grid.cols,
    ensures
        ({
            let k = if n == 0 { 1int } else { n as int };
            let col = t.cursor_col as int;
            let row = t.cursor_row as int;
            &&& cell_at(csi_main(t, seq![n], '@'), c, row) == (if c < col {
                cell_at(t, c, row)
            } else if c < col + k {
                blank_cell()
            } else {
                cell_at(t, c - k, row)
            })
            &&& cell_at(csi_main(t, seq![n], 'P'), c, row) == (if c < col {
                cell_at(t, c, row)
            } else if c + k < t.grid.cols {
                cell_at(t, c + k, row)
            } else {
                blank_cell()
            })
        }),
{
    let ps = seq![n];
    assert(ps.len() == 1 && ps[0] == n);
}

/// Cursor movement: CSI n A, B, C, D move the cursor up, down, right and
/// left by `n` (one when `n` is 0), stopping at the screen's edges; CSI
/// r;c H moves it to row `r` and column `c`, counted from 1 (0 counting as
/// 1), and CSI n G and CSI n d to column or row `n` alone, within the
/// screen. Only the cursor (and, for C, D and H, a pending wrap) changes.
pub proof fn law_cursor_movement(t: TermView, n: u16, m: u16)
    requires
        t.grid.rows > 0,
        t.grid.cols > 0,
        t.cursor_row < t.grid.rows,
        t.cursor_col < t.grid.cols,
    ensures
        ({
            let k = if n == 0 { 1int } else { n as int };
            let j = if m == 0 { 1int } else { m as int };
            let row = t.cursor_row as int;
            let col = t.cursor_col as int;
            let last_row = t.grid.rows - 1;
            let last_col = t.grid.cols - 1;
            &&& csi_main(t, seq![n], 'A') == (TermView {
                cursor_row: (if row >= k { row - k } else { 0 }) as nat,
                ..t
            })
            &&& csi_main(t, seq![n], 'B') == (TermView {
                cursor_row: (if row + k <= last_row { row + k } else { last_row }) as nat,
                ..t
            })
            &&& csi_main(t, seq![n], 'C') == (TermView {
                cursor_col: (if col + k <= last_col { col + k } else { last_col }) as nat,
                pending_wrap: false,
                ..t
            })
            &&& csi_main(t, seq![n], 'D') == (TermView {
                cursor_col: (if col >= k { col - k } else { 0 }) as nat,
                pending_wrap: false,
                ..t
            })
            &&& csi_main(t, seq![n, m], 'H') == (TermView {
                cursor_row: (if k - 1 <= last_row { k - 1 } else { last_row }) as nat,
                cursor_col: (if j - 1 <= last_col { j - 1 } else { last_col }) as nat,
                pending_wrap: false,
                ..t
            })
            &&& csi_main(t, seq![n], 'G') == (TermView {
                cursor_col: (if k - 1 <= last_col { k - 1 } else { last_col }) as nat,
                ..t
            })
            &&& csi_main(t, seq![n], 'd') == (TermView {
                cursor_row: (if k - 1 <= last_row { k - 1 } else { last_row }) as nat,
                ..t
            })
        }),
{
    let ps = seq![n];
    assert(ps.len() == 1 && ps[0] == n);
    let qs = seq![n, m];
    assert(qs.len() == 2 && qs[0] == n && qs[1] == m);
}

/// Control bytes: CR returns to column 0 and TAB moves to the next
/// multiple of 8 (at most the last column); BS moves one column left,
/// except at column 0; CR and BS drop a pending wrap. LF, VT and FF are each
/// a line feed (ESC D), and ESC E is a carriage return then a line feed.
pub proof fn law_control_bytes(t: TermView)
    requires
        t.grid.cols > 0,
    ensures
        execute_spec(t, 0x0d) == (TermView { cursor_col: 0, pending_wrap: false, ..t }),
        execute_spec(t, 0x09) == (TermView {
            cursor_col: (if (t.cursor_col / 8 + 1) * 8 <= t.grid.cols - 1 {
                ((t.cursor_col / 8 + 1) * 8) as int
            } else {
                t.grid.cols - 1
            }) as nat,
            ..t
        }),
        t.cursor_col > 0 ==> execute_spec(t, 0x08) == (TermView {
            cursor_col: (t.cursor_col - 1) as nat,
            pending_wrap: false,
            ..t
        }),
        t.cursor_col == 0 ==> execute_spec(t, 0x08) == t,
        execute_spec(t, 0x0a) == esc_spec(t, 0x44),
        execute_spec(t, 0x0b) == esc_spec(t, 0x44),
        execute_spec(t, 0x0c) == esc_spec(t, 0x44),
        esc_spec(t, 0x45) == esc_spec(TermView { cursor_col: 0, ..t }, 0x44),
{
}

/// Line feed (ESC D): off the bottom of the scroll region the cursor moves
/// down a row, unless it is on the last row, and the screen does not
/// change. On the bottom row of the region the cursor stays and the region
/// scrolls up a line: each of its rows takes the row below, its bottom row
/// becomes blank, rows outside it keep their content; when the region
/// starts at the top, the top line goes to the scrollback, counted in the
/// lines ever pushed, and is the newest scrollback line unless the limit is
/// 0; otherwise the scrollback does not change.
pub proof fn law_line_feed(t: TermView, r: int)
    requires
        screen_shaped(t),
        t.scroll_top <= t.scroll_bottom < t.grid.rows,
        t.cursor_row < t.grid.rows,
        0 <= r < t.grid.rows,
        t.grid.scrollback.len() <= t.grid.scrollback_limit,
        t.grid.display_offset <= t.grid.scrollback.len(),
    ensures
        t.cursor_row != t.scroll_bottom ==> esc_spec(t, 0x44).grid == t.grid && esc_spec(t, 0x44).cursor_row == (
        if t.cursor_row + 1 < t.grid.rows {
            t.cursor_row + 1int
        } else {
            t.cursor_row as int
        }),
        t.cursor_row == t.scroll_bottom ==> {
            let u = esc_spec(t, 0x44);
            let top = t.scroll_top as int;
            let bottom = t.scroll_bottom as int;
            &&& u.cursor_row == t.cursor_row
            &&& u.cursor_col == t.cursor_col
            &&& u.grid.screen[r] == (if top <= r < bottom {
                t.grid.screen[r + 1]
            } else if r == bottom {
                blank_row(t.grid.cols)
            } else {
                t.grid.screen[r]
            })
            &&& top == 0 ==> u.grid.total_lines() == t.grid.total_lines() + 1
            &&& top == 0 && t.grid.scrollback_limit > 0 ==> u.grid.scrollback.last() == t.grid.screen[0]
            &&& top > 0 ==> u.grid.scrollback == t.grid.scrollback
        },
{
    if t.cursor_row == t.scroll_bottom && t.scroll_top == 0 {
        let g = t.grid;
        let a = g.scrollback + crate::grid::pushed_lines(g.screen, g.cols, t.scroll_bottom as int, 1);
        assert(a.last() == g.screen[0]);
        crate::grid::law_scroll_up_counts_lines(g, 0, t.scroll_bottom as int, 1);
        if a.len() > g.scrollback_limit && g.scrollback_limit > 0 {
            let k = a.skip(a.len() - g.scrollback_limit);
            assert(k[k.len() - 1] == a[a.len() - 1]);
        }
    }
}

/// Reverse index (ESC M): off the top of the scroll region the cursor moves
/// up a row, unless it is on the first row, and the screen does not change.
/// On the top row of the region the cursor stays and the region scrolls
/// down a line: each of its rows takes the row above, its top row becomes
/// blank, rows outside it and the scrollback keep their content.
pub proof fn law_reverse_index(t: TermView, r: int)
    requires
        screen_shaped(t),
        t.scroll_top <= t.scroll_bottom < t.grid.rows,
        t.cursor_row < t.grid.rows,
        0 <= r < t.grid.rows,
    ensures
        t.cursor_row != t.scroll_top ==> esc_spec(t, 0x4d).grid == t.grid && esc_spec(t, 0x4d).cursor_row == (
        if t.cursor_row > 0 {
            t.cursor_row - 1
        } else {
            0
        }),
        t.cursor_row == t.scroll_top ==> {
            let u = esc_spec(t, 0x4d);
            let top = t.scroll_top as int;
            let bottom = t.scroll_bottom as int;
            &&& u.cursor_row == t.cursor_row
            &&& u.grid.screen[r] == (if top < r <= bottom {
                t.grid.screen[r - 1]
            } else if r == top {
                blank_row(t.grid.cols)
            } else {
                t.grid.screen[r]
            })
            &&& u.grid.scrollback == t.grid.scrollback
        },
{
}

/// Insert lines (CSI n L) and delete lines (CSI n M), with the cursor in
/// the scroll region: the rows from the cursor's to the region's bottom move
/// down (L) or up (M) by `n` (one when `n` is 0); rows that open become
/// blank, rows pushed past the region are lost, rows outside it keep their
/// content. The cursor does not move.
pub proof fn law_insert_delete_lines(t: TermView, n: u16, r: int)
    requires
        screen_shaped(t),
        t.cursor_row <= t.scroll_bottom < t.grid.rows,
        0 <= r < t.grid.rows,
    ensures
        ({
            let k = if n == 0 { 1int } else { n as int };
            let row = t.cursor_row as int;
            let bottom = t.scroll_bottom as int;
            &&& csi_main(t, seq![n], 'L').grid.screen[r] == (if row <= r <= bottom {
                if r - k >= row {
                    t.grid.screen[r - k]
                } else {
                    blank_row(t.grid.cols)
                }
            } else {
                t.grid.screen[r]
            })
            &&& csi_main(t, seq![n], 'M').grid.screen[r] == (if row <= r <= bottom {
                if r + k <= bottom {
                    t.grid.screen[r + k]
                } else {
                    blank_row(t.grid.cols)
                }
            } else {
                t.grid.screen[r]
            })
            &&& csi_main(t, seq![n], 'L').cursor_row == t.cursor_row
            &&& csi_main(t, seq![n], 'M').cursor_row == t.cursor_row
            &&& csi_main(t, seq![n], 'L').cursor_col == t.cursor_col
            &&& csi_main(t, seq![n], 'M').cursor_col == t.cursor_col
        }),
{
    let ps = seq![n];
    assert(ps.len() == 1 && ps[0] == n);
}

/// Set scroll region (CSI top;bottom r): the region runs from row `top` to
/// row `bottom`, counted from 1 (0 for `top` counting as 1, 0 for `bottom`
/// as the last row), both kept on the screen; the cursor goes home.
pub proof fn law_set_scroll_region(t: TermView, top: u16, bottom: u16)
    requires
        0 < t.grid.rows < 0x10000,
    ensures
        ({
            let a = if top == 0 { 1int } else { top as int };
            let b = if bottom == 0 { t.grid.rows as int } else { bottom as int };
            let last = t.grid.rows - 1;
            let u = csi_main(t, seq![top, bottom], 'r');
            &&& u.scroll_top == (if a - 1 <= last { a - 1 } else { last })
            &&& u.scroll_bottom == (if b - 1 <= last { b - 1 } else { last })
            &&& u.cursor_col == 0
            &&& u.cursor_row == 0
            &&& u.grid == t.grid
        }),
{
    let ps = seq![top, bottom];
    assert(ps.len() == 2 && ps[0] == top && ps[1] == bottom);
    assert((t.grid.rows as u16) as int == t.grid.rows);
}

proof fn lemma_flat_index(r: int, x: int, row: int, y: int, cols: int)
    requires
        0 <= x < cols,
        0 <= y < cols,
    ensures
        (r * cols + x == row * cols + y) <==> (r == row && x == y),
{
    if r * cols + x == row * cols + y {
        if r < row {
            assert(r * cols + x < row * cols + y) by (nonlinear_arith)
                requires
                    r < row,
                    0 <= x < cols,
                    0 <= y,
            ;
        } else if r > row {
            assert(r * cols + x > row * cols + y) by (nonlinear_arith)
                requires
                    r > row,
                    0 <= y < cols,
                    0 <= x,
            ;
        }
    }
}

/// Whether grid state `g` has `rows` rows of `cols` cells each.
pub open spec fn grid_shaped(g: GridState) -> bool {
    &&& g.screen.len() == g.rows
    &&& forall|r: int| 0 <= r < g.rows ==> (#[trigger] g.screen[r]).len() == g.cols
}

proof fn lemma_write_flat_cell(g: GridState, row: int, col: int, cell: crate::cell::Cell, r: int, x: int)
    requires
        grid_shaped(g),
        0 <= row < g.rows,
        0 <= col < g.cols,
        0 <= r < g.rows,
        0 <= x < g.cols,
    ensures
        grid_shaped(crate::grid::gs_write_flat(g, row * g.cols + col, row, cell)),
        crate::grid::gs_write_flat(g, row * g.cols + col, row, cell).screen[r][x] == (if r == row && x == col {
            cell
        } else {
            g.screen[r][x]
        }),
        crate::grid::gs_write_flat(g, row * g.cols + col, row, cell).scrollback == g.scrollback,
{
    lemma_flat_index(r, x, row, col, g.cols as int);
}

proof fn lemma_write_pads_cells(
    g: GridState,
    col: int,
    row: int,
    from: int,
    w: int,
    pad: crate::cell::Cell,
    r: int,
    x: int,
)
    requires
        grid_shaped(g),
        0 <= row < g.rows,
        0 <= col,
        1 <= from,
        0 <= r < g.rows,
        0 <= x < g.cols,
    ensures
        grid_shaped(write_pads(g, col, row, from, w, pad)),
        write_pads(g, col, row, from, w, pad).rows == g.rows,
        write_pads(g, col, row, from, w, pad).cols == g.cols,
        write_pads(g, col, row, from, w, pad).scrollback == g.scrollback,
        write_pads(g, col, row, from, w, pad).screen[r][x] == (if r == row && col + from <= x < col + w {
            pad
        } else {
            g.screen[r][x]
        }),
    decreases w - from,
{
    if from < w {
        let g1 = if col + from < g.cols {
            crate::grid::gs_write_flat(g, row * g.cols + col + from, row, pad)
        } else {
            g
        };
        if col + from < g.cols {
            lemma_write_flat_cell(g, row, col + from, pad, r, x);
            assert(row * g.cols + col + from == row * g.cols + (col + from));
        }
        lemma_write_pads_cells(g1, col, row, from + 1, w, pad, r, x);
    }
}

/// Printing a character `w` columns wide (1 to 3), with no wrap pending and
/// room left on the line: the cursor's cell gets the character in the
/// current colours and attributes, marked `w` wide; the `w - 1` cells after
/// it become padding cells (a space, 0 wide) in the same pen; every other
/// cell keeps what it held. The cursor moves right by `w`, or stays on the
/// last column with a wrap pending when it reaches the end of the line.
pub proof fn law_print_writes_cell(t: TermView, c: char, w: nat, r: int, x: int)
    requires
        screen_shaped(t),
        1 <= w <= 3,
        t.cursor_row < t.grid.rows,
        t.cursor_col + w <= t.grid.cols,
        !t.pending_wrap,
        0 <= r < t.grid.rows,
        0 <= x < t.grid.cols,
    ensures
        ({
            let u = print_as(t, c, w);
            let col = t.cursor_col as int;
            let row = t.cursor_row as int;
            &&& cell_at(u, x, r) == (if r == row && x == col {
                crate::cell::Cell { c, fg: t.fg, bg: t.bg, attrs: t.attrs, width: w as u8 }
            } else if r == row && col < x < col + w {
                crate::cell::Cell { c: ' ', fg: t.fg, bg: t.bg, attrs: t.attrs, width: 0 }
            } else {
                cell_at(t, x, r)
            })
            &&& u.cursor_row == t.cursor_row
            &&& u.cursor_col == (if col + w >= t.grid.cols { t.grid.cols - 1 } else { col + w })
            &&& u.pending_wrap == (col + w >= t.grid.cols)
            &&& u.last_char == Some(c)
            &&& u.grid.scrollback == t.grid.scrollback
        }),
{
    let col = t.cursor_col as int;
    let row = t.cursor_row as int;
    let g = t.grid;
    let cell = crate::cell::Cell { c, fg: t.fg, bg: t.bg, attrs: t.attrs, width: w as u8 };
    lemma_write_flat_cell(g, row, col, cell, r, x);
    let g1 = crate::grid::gs_write_flat(g, row * g.cols + col, row, cell);
    lemma_write_pads_cells(
        g1,
        col,
        row,
        1,
        w as int,
        crate::cell::Cell { c: ' ', fg: t.fg, bg: t.bg, attrs: t.attrs, width: 0 },
        r,
        x,
    );
    let pad = crate::cell::Cell { c: ' ', fg: t.fg, bg: t.bg, attrs: t.attrs, width: 0 };
    assert(crate::term::wrap_pending(t) == t);
    assert(crate::term::print_pos(t, w) == t);
    assert(crate::term::printed_cell(t, c, w) == cell);
    assert(crate::term::pad_cell(t) == pad);
    let u = print_as(t, c, w);
    assert(u == crate::term::put_char_spec(t, c, w));
    assert(u.grid == write_pads(g1, col, row, 1, w as int, pad));
    assert(g1.scrollback == g.scrollback);
}

/// Wrapping: with a wrap pending and auto-wrap on, printing is a carriage
/// return and a line feed, then printing; so is printing a character that
/// no longer fits on the line (but fits on an empty one). With auto-wrap
/// off such a character is dropped.
pub proof fn law_print_wraps(t: TermView, c: char, w: nat)
    requires
        w <= t.grid.cols,
    ensures
        t.pending_wrap && t.auto_wrap ==> print_as(t, c, w) == print_as(
            execute_spec(execute_spec(t, 0x0d), 0x0a),
            c,
            w,
        ),
        !t.pending_wrap && t.auto_wrap && t.cursor_col + w > t.grid.cols ==> print_as(t, c, w) == print_as(
            execute_spec(execute_spec(t, 0x0d), 0x0a),
            c,
            w,
        ),
        !t.auto_wrap && t.cursor_col + w > t.grid.cols ==> print_as(t, c, w) == t,
{
}

/// Repeat (CSI n b) prints the last printed character `n` more times (once
/// when `n` is 0); with nothing printed yet it does nothing.
pub proof fn law_repeat(t: TermView, n: u16)
    ensures
        t.last_char matches Some(c) ==> csi_main(t, seq![n], 'b') == repeat_print(
            t,
            c,
            (if n == 0 { 1nat } else { n as nat }),
        ),
        t.last_char is None ==> csi_main(t, seq![n], 'b') == t,
        forall|c: char| #[trigger] repeat_print(t, c, 1) == print_spec(t, c),
{
    let ps = seq![n];
    assert(ps.len() == 1 && ps[0] == n);
    assert forall|c: char| #[trigger] repeat_print(t, c, 1) == print_spec(t, c) by {
        assert(repeat_print(print_spec(t, c), c, 0) == print_spec(t, c));
    }
}

/// Resizing keeps the top-left part of the screen that fits: each cell of
/// the new screen that lies within the old one keeps its content, the
/// others are blank.
pub proof fn law_resize_keeps_contents(t: TermView, cols: nat, rows: nat, x: int, r: int)
    requires
        screen_shaped(t),
        0 <= x < cols,
        0 <= r < rows,
    ensures
        resize_spec(t, cols, rows).grid.screen[r][x] == (if r < t.grid.rows && x < t.grid.cols {
            cell_at(t, x, r)
        } else {
            blank_cell()
        }),
{
}

/// Private modes (CSI ? n h and CSI ? n l): 25 shows and hides the cursor,
/// 7 turns auto-wrap on and off; nothing else changes. Other private modes
/// but 1049 change nothing.
pub proof fn law_private_modes(t: TermView, n: u16)
    ensures
        csi_spec(t, seq![25u16], seq![0x3fu8], 'h') == (TermView { show_cursor: true, ..t }),
        csi_spec(t, seq![25u16], seq![0x3fu8], 'l') == (TermView { show_cursor: false, ..t }),
        csi_spec(t, seq![7u16], seq![0x3fu8], 'h') == (TermView { auto_wrap: true, ..t }),
        csi_spec(t, seq![7u16], seq![0x3fu8], 'l') == (TermView { auto_wrap: false, ..t }),
        n != 25 && n != 7 && n != 1049 ==> csi_spec(t, seq![n], seq![0x3fu8], 'h') == t && csi_spec(
            t,
            seq![n],
            seq![0x3fu8],
            'l',
        ) == t,
{
    assert(seq![0x3fu8][0] == 0x3f);
    assert(seq![25u16][0] == 25);
    assert(seq![7u16][0] == 7);
    assert(seq![n][0] == n);
}

/// Operating-system commands: `0;text` and `2;text` set the title, `7;text`
/// the working directory, to the text decoded as lossy UTF-8; others, and
/// commands without text, change nothing.
pub proof fn law_osc(t: TermView, code: Seq<u8>, text: Seq<u8>)
    ensures
        (code == seq![0x30u8] || code == seq![0x32u8]) ==> osc_spec(t, seq![code, text]) == (TermView {
            title: utf8_lossy(text),
            ..t
        }),
        code == seq![0x37u8] ==> osc_spec(t, seq![code, text]) == (TermView { cwd: utf8_lossy(text), ..t }),
        code != seq![0x30u8] && code != seq![0x32u8] && code != seq![0x37u8] ==> osc_spec(t, seq![code, text]) == t,
        osc_spec(t, seq![code]) == t,
        osc_spec(t, seq![]) == t,
{
    let ps = seq![code, text];
    assert(ps.len() == 2 && ps[0] == code && ps[1] == text);
    assert(seq![code][0] == code);
    if code == seq![0x37u8] {
        assert(code[0] == 0x37u8);
        assert(seq![0x30u8][0] == 0x30u8 && seq![0x32u8][0] == 0x32u8);
        assert(code != seq![0x30u8] && code != seq![0x32u8]);
    }
}

/// Scroll up (CSI n S) and scroll down (CSI n T): the whole scroll region
/// moves up or down by `n` lines (one when `n` is 0), whatever row the
/// cursor is on; lines that open become blank, rows outside the region keep
/// their content, and the cursor does not move.
pub proof fn law_scroll_region(t: TermView, n: u16, r: int)
    requires
        screen_shaped(t),
        t.scroll_top <= t.scroll_bottom < t.grid.rows,
        0 <= r < t.grid.rows,
    ensures
        ({
            let k = if n == 0 { 1int } else { n as int };
            let top = t.scroll_top as int;
            let bottom = t.scroll_bottom as int;
            &&& csi_main(t, seq![n], 'S').grid.screen[r] == (if top <= r <= bottom {
                if r + k <= bottom {
                    t.grid.screen[r + k]
                } else {
                    blank_row(t.grid.cols)
                }
            } else {
                t.grid.screen[r]
            })
            &&& csi_main(t, seq![n], 'T').grid.screen[r] == (if top <= r <= bottom {
                if r - k >= top {
                    t.grid.screen[r - k]
                } else {
                    blank_row(t.grid.cols)
                }
            } else {
                t.grid.screen[r]
            })
            &&& csi_main(t, seq![n], 'S').cursor_row == t.cursor_row
            &&& csi_main(t, seq![n], 'T').cursor_row == t.cursor_row
            &&& csi_main(t, seq![n], 'S').cursor_col == t.cursor_col
            &&& csi_main(t, seq![n], 'T').cursor_col == t.cursor_col
        }),
{
    let ps = seq![n];
    assert(ps.len() == 1 && ps[0] == n);
}

} // verus!
