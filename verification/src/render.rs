use vstd::prelude::*;
use crate::atlas::GlyphKey;
use crate::cell::{default_bg, spec_default_bg, Cell, Color, BOLD, INVERSE, ITALIC};
use crate::grid::{lemma_cell_index, Grid, GridView};

verus! {

/// A background rectangle to paint: `width` cells wide from `(col, row)`.
#[derive(Debug, Clone, Copy, PartialEq, Eq, Structural)]
pub struct BgPaint {
    pub col: usize,
    pub row: usize,
    pub width: u8,
    pub color: Color,
}

/// A glyph to draw at `(col, row)` in the foreground colour `color`.
#[derive(Debug, Clone, Copy, PartialEq, Eq, Structural)]
pub struct GlyphPaint {
    pub col: usize,
    pub row: usize,
    pub key: GlyphKey,
    pub color: Color,
}

/// What a frame paints, in cell coordinates: the backgrounds and glyphs in
/// row-major order, and the cell the cursor block covers, if it is shown.
pub struct FramePlan {
    pub backgrounds: Vec<BgPaint>,
    pub glyphs: Vec<GlyphPaint>,
    pub cursor: Option<(usize, usize)>,
}

/// The foreground and background a cell is painted with: swapped under
/// inverse video.
pub open spec fn shown_colors(c: Cell) -> (Color, Color) {
    if c.attrs.has(INVERSE) {
        (c.bg, c.fg)
    } else {
        (c.fg, c.bg)
    }
}

/// The background painted for the cell at `(col, row)`: none for the
/// continuation of a wide character, nor where it is the default background.
pub open spec fn cell_bg(c: Cell, col: int, row: int) -> Seq<BgPaint> {
    if c.width == 0 || shown_colors(c).1 == spec_default_bg() {
        Seq::empty()
    } else {
        seq![BgPaint { col: col as usize, row: row as usize, width: c.width, color: shown_colors(c).1 }]
    }
}

/// Whether a cell's character is drawn: blanks and NUL are not.
pub open spec fn draws_glyph(c: Cell) -> bool {
    c.width != 0 && c.c != ' ' && c.c != '\0'
}

/// The glyph drawn for the cell at `(col, row)`, keyed by its character,
/// weight and slant.
pub open spec fn cell_glyph(c: Cell, col: int, row: int) -> Seq<GlyphPaint> {
    if draws_glyph(c) {
        seq![GlyphPaint {
            col: col as usize,
            row: row as usize,
            key: GlyphKey { c: c.c, bold: c.attrs.has(BOLD), italic: c.attrs.has(ITALIC) },
            color: shown_colors(c).0,
        }]
    } else {
        Seq::empty()
    }
}

/// The backgrounds of the first `n` cells of window row `row`.
pub open spec fn row_bgs(v: GridView, row: int, n: nat) -> Seq<BgPaint>
    decreases n,
{
    if n == 0 {
        Seq::empty()
    } else {
        row_bgs(v, row, (n - 1) as nat) + cell_bg(v.displayed_cell(n - 1, row), n - 1, row)
    }
}

/// The glyphs of the first `n` cells of window row `row`.
pub open spec fn row_glyphs(v: GridView, row: int, n: nat) -> Seq<GlyphPaint>
    decreases n,
{
    if n == 0 {
        Seq::empty()
    } else {
        row_glyphs(v, row, (n - 1) as nat) + cell_glyph(v.displayed_cell(n - 1, row), n - 1, row)
    }
}

/// The backgrounds of the first `r` rows of the window.
pub open spec fn frame_bgs(v: GridView, r: nat) -> Seq<BgPaint>
    decreases r,
{
    if r == 0 {
        Seq::empty()
    } else {
        frame_bgs(v, (r - 1) as nat) + row_bgs(v, r - 1, v.cols)
    }
}

/// The glyphs of the first `r` rows of the window.
pub open spec fn frame_glyphs(v: GridView, r: nat) -> Seq<GlyphPaint>
    decreases r,
{
    if r == 0 {
        Seq::empty()
    } else {
        frame_glyphs(v, (r - 1) as nat) + row_glyphs(v, r - 1, v.cols)
    }
}

/// The cursor block is drawn only when the cursor is shown and the window
/// is not scrolled back.
pub open spec fn cursor_shown(v: GridView, cursor: (usize, usize), show_cursor: bool) -> Option<(usize, usize)> {
    if show_cursor && v.display_offset == 0 {
        Some(cursor)
    } else {
        None
    }
}

/// Decides what the window of `grid` paints: for each cell in row-major
/// order its background unless it is the default, its glyph unless it is
/// blank, colours swapped under inverse video, the continuation cells of wide
/// characters skipped; and the cursor block when `show_cursor` is set and the
/// window shows the live screen.
pub fn plan_frame(grid: &Grid, cursor: (usize, usize), show_cursor: bool) -> (p: FramePlan)
    requires
        grid@.wf(),
    ensures
        p.backgrounds@ == frame_bgs(grid@, grid@.rows),
        p.glyphs@ == frame_glyphs(grid@, grid@.rows),
        p.cursor == cursor_shown(grid@, cursor, show_cursor),
{
    let rows = grid.rows();
    let cols = grid.cols();
    let ghost v = grid@;
    let mut backgrounds: Vec<BgPaint> = Vec::new();
    let mut glyphs: Vec<GlyphPaint> = Vec::new();
    let mut row: usize = 0;
    while row < rows
        invariant
            v == grid@,
            v.wf(),
            rows == v.rows,
            cols == v.cols,
            row <= rows,
            backgrounds@ == frame_bgs(v, row as nat),
            glyphs@ == frame_glyphs(v, row as nat),
        decreases rows - row,
    {
        let ghost bgs_before = backgrounds@;
        let ghost glyphs_before = glyphs@;
        let mut col: usize = 0;
        while col < cols
            invariant
                v == grid@,
                v.wf(),
                rows == v.rows,
                cols == v.cols,
                row < rows,
                col <= cols,
                bgs_before == frame_bgs(v, row as nat),
                glyphs_before == frame_glyphs(v, row as nat),
                backgrounds@ == bgs_before + row_bgs(v, row as int, col as nat),
                glyphs@ == glyphs_before + row_glyphs(v, row as int, col as nat),
            decreases cols - col,
        {
            proof {
                if row >= v.display_offset {
                    lemma_cell_index(row - v.display_offset, col as int, cols as int, rows as int);
                }
            }
            let cell = grid.display_cell(col, row);
            let ghost bgs_mid = backgrounds@;
            let ghost glyphs_mid = glyphs@;
            if cell.width != 0 {
                let inverse = cell.attrs.contains(INVERSE);
                let fg = if inverse { cell.bg } else { cell.fg };
                let bg = if inverse { cell.fg } else { cell.bg };
                if bg != default_bg() {
                    backgrounds.push(BgPaint { col, row, width: cell.width, color: bg });
                }
                if cell.c != ' ' && cell.c != '\0' {
                    let key = GlyphKey {
                        c: cell.c,
                        bold: cell.attrs.contains(BOLD),
                        italic: cell.attrs.contains(ITALIC),
                    };
                    glyphs.push(GlyphPaint { col, row, key, color: fg });
                }
            }
            proof {
                assert(backgrounds@ == bgs_mid + cell_bg(cell, col as int, row as int));
                assert(glyphs@ == glyphs_mid + cell_glyph(cell, col as int, row as int));
                assert(bgs_before + row_bgs(v, row as int, (col + 1) as nat) =~= bgs_before
                    + row_bgs(v, row as int, col as nat) + cell_bg(cell, col as int, row as int));
                assert(glyphs_before + row_glyphs(v, row as int, (col + 1) as nat) =~= glyphs_before
                    + row_glyphs(v, row as int, col as nat) + cell_glyph(cell, col as int, row as int));
            }
            col = col + 1;
        }
        row = row + 1;
    }
    let shown = if show_cursor && grid.display_offset() == 0 {
        Some(cursor)
    } else {
        None
    };
    FramePlan { backgrounds, glyphs, cursor: shown }
}

/// Whether background paint `b` is right for window `v`: it lies on the
/// window, on a cell that is not the continuation of a wide character, is
/// as wide as that cell, and has the colour shown behind it (the foreground
/// under inverse video), which is not the default background.
pub open spec fn bg_matches_cell(v: GridView, b: BgPaint) -> bool {
    let c = v.displayed_cell(b.col as int, b.row as int);
    &&& b.col < v.cols
    &&& b.row < v.rows
    &&& c.width != 0
    &&& b.width == c.width
    &&& b.color == (if c.attrs.has(INVERSE) { c.fg } else { c.bg })
    &&& b.color != spec_default_bg()
}

/// Whether glyph paint `g` is right for window `v`: it lies on the window,
/// on a cell that is not a continuation and holds neither a space nor NUL,
/// keyed by that cell's character, weight and slant, in the colour its text
/// is shown in (the background under inverse video).
pub open spec fn glyph_matches_cell(v: GridView, g: GlyphPaint) -> bool {
    let c = v.displayed_cell(g.col as int, g.row as int);
    &&& g.col < v.cols
    &&& g.row < v.rows
    &&& c.width != 0
    &&& c.c != ' ' && c.c != '\0'
    &&& g.key.c == c.c
    &&& g.key.bold == c.attrs.has(BOLD)
    &&& g.key.italic == c.attrs.has(ITALIC)
    &&& g.color == (if c.attrs.has(INVERSE) { c.bg } else { c.fg })
}

/// Whether the cell at `(col, row)` of window `v` gets a background paint.
pub open spec fn needs_bg(v: GridView, col: int, row: int) -> bool {
    let c = v.displayed_cell(col, row);
    c.width != 0 && (if c.attrs.has(INVERSE) { c.fg } else { c.bg }) != spec_default_bg()
}

/// Whether the cell at `(col, row)` of window `v` gets a glyph.
pub open spec fn needs_glyph(v: GridView, col: int, row: int) -> bool {
    let c = v.displayed_cell(col, row);
    c.width != 0 && c.c != ' ' && c.c != '\0'
}

proof fn lemma_row_paints(v: GridView, row: int, n: nat)
    requires
        v.wf(),
        0 <= row < v.rows,
        n <= v.cols,
    ensures
        forall|i: int|
            0 <= i < row_bgs(v, row, n).len() ==> bg_matches_cell(v, #[trigger] row_bgs(v, row, n)[i])
                && row_bgs(v, row, n)[i].row == row && row_bgs(v, row, n)[i].col < n,
        forall|i: int|
            0 <= i < row_glyphs(v, row, n).len() ==> glyph_matches_cell(v, #[trigger] row_glyphs(v, row, n)[i])
                && row_glyphs(v, row, n)[i].row == row && row_glyphs(v, row, n)[i].col < n,
        forall|col: int|
            0 <= col < n && #[trigger] needs_bg(v, col, row) ==> exists|i: int|
                0 <= i < row_bgs(v, row, n).len() && row_bgs(v, row, n)[i].col == col,
        forall|col: int|
            0 <= col < n && #[trigger] needs_glyph(v, col, row) ==> exists|i: int|
                0 <= i < row_glyphs(v, row, n).len() && row_glyphs(v, row, n)[i].col == col,
    decreases n,
{
    if n > 0 {
        let m = (n - 1) as nat;
        lemma_row_paints(v, row, m);
        let c = v.displayed_cell(m as int, row);
        let pb = row_bgs(v, row, m);
        let pg = row_glyphs(v, row, m);
        let nb = row_bgs(v, row, n);
        let ng = row_glyphs(v, row, n);
        assert(nb == pb + cell_bg(c, m as int, row));
        assert(ng == pg + cell_glyph(c, m as int, row));
        assert forall|i: int| 0 <= i < nb.len() implies bg_matches_cell(v, #[trigger] nb[i]) && nb[i].row == row
            && nb[i].col < n by {
            if i < pb.len() {
                assert(nb[i] == pb[i]);
            } else {
                assert(nb[i] == cell_bg(c, m as int, row)[0]);
            }
        }
        assert forall|i: int| 0 <= i < ng.len() implies glyph_matches_cell(v, #[trigger] ng[i]) && ng[i].row
            == row && ng[i].col < n by {
            if i < pg.len() {
                assert(ng[i] == pg[i]);
            } else {
                assert(ng[i] == cell_glyph(c, m as int, row)[0]);
            }
        }
        assert forall|col: int| 0 <= col < n && #[trigger] needs_bg(v, col, row) implies exists|i: int|
            0 <= i < nb.len() && nb[i].col == col by {
            if col < m {
                let i = choose|i: int| 0 <= i < pb.len() && pb[i].col == col;
                assert(nb[i] == pb[i]);
            } else {
                assert(nb[pb.len() as int] == cell_bg(c, m as int, row)[0]);
            }
        }
        assert forall|col: int| 0 <= col < n && #[trigger] needs_glyph(v, col, row) implies exists|i: int|
            0 <= i < ng.len() && ng[i].col == col by {
            if col < m {
                let i = choose|i: int| 0 <= i < pg.len() && pg[i].col == col;
                assert(ng[i] == pg[i]);
            } else {
                assert(ng[pg.len() as int] == cell_glyph(c, m as int, row)[0]);
            }
        }
    }
}

proof fn lemma_frame_paints(v: GridView, r: nat)
    requires
        v.wf(),
        r <= v.rows,
    ensures
        forall|i: int|
            0 <= i < frame_bgs(v, r).len() ==> bg_matches_cell(v, #[trigger] frame_bgs(v, r)[i])
                && frame_bgs(v, r)[i].row < r,
        forall|i: int|
            0 <= i < frame_glyphs(v, r).len() ==> glyph_matches_cell(v, #[trigger] frame_glyphs(v, r)[i])
                && frame_glyphs(v, r)[i].row < r,
        forall|col: int, row: int|
            0 <= col < v.cols && 0 <= row < r && #[trigger] needs_bg(v, col, row) ==> exists|i: int|
                0 <= i < frame_bgs(v, r).len() && frame_bgs(v, r)[i].col == col && frame_bgs(v, r)[i].row
                    == row,
        forall|col: int, row: int|
            0 <= col < v.cols && 0 <= row < r && #[trigger] needs_glyph(v, col, row) ==> exists|i: int|
                0 <= i < frame_glyphs(v, r).len() && frame_glyphs(v, r)[i].col == col && frame_glyphs(
                    v,
                    r,
                )[i].row == row,
    decreases r,
{
    if r > 0 {
        let q = (r - 1) as nat;
        lemma_frame_paints(v, q);
        lemma_row_paints(v, q as int, v.cols);
        let pb = frame_bgs(v, q);
        let pg = frame_glyphs(v, q);
        let rb = row_bgs(v, q as int, v.cols);
        let rg = row_glyphs(v, q as int, v.cols);
        let nb = frame_bgs(v, r);
        let ng = frame_glyphs(v, r);
        assert(nb == pb + rb);
        assert(ng == pg + rg);
        assert forall|i: int| 0 <= i < nb.len() implies bg_matches_cell(v, #[trigger] nb[i]) && nb[i].row < r by {
            if i < pb.len() {
                assert(nb[i] == pb[i]);
            } else {
                assert(nb[i] == rb[i - pb.len()]);
            }
        }
        assert forall|i: int| 0 <= i < ng.len() implies glyph_matches_cell(v, #[trigger] ng[i]) && ng[i].row < r by {
            if i < pg.len() {
                assert(ng[i] == pg[i]);
            } else {
                assert(ng[i] == rg[i - pg.len()]);
            }
        }
        assert forall|col: int, row: int|
            0 <= col < v.cols && 0 <= row < r && #[trigger] needs_bg(v, col, row) implies exists|i: int|
            0 <= i < nb.len() && nb[i].col == col && nb[i].row == row by {
            if row < q {
                let i = choose|i: int| 0 <= i < pb.len() && pb[i].col == col && pb[i].row == row;
                assert(nb[i] == pb[i]);
            } else {
                let i = choose|i: int| 0 <= i < rb.len() && rb[i].col == col;
                assert(nb[pb.len() + i] == rb[i]);
            }
        }
        assert forall|col: int, row: int|
            0 <= col < v.cols && 0 <= row < r && #[trigger] needs_glyph(v, col, row) implies exists|i: int|
            0 <= i < ng.len() && ng[i].col == col && ng[i].row == row by {
            if row < q {
                let i = choose|i: int| 0 <= i < pg.len() && pg[i].col == col && pg[i].row == row;
                assert(ng[i] == pg[i]);
            } else {
                let i = choose|i: int| 0 <= i < rg.len() && rg[i].col == col;
                assert(ng[pg.len() + i] == rg[i]);
            }
        }
    }
}

/// A frame paints what the window shows: every background paint covers a
/// whole cell (a wide character's background spans all of its columns) in
/// the colour shown behind it, and every cell with a background other than
/// the default gets one; every glyph is the character of its cell in its
/// weight, slant and text colour, and every cell with a visible character
/// gets one.
pub proof fn law_frame_paints_the_window(v: GridView)
    requires
        v.wf(),
    ensures
        forall|i: int|
            0 <= i < frame_bgs(v, v.rows).len() ==> bg_matches_cell(v, #[trigger] frame_bgs(v, v.rows)[i]),
        forall|i: int|
            0 <= i < frame_glyphs(v, v.rows).len() ==> glyph_matches_cell(
                v,
                #[trigger] frame_glyphs(v, v.rows)[i],
            ),
        forall|col: int, row: int|
            0 <= col < v.cols && 0 <= row < v.rows && #[trigger] needs_bg(v, col, row) ==> exists|i: int|
                0 <= i < frame_bgs(v, v.rows).len() && frame_bgs(v, v.rows)[i].col == col && frame_bgs(
                    v,
                    v.rows,
                )[i].row == row,
        forall|col: int, row: int|
            0 <= col < v.cols && 0 <= row < v.rows && #[trigger] needs_glyph(v, col, row) ==> exists|i: int|
                0 <= i < frame_glyphs(v, v.rows).len() && frame_glyphs(v, v.rows)[i].col == col
                    && frame_glyphs(v, v.rows)[i].row == row,
{
    lemma_frame_paints(v, v.rows);
}

} // verus!
