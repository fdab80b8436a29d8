use vstd::prelude::*;
use std::collections::HashMap;

verus! {

broadcast use vstd::std_specs::hash::group_hash_axioms;

/// What a glyph is cached by: the character and its weight and slant.
#[derive(Debug, Clone, Copy, Hash, PartialEq, Eq, Structural)]
pub struct GlyphKey {
    pub c: char,
    pub bold: bool,
    pub italic: bool,
}

/// The number a glyph key is stored under; distinct keys get distinct numbers.
pub open spec fn key_code(k: GlyphKey) -> u32 {
    ((k.c as u32) * 4 + (if k.bold { 2u32 } else { 0u32 }) + (if k.italic { 1u32 } else { 0u32 })) as u32
}

pub fn glyph_key_code(k: GlyphKey) -> (n: u32)
    ensures
        n == key_code(k),
{
    let c = k.c as u32;
    c * 4 + (if k.bold { 2 } else { 0 }) + (if k.italic { 1 } else { 0 })
}

/// Distinct glyph keys are stored under distinct numbers.
pub proof fn law_key_code_injective(a: GlyphKey, b: GlyphKey)
    ensures
        key_code(a) == key_code(b) <==> a == b,
{
    if key_code(a) == key_code(b) {
        assert((a.c as u32) == (b.c as u32));
    }
}

/// After a glyph is packed under `key`, looking `key` up gives the entry
/// that the packing returned; a refused glyph records nothing; and the
/// entry of every other key is left as it was.
pub proof fn law_lookup_after_insert(v: AtlasView, key: GlyphKey, g: RasterizedGlyph, other: GlyphKey)
    ensures
        insert_spec(v, key_code(key), g).1 matches Some(e) ==> insert_spec(v, key_code(key), g).0.entries
            == v.entries.insert(key_code(key), e),
        insert_spec(v, key_code(key), g).1 is None ==> insert_spec(v, key_code(key), g).0.entries == v.entries,
        other != key ==> insert_spec(v, key_code(key), g).0.entries.contains_key(key_code(other))
            == v.entries.contains_key(key_code(other)),
        other != key && v.entries.contains_key(key_code(other)) ==> insert_spec(v, key_code(key), g).0.entries[key_code(
            other,
        )] == v.entries[key_code(other)],
{
    law_key_code_injective(key, other);
}

/// A rasterized glyph: RGBA pixels, row by row, and its bearing in pixels.
pub struct RasterizedGlyph {
    pub data: Vec<u8>,
    pub width: u32,
    pub height: u32,
    pub bearing_x: i32,
    pub bearing_y: i32,
}

/// Where a glyph lies in the atlas texture, and its bearing.
#[derive(Debug, Clone, Copy, PartialEq, Eq, Structural)]
pub struct AtlasEntry {
    pub x: u32,
    pub y: u32,
    pub width: u32,
    pub height: u32,
    pub bearing_x: i32,
    pub bearing_y: i32,
}

/// The abstract state of a [`GlyphAtlas`].
pub struct AtlasView {
    pub data: Seq<u8>,
    pub width: u32,
    pub height: u32,
    pub entries: Map<u32, AtlasEntry>,
    pub cursor_x: u32,
    pub cursor_y: u32,
    pub row_height: u32,
    pub dirty: bool,
}

impl AtlasView {
    pub open spec fn wf(self) -> bool {
        &&& self.width * self.height * 4 <= u32::MAX
        &&& self.data.len() == self.width * self.height * 4
        &&& self.cursor_x >= 1
    }
}

/// The byte offset in the texture of pixel `(x, y)`.
pub open spec fn pixel_offset(width: int, x: int, y: int) -> int {
    y * width * 4 + x * 4
}

/// `dst` after row `r` of glyph `src` (`w` pixels wide) is copied to the
/// texture row `y + r` from column `x`, when both byte ranges exist.
pub open spec fn copy_glyph_row(dst: Seq<u8>, width: int, x: int, y: int, src: Seq<u8>, w: int, r: int) -> Seq<u8> {
    let s = r * w * 4;
    let d = pixel_offset(width, x, y + r);
    let len = w * 4;
    if s + len <= src.len() && d + len <= dst.len() {
        Seq::new(dst.len(), |i: int| if d <= i < d + len { src[s + i - d] } else { dst[i] })
    } else {
        dst
    }
}

/// `dst` after the first `rows` rows of the glyph are copied.
pub open spec fn blit(dst: Seq<u8>, width: int, x: int, y: int, src: Seq<u8>, w: int, rows: int) -> Seq<u8>
    decreases rows,
{
    if rows <= 0 {
        dst
    } else {
        copy_glyph_row(blit(dst, width, x, y, src, w, rows - 1), width, x, y, src, w, rows - 1)
    }
}

/// Where the next glyph of width `w` goes: on the current shelf if it fits,
/// else at the start of a new shelf below; with the shelf's height so far.
pub open spec fn place(v: AtlasView, w: int) -> (int, int, int) {
    if v.cursor_x + w + 1 > v.width {
        (1, v.cursor_y + v.row_height + 1, 0)
    } else {
        (v.cursor_x as int, v.cursor_y as int, v.row_height as int)
    }
}

/// Inserting a glyph: an empty glyph is refused; otherwise it is placed
/// (see [`place`]), refused if it would run past the bottom (the move to a
/// new shelf stays), or else copied in, recorded under its key, and the
/// shelf advances.
pub open spec fn insert_spec(v: AtlasView, code: u32, g: RasterizedGlyph) -> (AtlasView, Option<AtlasEntry>) {
    if g.width == 0 || g.height == 0 {
        (v, None)
    } else {
        let (cx, cy, rh) = place(v, g.width as int);
        if cy + g.height + 1 > v.height {
            (AtlasView { cursor_x: cx as u32, cursor_y: cy as u32, row_height: rh as u32, ..v }, None)
        } else {
            let e = AtlasEntry {
                x: cx as u32,
                y: cy as u32,
                width: g.width,
                height: g.height,
                bearing_x: g.bearing_x,
                bearing_y: g.bearing_y,
            };
            (
                AtlasView {
                    data: blit(v.data, v.width as int, cx, cy, g.data@, g.width as int, g.height as int),
                    entries: v.entries.insert(code, e),
                    cursor_x: (cx + g.width + 1) as u32,
                    cursor_y: cy as u32,
                    row_height: (if rh >= g.height { rh } else { g.height as int }) as u32,
                    dirty: true,
                    ..v
                },
                Some(e),
            )
        }
    }
}

/// Whether the rectangles of two entries do not overlap.
pub open spec fn disjoint(a: AtlasEntry, b: AtlasEntry) -> bool {
    ||| a.x + a.width <= b.x
    ||| b.x + b.width <= a.x
    ||| a.y + a.height <= b.y
    ||| b.y + b.height <= a.y
}

/// Where an entry may lie in atlas `v`: inside the texture with a border of
/// one pixel, and either on a shelf above the current one, or on the current
/// shelf left of the cursor and no taller than the shelf.
pub open spec fn placed_within(v: AtlasView, e: AtlasEntry) -> bool {
    &&& 1 <= e.x
    &&& e.x + e.width + 1 <= v.width
    &&& 1 <= e.y
    &&& e.y + e.height + 1 <= v.height
    &&& (e.y + e.height < v.cursor_y || (e.y == v.cursor_y && e.x + e.width < v.cursor_x && e.height
        <= v.row_height))
}

/// The shelf layout of an atlas: every entry lies where [`placed_within`]
/// says, and no two entries overlap.
pub open spec fn packed(v: AtlasView) -> bool {
    &&& 1 <= v.cursor_x
    &&& 1 <= v.cursor_y
    &&& forall|k: u32| #[trigger] v.entries.contains_key(k) ==> placed_within(v, v.entries[k])
    &&& forall|k1: u32, k2: u32|
        #[trigger] v.entries.contains_key(k1) && #[trigger] v.entries.contains_key(k2) && k1 != k2
            ==> disjoint(v.entries[k1], v.entries[k2])
}

/// A new atlas, with no entries and the cursor at (1, 1), is packed.
pub proof fn law_new_atlas_is_packed(v: AtlasView)
    requires
        v.entries == Map::<u32, AtlasEntry>::empty(),
        v.cursor_x == 1,
        v.cursor_y == 1,
    ensures
        packed(v),
{
}

/// Packing keeps the shelf layout, for glyphs narrow enough to fit a shelf
/// (two pixels of border besides): every glyph placed lies inside the
/// texture, within its border, and overlaps no glyph placed before under
/// another key. By induction, from a new atlas through any sequence of such
/// inserts, no two entries ever overlap.
pub proof fn law_insert_keeps_packed(v: AtlasView, code: u32, g: RasterizedGlyph)
    requires
        packed(v),
        g.width + 2 <= v.width,
        v.cursor_y + v.row_height + g.height + 2 <= u32::MAX,
    ensures
        packed(insert_spec(v, code, g).0),
        insert_spec(v, code, g).1 matches Some(e) ==> {
            &&& 1 <= e.x && e.x + e.width + 1 <= v.width
            &&& 1 <= e.y && e.y + e.height + 1 <= v.height
            &&& forall|k: u32| #[trigger] v.entries.contains_key(k) && k != code ==> disjoint(e, v.entries[k])
        },
{
    let w = insert_spec(v, code, g).0;
    if g.width != 0 && g.height != 0 {
        let (cx, cy, rh) = place(v, g.width as int);
        assert forall|k: u32| #[trigger] w.entries.contains_key(k) implies placed_within(w, w.entries[k]) by {
            if k != code || !(insert_spec(v, code, g).1 is Some) {
                assert(v.entries.contains_key(k));
                assert(placed_within(v, v.entries[k]));
            }
        }
        assert forall|k1: u32, k2: u32|
            #[trigger] w.entries.contains_key(k1) && #[trigger] w.entries.contains_key(k2) && k1 != k2 implies disjoint(
            w.entries[k1],
            w.entries[k2],
        ) by {
            if insert_spec(v, code, g).1 is Some {
                if k1 == code {
                    assert(placed_within(v, v.entries[k2]));
                } else if k2 == code {
                    assert(placed_within(v, v.entries[k1]));
                }
            }
        }
    }
}

/// The byte of channel `ch` of pixel `(px, py)` in a texture `width`
/// pixels wide.
pub open spec fn byte_at(width: int, px: int, py: int, ch: int) -> int {
    pixel_offset(width, px, py) + ch
}

proof fn lemma_span(width: int, x: int, w: int, yr: int, px: int, py: int, ch: int)
    requires
        0 <= x,
        0 <= w,
        x + w <= width,
        0 <= px < width,
        0 <= py,
        0 <= yr,
        0 <= ch < 4,
    ensures
        (pixel_offset(width, x, yr) <= byte_at(width, px, py, ch) < pixel_offset(width, x, yr) + w * 4) <==> (
        py == yr && x <= px < x + w),
        py == yr ==> byte_at(width, px, py, ch) - pixel_offset(width, x, yr) == (px - x) * 4 + ch,
{
    let i = byte_at(width, px, py, ch);
    let d = pixel_offset(width, x, yr);
    if py < yr {
        assert(i < d) by (nonlinear_arith)
            requires
                i == py * width * 4 + px * 4 + ch,
                d == yr * width * 4 + x * 4,
                py < yr,
                0 <= px < width,
                0 <= ch < 4,
                0 <= x,
        ;
    } else if py > yr {
        assert(py * width * 4 >= (yr + 1) * width * 4) by (nonlinear_arith)
            requires
                py >= yr + 1,
                width >= 0,
        ;
        assert((yr + 1) * width * 4 == yr * width * 4 + width * 4) by (nonlinear_arith);
        assert(d + w * 4 <= i);
    } else {
        assert(i - d == (px - x) * 4 + ch) by (nonlinear_arith)
            requires
                i == py * width * 4 + px * 4 + ch,
                d == yr * width * 4 + x * 4,
                py == yr,
        ;
    }
}

proof fn lemma_blit(dst: Seq<u8>, width: int, x: int, y: int, src: Seq<u8>, w: int, rows: int, px: int, py: int, ch: int)
    requires
        0 <= x,
        0 <= w,
        x + w <= width,
        0 <= y,
        0 <= rows,
        rows * w * 4 <= src.len(),
        (y + rows) * width * 4 <= dst.len(),
        0 <= px < width,
        0 <= py,
        0 <= ch < 4,
        byte_at(width, px, py, ch) < dst.len(),
    ensures
        blit(dst, width, x, y, src, w, rows).len() == dst.len(),
        blit(dst, width, x, y, src, w, rows)[byte_at(width, px, py, ch)] == (if y <= py < y + rows && x <= px
            < x + w {
            src[((py - y) * w + (px - x)) * 4 + ch]
        } else {
            dst[byte_at(width, px, py, ch)]
        }),
    decreases rows,
{
    if rows > 0 {
        let r = rows - 1;
        assert(r * w * 4 <= rows * w * 4) by (nonlinear_arith)
            requires
                0 <= r <= rows,
                w >= 0,
        ;
        assert((y + r) * width * 4 <= (y + rows) * width * 4) by (nonlinear_arith)
            requires
                0 <= r <= rows,
                width >= 0,
        ;
        lemma_blit(dst, width, x, y, src, w, r, px, py, ch);
        let prev = blit(dst, width, x, y, src, w, r);
        let s = r * w * 4;
        let d = pixel_offset(width, x, y + r);
        assert(s + w * 4 <= src.len()) by (nonlinear_arith)
            requires
                s == r * w * 4,
                rows * w * 4 <= src.len(),
                r == rows - 1,
        ;
        assert(d + w * 4 <= prev.len()) by (nonlinear_arith)
            requires
                d == (y + r) * width * 4 + x * 4,
                x + w <= width,
                (y + rows) * width * 4 <= prev.len(),
                r == rows - 1,
        ;
        lemma_span(width, x, w, y + r, px, py, ch);
        if py == y + r && x <= px < x + w {
            assert(s + byte_at(width, px, py, ch) - d == ((py - y) * w + (px - x)) * 4 + ch) by (nonlinear_arith)
                requires
                    s == r * w * 4,
                    byte_at(width, px, py, ch) - d == (px - x) * 4 + ch,
                    py == y + r,
            ;
        }
    }
}

/// Packing copies the glyph's pixels into the texture: each pixel of the
/// rectangle the glyph is placed at holds the glyph's pixel at the same
/// place, row by row, and every other pixel keeps what it held. A refused
/// glyph leaves the texture as it was.
pub proof fn law_insert_copies_pixels(v: AtlasView, code: u32, g: RasterizedGlyph, px: int, py: int, ch: int)
    requires
        v.wf(),
        g.data@.len() >= g.width * g.height * 4,
        g.width + 2 <= v.width,
        0 <= px < v.width,
        0 <= py < v.height,
        0 <= ch < 4,
    ensures
        insert_spec(v, code, g).1 matches Some(e) ==> insert_spec(v, code, g).0.data[byte_at(
            v.width as int,
            px,
            py,
            ch,
        )] == (if e.x <= px < e.x + e.width && e.y <= py < e.y + e.height {
            g.data@[((py - e.y) * g.width + (px - e.x)) * 4 + ch]
        } else {
            v.data[byte_at(v.width as int, px, py, ch)]
        }),
        insert_spec(v, code, g).1 is None ==> insert_spec(v, code, g).0.data == v.data,
{
    if g.width != 0 && g.height != 0 {
        let (cx, cy, rh) = place(v, g.width as int);
        if cy + g.height + 1 <= v.height {
            let width = v.width as int;
            assert(byte_at(width, px, py, ch) < v.data.len()) by (nonlinear_arith)
                requires
                    byte_at(width, px, py, ch) == py * width * 4 + px * 4 + ch,
                    v.data.len() == width * v.height * 4,
                    0 <= px < width,
                    0 <= py < v.height,
                    0 <= ch < 4,
            ;
            assert((cy + g.height) * width * 4 <= v.data.len()) by (nonlinear_arith)
                requires
                    cy + g.height + 1 <= v.height,
                    v.data.len() == width * v.height * 4,
                    0 <= width,
            ;
            assert(g.height * g.width * 4 <= g.data@.len()) by (nonlinear_arith)
                requires
                    g.data@.len() >= g.width * g.height * 4,
            ;
            lemma_blit(v.data, width, cx, cy, g.data@, g.width as int, g.height as int, px, py, ch);
        }
    }
}

/// A texture that glyph bitmaps are packed into, shelf by shelf, with the
/// place of each glyph recorded under its key.
pub struct GlyphAtlas {
    data: Vec<u8>,
    width: u32,
    height: u32,
    entries: HashMap<u32, AtlasEntry>,
    cursor_x: u32,
    cursor_y: u32,
    row_height: u32,
    dirty: bool,
}

impl View for GlyphAtlas {
    type V = AtlasView;

    closed spec fn view(&self) -> AtlasView {
        AtlasView {
            data: self.data@,
            width: self.width,
            height: self.height,
            entries: self.entries@,
            cursor_x: self.cursor_x,
            cursor_y: self.cursor_y,
            row_height: self.row_height,
            dirty: self.dirty,
        }
    }
}

impl GlyphAtlas {
    /// An empty, dirty atlas of `width` by `height` transparent pixels; the
    /// first glyph goes at (1, 1).
    pub fn new(width: u32, height: u32) -> (a: GlyphAtlas)
        requires
            width * height * 4 <= u32::MAX,
        ensures
            a@.wf(),
            a@.data == Seq::new((width * height * 4) as nat, |i: int| 0u8),
            a@.width == width,
            a@.height == height,
            a@.entries == Map::<u32, AtlasEntry>::empty(),
            a@.cursor_x == 1,
            a@.cursor_y == 1,
            a@.row_height == 0,
            a@.dirty,
    {
        let n = (width * height * 4) as usize;
        let mut data: Vec<u8> = Vec::new();
        let mut i: usize = 0;
        while i < n
            invariant
                i <= n,
                data@ == Seq::new(i as nat, |j: int| 0u8),
            decreases n - i,
        {
            data.push(0);
            i = i + 1;
            assert(data@ =~= Seq::new(i as nat, |j: int| 0u8));
        }
        GlyphAtlas {
            data,
            width,
            height,
            entries: HashMap::new(),
            cursor_x: 1,
            cursor_y: 1,
            row_height: 0,
            dirty: true,
        }
    }

    /// The RGBA bytes of the texture.
    pub fn data(&self) -> (d: &[u8])
        ensures
            d@ == self@.data,
    {
        self.data.as_slice()
    }

    pub fn width(&self) -> (w: u32)
        ensures
            w == self@.width,
    {
        self.width
    }

    pub fn height(&self) -> (h: u32)
        ensures
            h == self@.height,
    {
        self.height
    }

    /// Whether the texture changed since it was last uploaded.
    pub fn is_dirty(&self) -> (b: bool)
        ensures
            b == self@.dirty,
    {
        self.dirty
    }

    pub fn set_dirty(&mut self, dirty: bool)
        ensures
            final(self)@ == (AtlasView { dirty, ..old(self)@ }),
    {
        self.dirty = dirty;
    }

    /// The recorded place of the glyph for `key`, if it was inserted.
    pub fn lookup(&self, key: GlyphKey) -> (e: Option<AtlasEntry>)
        ensures
            e == (if self@.entries.contains_key(key_code(key)) {
                Some(self@.entries[key_code(key)])
            } else {
                None
            }),
    {
        let code = glyph_key_code(key);
        match self.entries.get(&code) {
            Some(e) => Some(*e),
            None => None,
        }
    }

    /// Whether [`GlyphAtlas::insert`] is defined on `glyph`: the glyph's
    /// byte size and the positions and offsets the packing computes fit
    /// their machine words.
    pub fn can_insert(&self, glyph: &RasterizedGlyph) -> (b: bool)
        requires
            self@.wf(),
        ensures
            b == (glyph.width * glyph.height * 4 <= u32::MAX && self@.cursor_x + glyph.width + 1 <= u32::MAX
                && self@.cursor_y + self@.row_height + glyph.height + 2 <= u32::MAX && self@.width
                * self@.height * 4 + glyph.width * 4 + 4 <= usize::MAX),
    {
        let w = glyph.width as u64;
        let h = glyph.height as u64;
        let texture = self.data.len() as u64;
        proof {
            assert(w * h <= 0xffff_ffff * 0xffff_ffffu64) by (nonlinear_arith)
                requires
                    w <= 0xffff_ffff,
                    h <= 0xffff_ffff,
            ;
        }
        let pixels = w * h;
        assert(pixels == glyph.width * glyph.height);
        pixels <= 0x3fff_ffff && self.cursor_x as u64 + w + 1 <= 0xffff_ffff && self.cursor_y as u64
            + self.row_height as u64 + h + 2 <= 0xffff_ffff && texture + w * 4 + 4 <= usize::MAX as u64
    }

    /// Copies row `r` of the glyph into the texture.
    fn copy_row(&mut self, x: u32, y: u32, glyph: &RasterizedGlyph, r: u32)
        requires
            old(self)@.wf(),
            r < glyph.height,
            y + glyph.height + 1 <= old(self)@.height,
            glyph.width * glyph.height * 4 <= u32::MAX,
            x <= old(self)@.width || x == 1,
            old(self)@.width * old(self)@.height * 4 + glyph.width * 4 + 4 <= usize::MAX,
        ensures
            final(self)@ == (AtlasView {
                data: copy_glyph_row(
                    old(self)@.data,
                    old(self)@.width as int,
                    x as int,
                    y as int,
                    glyph.data@,
                    glyph.width as int,
                    r as int,
                ),
                ..old(self)@
            }),
            final(self)@.wf(),
    {
        let ghost v = self@;
        let w = glyph.width;
        let width = self.width;
        proof {
            assert(r * w * 4 + w * 4 <= w * glyph.height * 4) by (nonlinear_arith)
                requires
                    r < glyph.height,
            ;
            assert(w * glyph.height * 4 == glyph.width * glyph.height * 4);
            assert((y + r) * width * 4 + width * 4 <= width * v.height * 4) by (nonlinear_arith)
                requires
                    y + r + 1 <= v.height,
            ;
            assert((y + r) * width * 4 + 4 <= width * v.height * 4 || width == 0) by (nonlinear_arith)
                requires
                    y + r + 1 <= v.height,
            ;
            assert(width * v.height * 4 == v.width * v.height * 4);
            assert((y + r) * width * 4 == 0 || width > 0) by (nonlinear_arith);
        }
        let src_offset = (r * w * 4) as usize;
        let len = (w * 4) as usize;
        let dst_offset = ((y + r) * width * 4 + x * 4) as usize;
        if src_offset + len <= glyph.data.len() && dst_offset + len <= self.data.len() {
            let mut k: usize = 0;
            while k < len
                invariant
                    k <= len,
                    v.wf(),
                    self@ == (AtlasView { data: self@.data, ..v }),
                    self@.data.len() == v.data.len(),
                    src_offset + len <= glyph.data@.len(),
                    src_offset + len <= glyph.data.len(),
                    dst_offset + len <= v.data.len(),
                    forall|i: int|
                        0 <= i < v.data.len() ==> #[trigger] self@.data[i] == (if dst_offset <= i
                            < dst_offset + k {
                            glyph.data@[src_offset + i - dst_offset]
                        } else {
                            v.data[i]
                        }),
                decreases len - k,
            {
                self.data.set(dst_offset + k, glyph.data[src_offset + k]);
                k = k + 1;
            }
            assert(self@.data =~= copy_glyph_row(
                v.data,
                v.width as int,
                x as int,
                y as int,
                glyph.data@,
                glyph.width as int,
                r as int,
            ));
        }
    }
}


impl GlyphAtlas {
    /// Packs `glyph` into the texture under `key` (see [`insert_spec`]).
    pub fn insert(&mut self, key: GlyphKey, glyph: &RasterizedGlyph) -> (e: Option<AtlasEntry>)
        requires
            old(self)@.wf(),
            glyph.width * glyph.height * 4 <= u32::MAX,
            old(self)@.cursor_x + glyph.width + 1 <= u32::MAX,
            old(self)@.cursor_y + old(self)@.row_height + glyph.height + 2 <= u32::MAX,
            old(self)@.width * old(self)@.height * 4 + glyph.width * 4 + 4 <= usize::MAX,
        ensures
            final(self)@.wf(),
            (final(self)@, e) == insert_spec(old(self)@, key_code(key), *glyph),
    {
        let ghost v = self@;
        if glyph.width == 0 || glyph.height == 0 {
            return None;
        }
        if self.cursor_x + glyph.width + 1 > self.width {
            self.cursor_x = 1;
            self.cursor_y = self.cursor_y + self.row_height + 1;
            self.row_height = 0;
        }
        if self.cursor_y + glyph.height + 1 > self.height {
            return None;
        }
        let x = self.cursor_x;
        let y = self.cursor_y;
        let ghost v1 = self@;
        let mut r: u32 = 0;
        while r < glyph.height
            invariant
                v1.wf(),
                r <= glyph.height,
                self@ == (AtlasView {
                    data: blit(v1.data, v1.width as int, x as int, y as int, glyph.data@, glyph.width as int, r as int),
                    ..v1
                }),
                self@.wf(),
                x == v1.cursor_x,
                y == v1.cursor_y,
                y + glyph.height + 1 <= v1.height,
                glyph.width * glyph.height * 4 <= u32::MAX,
                x <= v1.width || x == 1,
                v1.width * v1.height * 4 + glyph.width * 4 + 4 <= usize::MAX,
            decreases glyph.height - r,
        {
            self.copy_row(x, y, glyph, r);
            r = r + 1;
        }
        let entry = AtlasEntry {
            x,
            y,
            width: glyph.width,
            height: glyph.height,
            bearing_x: glyph.bearing_x,
            bearing_y: glyph.bearing_y,
        };
        let code = glyph_key_code(key);
        self.entries.insert(code, entry);
        self.cursor_x = x + glyph.width + 1;
        self.row_height = if self.row_height >= glyph.height { self.row_height } else { glyph.height };
        self.dirty = true;
        Some(entry)
    }
}

} // verus!
