use zenith::atlas::{glyph_key_code, AtlasEntry, GlyphAtlas, GlyphKey, RasterizedGlyph};
use zenith::bitmap::{glyph_from_image, mask_to_rgba, subpixel_to_rgba, GlyphContent};
use zenith::cell::{default_bg, default_fg, Color, BOLD, INVERSE};
use zenith::grid::Grid;
use zenith::render::{plan_frame, BgPaint, GlyphPaint};

fn key(c: char) -> GlyphKey {
    GlyphKey { c, bold: false, italic: false }
}

fn glyph(width: u32, height: u32, bearing_x: i32, bearing_y: i32) -> RasterizedGlyph {
    let n = (width * height * 4) as usize;
    RasterizedGlyph { data: (1..=n as u32).map(|b| b as u8).collect(), width, height, bearing_x, bearing_y }
}

#[test]
fn new_atlas_is_empty_and_dirty() {
    let a = GlyphAtlas::new(8, 4);
    assert_eq!(a.width(), 8);
    assert_eq!(a.height(), 4);
    assert_eq!(a.data().len(), 8 * 4 * 4);
    assert!(a.data().iter().all(|&b| b == 0));
    assert!(a.is_dirty());
    assert_eq!(a.lookup(key('a')), None);
}

#[test]
fn insert_places_glyph_and_copies_its_pixels() {
    let mut a = GlyphAtlas::new(8, 8);
    a.set_dirty(false);
    let g = glyph(2, 2, 1, 5);
    let e = a.insert(key('a'), &g);
    let expected = AtlasEntry { x: 1, y: 1, width: 2, height: 2, bearing_x: 1, bearing_y: 5 };
    assert_eq!(e, Some(expected));
    assert_eq!(a.lookup(key('a')), Some(expected));
    assert!(a.is_dirty());
    // row 0 of the glyph lands at pixel (1, 1), row 1 at pixel (1, 2)
    assert_eq!(&a.data()[36..44], &g.data[0..8]);
    assert_eq!(&a.data()[68..76], &g.data[8..16]);
    assert_eq!(a.data()[35], 0);
    assert_eq!(a.data()[44], 0);
}

#[test]
fn insert_opens_a_new_shelf_and_refuses_past_the_bottom() {
    let mut a = GlyphAtlas::new(8, 8);
    a.insert(key('a'), &glyph(2, 2, 0, 0));
    let e = a.insert(key('b'), &glyph(5, 2, 0, 0)).unwrap();
    assert_eq!((e.x, e.y), (1, 4));
    assert_eq!(a.insert(key('c'), &glyph(1, 5, 0, 0)), None);
    assert_eq!(a.lookup(key('c')), None);
    assert_eq!(a.insert(key('d'), &glyph(0, 3, 0, 0)), None);
}

#[test]
fn glyph_keys_with_other_style_are_distinct() {
    let plain = key('a');
    let bold = GlyphKey { c: 'a', bold: true, italic: false };
    let italic = GlyphKey { c: 'a', bold: false, italic: true };
    assert_ne!(glyph_key_code(plain), glyph_key_code(bold));
    assert_ne!(glyph_key_code(bold), glyph_key_code(italic));
    assert_eq!(glyph_key_code(plain), ('a' as u32) * 4);
    let mut a = GlyphAtlas::new(16, 16);
    a.insert(bold, &glyph(1, 1, 0, 0));
    assert!(a.lookup(bold).is_some());
    assert_eq!(a.lookup(plain), None);
}

#[test]
fn coverage_mask_becomes_white_with_alpha() {
    assert_eq!(mask_to_rgba(&[10, 20], 2, 1), vec![255, 255, 255, 10, 255, 255, 255, 20]);
    assert_eq!(mask_to_rgba(&[7], 2, 1), vec![255, 255, 255, 7, 0, 0, 0, 0]);
}

#[test]
fn subpixel_mask_alpha_is_channel_mean() {
    assert_eq!(
        subpixel_to_rgba(&[3, 6, 9, 255, 255, 254], 2, 1),
        vec![255, 255, 255, 6, 255, 255, 255, 254]
    );
    assert_eq!(subpixel_to_rgba(&[3, 6, 9, 1], 2, 1), vec![255, 255, 255, 6, 255, 255, 255, 0]);
}

#[test]
fn frame_plan_paints_backgrounds_glyphs_and_cursor() {
    let red = Color::rgb(255, 0, 0);
    let mut g = Grid::new(3, 2, 5);
    {
        let c = g.cell_mut(0, 0);
        c.c = 'a';
        c.attrs.insert(BOLD);
    }
    g.cell_mut(1, 0).bg = red;
    {
        let c = g.cell_mut(2, 0);
        c.c = 'b';
        c.attrs.insert(INVERSE);
    }
    {
        let c = g.cell_mut(0, 1);
        c.c = '中';
        c.width = 2;
    }
    {
        let c = g.cell_mut(1, 1);
        c.width = 0;
        c.bg = red;
    }
    let p = plan_frame(&g, (1, 1), true);
    assert_eq!(
        p.backgrounds,
        vec![
            BgPaint { col: 1, row: 0, width: 1, color: red },
            BgPaint { col: 2, row: 0, width: 1, color: default_fg() },
        ]
    );
    assert_eq!(
        p.glyphs,
        vec![
            GlyphPaint { col: 0, row: 0, key: GlyphKey { c: 'a', bold: true, italic: false }, color: default_fg() },
            GlyphPaint { col: 2, row: 0, key: key('b'), color: default_bg() },
            GlyphPaint { col: 0, row: 1, key: key('中'), color: default_fg() },
        ]
    );
    assert_eq!(p.cursor, Some((1, 1)));
    assert_eq!(plan_frame(&g, (1, 1), false).cursor, None);
}

#[test]
fn frame_plan_hides_cursor_when_scrolled_back() {
    let mut g = Grid::new(2, 2, 5);
    g.cell_mut(0, 0).c = 'x';
    g.scroll_up(0, 1, 1);
    g.scroll_display(1);
    let p = plan_frame(&g, (0, 0), true);
    assert_eq!(p.cursor, None);
    assert_eq!(p.glyphs, vec![GlyphPaint { col: 0, row: 0, key: key('x'), color: default_fg() }]);
    assert!(p.backgrounds.is_empty());
}

#[test]
fn packed_glyphs_never_overlap_and_keep_a_border() {
    let mut a = GlyphAtlas::new(32, 32);
    let mut placed: Vec<AtlasEntry> = Vec::new();
    let sizes = [(3, 4), (5, 2), (7, 6), (2, 2), (9, 3), (4, 8), (6, 1), (8, 5), (3, 3), (10, 2)];
    for (i, &(w, h)) in sizes.iter().cycle().take(40).enumerate() {
        let g = glyph(w, h, 0, 0);
        assert!(a.can_insert(&g));
        if let Some(e) = a.insert(key(char::from_u32(0x41 + i as u32).unwrap()), &g) {
            assert!(e.x >= 1 && e.x + e.width + 1 <= 32);
            assert!(e.y >= 1 && e.y + e.height + 1 <= 32);
            for p in &placed {
                let apart = e.x + e.width <= p.x
                    || p.x + p.width <= e.x
                    || e.y + e.height <= p.y
                    || p.y + p.height <= e.y;
                assert!(apart);
            }
            placed.push(e);
        }
    }
    assert!(placed.len() > 5);
}

#[test]
fn glyph_images_become_rgba_glyphs() {
    assert!(glyph_from_image(GlyphContent::Mask, &[], 0, 3, 0, 0).is_none());
    assert!(glyph_from_image(GlyphContent::Color, &[], 2, 0, 0, 0).is_none());
    let g = glyph_from_image(GlyphContent::Mask, &[9, 8], 2, 1, -1, 7).unwrap();
    assert_eq!(g.data, vec![255, 255, 255, 9, 255, 255, 255, 8]);
    assert_eq!((g.width, g.height, g.bearing_x, g.bearing_y), (2, 1, -1, 7));
    let c = glyph_from_image(GlyphContent::Color, &[1, 2, 3, 4], 1, 1, 0, 0).unwrap();
    assert_eq!(c.data, vec![1, 2, 3, 4]);
    let s = glyph_from_image(GlyphContent::SubpixelMask, &[3, 6, 9], 1, 1, 0, 0).unwrap();
    assert_eq!(s.data, vec![255, 255, 255, 6]);
}
