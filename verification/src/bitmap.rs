use vstd::prelude::*;
use crate::atlas::RasterizedGlyph;

verus! {

/// The RGBA bitmap of `n` pixels for a coverage mask: white pixels whose
/// alpha is the mask value, transparent black past the end of the mask.
pub open spec fn mask_rgba(mask: Seq<u8>, n: nat) -> Seq<u8> {
    Seq::new(
        n * 4,
        |j: int|
            if j / 4 < mask.len() {
                if j % 4 == 3 {
                    mask[j / 4]
                } else {
                    255u8
                }
            } else {
                0u8
            },
    )
}

/// The alpha of pixel `i` of a subpixel (RGB) mask: the mean of its three
/// channels, rounded down; 0 past the end of the mask.
pub open spec fn subpixel_alpha(mask: Seq<u8>, i: int) -> u8 {
    if i * 3 + 2 < mask.len() {
        ((mask[i * 3] + mask[i * 3 + 1] + mask[i * 3 + 2]) / 3) as u8
    } else {
        0u8
    }
}

/// The RGBA bitmap of `n` pixels for a subpixel mask: white pixels with the
/// mean coverage as alpha.
pub open spec fn subpixel_rgba(mask: Seq<u8>, n: nat) -> Seq<u8> {
    Seq::new(n * 4, |j: int| if j % 4 == 3 { subpixel_alpha(mask, j / 4) } else { 255u8 })
}

/// Converts a `width` by `height` coverage mask to RGBA.
pub fn mask_to_rgba(mask: &[u8], width: u32, height: u32) -> (rgba: Vec<u8>)
    requires
        width * height * 4 <= u32::MAX,
        mask@.len() <= width * height,
    ensures
        rgba@ == mask_rgba(mask@, (width * height) as nat),
{
    let n = (width * height) as usize;
    let mut rgba: Vec<u8> = Vec::new();
    let mut i: usize = 0;
    while i < n
        invariant
            i <= n,
            n == width * height,
            n * 4 <= u32::MAX,
            rgba@.len() == i * 4,
            forall|j: int| 0 <= j < i * 4 ==> #[trigger] rgba@[j] == mask_rgba(mask@, n as nat)[j],
        decreases n - i,
    {
        if i < mask.len() {
            let a = mask[i];
            rgba.push(255);
            rgba.push(255);
            rgba.push(255);
            rgba.push(a);
        } else {
            rgba.push(0);
            rgba.push(0);
            rgba.push(0);
            rgba.push(0);
        }
        i = i + 1;
    }
    assert(rgba@ =~= mask_rgba(mask@, n as nat));
    rgba
}

/// Converts a `width` by `height` subpixel (RGB) mask to RGBA.
pub fn subpixel_to_rgba(mask: &[u8], width: u32, height: u32) -> (rgba: Vec<u8>)
    requires
        width * height * 4 <= u32::MAX,
    ensures
        rgba@ == subpixel_rgba(mask@, (width * height) as nat),
{
    let n = (width * height) as usize;
    let mut rgba: Vec<u8> = Vec::new();
    let mut i: usize = 0;
    while i < n
        invariant
            i <= n,
            n == width * height,
            n * 4 <= u32::MAX,
            rgba@.len() == i * 4,
            forall|j: int| 0 <= j < i * 4 ==> #[trigger] rgba@[j] == subpixel_rgba(mask@, n as nat)[j],
        decreases n - i,
    {
        let idx = i * 3;
        let avg: u8 = if idx + 2 < mask.len() {
            ((mask[idx] as u16 + mask[idx + 1] as u16 + mask[idx + 2] as u16) / 3) as u8
        } else {
            0
        };
        assert(avg == subpixel_alpha(mask@, i as int));
        rgba.push(255);
        rgba.push(255);
        rgba.push(255);
        rgba.push(avg);
        i = i + 1;
    }
    assert(rgba@ =~= subpixel_rgba(mask@, n as nat));
    rgba
}

/// How the pixels of a glyph image are given: a coverage mask, RGBA
/// colour, or a subpixel (RGB) mask.
#[derive(Debug, Clone, Copy, PartialEq, Eq, Structural)]
pub enum GlyphContent {
    Mask,
    Color,
    SubpixelMask,
}

/// The RGBA pixels of an image of `n` pixels with content `content`.
pub open spec fn image_rgba(content: GlyphContent, data: Seq<u8>, n: nat) -> Seq<u8> {
    match content {
        GlyphContent::Mask => mask_rgba(data, n),
        GlyphContent::Color => data,
        GlyphContent::SubpixelMask => subpixel_rgba(data, n),
    }
}

/// The rasterized glyph for an image of `width` by `height` pixels placed
/// at (`left`, `top`): none for an empty image, else its pixels as RGBA.
pub fn glyph_from_image(
    content: GlyphContent,
    data: &[u8],
    width: u32,
    height: u32,
    left: i32,
    top: i32,
) -> (g: Option<RasterizedGlyph>)
    requires
        width * height * 4 <= u32::MAX,
        content == GlyphContent::Mask ==> data@.len() <= width * height,
    ensures
        (width == 0 || height == 0) <==> g is None,
        g matches Some(r) ==> {
            &&& r.width == width
            &&& r.height == height
            &&& r.bearing_x == left
            &&& r.bearing_y == top
            &&& r.data@ == image_rgba(content, data@, (width * height) as nat)
        },
{
    if width == 0 || height == 0 {
        return None;
    }
    let rgba = match content {
        GlyphContent::Mask => mask_to_rgba(data, width, height),
        GlyphContent::Color => vstd::slice::slice_to_vec(data),
        GlyphContent::SubpixelMask => subpixel_to_rgba(data, width, height),
    };
    Some(RasterizedGlyph { data: rgba, width, height, bearing_x: left, bearing_y: top })
}

} // verus!
