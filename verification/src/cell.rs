use vstd::prelude::*;

verus! {

/// An RGB colour.
#[derive(Debug, Clone, Copy, PartialEq, Eq, Structural)]
pub struct Color {
    pub r: u8,
    pub g: u8,
    pub b: u8,
}

impl Color {
    pub fn rgb(r: u8, g: u8, b: u8) -> (c: Color)
        ensures
            c == (Color { r, g, b }),
    {
        Color { r, g, b }
    }
}

pub open spec fn spec_default_fg() -> Color {
    Color { r: 200, g: 200, b: 200 }
}

pub open spec fn spec_default_bg() -> Color {
    Color { r: 26, g: 27, b: 38 }
}

/// The default foreground colour.
pub fn default_fg() -> (c: Color)
    ensures
        c == spec_default_fg(),
{
    Color { r: 200, g: 200, b: 200 }
}

/// The default background colour.
pub fn default_bg() -> (c: Color)
    ensures
        c == spec_default_bg(),
{
    Color { r: 26, g: 27, b: 38 }
}

/// The sixteen-colour ANSI palette.
pub open spec fn spec_ansi_color(i: int) -> Color {
    if i == 0 {
        Color { r: 0x15, g: 0x16, b: 0x1e }
    } else if i == 1 || i == 9 {
        Color { r: 0xf7, g: 0x76, b: 0x8e }
    } else if i == 2 || i == 10 {
        Color { r: 0x9e, g: 0xce, b: 0x6a }
    } else if i == 3 || i == 11 {
        Color { r: 0xe0, g: 0xaf, b: 0x68 }
    } else if i == 4 || i == 12 {
        Color { r: 0x7a, g: 0xa2, b: 0xf7 }
    } else if i == 5 || i == 13 {
        Color { r: 0xbb, g: 0x9a, b: 0xf7 }
    } else if i == 6 || i == 14 {
        Color { r: 0x7d, g: 0xcf, b: 0xff }
    } else if i == 7 {
        Color { r: 0xa9, g: 0xb1, b: 0xd6 }
    } else if i == 8 {
        Color { r: 0x41, g: 0x4d, b: 0x68 }
    } else {
        Color { r: 0xc0, g: 0xca, b: 0xf5 }
    }
}

/// Entry `i` of the sixteen-colour ANSI palette.
pub fn ansi_color(i: usize) -> (c: Color)
    requires
        i < 16,
    ensures
        c == spec_ansi_color(i as int),
{
    match i {
        0 => Color { r: 0x15, g: 0x16, b: 0x1e },
        1 | 9 => Color { r: 0xf7, g: 0x76, b: 0x8e },
        2 | 10 => Color { r: 0x9e, g: 0xce, b: 0x6a },
        3 | 11 => Color { r: 0xe0, g: 0xaf, b: 0x68 },
        4 | 12 => Color { r: 0x7a, g: 0xa2, b: 0xf7 },
        5 | 13 => Color { r: 0xbb, g: 0x9a, b: 0xf7 },
        6 | 14 => Color { r: 0x7d, g: 0xcf, b: 0xff },
        7 => Color { r: 0xa9, g: 0xb1, b: 0xd6 },
        8 => Color { r: 0x41, g: 0x4d, b: 0x68 },
        _ => Color { r: 0xc0, g: 0xca, b: 0xf5 },
    }
}

/// Attribute bit: bold.
pub const BOLD: u16 = 0b0000_0001;
/// Attribute bit: italic.
pub const ITALIC: u16 = 0b0000_0010;
/// Attribute bit: underline.
pub const UNDERLINE: u16 = 0b0000_0100;
/// Attribute bit: inverse video.
pub const INVERSE: u16 = 0b0000_1000;
/// Attribute bit: dim.
pub const DIM: u16 = 0b0001_0000;
/// Attribute bit: hidden.
pub const HIDDEN: u16 = 0b0010_0000;
/// Attribute bit: strikethrough.
pub const STRIKETHROUGH: u16 = 0b0100_0000;

/// A set of cell attributes, held as a bit set of the flags above.
#[derive(Debug, Clone, Copy, PartialEq, Eq, Structural)]
pub struct CellAttrs {
    pub bits: u16,
}

impl CellAttrs {
    /// The empty attribute set.
    pub fn empty() -> (a: CellAttrs)
        ensures
            a.bits == 0,
    {
        CellAttrs { bits: 0 }
    }

    pub open spec fn has(self, flag: u16) -> bool {
        self.bits & flag == flag
    }

    /// Whether every bit of `flag` is set.
    pub fn contains(&self, flag: u16) -> (b: bool)
        ensures
            b == self.has(flag),
    {
        self.bits & flag == flag
    }

    /// Sets the bits of `flag`.
    pub fn insert(&mut self, flag: u16)
        ensures
            final(self).bits == old(self).bits | flag,
    {
        self.bits = self.bits | flag;
    }

    /// Clears the bits of `flag`.
    pub fn remove(&mut self, flag: u16)
        ensures
            final(self).bits == old(self).bits & !flag,
    {
        self.bits = self.bits & !flag;
    }
}

/// One character cell of the screen.
///
/// `width` is the number of columns the character occupies; the cells that a
/// wide character covers after its first one have width 0.
#[derive(Debug, Clone, Copy)]
pub struct Cell {
    pub c: char,
    pub fg: Color,
    pub bg: Color,
    pub attrs: CellAttrs,
    pub width: u8,
}

/// The blank cell: a space in the default colours without attributes.
pub open spec fn blank_cell() -> Cell {
    Cell { c: ' ', fg: spec_default_fg(), bg: spec_default_bg(), attrs: CellAttrs { bits: 0 }, width: 1 }
}

impl Default for Cell {
    fn default() -> (c: Cell)
        ensures
            c == blank_cell(),
    {
        Cell { c: ' ', fg: default_fg(), bg: default_bg(), attrs: CellAttrs::empty(), width: 1 }
    }
}

} // verus!
