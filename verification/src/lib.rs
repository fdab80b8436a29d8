//! Terminal core of the Zenith terminal emulator: the cell model, the screen
//! grid with its scrollback, the escape-sequence state machine, the command
//! history behind inline suggestions, the name and environment a shell is
//! started with, and, for the renderer, the glyph-atlas packing, the bitmap
//! conversions and the per-frame paint decisions.

pub mod cell;
pub mod grid;
pub mod text;
pub mod term;
pub mod term_laws;
pub mod history;
pub mod atlas;
pub mod bitmap;
pub mod render;
pub mod shell;
