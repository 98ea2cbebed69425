//! Text shaping and the glyph atlas.
//!
//! A catalog of fonts resolves a family name to a face. The shaper turns
//! runs of text into positioned glyphs, asking fallback faces for the glyphs
//! that a face lacks. The printer places the glyphs on lines and keeps the
//! rectangle of each glyph's image in a shared atlas.

pub mod catalog;
pub mod error;
pub mod fixed;
pub mod layout;
pub mod printer;
pub mod shaper;
