//! What the sculpter reports when it cannot go on.

use crate::sculpter::shaper::ShapeFaceRef;
use vstd::prelude::*;

verus! {

/// A run of text could not be shaped.
#[derive(Debug, Clone, Copy, PartialEq, Eq, Structural)]
pub enum SculpterShapeError {
    /// The shaper holds no face of this number.
    UnknownShapePlan(ShapeFaceRef),
    CreateRustybuzzFaceFailed,
}

/// A shaper could not be made from the catalog.
#[derive(Debug)]
pub enum SculpterCreateError {
    /// The catalog holds no font of this family.
    NoFontFound(String),
}

/// A glyph could not be printed.
#[derive(Debug, Clone, Copy, PartialEq, Eq, Structural)]
pub enum SculpturePrinterError {
    /// The font cannot be scaled to this size, given as bits of a
    /// fixed-point number.
    FontSizeOutsideRange(i32),
    /// The glyph has no image.
    OutlineMissing(u16),
    /// The atlas is as large as it may get and has no room for the glyph.
    GrowAtlasFailed,
    /// The image of the atlas could not be made larger.
    ResizeAtlasTextureFailed,
}

} // verus!
