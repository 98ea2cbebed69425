//! Render settings: the page, its paddings and the text sizes.
//!
//! Lengths are kept in layout units, 64 to the pixel. Factors (the device
//! scale and the paddings, which are given in ems) are kept in 64ths.

use crate::paginator::PageFrame;
use vstd::prelude::*;

verus! {

/// Layout units to the pixel, and 64ths to the whole of a factor.
pub const UNIT: u64 = 64;

/// Size and line height of a kind of text, in layout units at scale 1.
#[derive(Debug, Clone, Copy, PartialEq, Eq, Structural)]
pub struct RenderTextSettings {
    pub font_size: u32,
    pub line_height: u32,
}

/// A snapshot of everything that decides how a chapter is laid out. A change
/// of any of it makes every cached page stale.
#[derive(Debug, Clone, Copy, PartialEq, Eq, Structural)]
pub struct RenderSettings {
    /// Width of the page in pixels.
    pub page_width: u32,
    /// Height of the page in pixels.
    pub page_height: u32,
    /// Device scale factor, in 64ths.
    pub scale: u16,
    /// Paddings in ems, in 64ths.
    pub padding_top_em: u16,
    pub padding_left_em: u16,
    pub padding_right_em: u16,
    pub padding_bottom_em: u16,
    /// Gap after a paragraph in ems, in 64ths.
    pub padding_paragraph_em: u16,
    pub body_text: RenderTextSettings,
    pub h1_text: RenderTextSettings,
    pub h2_text: RenderTextSettings,
}

/// `size` at the scale `factor`, rounded down.
pub open spec fn scaled(size: int, factor: int) -> int {
    size * factor / 64
}

impl RenderTextSettings {
    /// Font size and line height at the device scale `scale`.
    pub fn metrics(&self, scale: u16) -> (m: (u64, u64))
        ensures
            m.0 == scaled(self.font_size as int, scale as int),
            m.1 == scaled(self.line_height as int, scale as int),
    {
        (scale_by(self.font_size as u64, scale), scale_by(self.line_height as u64, scale))
    }
}

/// `size` at the scale `factor`, rounded down.
pub fn scale_by(size: u64, factor: u16) -> (r: u64)
    requires
        size <= 0x1_0000_0000_0000,
    ensures
        r == scaled(size as int, factor as int),
        r <= size * 1024,
{
    assert(size * factor <= 0x1_0000_0000_0000 * 0xffff) by (nonlinear_arith)
        requires
            size <= 0x1_0000_0000_0000,
            factor <= 0xffff,
    ;
    assert(size * factor / 64 <= size * 1024) by (nonlinear_arith)
        requires
            factor <= 0xffff,
            size >= 0,
    ;
    size * (factor as u64) / 64
}

impl RenderSettings {
    /// The em: the size of body text at the device scale.
    pub open spec fn spec_em(&self) -> int {
        scaled(self.body_text.font_size as int, self.scale as int)
    }

    pub fn em(&self) -> (e: u64)
        ensures
            e == self.spec_em(),
            e <= 0x400_0000_0000,
    {
        scale_by(self.body_text.font_size as u64, self.scale)
    }

    /// Height of the page without its top and bottom padding.
    pub open spec fn spec_page_height_padded(&self) -> int {
        self.page_height * 64 - scaled(self.spec_em(), self.padding_top_em as int) - scaled(
            self.spec_em(),
            self.padding_bottom_em as int,
        )
    }

    pub fn page_height_padded(&self) -> (h: i64)
        ensures
            h == self.spec_page_height_padded(),
    {
        let em = self.em();
        let top = scale_by(em, self.padding_top_em);
        let bottom = scale_by(em, self.padding_bottom_em);
        (self.page_height as i64) * 64 - top as i64 - bottom as i64
    }

    /// Width of the page without its left and right padding.
    pub open spec fn spec_page_width_padded(&self) -> int {
        self.page_width * 64 - scaled(self.spec_em(), self.padding_left_em as int) - scaled(
            self.spec_em(),
            self.padding_right_em as int,
        )
    }

    pub fn page_width_padded(&self) -> (w: i64)
        ensures
            w == self.spec_page_width_padded(),
    {
        let em = self.em();
        let left = scale_by(em, self.padding_left_em);
        let right = scale_by(em, self.padding_right_em);
        (self.page_width as i64) * 64 - left as i64 - right as i64
    }

    /// The gap that follows a paragraph.
    pub fn paragraph_padding(&self) -> (p: u64)
        ensures
            p == scaled(self.spec_em(), self.padding_paragraph_em as int),
    {
        scale_by(self.em(), self.padding_paragraph_em)
    }

    /// The part of the page that holds content.
    pub fn frame(&self) -> (f: PageFrame)
        ensures
            f.page_height == self.spec_page_height_padded(),
            f.page_width == self.spec_page_width_padded(),
            f.padding_top == scaled(self.spec_em(), self.padding_top_em as int),
            f.padding_left == scaled(self.spec_em(), self.padding_left_em as int),
    {
        let em = self.em();
        PageFrame {
            page_height: self.page_height_padded(),
            page_width: self.page_width_padded(),
            padding_left: scale_by(em, self.padding_left_em) as i64,
            padding_top: scale_by(em, self.padding_top_em) as i64,
        }
    }
}

} // verus!
