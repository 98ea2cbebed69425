//! Places glyphs on lines and keeps their images in the glyph atlas.
//!
//! The atlas is one image shared by all glyphs. A rectangle of it is given
//! to each glyph of a face at a size the first time the glyph is met, and
//! found again whenever the glyph is met after that.

use crate::sculpter::error::SculpturePrinterError;
use crate::sculpter::fixed::{fx_add, fx_mul, spec_add, spec_mul};
use crate::sculpter::layout::Line;
use crate::sculpter::shaper::{px_per_pt, spec_px_per_pt, GlyphPlan, ShapeFaceRef};
use etagere::BucketedAtlasAllocator;
use std::collections::BTreeMap;
use vstd::prelude::*;

verus! {

#[verifier::external_type_specification]
#[verifier::external_body]
pub struct ExBucketedAtlasAllocator(BucketedAtlasAllocator);

/// A rectangle of the atlas, its upper bounds left out.
#[derive(Debug, Clone, Copy, PartialEq, Eq, Structural)]
pub struct AtlasRect {
    pub min_x: i32,
    pub min_y: i32,
    pub max_x: i32,
    pub max_y: i32,
}

impl AtlasRect {
    pub open spec fn width(self) -> int {
        self.max_x - self.min_x
    }

    pub open spec fn height(self) -> int {
        self.max_y - self.min_y
    }

    /// The rectangles have no point in common.
    pub open spec fn apart_from(self, other: AtlasRect) -> bool {
        self.max_x <= other.min_x || other.max_x <= self.min_x || self.max_y <= other.min_y
            || other.max_y <= self.min_y
    }

    /// The rectangle lies in an atlas of `width` by `height`.
    pub open spec fn within(self, width: int, height: int) -> bool {
        0 <= self.min_x <= self.max_x <= width && 0 <= self.min_y <= self.max_y <= height
    }
}

/// The rectangles that an atlas allocator has handed out, in the order in
/// which it did.
pub uninterp spec fn atlas_rects(a: BucketedAtlasAllocator) -> Seq<AtlasRect>;

/// The width of the atlas of an allocator.
pub uninterp spec fn atlas_width(a: BucketedAtlasAllocator) -> int;

/// The height of the atlas of an allocator.
pub uninterp spec fn atlas_height(a: BucketedAtlasAllocator) -> int;

/// Whether an atlas allocator, as it is, hands out a rectangle for an image
/// of `width` by `height`.
pub uninterp spec fn atlas_has_room(a: BucketedAtlasAllocator, width: int, height: int) -> bool;

/// Whether an atlas allocator hands out a rectangle for an image of `width`
/// by `height` once its atlas has grown to `to_width` by `to_height`.
pub uninterp spec fn atlas_grown_room(
    a: BucketedAtlasAllocator,
    to_width: int,
    to_height: int,
    width: int,
    height: int,
) -> bool;

/// The largest width and height of an atlas that the printer works with.
pub const MAX_ATLAS_SIDE: u16 = 32767;

/// Calls `BucketedAtlasAllocator::new` of etagere, which panics on a side of
/// 65535 or more, and gives the allocator of an empty atlas of that size.
#[verifier::external_body]
fn atlas_new(width: u16, height: u16) -> (a: BucketedAtlasAllocator)
    requires
        width <= MAX_ATLAS_SIDE,
        height <= MAX_ATLAS_SIDE,
    ensures
        atlas_rects(a).len() == 0,
        atlas_width(a) == width,
        atlas_height(a) == height,
{
    BucketedAtlasAllocator::new(etagere::size2(width as i32, height as i32))
}

/// Calls `BucketedAtlasAllocator::size` of etagere, which gives width and
/// height of the atlas.
#[verifier::external_body]
fn atlas_size(a: &BucketedAtlasAllocator) -> (size: (i32, i32))
    ensures
        size.0 == atlas_width(*a),
        size.1 == atlas_height(*a),
{
    let size = a.size();
    (size.width, size.height)
}

/// Calls `BucketedAtlasAllocator::grow` of etagere, which panics on a side
/// of 65535 or more and on a side that is less than it was. It makes the
/// atlas larger and leaves the rectangles that were handed out where they
/// are. What the allocator has room for afterwards depends on what it was
/// and on the new size alone.
#[verifier::external_body]
fn atlas_grow(a: &mut BucketedAtlasAllocator, width: u16, height: u16)
    requires
        width <= MAX_ATLAS_SIDE,
        height <= MAX_ATLAS_SIDE,
        atlas_width(*old(a)) <= width,
        atlas_height(*old(a)) <= height,
    ensures
        atlas_rects(*final(a)) == atlas_rects(*old(a)),
        atlas_width(*final(a)) == width,
        atlas_height(*final(a)) == height,
        forall|w: int, h: int| #[trigger]
            atlas_has_room(*final(a), w, h) == atlas_grown_room(
                *old(a),
                width as int,
                height as int,
                w,
                h,
            ),
{
    a.grow(etagere::size2(width as i32, height as i32))
}

/// Calls `BucketedAtlasAllocator::allocate` of etagere. Whether it hands out
/// a rectangle depends on the allocator and the size alone. It hands out
/// none for a size without width or height, and one for a size that the
/// atlas can hold while it has handed out none. A rectangle that it hands
/// out lies in the atlas, is as wide as was asked and at least as high, and
/// has no point in common with a rectangle handed out before. Where it
/// hands out none, the allocator is as it was. The size of the atlas stays.
#[verifier::external_body]
fn atlas_allocate(a: &mut BucketedAtlasAllocator, width: i32, height: i32) -> (r: Option<AtlasRect>)
    requires
        atlas_width(*old(a)) <= MAX_ATLAS_SIDE,
        atlas_height(*old(a)) <= MAX_ATLAS_SIDE,
    ensures
        r is Some <==> atlas_has_room(*old(a), width as int, height as int),
        r is None ==> *final(a) == *old(a),
        atlas_rects(*old(a)).len() == 0 && 0 < width <= atlas_width(*old(a)) && 0 < height
            <= atlas_height(*old(a)) ==> r is Some,
        atlas_width(*final(a)) == atlas_width(*old(a)),
        atlas_height(*final(a)) == atlas_height(*old(a)),
        match r {
            Some(rect) => {
                &&& width > 0 && height > 0
                &&& atlas_rects(*final(a)) == atlas_rects(*old(a)).push(rect)
                &&& rect.within(atlas_width(*old(a)), atlas_height(*old(a)))
                &&& rect.width() == width
                &&& rect.height() >= height
                &&& forall|i: int|
                    0 <= i < atlas_rects(*old(a)).len() ==> rect.apart_from(
                        #[trigger] atlas_rects(*old(a))[i],
                    )
            },
            None => atlas_rects(*final(a)) == atlas_rects(*old(a)),
        },
        width <= 0 || height <= 0 ==> r is None,
{
    a.allocate(etagere::size2(width, height)).map(
        |x|
            AtlasRect {
                min_x: x.rectangle.min.x,
                min_y: x.rectangle.min.y,
                max_x: x.rectangle.max.x,
                max_y: x.rectangle.max.y,
            },
    )
}

/// What names the image of a glyph: the face, the glyph and the font size,
/// as bits of a fixed-point number.
#[derive(Debug, Clone, Copy, PartialEq, Eq, Structural, PartialOrd, Ord)]
pub struct GlyphIdent {
    pub face_ref: ShapeFaceRef,
    pub glyph_id: u16,
    pub size: i32,
}

/// A glyph's identity as the key of the atlas.
pub type GlyphKey = (u32, u16, i32);

impl GlyphIdent {
    pub fn new(font_size: i32, glyph: &GlyphPlan) -> (i: Self)
        ensures
            i == (GlyphIdent { face_ref: glyph.face_ref, glyph_id: glyph.glyph_id, size: font_size }),
    {
        Self { face_ref: glyph.face_ref, glyph_id: glyph.glyph_id, size: font_size }
    }

    pub open spec fn spec_key(self) -> GlyphKey {
        (self.face_ref.0, self.glyph_id, self.size)
    }

    #[verifier::when_used_as_spec(spec_key)]
    pub fn key(self) -> (k: GlyphKey)
        ensures
            k == self.spec_key(),
    {
        (self.face_ref.0, self.glyph_id, self.size)
    }
}

/// A glyph to paint: where on the line, how large, and where its image
/// lies in the atlas. Places and sizes on the line are bits of fixed-point
/// numbers; those in the atlas are pixels.
#[derive(Debug, Clone, Copy)]
pub struct DisplayGlyph {
    pub pos: (i32, i32),
    pub size: (i32, i32),
    pub uv_pos: (i32, i32),
    pub uv_size: (i32, i32),
}

/// The atlas as a value.
pub struct AtlasView {
    /// The rectangle of each glyph that has one.
    pub map: Map<GlyphKey, AtlasRect>,
    /// Every rectangle that was handed out.
    pub rects: Seq<AtlasRect>,
    pub width: int,
    pub height: int,
    /// Whether a glyph got its rectangle since the image was last made.
    pub refresh: bool,
}

/// Prints glyphs: gives each the rectangle of its image and its place on
/// the line.
pub struct SculpturePrinter {
    scale_factor: i32,
    allocator: BucketedAtlasAllocator,
    glyph_map: BTreeMap<GlyphKey, AtlasRect>,
    need_texture_refresh: bool,
    max_texture_2d: (u16, u16),
}

/// The side of the atlas when the printer is made, and by which it grows.
pub const INITIAL_SIZE: u16 = 1024;

pub open spec fn spec_smaller(a: u16, b: u16) -> u16 {
    if a <= b {
        a
    } else {
        b
    }
}

/// The smaller of the two.
#[verifier::when_used_as_spec(spec_smaller)]
pub fn smaller(a: u16, b: u16) -> (r: u16)
    ensures
        r == spec_smaller(a, b),
{
    if a <= b {
        a
    } else {
        b
    }
}

/// The side that a side of the atlas grows to in one step: larger by the
/// initial size, as far as an atlas and the limit allow.
pub open spec fn grown_side(side: int, limit: u16) -> int {
    let grown = if side + INITIAL_SIZE <= MAX_ATLAS_SIDE {
        side + INITIAL_SIZE
    } else {
        MAX_ATLAS_SIDE as int
    };
    if grown <= limit {
        grown
    } else {
        limit as int
    }
}

/// No two rectangles of the atlas have a point in common, and all lie in
/// the atlas.
pub open spec fn rects_apart(rects: Seq<AtlasRect>, width: int, height: int) -> bool {
    &&& forall|i: int, j: int|
        0 <= i < j < rects.len() ==> (#[trigger] rects[i]).apart_from(#[trigger] rects[j])
    &&& forall|i: int| 0 <= i < rects.len() ==> (#[trigger] rects[i]).within(width, height)
}

impl SculpturePrinter {
    pub closed spec fn view(&self) -> AtlasView {
        AtlasView {
            map: self.glyph_map@,
            rects: atlas_rects(self.allocator),
            width: atlas_width(self.allocator),
            height: atlas_height(self.allocator),
            refresh: self.need_texture_refresh,
        }
    }

    /// The device scale, as bits of a fixed-point number.
    pub closed spec fn scale(&self) -> i32 {
        self.scale_factor
    }

    /// The largest size that the atlas may grow to.
    pub closed spec fn limit(&self) -> (u16, u16) {
        self.max_texture_2d
    }

    /// Whether the atlas, as it is, has room for an image of `width` by
    /// `height`.
    pub closed spec fn has_room(&self, width: int, height: int) -> bool {
        atlas_has_room(self.allocator, width, height)
    }

    /// Whether the atlas has room for an image of `width` by `height` once
    /// it has grown by one step.
    pub closed spec fn has_room_grown(&self, width: int, height: int) -> bool {
        atlas_grown_room(
            self.allocator,
            grown_side(atlas_width(self.allocator), self.max_texture_2d.0),
            grown_side(atlas_height(self.allocator), self.max_texture_2d.1),
            width,
            height,
        )
    }

    /// The atlas is no larger than it may get, its rectangles lie in it and
    /// apart from each other, and the rectangle of a glyph is one of them.
    pub open spec fn well_formed(&self) -> bool {
        &&& self.limit().0 <= MAX_ATLAS_SIDE && self.limit().1 <= MAX_ATLAS_SIDE
        &&& 0 <= self@.width <= self.limit().0
        &&& 0 <= self@.height <= self.limit().1
        &&& rects_apart(self@.rects, self@.width, self@.height)
        &&& forall|k: GlyphKey| #[trigger]
            self@.map.contains_key(k) ==> self@.rects.contains(self@.map[k])
    }

    #[verifier::type_invariant]
    spec fn inv(&self) -> bool {
        &&& self.max_texture_2d.0 <= MAX_ATLAS_SIDE && self.max_texture_2d.1 <= MAX_ATLAS_SIDE
        &&& 0 <= atlas_width(self.allocator) <= self.max_texture_2d.0
        &&& 0 <= atlas_height(self.allocator) <= self.max_texture_2d.1
        &&& rects_apart(
            atlas_rects(self.allocator),
            atlas_width(self.allocator),
            atlas_height(self.allocator),
        )
        &&& forall|k: GlyphKey| #[trigger]
            self.glyph_map@.contains_key(k) ==> atlas_rects(self.allocator).contains(
                self.glyph_map@[k],
            )
    }

    /// A printer with an empty atlas of the initial size, or of the largest
    /// size where that is less. A limit beyond what the atlas can take is
    /// cut to that.
    pub fn new(scale_factor: i32, max_texture_2d: (u16, u16)) -> (p: Self)
        ensures
            p.scale() == scale_factor,
            p.limit() == (smaller(max_texture_2d.0, MAX_ATLAS_SIDE), smaller(
                max_texture_2d.1,
                MAX_ATLAS_SIDE,
            )),
            p@.map == Map::<GlyphKey, AtlasRect>::empty(),
            p@.rects.len() == 0,
            p@.width == smaller(INITIAL_SIZE, p.limit().0),
            p@.height == smaller(INITIAL_SIZE, p.limit().1),
            !p@.refresh,
            p.well_formed(),
    {
        let max = (smaller(max_texture_2d.0, MAX_ATLAS_SIDE), smaller(max_texture_2d.1, MAX_ATLAS_SIDE));
        let allocator = atlas_new(smaller(INITIAL_SIZE, max.0), smaller(INITIAL_SIZE, max.1));
        Self {
            scale_factor,
            allocator,
            glyph_map: BTreeMap::new(),
            need_texture_refresh: false,
            max_texture_2d: max,
        }
    }

    /// Width and height of the atlas.
    pub fn atlas_size(&self) -> (size: (i32, i32))
        ensures
            size.0 == self@.width,
            size.1 == self@.height,
            self.well_formed(),
    {
        proof {
            use_type_invariant(self);
        }
        atlas_size(&self.allocator)
    }

    /// The rectangle of the image of the glyph `ident`, if it has one.
    pub fn lookup(&self, ident: GlyphIdent) -> (r: Option<AtlasRect>)
        ensures
            r == (if self@.map.contains_key(ident.key()) {
                Some(self@.map[ident.key()])
            } else {
                None
            }),
    {
        match self.glyph_map.get(&ident.key()) {
            Some(rect) => Some(*rect),
            None => None,
        }
    }

    /// Gives the glyph `ident`, whose image is `width` by `height`, a
    /// rectangle of the atlas.
    ///
    /// A glyph that has its rectangle keeps it, and nothing changes: however
    /// often a glyph is asked for, the atlas gives it one rectangle. For a
    /// new glyph the atlas is asked; where it has no room it grows by the
    /// initial size, as far as it may, and is asked again. The glyph gets
    /// its rectangle exactly where the atlas has room for it, as it is or
    /// once it has grown; an atlas without rectangles has room for whatever
    /// it can hold.
    pub fn alloc_glyph(&mut self, ident: GlyphIdent, width: i32, height: i32) -> (r: Result<
        AtlasRect,
        SculpturePrinterError,
    >)
        ensures
            final(self).scale() == old(self).scale(),
            final(self).limit() == old(self).limit(),
            old(self)@.map.contains_key(ident.key()) ==> r == Ok::<
                AtlasRect,
                SculpturePrinterError,
            >(old(self)@.map[ident.key()]) && final(self)@ == old(self)@,
            !old(self)@.map.contains_key(ident.key()) ==> match r {
                Ok(rect) => {
                    &&& final(self)@.map == old(self)@.map.insert(ident.key(), rect)
                    &&& final(self)@.rects == old(self)@.rects.push(rect)
                    &&& final(self)@.refresh
                    &&& rect.within(final(self)@.width, final(self)@.height)
                    &&& rect.width() == width
                    &&& rect.height() >= height
                },
                Err(e) => {
                    &&& e == SculpturePrinterError::GrowAtlasFailed
                    &&& final(self)@.map == old(self)@.map
                    &&& final(self)@.rects == old(self)@.rects
                    &&& final(self)@.refresh == old(self)@.refresh
                },
            },
            !old(self)@.map.contains_key(ident.key()) && (width <= 0 || height <= 0) ==> r is Err,
            !old(self)@.map.contains_key(ident.key()) ==> (r is Ok <==> old(self).has_room(
                width as int,
                height as int,
            ) || old(self).has_room_grown(width as int, height as int)),
            !old(self)@.map.contains_key(ident.key()) ==> (if old(self).has_room(
                width as int,
                height as int,
            ) {
                final(self)@.width == old(self)@.width && final(self)@.height == old(self)@.height
            } else {
                final(self)@.width == grown_side(old(self)@.width, old(self).limit().0)
                    && final(self)@.height == grown_side(old(self)@.height, old(self).limit().1)
            }),
            old(self)@.rects.len() == 0 && 0 < width <= old(self)@.width && 0 < height <= old(
                self,
            )@.height ==> r is Ok,
            old(self)@.width <= final(self)@.width,
            old(self)@.height <= final(self)@.height,
            final(self).well_formed(),
    {
        proof {
            use_type_invariant(&*self);
        }
        if let Some(rect) = self.lookup(ident) {
            return Ok(rect);
        }
        let ghost map0 = self.glyph_map@;
        let ghost rects0 = atlas_rects(self.allocator);
        let mut map = BTreeMap::new();
        std::mem::swap(&mut self.glyph_map, &mut map);
        let mut allocator = atlas_new(0, 0);
        std::mem::swap(&mut self.allocator, &mut allocator);
        let first = atlas_allocate(&mut allocator, width, height);
        let found = match first {
            Some(rect) => Some(rect),
            None => {
                let (w, h) = atlas_size(&allocator);
                let grown_w = smaller(
                    if w as u32 + INITIAL_SIZE as u32 <= MAX_ATLAS_SIDE as u32 {
                        (w + INITIAL_SIZE as i32) as u16
                    } else {
                        MAX_ATLAS_SIDE
                    },
                    self.max_texture_2d.0,
                );
                let grown_h = smaller(
                    if h as u32 + INITIAL_SIZE as u32 <= MAX_ATLAS_SIDE as u32 {
                        (h + INITIAL_SIZE as i32) as u16
                    } else {
                        MAX_ATLAS_SIDE
                    },
                    self.max_texture_2d.1,
                );
                atlas_grow(&mut allocator, grown_w, grown_h);
                atlas_allocate(&mut allocator, width, height)
            },
        };
        let r = match found {
            Some(rect) => {
                map.insert(ident.key(), rect);
                proof {
                    let rects = atlas_rects(allocator);
                    assert(rects == rects0.push(rect));
                    assert(rects[rects0.len() as int] == rect);
                    assert forall|k: GlyphKey| #[trigger] map@.contains_key(k) implies rects.contains(
                        map@[k],
                    ) by {
                        if k != ident.key() {
                            let i = choose|i: int| 0 <= i < rects0.len() && rects0[i] == map0[k];
                            assert(rects[i] == map0[k]);
                        }
                    }
                    assert forall|i: int, j: int| 0 <= i < j < rects.len() implies (
                    #[trigger] rects[i]).apart_from(#[trigger] rects[j]) by {
                        if j < rects0.len() {
                            assert(rects[i] == rects0[i] && rects[j] == rects0[j]);
                        } else {
                            assert(rects[i] == rects0[i]);
                            assert(rect.apart_from(rects0[i]));
                        }
                    }
                    assert forall|i: int| 0 <= i < rects.len() implies (#[trigger] rects[i]).within(
                        atlas_width(allocator),
                        atlas_height(allocator),
                    ) by {
                        if i < rects0.len() {
                            assert(rects[i] == rects0[i]);
                        }
                    }
                }
                Ok(rect)
            },
            None => {
                proof {
                    let rects = atlas_rects(allocator);
                    assert forall|i: int| 0 <= i < rects.len() implies (#[trigger] rects[i]).within(
                        atlas_width(allocator),
                        atlas_height(allocator),
                    ) by {
                        assert(rects[i] == rects0[i]);
                    }
                }
                Err(SculpturePrinterError::GrowAtlasFailed)
            },
        };
        self.allocator = allocator;
        self.glyph_map = map;
        if r.is_ok() {
            self.need_texture_refresh = true;
        }
        r
    }

    /// Whether a glyph got its rectangle since this was last asked: whether
    /// the image of the atlas is to be made anew.
    pub fn take_refresh(&mut self) -> (b: bool)
        ensures
            b == old(self)@.refresh,
            !final(self)@.refresh,
            final(self)@.map == old(self)@.map,
            final(self)@.rects == old(self)@.rects,
            final(self)@.width == old(self)@.width,
            final(self)@.height == old(self)@.height,
            final(self).scale() == old(self).scale(),
            final(self).limit() == old(self).limit(),
    {
        proof {
            use_type_invariant(&*self);
        }
        let b = self.need_texture_refresh;
        self.need_texture_refresh = false;
        b
    }

    /// The glyphs of `lines`, each at its place, in reading order.
    ///
    /// A glyph stands at the pen's place, moved by its offsets, and the pen
    /// goes on behind it by its advance. Behind each line the pen goes down
    /// by the height of a line; it is not set back to the left. The first
    /// glyph without an image in the atlas stops the printing.
    #[verifier::loop_isolation(false)]
    pub fn print_lines(&self, font_size: i32, line_height_em: i32, lines: &Vec<Line<'_>>) -> (r:
        Result<Vec<DisplayGlyph>, SculpturePrinterError>)
        ensures
            match r {
                Ok(v) => printed(
                    self@.map,
                    font_size,
                    line_advance(self.scale(), font_size, line_height_em),
                    line_views(lines@),
                ) == Ok::<Seq<DisplayGlyph>, SculpturePrinterError>(v@),
                Err(e) => printed(
                    self@.map,
                    font_size,
                    line_advance(self.scale(), font_size, line_height_em),
                    line_views(lines@),
                ) == Err::<Seq<DisplayGlyph>, SculpturePrinterError>(e),
            },
    {
        let line_adv = fx_mul(fx_mul(font_size, line_height_em), px_per_pt(self.scale_factor));
        let ghost all = line_views(lines@);
        let mut output: Vec<DisplayGlyph> = Vec::new();
        let mut x_pos: i32 = 0;
        let mut y_pos: i32 = 0;
        let mut l: usize = 0;
        while l < lines.len()
            invariant
                l <= lines@.len(),
                all == line_views(lines@),
                printed_lines(
                    self@.map,
                    font_size,
                    line_adv,
                    all,
                    l as int,
                    Pen { x: x_pos, y: y_pos, out: output@ },
                ) == printed(self@.map, font_size, line_adv, all),
            decreases lines@.len() - l,
        {
            let glyphs = lines[l].glyphs;
            assert(all[l as int] == glyphs@);
            let mut g: usize = 0;
            while g < glyphs.len()
                invariant
                    g <= glyphs@.len(),
                    l < lines@.len(),
                    all == line_views(lines@),
                    all[l as int] == glyphs@,
                    printed_glyphs(
                        self@.map,
                        font_size,
                        glyphs@,
                        g as int,
                        Pen { x: x_pos, y: y_pos, out: output@ },
                    ).and_then_lines(self@.map, font_size, line_adv, all, l + 1) == printed(
                        self@.map,
                        font_size,
                        line_adv,
                        all,
                    ),
                decreases glyphs@.len() - g,
            {
                let glyph = &glyphs[g];
                let ident = GlyphIdent::new(font_size, glyph);
                let rect = match self.lookup(ident) {
                    Some(rect) => rect,
                    None => {
                        return Err(SculpturePrinterError::OutlineMissing(glyph.glyph_id));
                    },
                };
                proof {
                    use_type_invariant(self);
                    let rects = atlas_rects(self.allocator);
                    let i = choose|i: int| 0 <= i < rects.len() && rects[i] == rect;
                    assert(rects[i].within(
                        atlas_width(self.allocator),
                        atlas_height(self.allocator),
                    ));
                }
                let x = fx_add(x_pos, glyph.pos.x_offset);
                let y = fx_add(y_pos, glyph.pos.y_offset);
                let w = glyph.pos.x_advance;
                let h = glyph.pos.y_advance;
                let ghost before = output@;
                output.push(
                    DisplayGlyph {
                        pos: (x, y),
                        size: (w, h),
                        uv_pos: (rect.min_x, rect.min_y),
                        uv_size: (rect.max_x - rect.min_x, rect.max_y - rect.min_y),
                    },
                );
                x_pos = fx_add(x, w);
                g = g + 1;
            }
            y_pos = fx_add(y_pos, line_adv);
            l = l + 1;
        }
        Ok(output)
    }
}

/// How far the pen goes down behind a line: font size by line height by
/// pixels to the point.
pub open spec fn line_advance(scale_factor: i32, font_size: i32, line_height_em: i32) -> i32 {
    spec_mul(
        spec_mul(font_size as int, line_height_em as int),
        spec_px_per_pt(scale_factor),
    ) as i32
}

/// The lines as values.
pub open spec fn line_views(lines: Seq<Line<'_>>) -> Seq<Seq<GlyphPlan>> {
    lines.map_values(|l: Line<'_>| l.glyphs@)
}

/// The pen: its place, and what it has printed.
pub struct Pen {
    pub x: i32,
    pub y: i32,
    pub out: Seq<DisplayGlyph>,
}

/// A pen that goes on, or the error that stopped it.
pub enum Printing {
    Going(Pen),
    Stopped(SculpturePrinterError),
}

/// The pen after the glyph `glyph`.
pub open spec fn printed_glyph(
    map: Map<GlyphKey, AtlasRect>,
    font_size: i32,
    glyph: GlyphPlan,
    pen: Pen,
) -> Printing {
    let key = (glyph.face_ref.0, glyph.glyph_id, font_size);
    if map.contains_key(key) {
        let rect = map[key];
        let x = spec_add(pen.x as int, glyph.pos.x_offset as int) as i32;
        let y = spec_add(pen.y as int, glyph.pos.y_offset as int) as i32;
        Printing::Going(
            Pen {
                x: spec_add(x as int, glyph.pos.x_advance as int) as i32,
                y: pen.y,
                out: pen.out.push(
                    DisplayGlyph {
                        pos: (x, y),
                        size: (glyph.pos.x_advance, glyph.pos.y_advance),
                        uv_pos: (rect.min_x, rect.min_y),
                        uv_size: ((rect.max_x - rect.min_x) as i32, (rect.max_y - rect.min_y) as i32),
                    },
                ),
            },
        )
    } else {
        Printing::Stopped(SculpturePrinterError::OutlineMissing(glyph.glyph_id))
    }
}

/// The pen after the glyphs of a line from place `from` on.
pub open spec fn printed_glyphs(
    map: Map<GlyphKey, AtlasRect>,
    font_size: i32,
    glyphs: Seq<GlyphPlan>,
    from: int,
    pen: Pen,
) -> Printing
    decreases glyphs.len() - from,
{
    if from < 0 || from >= glyphs.len() {
        Printing::Going(pen)
    } else {
        match printed_glyph(map, font_size, glyphs[from], pen) {
            Printing::Going(next) => printed_glyphs(map, font_size, glyphs, from + 1, next),
            Printing::Stopped(e) => Printing::Stopped(e),
        }
    }
}

/// What is printed by a pen that goes through the lines from `from` on.
pub open spec fn printed_lines(
    map: Map<GlyphKey, AtlasRect>,
    font_size: i32,
    line_adv: i32,
    lines: Seq<Seq<GlyphPlan>>,
    from: int,
    pen: Pen,
) -> Result<Seq<DisplayGlyph>, SculpturePrinterError>
    decreases lines.len() - from,
{
    if from < 0 || from >= lines.len() {
        Ok(pen.out)
    } else {
        match printed_glyphs(map, font_size, lines[from], 0, pen) {
            Printing::Going(next) => printed_lines(
                map,
                font_size,
                line_adv,
                lines,
                from + 1,
                Pen { y: spec_add(next.y as int, line_adv as int) as i32, ..next },
            ),
            Printing::Stopped(e) => Err(e),
        }
    }
}

impl Printing {
    /// What is printed once the pen has gone down a line and through the
    /// lines from `from` on.
    pub open spec fn and_then_lines(
        self,
        map: Map<GlyphKey, AtlasRect>,
        font_size: i32,
        line_adv: i32,
        lines: Seq<Seq<GlyphPlan>>,
        from: int,
    ) -> Result<Seq<DisplayGlyph>, SculpturePrinterError> {
        match self {
            Printing::Going(pen) => printed_lines(
                map,
                font_size,
                line_adv,
                lines,
                from,
                Pen { y: spec_add(pen.y as int, line_adv as int) as i32, ..pen },
            ),
            Printing::Stopped(e) => Err(e),
        }
    }
}

/// The identity of the image of `glyph` at `font_size`.
pub open spec fn ident_of(font_size: i32, glyph: GlyphPlan) -> GlyphIdent {
    GlyphIdent { face_ref: glyph.face_ref, glyph_id: glyph.glyph_id, size: font_size }
}

/// Whether `ident` is one of `idents`.
pub open spec fn listed(idents: Seq<GlyphIdent>, ident: GlyphIdent) -> bool {
    exists|i: int| 0 <= i < idents.len() && #[trigger] idents[i] == ident
}

/// The images that the first `k` of `glyphs` still need: behind those of
/// `found`, each glyph that has no rectangle in `map` and is not listed
/// yet, in the order of the glyphs.
pub open spec fn lacking(
    map: Map<GlyphKey, AtlasRect>,
    font_size: i32,
    glyphs: Seq<GlyphPlan>,
    k: int,
    found: Seq<GlyphIdent>,
) -> Seq<GlyphIdent>
    decreases k,
{
    if k <= 0 {
        found
    } else {
        let before = lacking(map, font_size, glyphs, k - 1, found);
        let ident = ident_of(font_size, glyphs[k - 1]);
        if map.contains_key(ident.key()) || listed(before, ident) {
            before
        } else {
            before.push(ident)
        }
    }
}

/// The images that the first `k` of `lines` still need: each glyph without
/// a rectangle in `map` once, in reading order.
pub open spec fn lacking_lines(
    map: Map<GlyphKey, AtlasRect>,
    font_size: i32,
    lines: Seq<Seq<GlyphPlan>>,
    k: int,
) -> Seq<GlyphIdent>
    decreases k,
{
    if k <= 0 {
        Seq::empty()
    } else {
        lacking(
            map,
            font_size,
            lines[k - 1],
            lines[k - 1].len() as int,
            lacking_lines(map, font_size, lines, k - 1),
        )
    }
}

/// Whether every glyph of `lines` has a rectangle in `map`.
pub open spec fn all_packed(
    map: Map<GlyphKey, AtlasRect>,
    font_size: i32,
    lines: Seq<Seq<GlyphPlan>>,
) -> bool {
    forall|i: int, j: int|
        0 <= i < lines.len() && 0 <= j < lines[i].len() ==> map.contains_key(
            #[trigger] ident_of(font_size, lines[i][j]).key(),
        )
}

/// The number of glyphs in the first `k` of `lines`.
pub open spec fn glyph_count(lines: Seq<Seq<GlyphPlan>>, k: int) -> int
    decreases k,
{
    if k <= 0 {
        0
    } else {
        glyph_count(lines, k - 1) + lines[k - 1].len()
    }
}

/// Whether `ident` is one of `idents`.
fn is_listed(idents: &Vec<GlyphIdent>, ident: GlyphIdent) -> (b: bool)
    ensures
        b == listed(idents@, ident),
{
    let mut i: usize = 0;
    while i < idents.len()
        invariant
            i <= idents@.len(),
            forall|j: int| 0 <= j < i ==> idents@[j] != ident,
        decreases idents@.len() - i,
    {
        let other = idents[i];
        if other.face_ref.0 == ident.face_ref.0 && other.glyph_id == ident.glyph_id && other.size
            == ident.size {
            return true;
        }
        i = i + 1;
    }
    false
}

impl SculpturePrinter {
    /// The device scale, as bits of a fixed-point number.
    pub fn scale_factor(&self) -> (s: i32)
        ensures
            s == self.scale(),
    {
        self.scale_factor
    }

    /// The images that `lines` still need before they can be printed at
    /// `font_size`: each glyph that has no rectangle yet, once, in reading
    /// order. Once each of them has got its rectangle, every glyph of the
    /// lines has one.
    pub fn unpacked(&self, font_size: i32, lines: &Vec<Line<'_>>) -> (r: Vec<GlyphIdent>)
        ensures
            r@ == lacking_lines(self@.map, font_size, line_views(lines@), lines@.len() as int),
    {
        let ghost all = line_views(lines@);
        let mut r: Vec<GlyphIdent> = Vec::new();
        let mut i: usize = 0;
        while i < lines.len()
            invariant
                i <= lines@.len(),
                all == line_views(lines@),
                r@ == lacking_lines(self@.map, font_size, all, i as int),
            decreases lines@.len() - i,
        {
            let glyphs = lines[i].glyphs;
            assert(all[i as int] == glyphs@);
            let ghost found = r@;
            let mut j: usize = 0;
            while j < glyphs.len()
                invariant
                    j <= glyphs@.len(),
                    r@ == lacking(self@.map, font_size, glyphs@, j as int, found),
                decreases glyphs@.len() - j,
            {
                let ident = GlyphIdent::new(font_size, &glyphs[j]);
                if self.lookup(ident).is_none() && !is_listed(&r, ident) {
                    r.push(ident);
                }
                j = j + 1;
            }
            i = i + 1;
        }
        r
    }
}

/// Every glyph among the first `k` has a rectangle or is listed among the
/// images that are still needed, and what was listed stays listed.
pub proof fn lemma_lacking_lists(
    map: Map<GlyphKey, AtlasRect>,
    font_size: i32,
    glyphs: Seq<GlyphPlan>,
    k: int,
    found: Seq<GlyphIdent>,
)
    requires
        0 <= k <= glyphs.len(),
    ensures
        forall|ident: GlyphIdent|
            listed(found, ident) ==> #[trigger] listed(
                lacking(map, font_size, glyphs, k, found),
                ident,
            ),
        forall|j: int|
            0 <= j < k ==> map.contains_key(ident_of(font_size, glyphs[j]).key()) || listed(
                lacking(map, font_size, glyphs, k, found),
                #[trigger] ident_of(font_size, glyphs[j]),
            ),
    decreases k,
{
    if k > 0 {
        lemma_lacking_lists(map, font_size, glyphs, k - 1, found);
        let before = lacking(map, font_size, glyphs, k - 1, found);
        let after = lacking(map, font_size, glyphs, k, found);
        let ident = ident_of(font_size, glyphs[k - 1]);
        assert forall|other: GlyphIdent| listed(before, other) implies #[trigger] listed(
            after,
            other,
        ) by {
            let i = choose|i: int| 0 <= i < before.len() && before[i] == other;
            assert(after[i] == other);
        }
        if !map.contains_key(ident.key()) && !listed(before, ident) {
            assert(after[before.len() as int] == ident);
        }
    }
}

/// The images that are still needed are all that is missing: once the atlas
/// holds a rectangle for each of them, beside those that it held, every
/// glyph of the lines has its rectangle.
pub proof fn lemma_unpacked_is_all(
    map: Map<GlyphKey, AtlasRect>,
    after: Map<GlyphKey, AtlasRect>,
    font_size: i32,
    lines: Seq<Seq<GlyphPlan>>,
)
    requires
        forall|k: GlyphKey| map.contains_key(k) ==> #[trigger] after.contains_key(k),
        forall|i: int|
            0 <= i < lacking_lines(map, font_size, lines, lines.len() as int).len()
                ==> after.contains_key(
                (#[trigger] lacking_lines(map, font_size, lines, lines.len() as int)[i]).key(),
            ),
    ensures
        all_packed(after, font_size, lines),
{
    let needed = lacking_lines(map, font_size, lines, lines.len() as int);
    assert forall|i: int, j: int| 0 <= i < lines.len() && 0 <= j < lines[i].len() implies after.contains_key(
        #[trigger] ident_of(font_size, lines[i][j]).key(),
    ) by {
        let ident = ident_of(font_size, lines[i][j]);
        lemma_lines_list(map, font_size, lines, lines.len() as int, i, j);
        if !map.contains_key(ident.key()) {
            let at = choose|at: int| 0 <= at < needed.len() && needed[at] == ident;
            assert(after.contains_key(needed[at].key()));
        }
    }
}

/// The glyph at place `j` of line `i` has a rectangle or is listed among
/// the images that the first `k` lines still need.
proof fn lemma_lines_list(
    map: Map<GlyphKey, AtlasRect>,
    font_size: i32,
    lines: Seq<Seq<GlyphPlan>>,
    k: int,
    i: int,
    j: int,
)
    requires
        0 <= i < k <= lines.len(),
        0 <= j < lines[i].len(),
    ensures
        map.contains_key(ident_of(font_size, lines[i][j]).key()) || listed(
            lacking_lines(map, font_size, lines, k),
            ident_of(font_size, lines[i][j]),
        ),
    decreases k,
{
    let found = lacking_lines(map, font_size, lines, k - 1);
    lemma_lacking_lists(map, font_size, lines[k - 1], lines[k - 1].len() as int, found);
    if i < k - 1 {
        lemma_lines_list(map, font_size, lines, k - 1, i, j);
    }
}

/// Lines whose glyphs all have their rectangle are printed to the end: one
/// glyph comes out for each glyph of the lines.
pub proof fn lemma_packed_lines_print(
    map: Map<GlyphKey, AtlasRect>,
    font_size: i32,
    line_adv: i32,
    lines: Seq<Seq<GlyphPlan>>,
)
    requires
        all_packed(map, font_size, lines),
    ensures
        printed(map, font_size, line_adv, lines) is Ok,
        printed(map, font_size, line_adv, lines)->Ok_0.len() == glyph_count(
            lines,
            lines.len() as int,
        ),
{
    lemma_lines_go(map, font_size, line_adv, lines, 0, Pen { x: 0, y: 0, out: Seq::empty() });
}

/// The number of glyphs in the lines from `from` on.
spec fn glyphs_from(lines: Seq<Seq<GlyphPlan>>, from: int) -> int
    decreases lines.len() - from,
{
    if from < 0 || from >= lines.len() {
        0
    } else {
        lines[from].len() + glyphs_from(lines, from + 1)
    }
}

proof fn lemma_count_splits(lines: Seq<Seq<GlyphPlan>>, k: int)
    requires
        0 <= k <= lines.len(),
    ensures
        glyph_count(lines, k) + glyphs_from(lines, k) == glyph_count(lines, lines.len() as int),
    decreases lines.len() - k,
{
    if k < lines.len() {
        lemma_count_splits(lines, k + 1);
    }
}

proof fn lemma_glyphs_go(
    map: Map<GlyphKey, AtlasRect>,
    font_size: i32,
    glyphs: Seq<GlyphPlan>,
    from: int,
    pen: Pen,
)
    requires
        0 <= from <= glyphs.len(),
        forall|j: int|
            0 <= j < glyphs.len() ==> map.contains_key(
                #[trigger] ident_of(font_size, glyphs[j]).key(),
            ),
    ensures
        printed_glyphs(map, font_size, glyphs, from, pen) is Going,
        printed_glyphs(map, font_size, glyphs, from, pen)->Going_0.out.len() == pen.out.len()
            + glyphs.len() - from,
    decreases glyphs.len() - from,
{
    if from < glyphs.len() {
        assert(map.contains_key(ident_of(font_size, glyphs[from]).key()));
        let next = printed_glyph(map, font_size, glyphs[from], pen);
        assert(next is Going);
        lemma_glyphs_go(map, font_size, glyphs, from + 1, next->Going_0);
    }
}

proof fn lemma_lines_go(
    map: Map<GlyphKey, AtlasRect>,
    font_size: i32,
    line_adv: i32,
    lines: Seq<Seq<GlyphPlan>>,
    from: int,
    pen: Pen,
)
    requires
        0 <= from <= lines.len(),
        all_packed(map, font_size, lines),
    ensures
        printed_lines(map, font_size, line_adv, lines, from, pen) is Ok,
        printed_lines(map, font_size, line_adv, lines, from, pen)->Ok_0.len() == pen.out.len()
            + glyphs_from(lines, from),
        from == 0 ==> glyphs_from(lines, 0) == glyph_count(lines, lines.len() as int),
    decreases lines.len() - from,
{
    if from == 0 {
        lemma_count_splits(lines, 0);
    }
    if from < lines.len() {
        assert forall|j: int| 0 <= j < lines[from].len() implies map.contains_key(
            #[trigger] ident_of(font_size, lines[from][j]).key(),
        ) by {}
        lemma_glyphs_go(map, font_size, lines[from], 0, pen);
        let next = printed_glyphs(map, font_size, lines[from], 0, pen)->Going_0;
        lemma_lines_go(
            map,
            font_size,
            line_adv,
            lines,
            from + 1,
            Pen { y: spec_add(next.y as int, line_adv as int) as i32, ..next },
        );
    }
}

/// What is printed for `lines`.
pub open spec fn printed(
    map: Map<GlyphKey, AtlasRect>,
    font_size: i32,
    line_adv: i32,
    lines: Seq<Seq<GlyphPlan>>,
) -> Result<Seq<DisplayGlyph>, SculpturePrinterError> {
    printed_lines(map, font_size, line_adv, lines, 0, Pen { x: 0, y: 0, out: Seq::empty() })
}

} // verus!
