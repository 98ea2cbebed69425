//! Shapes runs of text into positioned glyphs.
//!
//! The text is shaped with the face that was asked for. Glyph 0 is what a
//! face gives for a character it lacks: the places where it stands are
//! shaped again with the fallback faces, one after the other, and only
//! those places are filled in.

use crate::sculpter::error::SculpterShapeError;
use crate::sculpter::fixed::{fx_div, fx_mul, spec_div, spec_mul};
use rustybuzz::{Direction, Face, GlyphBuffer, ShapePlan, UnicodeBuffer};
use vstd::prelude::*;
use vstd::string::StrSliceExecFns;

verus! {

#[verifier::external_type_specification]
#[verifier::external_body]
pub struct ExFace<'a>(Face<'a>);

#[verifier::external_type_specification]
#[verifier::external_body]
pub struct ExShapePlan(ShapePlan);

#[verifier::external_type_specification]
#[verifier::external_body]
pub struct ExUnicodeBuffer(UnicodeBuffer);

#[verifier::external_type_specification]
#[verifier::external_body]
pub struct ExGlyphBuffer(GlyphBuffer);

/// The number of items that a buffer of the shaping engine takes at the
/// least, whatever it has shaped before.
pub const ENGINE_ROOM: usize = 16384;

/// The direction of a buffer of the shaping engine: 0 while none is set, 1
/// for text that runs from left to right.
pub uninterp spec fn buffer_direction(b: UnicodeBuffer) -> int;

/// The script of a buffer of the shaping engine, as the number of its tag,
/// once it is settled: once guessing it again would not change it.
pub uninterp spec fn settled_script(b: UnicodeBuffer) -> Option<int>;

/// The items that a buffer of the shaping engine holds, in their order:
/// each character with its cluster.
pub uninterp spec fn buffer_items(b: UnicodeBuffer) -> Seq<(char, u32)>;

/// Whether a buffer of the shaping engine is as the engine makes a new one,
/// but for its items, its direction and the number of items that it takes:
/// it has no language and no context, its flags and its cluster level are
/// those of a new buffer, and its script is not set or is the one that the
/// engine guesses from its items.
pub uninterp spec fn buffer_plain(b: UnicodeBuffer) -> bool;

/// Whether a buffer of the shaping engine has taken every item that it was
/// given since it was new or cleared.
pub uninterp spec fn buffer_whole(b: UnicodeBuffer) -> bool;

/// The direction that a shape plan was made for.
pub uninterp spec fn plan_direction(p: ShapePlan) -> int;

/// The script that a shape plan was made for, as the number of its tag.
pub uninterp spec fn plan_script(p: ShapePlan) -> int;

/// Whether a shape plan was made for the face `face`, without a language
/// and without features.
pub uninterp spec fn plan_fits(p: ShapePlan, face: Face<'_>) -> bool;

/// What the shaping engine gives for the items of a plain and whole buffer
/// that runs from left to right, with the face `face` and the plan that was
/// made for that face and the script of the buffer: each glyph with its
/// place.
pub uninterp spec fn shaped_by(face: Face<'_>, items: Seq<(char, u32)>) -> Seq<
    (ShapedGlyph, ShapedPosition),
>;

/// The glyphs that a buffer of shaped glyphs holds, each with its place.
pub uninterp spec fn glyphs_held(g: GlyphBuffer) -> Seq<(ShapedGlyph, ShapedPosition)>;

/// Whether a buffer of shaped glyphs came from a plain buffer.
pub uninterp spec fn glyphs_plain(g: GlyphBuffer) -> bool;

/// The units of a face to the em.
pub uninterp spec fn face_units(face: Face<'_>) -> i32;

/// The glyphs of shaped glyphs with their places.
pub open spec fn glyphs_of(out: Seq<(ShapedGlyph, ShapedPosition)>) -> Seq<ShapedGlyph> {
    out.map_values(|p: (ShapedGlyph, ShapedPosition)| p.0)
}

/// The places of shaped glyphs with their places.
pub open spec fn places_of(out: Seq<(ShapedGlyph, ShapedPosition)>) -> Seq<ShapedPosition> {
    out.map_values(|p: (ShapedGlyph, ShapedPosition)| p.1)
}

/// The number of bytes that the character `c` takes in a text.
pub open spec fn byte_width(c: char) -> int {
    if (c as u32) < 0x80 {
        1
    } else if (c as u32) < 0x800 {
        2
    } else if (c as u32) < 0x1_0000 {
        3
    } else {
        4
    }
}

/// The number of bytes that the first `i` characters of `text` take.
pub open spec fn byte_offset(text: Seq<char>, i: int) -> int
    decreases i,
{
    if i <= 0 {
        0
    } else {
        byte_offset(text, i - 1) + byte_width(text[i - 1])
    }
}

/// The items that a text gives: each character with the number of bytes in
/// front of it as its cluster.
pub open spec fn text_items(text: Seq<char>) -> Seq<(char, u32)> {
    Seq::new(text.len(), |i: int| (text[i], byte_offset(text, i) as u32))
}

/// Calls `UnicodeBuffer::new` of rustybuzz, which gives a plain buffer
/// without items.
#[verifier::external_body]
fn new_buffer() -> (b: UnicodeBuffer)
    ensures
        buffer_plain(b),
        buffer_whole(b),
        buffer_items(b) == Seq::<(char, u32)>::empty(),
{
    UnicodeBuffer::new()
}

/// Calls `UnicodeBuffer::len` of rustybuzz, which gives the number of items
/// that the buffer holds.
#[verifier::external_body]
fn buffer_len(buffer: &UnicodeBuffer) -> (n: usize)
    ensures
        n == buffer_items(*buffer).len(),
{
    buffer.len()
}

/// Calls `UnicodeBuffer::push_str` of rustybuzz, which adds the characters
/// of the text behind the items of the buffer, each with its place among
/// the bytes of the text as its cluster. A buffer that would hold more items
/// than it takes refuses them; nothing is claimed of its items then.
#[verifier::external_body]
fn buffer_push_str(buffer: &mut UnicodeBuffer, text: &str)
    ensures
        buffer_plain(*old(buffer)) ==> buffer_plain(*final(buffer)),
        buffer_whole(*old(buffer)) && buffer_items(*old(buffer)).len() + text@.len()
            <= ENGINE_ROOM ==> buffer_whole(*final(buffer)) && buffer_items(*final(buffer))
            == buffer_items(*old(buffer)) + text_items(text@),
{
    buffer.push_str(text)
}

/// Calls `UnicodeBuffer::add` of rustybuzz, which adds the character with
/// the cluster behind the items of the buffer. A buffer that would hold
/// more items than it takes refuses it; nothing is claimed of its items
/// then.
#[verifier::external_body]
fn buffer_add(buffer: &mut UnicodeBuffer, c: char, cluster: u32)
    ensures
        buffer_plain(*old(buffer)) ==> buffer_plain(*final(buffer)),
        buffer_whole(*old(buffer)) && buffer_items(*old(buffer)).len() < ENGINE_ROOM
            ==> buffer_whole(*final(buffer)) && buffer_items(*final(buffer)) == buffer_items(
            *old(buffer),
        ).push((c, cluster)),
{
    buffer.add(c, cluster)
}

/// Calls `UnicodeBuffer::guess_segment_properties` of rustybuzz, which takes
/// the script from the first character that has one unless a script is set,
/// and sets a direction unless one is set. Afterwards the script is settled
/// and a direction is set; the items are as they were.
#[verifier::external_body]
fn buffer_guess_segment(buffer: &mut UnicodeBuffer)
    ensures
        settled_script(*final(buffer)) is Some,
        buffer_direction(*final(buffer)) != 0,
        buffer_items(*final(buffer)) == buffer_items(*old(buffer)),
        buffer_whole(*final(buffer)) == buffer_whole(*old(buffer)),
        buffer_plain(*old(buffer)) ==> buffer_plain(*final(buffer)),
{
    buffer.guess_segment_properties()
}

/// Calls `UnicodeBuffer::set_direction` of rustybuzz with the direction
/// from left to right, which sets that direction and leaves the rest as it
/// is.
#[verifier::external_body]
fn buffer_set_left_to_right(buffer: &mut UnicodeBuffer)
    ensures
        buffer_direction(*final(buffer)) == 1,
        settled_script(*final(buffer)) == settled_script(*old(buffer)),
        buffer_items(*final(buffer)) == buffer_items(*old(buffer)),
        buffer_whole(*final(buffer)) == buffer_whole(*old(buffer)),
        buffer_plain(*old(buffer)) ==> buffer_plain(*final(buffer)),
{
    buffer.set_direction(Direction::LeftToRight)
}

/// Calls `UnicodeBuffer::script` of rustybuzz and hands out the number of
/// the script's tag: the settled script, where the script is settled.
#[verifier::external_body]
fn buffer_script(buffer: &UnicodeBuffer) -> (tag: u32)
    ensures
        settled_script(*buffer) is Some ==> settled_script(*buffer) == Some(tag as int),
{
    buffer.script().tag().as_u32()
}

/// Calls `UnicodeBuffer::language` of rustybuzz and hands out the language
/// as text. Nothing is claimed of it.
#[verifier::external_body]
fn buffer_language(buffer: &UnicodeBuffer) -> Option<String> {
    buffer.language().map(|l| l.as_str().to_string())
}

/// Calls `ShapePlan::new` of rustybuzz with the direction, script and
/// language of `buffer` and without features. It panics on a buffer without
/// direction; the plan is made for the face and for the direction and the
/// script of the buffer, and without a language where the buffer is plain.
#[verifier::external_body]
fn new_plan(face: &Face<'_>, buffer: &UnicodeBuffer) -> (plan: ShapePlan)
    requires
        buffer_direction(*buffer) != 0,
        settled_script(*buffer) is Some,
    ensures
        plan_direction(plan) == buffer_direction(*buffer),
        Some(plan_script(plan)) == settled_script(*buffer),
        buffer_plain(*buffer) ==> plan_fits(plan, *face),
{
    ShapePlan::new(face, buffer.direction(), Some(buffer.script()), buffer.language().as_ref(), &[])
}

/// Calls `shape_with_plan` of rustybuzz. With debug assertions it panics on
/// a plan that was made for another direction or script than the buffer
/// has. The engine shapes from the face, the plan and the buffer alone: for
/// a plain and whole buffer that runs from left to right and a plan that
/// fits the face, the glyphs are those that `shaped_by` names. A buffer
/// without items gives no glyphs.
#[verifier::external_body]
fn shape_with_plan(face: &Face<'_>, plan: &ShapePlan, buffer: UnicodeBuffer) -> (shaped:
    GlyphBuffer)
    requires
        buffer_direction(buffer) == plan_direction(*plan),
        settled_script(buffer) == Some(plan_script(*plan)),
    ensures
        buffer_plain(buffer) ==> glyphs_plain(shaped),
        buffer_items(buffer).len() == 0 ==> glyphs_held(shaped).len() == 0,
        buffer_plain(buffer) && buffer_whole(buffer) && buffer_direction(buffer) == 1
            && plan_fits(*plan, *face) ==> glyphs_held(shaped) == shaped_by(
            *face,
            buffer_items(buffer),
        ),
{
    rustybuzz::shape_with_plan(face, plan, buffer)
}

/// Calls `GlyphBuffer::glyph_infos` of rustybuzz and hands out the glyph and
/// the cluster of each glyph that the buffer holds, in their order.
#[verifier::external_body]
fn glyph_infos(shaped: &GlyphBuffer) -> (v: Vec<ShapedGlyph>)
    ensures
        v@ == glyphs_of(glyphs_held(*shaped)),
{
    shaped.glyph_infos().iter().map(
        |i| ShapedGlyph { glyph_id: i.glyph_id, cluster: i.cluster },
    ).collect()
}

/// Calls `GlyphBuffer::glyph_positions` of rustybuzz and hands out the
/// advances and offsets of each glyph that the buffer holds, in their
/// order.
#[verifier::external_body]
fn glyph_positions(shaped: &GlyphBuffer) -> (v: Vec<ShapedPosition>)
    ensures
        v@ == places_of(glyphs_held(*shaped)),
{
    shaped.glyph_positions().iter().map(
        |p|
            ShapedPosition {
                x_advance: p.x_advance,
                y_advance: p.y_advance,
                x_offset: p.x_offset,
                y_offset: p.y_offset,
            },
    ).collect()
}

/// Calls `GlyphBuffer::clear` of rustybuzz, which hands back the buffer for
/// the next text: without items, direction, script and language.
#[verifier::external_body]
fn clear_glyphs(shaped: GlyphBuffer) -> (b: UnicodeBuffer)
    ensures
        glyphs_plain(shaped) ==> buffer_plain(b),
        buffer_whole(b),
        buffer_items(b) == Seq::<(char, u32)>::empty(),
{
    shaped.clear()
}

/// Calls `Face::units_per_em` of rustybuzz, which gives the units of the
/// face to the em.
#[verifier::external_body]
fn units_per_em(face: &Face<'_>) -> (units: i32)
    ensures
        units == face_units(*face),
{
    face.units_per_em()
}

/// The number of a face in a shaper.
#[derive(Debug, Clone, Copy, PartialEq, Eq, Structural, PartialOrd, Ord)]
pub struct ShapeFaceRef(pub u32);

/// Advances and offsets of a glyph, as bits of fixed-point numbers.
#[derive(Debug, Clone, Copy, PartialEq, Eq, Structural)]
pub struct GlyphPosition {
    pub x_advance: i32,
    pub y_advance: i32,
    pub x_offset: i32,
    pub y_offset: i32,
}

/// A glyph as the shaping engine hands it out.
#[derive(Debug, Clone, Copy, PartialEq, Eq, Structural)]
pub struct ShapedGlyph {
    pub glyph_id: u32,
    pub cluster: u32,
}

/// The place of a glyph as the shaping engine hands it out, in font units.
#[derive(Debug, Clone, Copy, PartialEq, Eq, Structural)]
pub struct ShapedPosition {
    pub x_advance: i32,
    pub y_advance: i32,
    pub x_offset: i32,
    pub y_offset: i32,
}

/// A glyph of a face with its place, scaled to the device.
#[derive(Debug, Clone, Copy, PartialEq, Eq, Structural)]
pub struct GlyphPlan {
    pub face_ref: ShapeFaceRef,
    pub glyph_id: u16,
    pub pos: GlyphPosition,
}

/// The place `pos` at the scale `glyph_scale`.
pub open spec fn scaled_position(pos: ShapedPosition, glyph_scale: i32) -> GlyphPosition {
    GlyphPosition {
        x_advance: spec_mul(pos.x_advance as int, glyph_scale as int) as i32,
        y_advance: spec_mul(pos.y_advance as int, glyph_scale as int) as i32,
        x_offset: spec_mul(pos.x_offset as int, glyph_scale as int) as i32,
        y_offset: spec_mul(pos.y_offset as int, glyph_scale as int) as i32,
    }
}

impl GlyphPosition {
    pub fn from(pos: &ShapedPosition, glyph_scale: i32) -> (p: Self)
        ensures
            p == scaled_position(*pos, glyph_scale),
    {
        Self {
            x_advance: fx_mul(pos.x_advance, glyph_scale),
            y_advance: fx_mul(pos.y_advance, glyph_scale),
            x_offset: fx_mul(pos.x_offset, glyph_scale),
            y_offset: fx_mul(pos.y_offset, glyph_scale),
        }
    }
}

/// Pixels to the point at the device scale `scale_factor`: 96 to 72.
pub open spec fn spec_px_per_pt(scale_factor: i32) -> int {
    spec_div(spec_mul(scale_factor as int, 6144), 4608)
}

pub fn px_per_pt(scale_factor: i32) -> (r: i32)
    ensures
        r == spec_px_per_pt(scale_factor),
{
    fx_div(fx_mul(scale_factor, 96 * 64), 72 * 64)
}

/// The factor that takes the font units of a face with `upem` units to the
/// em to device lengths at `font_size`: `factor` times the size, by the
/// units.
pub open spec fn spec_glyph_scale(factor: i32, font_size: i32, upem: i32) -> int {
    spec_div(spec_mul(factor as int, font_size as int), upem as int)
}

pub fn glyph_scale(factor: i32, font_size: i32, upem: i32) -> (r: i32)
    ensures
        r == spec_glyph_scale(factor, font_size, upem),
{
    fx_div(fx_mul(factor, font_size), upem)
}

/// The plan of one shaped glyph. The glyph's number is cut to 16 bits.
pub open spec fn plan_of(
    face_ref: ShapeFaceRef,
    glyph: ShapedGlyph,
    pos: ShapedPosition,
    scale: i32,
) -> GlyphPlan {
    GlyphPlan {
        face_ref,
        glyph_id: (glyph.glyph_id % 0x1_0000) as u16,
        pos: scaled_position(pos, scale),
    }
}

fn make_plan(face_ref: ShapeFaceRef, glyph: &ShapedGlyph, pos: &ShapedPosition, scale: i32) -> (p:
    GlyphPlan)
    ensures
        p == plan_of(face_ref, *glyph, *pos, scale),
{
    GlyphPlan {
        face_ref,
        glyph_id: (glyph.glyph_id % 0x1_0000) as u16,
        pos: GlyphPosition::from(pos, scale),
    }
}

/// The smaller of the two lengths.
pub open spec fn shorter(a: int, b: int) -> int {
    if a <= b {
        a
    } else {
        b
    }
}

/// The plans of the first `n` glyphs that the asked-for face gave.
pub open spec fn first_pass(
    face_ref: ShapeFaceRef,
    infos: Seq<ShapedGlyph>,
    positions: Seq<ShapedPosition>,
    scale: i32,
    n: int,
) -> Seq<GlyphPlan> {
    Seq::new(n as nat, |i: int| plan_of(face_ref, infos[i], positions[i], scale))
}

/// The places among the first `n` glyphs where glyph 0 stands, in order.
pub open spec fn missing(infos: Seq<ShapedGlyph>, n: int) -> Seq<usize>
    decreases n,
{
    if n <= 0 {
        Seq::empty()
    } else if infos[n - 1].glyph_id == 0 {
        missing(infos, n - 1).push((n - 1) as usize)
    } else {
        missing(infos, n - 1)
    }
}

/// Adds the plans of the glyphs that the asked-for face gave to `glyphs`,
/// and hands out the places, counted from the first of them, where glyph 0
/// stands.
pub fn collect_glyphs(
    face_ref: ShapeFaceRef,
    infos: &Vec<ShapedGlyph>,
    positions: &Vec<ShapedPosition>,
    scale: i32,
    glyphs: &mut Vec<GlyphPlan>,
) -> (invalid: Vec<usize>)
    ensures
        final(glyphs)@ == old(glyphs)@ + first_pass(
            face_ref,
            infos@,
            positions@,
            scale,
            shorter(infos@.len() as int, positions@.len() as int),
        ),
        invalid@ == missing(infos@, shorter(infos@.len() as int, positions@.len() as int)),
{
    let n = if infos.len() <= positions.len() {
        infos.len()
    } else {
        positions.len()
    };
    let mut invalid: Vec<usize> = Vec::new();
    let mut i: usize = 0;
    assert(glyphs@ =~= old(glyphs)@ + first_pass(face_ref, infos@, positions@, scale, 0));
    while i < n
        invariant
            i <= n,
            n <= infos@.len(),
            n <= positions@.len(),
            glyphs@ == old(glyphs)@ + first_pass(face_ref, infos@, positions@, scale, i as int),
            invalid@ == missing(infos@, i as int),
        decreases n - i,
    {
        if infos[i].glyph_id == 0 {
            invalid.push(i);
        }
        glyphs.push(make_plan(face_ref, &infos[i], &positions[i], scale));
        i = i + 1;
        assert(glyphs@ =~= old(glyphs)@ + first_pass(
            face_ref,
            infos@,
            positions@,
            scale,
            i as int,
        ));
    }
    invalid
}

/// The glyphs after the first `k` glyphs that a fallback face gave were
/// filled in: a glyph other than glyph 0 takes the place that its cluster
/// names, where that place is among the glyphs and glyph 0 stands there.
pub open spec fn merged(
    glyphs: Seq<GlyphPlan>,
    face_ref: ShapeFaceRef,
    infos: Seq<ShapedGlyph>,
    positions: Seq<ShapedPosition>,
    scale: i32,
    k: int,
) -> Seq<GlyphPlan>
    decreases k,
{
    if k <= 0 {
        glyphs
    } else {
        let before = merged(glyphs, face_ref, infos, positions, scale, k - 1);
        let idx = infos[k - 1].cluster as int;
        if infos[k - 1].glyph_id > 0 && idx < before.len() && before[idx].glyph_id == 0 {
            before.update(idx, plan_of(face_ref, infos[k - 1], positions[k - 1], scale))
        } else {
            before
        }
    }
}

/// The clusters of the glyphs among the first `k` that a fallback face
/// lacks as well, in order.
pub open spec fn still_missing(infos: Seq<ShapedGlyph>, k: int) -> Seq<usize>
    decreases k,
{
    if k <= 0 {
        Seq::empty()
    } else if infos[k - 1].glyph_id == 0 {
        still_missing(infos, k - 1).push(infos[k - 1].cluster as usize)
    } else {
        still_missing(infos, k - 1)
    }
}

/// Fills the glyphs that a fallback face gave into `glyphs` from place
/// `start` on, and hands out the clusters that it lacks as well.
pub fn merge_fallback(
    face_ref: ShapeFaceRef,
    infos: &Vec<ShapedGlyph>,
    positions: &Vec<ShapedPosition>,
    scale: i32,
    glyphs: &mut Vec<GlyphPlan>,
    start: usize,
) -> (invalid: Vec<usize>)
    requires
        start <= old(glyphs)@.len(),
    ensures
        final(glyphs)@ == old(glyphs)@.take(start as int) + merged(
            old(glyphs)@.skip(start as int),
            face_ref,
            infos@,
            positions@,
            scale,
            shorter(infos@.len() as int, positions@.len() as int),
        ),
        invalid@ == still_missing(infos@, shorter(infos@.len() as int, positions@.len() as int)),
{
    let n = if infos.len() <= positions.len() {
        infos.len()
    } else {
        positions.len()
    };
    let ghost head = glyphs@.take(start as int);
    let ghost tail = glyphs@.skip(start as int);
    let mut invalid: Vec<usize> = Vec::new();
    let mut k: usize = 0;
    assert(glyphs@ =~= head + tail);
    while k < n
        invariant
            k <= n,
            n <= infos@.len(),
            n <= positions@.len(),
            start <= glyphs@.len(),
            head.len() == start,
            glyphs@ == head + merged(tail, face_ref, infos@, positions@, scale, k as int),
            invalid@ == still_missing(infos@, k as int),
        decreases n - k,
    {
        let info = infos[k];
        let idx = info.cluster as usize;
        let ghost before = merged(tail, face_ref, infos@, positions@, scale, k as int);
        if info.glyph_id > 0 {
            if idx < glyphs.len() - start {
                assert(glyphs@[start + idx] == before[idx as int]);
                if glyphs[start + idx].glyph_id == 0 {
                    glyphs.set(start + idx, make_plan(face_ref, &info, &positions[k], scale));
                    assert(glyphs@ =~= head + before.update(
                        idx as int,
                        plan_of(face_ref, info, positions@[k as int], scale),
                    ));
                }
            }
        } else {
            invalid.push(idx);
        }
        k = k + 1;
    }
    invalid
}

/// The character that stands at place `idx` of the text: the first of the
/// `inputs` at or behind `from` that starts at `idx` or before it and
/// reaches it gives it.
pub open spec fn char_at(inputs: Seq<(usize, Seq<char>)>, idx: int, from: int) -> Option<char>
    decreases inputs.len() - from,
{
    if from < 0 || from >= inputs.len() {
        None
    } else if inputs[from].0 <= idx && idx - inputs[from].0 < inputs[from].1.len() {
        Some(inputs[from].1[idx - inputs[from].0])
    } else {
        char_at(inputs, idx, from + 1)
    }
}

/// The inputs of a shaper as values.
pub open spec fn input_views(inputs: Seq<(usize, &str)>) -> Seq<(usize, Seq<char>)> {
    inputs.map_values(|i: (usize, &str)| (i.0, i.1@))
}

/// The character that stands at place `idx` of the text.
pub fn find_char(inputs: &Vec<(usize, &str)>, idx: usize) -> (r: Option<char>)
    ensures
        r == char_at(input_views(inputs@), idx as int, 0),
{
    let ghost views = input_views(inputs@);
    let mut i: usize = 0;
    while i < inputs.len()
        invariant
            i <= inputs@.len(),
            views == input_views(inputs@),
            char_at(views, idx as int, 0) == char_at(views, idx as int, i as int),
        decreases inputs@.len() - i,
    {
        let (offset, s) = inputs[i];
        assert(views[i as int] == (offset, s@));
        if offset <= idx {
            let at = idx - offset;
            if at < s.unicode_len() {
                return Some(s.get_char(at));
            }
        }
        i = i + 1;
    }
    None
}

/// What a fallback face is asked to shape: the character of each of the
/// first `k` places of `invalid` that has one within reach, with the place
/// as its cluster.
pub open spec fn asked(inputs: Seq<(usize, Seq<char>)>, invalid: Seq<usize>, k: int) -> Seq<
    (char, u32),
>
    decreases k,
{
    if k <= 0 {
        Seq::empty()
    } else {
        let rest = asked(inputs, invalid, k - 1);
        let idx = invalid[k - 1];
        match char_at(inputs, idx as int, 0) {
            Some(c) => if idx <= u32::MAX {
                rest.push((c, idx as u32))
            } else {
                rest
            },
            None => rest,
        }
    }
}

/// What a fallback face is asked to shape for the places `invalid`.
pub fn fallback_request(inputs: &Vec<(usize, &str)>, invalid: &Vec<usize>) -> (r: Vec<(char, u32)>)
    ensures
        r@ == asked(input_views(inputs@), invalid@, invalid@.len() as int),
{
    let mut r: Vec<(char, u32)> = Vec::new();
    let mut k: usize = 0;
    while k < invalid.len()
        invariant
            k <= invalid@.len(),
            r@ == asked(input_views(inputs@), invalid@, k as int),
        decreases invalid@.len() - k,
    {
        let idx = invalid[k];
        if let Some(c) = find_char(inputs, idx) {
            if idx <= u32::MAX as usize {
                r.push((c, idx as u32));
            }
        }
        k = k + 1;
    }
    r
}

/// A plan of the shaping engine with the script and language it was made for.
pub struct PlanEntry {
    script: u32,
    language: Option<String>,
    plan: ShapePlan,
}

impl PlanEntry {
    #[verifier::type_invariant]
    spec fn inv(&self) -> bool {
        plan_direction(self.plan) == 1 && plan_script(self.plan) == self.script
    }
}

/// A face of a shaper with the plans that were made for it: one for each
/// script and language that it has shaped.
pub struct ShapeFace<'a> {
    face: Face<'a>,
    plans: Vec<PlanEntry>,
}

/// Whether the plan `entry` was made for `script` and `language`.
spec fn is_for(entry: PlanEntry, script: u32, language: Option<String>) -> bool {
    entry.script == script && match (entry.language, language) {
        (Some(x), Some(y)) => x@ == y@,
        (None, None) => true,
        _ => false,
    }
}

/// The plan at place `at` of `after` is the one that a face with the plans
/// `before` shapes with: the first for its script and language. Where
/// `before` holds it, the plans are as they were; else it was added behind
/// them.
spec fn plan_found(before: Seq<PlanEntry>, after: Seq<PlanEntry>, at: int) -> bool {
    &&& 0 <= at < after.len()
    &&& forall|j: int|
        0 <= j < at ==> !is_for(#[trigger] after[j], after[at].script, after[at].language)
    &&& if at < before.len() {
        after == before
    } else {
        at == before.len() && after == before.push(after[at])
    }
}

/// What shaping does to the plans of a face: they are as they were, or one
/// plan was added behind them, for a script and language that none of them
/// was made for.
spec fn plans_kept(before: Seq<PlanEntry>, after: Seq<PlanEntry>) -> bool {
    ||| after == before
    ||| {
        &&& after == before.push(after.last())
        &&& forall|j: int|
            0 <= j < before.len() ==> !is_for(
                #[trigger] before[j],
                after.last().script,
                after.last().language,
            )
    }
}

/// Every plan of the face was made for it.
spec fn plans_fit<'a>(f: ShapeFace<'a>) -> bool {
    forall|j: int| 0 <= j < f.plans@.len() ==> plan_fits((#[trigger] f.plans@[j]).plan, f.face)
}

/// Every plan of every face was made for its face.
spec fn all_fit<'a>(faces: Seq<ShapeFace<'a>>) -> bool {
    forall|i: int| 0 <= i < faces.len() ==> plans_fit(#[trigger] faces[i])
}

/// The faces of the shaping engine behind the faces of a shaper.
spec fn engine_of<'a>(faces: Seq<ShapeFace<'a>>) -> Seq<Face<'a>> {
    faces.map_values(|f: ShapeFace<'a>| f.face)
}

/// Shapes text with the faces that were added to it.
pub struct SculptureShaper<'a> {
    scale_factor: i32,
    faces: Vec<ShapeFace<'a>>,
    fallback: Vec<ShapeFaceRef>,
    inputs: Vec<(usize, &'a str)>,
    buffer: UnicodeBuffer,
}

/// Whether both are no language, or the same language.
fn same_language(a: &Option<String>, b: &Option<String>) -> (r: bool)
    ensures
        r == (match (*a, *b) {
            (Some(x), Some(y)) => x@ == y@,
            (None, None) => true,
            _ => false,
        }),
{
    match (a, b) {
        (Some(x), Some(y)) => *x == *y,
        (None, None) => true,
        _ => false,
    }
}

impl<'a> ShapeFace<'a> {
    /// The place of the plan for the script and language of `buffer` among
    /// the plans of the face; the plan is made where the face has none yet.
    fn plan_for(&mut self, buffer: &UnicodeBuffer) -> (at: usize)
        requires
            buffer_direction(*buffer) == 1,
            settled_script(*buffer) is Some,
            buffer_plain(*buffer),
            plans_fit(*old(self)),
        ensures
            final(self).face == old(self).face,
            plan_found(old(self).plans@, final(self).plans@, at as int),
            plan_direction(final(self).plans@[at as int].plan) == 1,
            Some(plan_script(final(self).plans@[at as int].plan)) == settled_script(*buffer),
            plans_fit(*final(self)),
    {
        let script = buffer_script(buffer);
        let language = buffer_language(buffer);
        let mut i: usize = 0;
        while i < self.plans.len()
            invariant
                i <= self.plans@.len(),
                *self == *old(self),
                plans_fit(*old(self)),
                buffer_plain(*buffer),
                settled_script(*buffer) == Some(script as int),
                forall|j: int| 0 <= j < i ==> !is_for(#[trigger] self.plans@[j], script, language),
            decreases self.plans@.len() - i,
        {
            let entry = &self.plans[i];
            proof {
                use_type_invariant(entry);
            }
            if entry.script == script && same_language(&entry.language, &language) {
                return i;
            }
            i = i + 1;
        }
        let plan = new_plan(&self.face, buffer);
        self.plans.push(PlanEntry { script, language, plan });
        proof {
            assert forall|j: int| 0 <= j < self.plans@.len() implies plan_fits(
                (#[trigger] self.plans@[j]).plan,
                self.face,
            ) by {
                if j < old(self).plans@.len() {
                    assert(self.plans@[j] == old(self).plans@[j]);
                }
            }
        }
        self.plans.len() - 1
    }
}

/// Shapes what `buffer` holds with the face at place `at` and hands out the
/// glyphs and their places, the units of that face to the em, and the
/// buffer, cleared.
///
/// The face shapes with its plan for the script and language of the text,
/// which is made only where it has none. Nothing else changes in `faces`.
/// For a whole buffer the glyphs are those that the engine gives for the
/// face and the items of the buffer.
fn shape_buffer<'a>(faces: &mut Vec<ShapeFace<'a>>, at: usize, buffer: UnicodeBuffer) -> (r: (
    Vec<ShapedGlyph>,
    Vec<ShapedPosition>,
    i32,
    UnicodeBuffer,
))
    requires
        at < old(faces)@.len(),
        buffer_plain(buffer),
        all_fit(old(faces)@),
    ensures
        final(faces)@.len() == old(faces)@.len(),
        forall|i: int|
            0 <= i < old(faces)@.len() && i != at ==> final(faces)@[i] == old(faces)@[i],
        final(faces)@[at as int].face == old(faces)@[at as int].face,
        plans_kept(old(faces)@[at as int].plans@, final(faces)@[at as int].plans@),
        all_fit(final(faces)@),
        engine_of(final(faces)@) == engine_of(old(faces)@),
        r.2 == face_units(old(faces)@[at as int].face),
        r.0@.len() == r.1@.len(),
        buffer_items(buffer).len() == 0 ==> r.0@.len() == 0,
        buffer_whole(buffer) ==> r.0@ == glyphs_of(
            shaped_by(old(faces)@[at as int].face, buffer_items(buffer)),
        ) && r.1@ == places_of(shaped_by(old(faces)@[at as int].face, buffer_items(buffer))),
        buffer_plain(r.3),
        buffer_whole(r.3),
        buffer_items(r.3) == Seq::<(char, u32)>::empty(),
{
    let ghost items = buffer_items(buffer);
    let ghost whole = buffer_whole(buffer);
    let mut buffer = buffer;
    buffer_guess_segment(&mut buffer);
    buffer_set_left_to_right(&mut buffer);
    let mut slot = faces.remove(at);
    let ghost before = slot.plans@;
    assert(plans_fit(slot)) by {
        assert(slot == old(faces)@[at as int]);
    }
    let plan_at = slot.plan_for(&buffer);
    let ghost after = slot.plans@;
    proof {
        if plan_at >= before.len() {
            assert(after.last() == after[plan_at as int]);
            assert forall|j: int| 0 <= j < before.len() implies !is_for(
                #[trigger] before[j],
                after.last().script,
                after.last().language,
            ) by {
                assert(before[j] == after[j]);
            }
        }
        assert(plans_kept(before, after));
        assert(plan_fits(slot.plans@[plan_at as int].plan, slot.face));
    }
    let shaped = shape_with_plan(&slot.face, &slot.plans[plan_at].plan, buffer);
    let upem = units_per_em(&slot.face);
    let infos = glyph_infos(&shaped);
    let positions = glyph_positions(&shaped);
    let buffer = clear_glyphs(shaped);
    faces.insert(at, slot);
    proof {
        assert forall|i: int| 0 <= i < faces@.len() implies plans_fit(#[trigger] faces@[i]) by {
            if i != at {
                assert(faces@[i] == old(faces)@[i]);
            }
        }
        assert(engine_of(faces@) =~= engine_of(old(faces)@));
    }
    (infos, positions, upem, buffer)
}

/// Every fallback face is a face of the shaper.
pub open spec fn fallbacks_known(fallback: Seq<ShapeFaceRef>, faces: nat) -> bool {
    forall|i: int| 0 <= i < fallback.len() ==> (#[trigger] fallback[i]).0 < faces
}

/// The texts of a run as values.
pub open spec fn text_views(input: Seq<&str>) -> Seq<Seq<char>> {
    input.map_values(|t: &str| t@)
}

/// The items that the first `k` texts of a run give, one text behind the
/// other.
pub open spec fn run_items(texts: Seq<Seq<char>>, k: int) -> Seq<(char, u32)>
    decreases k,
{
    if k <= 0 {
        Seq::empty()
    } else {
        run_items(texts, k - 1) + text_items(texts[k - 1])
    }
}

/// The first `k` texts of a run, each with the number of items in front
/// of it.
pub open spec fn run_inputs(texts: Seq<Seq<char>>, k: int) -> Seq<(usize, Seq<char>)>
    decreases k,
{
    if k <= 0 {
        Seq::empty()
    } else {
        run_inputs(texts, k - 1).push((run_items(texts, k - 1).len() as usize, texts[k - 1]))
    }
}

/// The glyphs after the fallback faces from place `f` on were asked, one
/// after the other, for the glyphs at the places `invalid`, until none is
/// lacking or no face is left. Each face is asked to shape the characters
/// at the places that are still lacking, and what it gives is filled in.
/// Nothing is said where a request is longer than the engine takes.
pub open spec fn filled<'a>(
    faces: Seq<Face<'a>>,
    fallbacks: Seq<ShapeFaceRef>,
    inputs: Seq<(usize, Seq<char>)>,
    factor: i32,
    font_size: i32,
    glyphs: Seq<GlyphPlan>,
    invalid: Seq<usize>,
    f: int,
) -> Option<Seq<GlyphPlan>>
    decreases fallbacks.len() - f,
{
    if f < 0 || f >= fallbacks.len() || invalid.len() == 0 {
        Some(glyphs)
    } else {
        let request = asked(inputs, invalid, invalid.len() as int);
        if request.len() > ENGINE_ROOM {
            None
        } else {
            let face = faces[fallbacks[f].0 as int];
            let out = shaped_by(face, request);
            let scale = spec_glyph_scale(factor, font_size, face_units(face)) as i32;
            filled(
                faces,
                fallbacks,
                inputs,
                factor,
                font_size,
                merged(
                    glyphs,
                    fallbacks[f],
                    glyphs_of(out),
                    places_of(out),
                    scale,
                    out.len() as int,
                ),
                still_missing(glyphs_of(out), out.len() as int),
                f + 1,
            )
        }
    }
}

/// The glyphs of the run `texts`, shaped with the face `face_ref` at
/// `font_size`: the glyphs that the engine gives for that face and the
/// items of the run, with the fallback faces asked for those that the face
/// lacks. Nothing is said where the run or a request to a fallback face is
/// longer than the engine takes.
pub open spec fn shaped<'a>(
    faces: Seq<Face<'a>>,
    fallbacks: Seq<ShapeFaceRef>,
    scale_factor: i32,
    face_ref: ShapeFaceRef,
    font_size: i32,
    texts: Seq<Seq<char>>,
) -> Option<Seq<GlyphPlan>> {
    let items = run_items(texts, texts.len() as int);
    if items.len() > ENGINE_ROOM {
        None
    } else {
        let face = faces[face_ref.0 as int];
        let out = shaped_by(face, items);
        let scale = spec_glyph_scale(scale_factor, font_size, face_units(face)) as i32;
        filled(
            faces,
            fallbacks,
            run_inputs(texts, texts.len() as int),
            spec_px_per_pt(scale_factor) as i32,
            font_size,
            first_pass(face_ref, glyphs_of(out), places_of(out), scale, out.len() as int),
            missing(glyphs_of(out), out.len() as int),
            0,
        )
    }
}

/// Every place of a run has its character: the place `idx` of the run of
/// the first `n` texts holds the character of the item at that place, the
/// first character of a text like any other.
pub proof fn lemma_place_has_char(texts: Seq<Seq<char>>, n: int, idx: int)
    requires
        0 <= n <= texts.len(),
        0 <= idx < run_items(texts, n).len(),
        run_items(texts, n).len() <= usize::MAX,
    ensures
        char_at(run_inputs(texts, n), idx, 0) == Some(run_items(texts, n)[idx].0),
    decreases n,
{
    if n > 0 {
        let before = run_inputs(texts, n - 1);
        let start = run_items(texts, n - 1).len();
        let last = (start as usize, texts[n - 1]);
        lemma_run_grows(texts, n - 1, n);
        lemma_inputs_len(texts, n - 1);
        lemma_char_at_push(before, last, idx, 0);
        if idx < start {
            lemma_place_has_char(texts, n - 1, idx);
        } else {
            lemma_no_char_behind(texts, n - 1, idx, 0);
        }
    }
}

/// The first `n` texts of a run give `n` inputs.
proof fn lemma_inputs_len(texts: Seq<Seq<char>>, n: int)
    requires
        0 <= n,
    ensures
        run_inputs(texts, n).len() == n,
    decreases n,
{
    if n > 0 {
        lemma_inputs_len(texts, n - 1);
    }
}

/// A search through inputs with one more input looks at that one last.
proof fn lemma_char_at_push(
    inputs: Seq<(usize, Seq<char>)>,
    last: (usize, Seq<char>),
    idx: int,
    from: int,
)
    requires
        0 <= from <= inputs.len(),
    ensures
        char_at(inputs.push(last), idx, from) == (match char_at(inputs, idx, from) {
            Some(c) => Some(c),
            None => if last.0 <= idx && idx - last.0 < last.1.len() {
                Some(last.1[idx - last.0])
            } else {
                None
            },
        }),
    decreases inputs.len() - from,
{
    let more = inputs.push(last);
    if from < inputs.len() {
        assert(more[from] == inputs[from]);
        lemma_char_at_push(inputs, last, idx, from + 1);
    } else {
        assert(more[from] == last);
        assert(char_at(more, idx, from + 1) is None);
    }
}

/// No text of the first `n` reaches a place behind their items.
proof fn lemma_no_char_behind(texts: Seq<Seq<char>>, n: int, idx: int, from: int)
    requires
        0 <= n <= texts.len(),
        0 <= from <= n,
        run_items(texts, n).len() <= idx,
        run_items(texts, n).len() <= usize::MAX,
    ensures
        char_at(run_inputs(texts, n), idx, from) is None,
    decreases n - from,
{
    lemma_inputs_len(texts, n);
    if from < n {
        lemma_input_at(texts, n, from);
        lemma_run_grows(texts, from + 1, n);
        lemma_run_grows(texts, from, n);
        lemma_no_char_behind(texts, n, idx, from + 1);
    }
}

/// The input at place `i` is the text at place `i` with the number of items
/// in front of it.
proof fn lemma_input_at(texts: Seq<Seq<char>>, n: int, i: int)
    requires
        0 <= i < n,
    ensures
        run_inputs(texts, n).len() == n,
        run_inputs(texts, n)[i] == (run_items(texts, i).len() as usize, texts[i]),
    decreases n,
{
    lemma_inputs_len(texts, n);
    lemma_inputs_len(texts, n - 1);
    if i < n - 1 {
        lemma_input_at(texts, n - 1, i);
    }
}

/// A longer part of a run gives no fewer items.
proof fn lemma_run_grows(texts: Seq<Seq<char>>, i: int, j: int)
    requires
        0 <= i <= j,
    ensures
        run_items(texts, i).len() <= run_items(texts, j).len(),
    decreases j - i,
{
    if i < j {
        lemma_run_grows(texts, i, j - 1);
    }
}

impl<'a> SculptureShaper<'a> {
    /// The device scale, as bits of a fixed-point number.
    pub closed spec fn scale(&self) -> i32 {
        self.scale_factor
    }

    /// The faces of the shaping engine that the shaper holds, in the order
    /// of their numbers.
    pub closed spec fn engine_faces(&self) -> Seq<Face<'a>> {
        engine_of(self.faces@)
    }

    /// The number of faces.
    pub open spec fn face_count(&self) -> nat {
        self.engine_faces().len()
    }

    /// The faces that are asked for the glyphs that another face lacks, in
    /// the order in which they are asked.
    pub closed spec fn fallbacks(&self) -> Seq<ShapeFaceRef> {
        self.fallback@
    }

    #[verifier::type_invariant]
    spec fn inv(&self) -> bool {
        &&& fallbacks_known(self.fallback@, self.faces@.len())
        &&& all_fit(self.faces@)
        &&& buffer_plain(self.buffer)
        &&& buffer_whole(self.buffer)
        &&& buffer_items(self.buffer) == Seq::<(char, u32)>::empty()
    }

    /// A shaper without faces.
    pub fn new(scale_factor: i32) -> (s: Self)
        ensures
            s.scale() == scale_factor,
            s.face_count() == 0,
            s.fallbacks().len() == 0,
    {
        Self {
            scale_factor,
            faces: Vec::new(),
            fallback: Vec::new(),
            inputs: Vec::new(),
            buffer: new_buffer(),
        }
    }

    /// The number of faces.
    pub fn len(&self) -> (n: usize)
        ensures
            n == self.face_count(),
            fallbacks_known(self.fallbacks(), self.face_count()),
    {
        proof {
            use_type_invariant(self);
        }
        self.faces.len()
    }

    /// Adds a face and hands out its number. A shaper holds as many faces
    /// as can be numbered.
    pub fn add(self, face: Face<'a>, fallback: bool) -> (r: (SculptureShaper<'a>, ShapeFaceRef))
        requires
            self.face_count() < u32::MAX,
        ensures
            r.1.0 == self.face_count(),
            r.0.engine_faces() == self.engine_faces().push(face),
            r.0.scale() == self.scale(),
            r.0.fallbacks() == (if fallback {
                self.fallbacks().push(r.1)
            } else {
                self.fallbacks()
            }),
    {
        proof {
            use_type_invariant(&self);
        }
        let SculptureShaper { scale_factor, faces, fallback: fallbacks, inputs, buffer } = self;
        let mut faces = faces;
        let mut fallbacks = fallbacks;
        let ghost before = faces@;
        let face_ref = ShapeFaceRef(faces.len() as u32);
        faces.push(ShapeFace { face, plans: Vec::new() });
        if fallback {
            fallbacks.push(face_ref);
        }
        proof {
            assert(engine_of(faces@) =~= engine_of(before).push(face));
            assert forall|i: int| 0 <= i < faces@.len() implies plans_fit(#[trigger] faces@[i]) by {
                if i < before.len() {
                    assert(faces@[i] == before[i]);
                }
            }
        }
        (SculptureShaper { scale_factor, faces, fallback: fallbacks, inputs, buffer }, face_ref)
    }

    /// Shapes the texts of `input` as one run with the face `face_ref` at
    /// `font_size`, and adds the glyphs to `glyphs`.
    ///
    /// The shaper fails exactly where it holds no face `face_ref`, and then
    /// `glyphs` is untouched. Else the glyphs that are added are those that
    /// `shaped` gives for the faces of the shaper and the run; a run without
    /// characters adds none. Where the run is longer than the engine takes,
    /// the glyphs that were in `glyphs` still stay as they are, and each
    /// glyph that is added is of the face that was asked for or of a
    /// fallback face.
    pub fn shape(
        self,
        face_ref: ShapeFaceRef,
        font_size: i32,
        input: &Vec<&'a str>,
        glyphs: &mut Vec<GlyphPlan>,
    ) -> (r: Result<SculptureShaper<'a>, SculpterShapeError>)
        ensures
            match r {
                Ok(s) => {
                    &&& face_ref.0 < self.face_count()
                    &&& s.engine_faces() == self.engine_faces()
                    &&& s.scale() == self.scale()
                    &&& s.fallbacks() == self.fallbacks()
                    &&& old(glyphs)@.len() <= final(glyphs)@.len()
                    &&& final(glyphs)@.take(old(glyphs)@.len() as int) == old(glyphs)@
                    &&& forall|i: int|
                        old(glyphs)@.len() <= i < final(glyphs)@.len() ==> (
                        #[trigger] final(glyphs)@[i]).face_ref == face_ref
                            || self.fallbacks().contains(final(glyphs)@[i].face_ref)
                    &&& shaped(
                        self.engine_faces(),
                        self.fallbacks(),
                        self.scale(),
                        face_ref,
                        font_size,
                        text_views(input@),
                    ) is Some ==> final(glyphs)@ == old(glyphs)@ + shaped(
                        self.engine_faces(),
                        self.fallbacks(),
                        self.scale(),
                        face_ref,
                        font_size,
                        text_views(input@),
                    )->Some_0
                    &&& run_items(text_views(input@), input@.len() as int).len() == 0
                        ==> final(glyphs)@ == old(glyphs)@
                },
                Err(e) => e == SculpterShapeError::UnknownShapePlan(face_ref) && face_ref.0
                    >= self.face_count() && final(glyphs)@ == old(glyphs)@,
            },
    {
        proof {
            use_type_invariant(&self);
        }
        if face_ref.0 as usize >= self.faces.len() {
            return Err(SculpterShapeError::UnknownShapePlan(face_ref));
        }
        let ghost engine = self.engine_faces();
        let ghost texts = text_views(input@);
        let ghost whole_run = run_items(texts, texts.len() as int);
        let SculptureShaper { scale_factor, faces, fallback, inputs, buffer } = self;
        let mut faces = faces;
        let mut inputs = inputs;
        let mut buffer = buffer;
        inputs.clear();
        let mut i: usize = 0;
        assert(input_views(inputs@) =~= run_inputs(texts, 0));
        while i < input.len()
            invariant
                i <= input@.len(),
                texts == text_views(input@),
                whole_run == run_items(texts, texts.len() as int),
                buffer_plain(buffer),
                whole_run.len() <= ENGINE_ROOM ==> buffer_whole(buffer) && buffer_items(buffer)
                    == run_items(texts, i as int) && input_views(inputs@) == run_inputs(
                    texts,
                    i as int,
                ),
            decreases input@.len() - i,
        {
            let text = input[i];
            let start = buffer_len(&buffer);
            let ghost held = input_views(inputs@);
            inputs.push((start, text));
            buffer_push_str(&mut buffer, text);
            proof {
                assert(texts[i as int] == text@);
                lemma_run_grows(texts, i + 1, texts.len() as int);
                assert(input_views(inputs@) =~= held.push((start, text@)));
            }
            i = i + 1;
        }
        let ghost items = buffer_items(buffer);
        let ghost fits = whole_run.len() <= ENGINE_ROOM;
        let ghost views = input_views(inputs@);
        let (infos, positions, upem, buffer) = shape_buffer(
            &mut faces,
            face_ref.0 as usize,
            buffer,
        );
        let scale = glyph_scale(scale_factor, font_size, upem);
        let glyphs_start = glyphs.len();
        let invalid = collect_glyphs(face_ref, &infos, &positions, scale, glyphs);
        assert(glyphs@.take(glyphs_start as int) =~= old(glyphs)@);
        let ghost first = glyphs@;
        assert forall|i: int| glyphs_start <= i < first.len() implies (#[trigger] first[i]).face_ref
            == face_ref by {
            assert(first[i] == first_pass(
                face_ref,
                infos@,
                positions@,
                scale,
                shorter(infos@.len() as int, positions@.len() as int),
            )[i - glyphs_start]);
        }
        let ghost factor = spec_px_per_pt(scale_factor) as i32;
        let ghost tail = first.skip(glyphs_start as int);
        let shaper = SculptureShaper { scale_factor, faces, fallback, inputs, buffer };
        let shaper = shaper.shape_fallback(font_size, invalid, glyphs, glyphs_start);
        assert(glyphs@.take(glyphs_start as int) =~= old(glyphs)@);
        proof {
            if whole_run.len() == 0 {
                assert(items.len() == 0);
                assert(invalid@.len() == 0);
                assert(first =~= old(glyphs)@);
                assert(glyphs@ =~= old(glyphs)@);
            }
            if fits {
                let out = shaped_by(engine[face_ref.0 as int], whole_run);
                assert(items == whole_run);
                assert(infos@ == glyphs_of(out));
                assert(positions@ == places_of(out));
                assert(tail =~= first_pass(
                    face_ref,
                    glyphs_of(out),
                    places_of(out),
                    scale,
                    out.len() as int,
                ));
                let total = filled(
                    engine,
                    fallback@,
                    views,
                    factor,
                    font_size,
                    tail,
                    invalid@,
                    0,
                );
                if total is Some {
                    assert(glyphs@ =~= old(glyphs)@ + total->Some_0);
                }
            }
        }
        Ok(shaper)
    }

    /// Asks the fallback faces, one after the other, for the glyphs at the
    /// places `invalid` of `glyphs`, counted from `start`, until none is
    /// lacking or no face is left.
    ///
    /// The glyphs from `start` on become those that `filled` gives. Whatever
    /// the shaping engine gives, the glyphs in front of `start` stay as they
    /// are, no glyph is added or dropped, a glyph other than glyph 0 stays
    /// as it was, and a glyph that is not as it was is of a fallback face.
    fn shape_fallback(
        self,
        font_size: i32,
        invalid: Vec<usize>,
        glyphs: &mut Vec<GlyphPlan>,
        start: usize,
    ) -> (s: SculptureShaper<'a>)
        requires
            start <= old(glyphs)@.len(),
        ensures
            final(glyphs)@.len() == old(glyphs)@.len(),
            final(glyphs)@.take(start as int) == old(glyphs)@.take(start as int),
            forall|i: int|
                start <= i < old(glyphs)@.len() ==> (#[trigger] final(glyphs)@[i]) == old(glyphs)@[i]
                    || self.fallbacks().contains(final(glyphs)@[i].face_ref),
            forall|i: int|
                start <= i < old(glyphs)@.len() && old(glyphs)@[i].glyph_id != 0 ==> (
                #[trigger] final(glyphs)@[i]) == old(glyphs)@[i],
            filled(
                self.engine_faces(),
                self.fallbacks(),
                input_views(self.inputs@),
                spec_px_per_pt(self.scale()) as i32,
                font_size,
                old(glyphs)@.skip(start as int),
                invalid@,
                0,
            ) is Some ==> final(glyphs)@.skip(start as int) == filled(
                self.engine_faces(),
                self.fallbacks(),
                input_views(self.inputs@),
                spec_px_per_pt(self.scale()) as i32,
                font_size,
                old(glyphs)@.skip(start as int),
                invalid@,
                0,
            )->Some_0,
            s.engine_faces() == self.engine_faces(),
            s.scale() == self.scale(),
            s.fallbacks() == self.fallbacks(),
            s.inputs@ == self.inputs@,
    {
        proof {
            use_type_invariant(&self);
        }
        let ghost engine = self.engine_faces();
        let ghost views = input_views(self.inputs@);
        let SculptureShaper { scale_factor, faces, fallback, inputs, buffer } = self;
        let mut faces = faces;
        let mut buffer = buffer;
        let mut invalid = invalid;
        let factor = px_per_pt(scale_factor);
        let ghost count = faces@.len();
        let ghost total = filled(
            engine,
            fallback@,
            views,
            factor,
            font_size,
            old(glyphs)@.skip(start as int),
            invalid@,
            0,
        );
        let mut f: usize = 0;
        while f < fallback.len() && invalid.len() > 0
            invariant
                f <= fallback@.len(),
                faces@.len() == count,
                fallbacks_known(fallback@, count),
                engine_of(faces@) == engine,
                all_fit(faces@),
                views == input_views(inputs@),
                buffer_plain(buffer),
                buffer_whole(buffer),
                buffer_items(buffer) == Seq::<(char, u32)>::empty(),
                start <= glyphs@.len(),
                glyphs@.len() == old(glyphs)@.len(),
                glyphs@.take(start as int) == old(glyphs)@.take(start as int),
                forall|i: int|
                    start <= i < glyphs@.len() ==> (#[trigger] glyphs@[i]) == old(glyphs)@[i]
                        || fallback@.contains(glyphs@[i].face_ref),
                forall|i: int|
                    start <= i < glyphs@.len() && old(glyphs)@[i].glyph_id != 0 ==> (
                    #[trigger] glyphs@[i]) == old(glyphs)@[i],
                total is Some ==> total == filled(
                    engine,
                    fallback@,
                    views,
                    factor,
                    font_size,
                    glyphs@.skip(start as int),
                    invalid@,
                    f as int,
                ),
            decreases fallback@.len() - f,
        {
            let face_ref = fallback[f];
            let request = fallback_request(&inputs, &invalid);
            let mut k: usize = 0;
            assert(request@.take(0) =~= Seq::<(char, u32)>::empty());
            while k < request.len()
                invariant
                    k <= request@.len(),
                    buffer_plain(buffer),
                    request@.len() <= ENGINE_ROOM ==> buffer_whole(buffer) && buffer_items(buffer)
                        == request@.take(k as int),
                decreases request@.len() - k,
            {
                let (c, cluster) = request[k];
                buffer_add(&mut buffer, c, cluster);
                assert(request@.take(k + 1) =~= request@.take(k as int).push(request@[k as int]));
                k = k + 1;
            }
            assert(request@.take(request@.len() as int) =~= request@);
            let ghost asked_whole = request@.len() <= ENGINE_ROOM;
            let ghost face = faces@[face_ref.0 as int].face;
            assert(face == engine[face_ref.0 as int]);
            let (infos, positions, upem, cleared) = shape_buffer(
                &mut faces,
                face_ref.0 as usize,
                buffer,
            );
            buffer = cleared;
            let scale = glyph_scale(factor, font_size, upem);
            let ghost before = glyphs@;
            let ghost lacking = invalid@;
            invalid = merge_fallback(face_ref, &infos, &positions, scale, glyphs, start);
            proof {
                let n = shorter(infos@.len() as int, positions@.len() as int);
                lemma_merged_keeps_length(
                    before.skip(start as int),
                    face_ref,
                    infos@,
                    positions@,
                    scale,
                    n,
                );
                assert(glyphs@.take(start as int) =~= before.take(start as int));
                assert forall|i: int| start <= i < glyphs@.len() implies (#[trigger] glyphs@[i])
                    == old(glyphs)@[i] || fallback@.contains(glyphs@[i].face_ref) by {
                    lemma_merged_is_of_face(
                        before.skip(start as int),
                        face_ref,
                        infos@,
                        positions@,
                        scale,
                        n,
                        i - start,
                    );
                    assert(before.skip(start as int)[i - start] == before[i]);
                    assert(fallback@[f as int] == face_ref);
                }
                assert forall|i: int|
                    start <= i < glyphs@.len() && old(glyphs)@[i].glyph_id != 0 implies (
                #[trigger] glyphs@[i]) == old(glyphs)@[i] by {
                    assert(before.skip(start as int)[i - start] == before[i]);
                    lemma_merged_keeps_found(
                        before.skip(start as int),
                        face_ref,
                        infos@,
                        positions@,
                        scale,
                        n,
                        i - start,
                    );
                }
                if total is Some {
                    assert(request@ == asked(views, lacking, lacking.len() as int));
                    assert(asked_whole);
                    let out = shaped_by(face, request@);
                    assert(infos@ == glyphs_of(out));
                    assert(positions@ == places_of(out));
                    assert(n == out.len());
                    assert(glyphs@.skip(start as int) =~= merged(
                        before.skip(start as int),
                        face_ref,
                        glyphs_of(out),
                        places_of(out),
                        scale,
                        out.len() as int,
                    ));
                }
            }
            f = f + 1;
        }
        SculptureShaper { scale_factor, faces, fallback, inputs, buffer }
    }
}

/// Filling in leaves as many glyphs as there were.
pub proof fn lemma_merged_keeps_length(
    glyphs: Seq<GlyphPlan>,
    face_ref: ShapeFaceRef,
    infos: Seq<ShapedGlyph>,
    positions: Seq<ShapedPosition>,
    scale: i32,
    k: int,
)
    ensures
        merged(glyphs, face_ref, infos, positions, scale, k).len() == glyphs.len(),
    decreases k,
{
    if k > 0 {
        lemma_merged_keeps_length(glyphs, face_ref, infos, positions, scale, k - 1);
    }
}

/// Every glyph is as it was or is of the face that filled in.
pub proof fn lemma_merged_is_of_face(
    glyphs: Seq<GlyphPlan>,
    face_ref: ShapeFaceRef,
    infos: Seq<ShapedGlyph>,
    positions: Seq<ShapedPosition>,
    scale: i32,
    k: int,
    i: int,
)
    requires
        0 <= i < glyphs.len(),
    ensures
        merged(glyphs, face_ref, infos, positions, scale, k)[i] == glyphs[i] || merged(
            glyphs,
            face_ref,
            infos,
            positions,
            scale,
            k,
        )[i].face_ref == face_ref,
    decreases k,
{
    if k > 0 {
        lemma_merged_is_of_face(glyphs, face_ref, infos, positions, scale, k - 1, i);
        lemma_merged_keeps_length(glyphs, face_ref, infos, positions, scale, k - 1);
    }
}

/// Filling in touches no place where a glyph other than glyph 0 stands:
/// what one face gave is not replaced by what a later face gives.
pub proof fn lemma_merged_keeps_found(
    glyphs: Seq<GlyphPlan>,
    face_ref: ShapeFaceRef,
    infos: Seq<ShapedGlyph>,
    positions: Seq<ShapedPosition>,
    scale: i32,
    k: int,
    i: int,
)
    requires
        0 <= i < glyphs.len(),
        glyphs[i].glyph_id != 0,
    ensures
        merged(glyphs, face_ref, infos, positions, scale, k)[i] == glyphs[i],
    decreases k,
{
    if k > 0 {
        lemma_merged_keeps_found(glyphs, face_ref, infos, positions, scale, k - 1, i);
        lemma_merged_keeps_length(glyphs, face_ref, infos, positions, scale, k - 1);
    }
}

} // verus!
