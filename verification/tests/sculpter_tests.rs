use illustrator::sculpter::catalog::{
    collect_families, create_font_entry, create_font_fallback, FaceName, Family, FontEntry,
    FontOptions, Sculpter, SculpterLoadError,
};
use illustrator::sculpter::error::{SculpterCreateError, SculpterShapeError, SculpturePrinterError};
use illustrator::sculpter::fixed::{from_int, fx_add, fx_div, fx_mul};
use illustrator::sculpter::layout::{breakpoints, fill_lines, Breakpoint, BreakpointType, Line};
use illustrator::sculpter::printer::{AtlasRect, GlyphIdent, SculpturePrinter};
use illustrator::sculpter::shaper::{
    collect_glyphs, fallback_request, find_char, glyph_scale, merge_fallback, px_per_pt, GlyphPlan,
    GlyphPosition, SculptureShaper, ShapeFaceRef, ShapedGlyph, ShapedPosition,
};

fn table(tag: &[u8; 4], offset: u32, length: u32) -> Vec<u8> {
    let mut record = tag.to_vec();
    record.extend_from_slice(&[0, 0, 0, 0]);
    record.extend_from_slice(&offset.to_be_bytes());
    record.extend_from_slice(&length.to_be_bytes());
    record
}

/// A font with one glyph and no character map: it lacks every character.
fn bare_font(units_per_em: u16) -> Vec<u8> {
    let mut font = vec![0, 1, 0, 0, 0, 3, 0, 32, 0, 1, 0, 16];
    font.extend(table(b"head", 60, 54));
    font.extend(table(b"hhea", 116, 36));
    font.extend(table(b"maxp", 152, 6));
    let mut head = vec![0, 1, 0, 0, 0, 1, 0, 0, 0, 0, 0, 0, 0x5f, 0x0f, 0x3c, 0xf5, 0, 0];
    head.extend_from_slice(&units_per_em.to_be_bytes());
    head.extend_from_slice(&[0; 34]);
    assert_eq!(head.len(), 54);
    font.extend(head);
    font.extend_from_slice(&[0, 0]);
    font.extend_from_slice(&[0, 1, 0, 0]);
    font.extend_from_slice(&[0; 2]);
    font.extend_from_slice(&[0; 30]);
    assert_eq!(font.len(), 152);
    font.extend_from_slice(&[0, 0, 0x50, 0, 0, 1]);
    font
}

/// A font without a character map whose name table holds a family name for
/// each of `names`: the id of its language and its text.
fn named_font(names: &[(u16, &str)]) -> Vec<u8> {
    let mut records: Vec<u8> = Vec::new();
    let mut storage: Vec<u8> = Vec::new();
    for (language, text) in names {
        let bytes: Vec<u8> = text.encode_utf16().flat_map(|u| u.to_be_bytes()).collect();
        for v in [3u16, 1, *language, 1, bytes.len() as u16, storage.len() as u16] {
            records.extend_from_slice(&v.to_be_bytes());
        }
        storage.extend(bytes);
    }
    let mut name = vec![0, 0];
    name.extend_from_slice(&(names.len() as u16).to_be_bytes());
    name.extend_from_slice(&((6 + records.len()) as u16).to_be_bytes());
    name.extend(records);
    name.extend(storage);
    let mut font = vec![0, 1, 0, 0, 0, 4, 0, 64, 0, 2, 0, 0];
    font.extend(table(b"head", 76, 54));
    font.extend(table(b"hhea", 132, 36));
    font.extend(table(b"maxp", 168, 6));
    font.extend(table(b"name", 176, name.len() as u32));
    font.extend_from_slice(&[0, 1, 0, 0, 0, 1, 0, 0, 0, 0, 0, 0, 0x5f, 0x0f, 0x3c, 0xf5, 0, 0]);
    font.extend_from_slice(&1000u16.to_be_bytes());
    font.extend_from_slice(&[0; 34]);
    font.extend_from_slice(&[0, 0]);
    font.extend_from_slice(&[0, 1, 0, 0]);
    font.extend_from_slice(&[0; 32]);
    assert_eq!(font.len(), 168);
    font.extend_from_slice(&[0, 0, 0x50, 0, 0, 1, 0, 0]);
    font.extend(name);
    font
}

/// A font with two glyphs whose character map gives glyph 1 to `c` and
/// lacks every other character.
fn font_with(c: char) -> Vec<u8> {
    let code = c as u16;
    let delta = 1u16.wrapping_sub(code);
    let mut cmap: Vec<u8> = Vec::new();
    for v in [0u16, 1, 3, 1, 0, 12] {
        cmap.extend_from_slice(&v.to_be_bytes());
    }
    for v in [4u16, 32, 0, 4, 4, 1, 0, code, 0xffff, 0, code, 0xffff, delta, 1, 0, 0] {
        cmap.extend_from_slice(&v.to_be_bytes());
    }
    assert_eq!(cmap.len(), 44);
    let mut font = vec![0, 1, 0, 0, 0, 4, 0, 64, 0, 2, 0, 0];
    font.extend(table(b"cmap", 76, 44));
    font.extend(table(b"head", 120, 54));
    font.extend(table(b"hhea", 176, 36));
    font.extend(table(b"maxp", 212, 6));
    font.extend(cmap);
    font.extend_from_slice(&[0, 1, 0, 0, 0, 1, 0, 0, 0, 0, 0, 0, 0x5f, 0x0f, 0x3c, 0xf5, 0, 0]);
    font.extend_from_slice(&1000u16.to_be_bytes());
    font.extend_from_slice(&[0; 34]);
    font.extend_from_slice(&[0, 0]);
    font.extend_from_slice(&[0, 1, 0, 0]);
    font.extend_from_slice(&[0; 32]);
    assert_eq!(font.len(), 212);
    font.extend_from_slice(&[0, 0, 0x50, 0, 0, 2]);
    font
}

fn pos(x_advance: i32) -> ShapedPosition {
    ShapedPosition { x_advance, y_advance: 0, x_offset: 0, y_offset: 0 }
}

fn plan(face: u32, glyph_id: u16, x_advance: i32) -> GlyphPlan {
    GlyphPlan {
        face_ref: ShapeFaceRef(face),
        glyph_id,
        pos: GlyphPosition { x_advance, y_advance: 0, x_offset: 0, y_offset: 0 },
    }
}

fn name(name_id: u16, unicode: bool, text: Option<&str>, language: &str) -> FaceName {
    FaceName { name_id, unicode, text: text.map(|t| t.to_string()), language: language.to_string() }
}

#[test]
fn fixed_point_numbers_round_and_stop() {
    assert_eq!(from_int(3), 192);
    assert_eq!(from_int(i32::MAX), i32::MAX);
    assert_eq!(from_int(i32::MIN), i32::MIN);
    // 1.5 * 2.5 = 3.75
    assert_eq!(fx_mul(96, 160), 240);
    // Products are rounded down, also below zero.
    assert_eq!(fx_mul(1, 1), 0);
    assert_eq!(fx_mul(-1, 1), -1);
    assert_eq!(fx_mul(-96, 160), -240);
    assert_eq!(fx_mul(i32::MAX, i32::MAX), i32::MAX);
    assert_eq!(fx_mul(i32::MIN, i32::MAX), i32::MIN);
    // 3 / 2 = 1.5
    assert_eq!(fx_div(192, 128), 96);
    // Quotients are rounded towards zero.
    assert_eq!(fx_div(64, 192), 21);
    assert_eq!(fx_div(-64, 192), -21);
    assert_eq!(fx_div(64, -192), -21);
    assert_eq!(fx_div(5, 0), 0);
    assert_eq!(fx_div(i32::MAX, 1), i32::MAX);
    assert_eq!(fx_div(i32::MIN, 1), i32::MIN);
    assert_eq!(fx_add(i32::MAX, 1), i32::MAX);
    assert_eq!(fx_add(i32::MIN, -1), i32::MIN);
    assert_eq!(fx_add(-5, 7), 2);
    // 96 pixels to 72 points.
    assert_eq!(px_per_pt(64), 85);
    assert_eq!(px_per_pt(128), 170);
    // Scale 2 at size 12 for 1000 units to the em, the units taken as bits.
    assert_eq!(glyph_scale(128, 12 * 64, 1000), 98);
    assert_eq!(glyph_scale(128, 12 * 64, 0), 0);
}

#[test]
fn glyphs_are_collected_and_missing_ones_noted() {
    let infos = vec![
        ShapedGlyph { glyph_id: 7, cluster: 0 },
        ShapedGlyph { glyph_id: 0, cluster: 1 },
        ShapedGlyph { glyph_id: 0x1_0005, cluster: 2 },
        ShapedGlyph { glyph_id: 0, cluster: 3 },
        ShapedGlyph { glyph_id: 9, cluster: 4 },
    ];
    let positions = vec![pos(64), pos(128), pos(-64), pos(0)];
    let mut glyphs = vec![plan(9, 9, 9)];
    let invalid = collect_glyphs(ShapeFaceRef(2), &infos, &positions, 32, &mut glyphs);
    assert_eq!(invalid, vec![1, 3]);
    assert_eq!(
        glyphs,
        vec![plan(9, 9, 9), plan(2, 7, 32), plan(2, 0, 64), plan(2, 5, -32), plan(2, 0, 0)]
    );
}

#[test]
fn fallback_fills_only_what_is_missing() {
    let mut glyphs = vec![plan(0, 1, 0), plan(0, 7, 10), plan(0, 0, 20), plan(0, 0, 30), plan(0, 8, 40)];
    let infos = vec![
        ShapedGlyph { glyph_id: 50, cluster: 1 },
        ShapedGlyph { glyph_id: 0, cluster: 2 },
        ShapedGlyph { glyph_id: 51, cluster: 0 },
        ShapedGlyph { glyph_id: 52, cluster: 3 },
        ShapedGlyph { glyph_id: 53, cluster: 1 },
        ShapedGlyph { glyph_id: 54, cluster: 9 },
    ];
    let positions = vec![pos(64), pos(64), pos(64), pos(64), pos(64), pos(64)];
    let invalid = merge_fallback(ShapeFaceRef(3), &infos, &positions, 64, &mut glyphs, 1);
    assert_eq!(invalid, vec![2]);
    assert_eq!(
        glyphs,
        vec![plan(0, 1, 0), plan(0, 7, 10), plan(3, 50, 64), plan(0, 0, 30), plan(0, 8, 40)]
    );
    // A later face fills what is still missing, and only that.
    let infos = vec![ShapedGlyph { glyph_id: 60, cluster: 2 }, ShapedGlyph { glyph_id: 61, cluster: 1 }];
    let invalid = merge_fallback(ShapeFaceRef(4), &infos, &positions, 128, &mut glyphs, 1);
    assert!(invalid.is_empty());
    assert_eq!(
        glyphs,
        vec![plan(0, 1, 0), plan(0, 7, 10), plan(3, 50, 64), plan(4, 60, 128), plan(0, 8, 40)]
    );
}

#[test]
fn characters_are_found_by_their_place() {
    let inputs = vec![(0usize, "ab"), (2, "çd"), (4, "e")];
    assert_eq!(find_char(&inputs, 0), Some('a'));
    assert_eq!(find_char(&inputs, 1), Some('b'));
    assert_eq!(find_char(&inputs, 2), Some('ç'));
    assert_eq!(find_char(&inputs, 3), Some('d'));
    assert_eq!(find_char(&inputs, 4), Some('e'));
    assert_eq!(find_char(&inputs, 5), None);
    assert_eq!(find_char(&vec![(0usize, ""), (0, "x")], 0), Some('x'));
    assert_eq!(find_char(&vec![], 0), None);
    let overlapping = vec![(0usize, "abc"), (1, "xyz")];
    assert_eq!(find_char(&overlapping, 2), Some('c'));
    assert_eq!(find_char(&overlapping, 3), Some('z'));
    // The first character of a text is asked of the fallback faces like any other.
    assert_eq!(fallback_request(&inputs, &vec![0, 1, 3, 7]), vec![('a', 0), ('b', 1), ('d', 3)]);
    assert_eq!(fallback_request(&vec![(0usize, "x")], &vec![0]), vec![('x', 0)]);
}

#[test]
fn shaper_shapes_with_the_face_that_is_asked_for() {
    let data = bare_font(1000);
    let fallback_data = bare_font(2048);
    let shaper = SculptureShaper::new(64);
    let face = rustybuzz::Face::from_slice(&data, 0).expect("a face");
    let (shaper, first) = shaper.add(face, false);
    let face = rustybuzz::Face::from_slice(&fallback_data, 0).expect("a face");
    let (shaper, second) = shaper.add(face, true);
    assert_eq!((first, second), (ShapeFaceRef(0), ShapeFaceRef(1)));
    assert_eq!(shaper.len(), 2);

    let mut glyphs = vec![plan(5, 5, 5)];
    let shaper = shaper.shape(first, 12 * 64, &vec!["ab", "c"], &mut glyphs).expect("shaped");
    assert_eq!(glyphs[0], plan(5, 5, 5));
    assert_eq!(glyphs.len(), 4);
    for glyph in &glyphs[1..] {
        assert_eq!(glyph.glyph_id, 0);
        assert_eq!(glyph.face_ref, first);
    }
    // A second run, in another script, finds the shaper ready.
    let shaper = shaper.shape(second, 12 * 64, &vec!["שלום"], &mut glyphs).expect("shaped");
    assert_eq!(glyphs.len(), 8);
    let shaper = shaper.shape(first, 12 * 64, &vec![], &mut glyphs).expect("shaped");
    assert_eq!(glyphs.len(), 8);

    let before = glyphs.clone();
    match shaper.shape(ShapeFaceRef(2), 12 * 64, &vec!["x"], &mut glyphs) {
        Err(SculpterShapeError::UnknownShapePlan(face_ref)) => assert_eq!(face_ref, ShapeFaceRef(2)),
        Err(other) => panic!("unexpected {other:?}"),
        Ok(_) => panic!("no face 2"),
    }
    assert_eq!(glyphs, before);
}

#[test]
fn a_lacking_glyph_comes_from_the_first_fallback_face_that_has_it() {
    let plain = bare_font(1000);
    let with_y = font_with('y');
    let with_x = font_with('x');
    let also_x = font_with('x');
    let shaper = SculptureShaper::new(64);
    let (shaper, first) = shaper.add(rustybuzz::Face::from_slice(&plain, 0).expect("a face"), false);
    let (shaper, y_face) = shaper.add(rustybuzz::Face::from_slice(&with_y, 0).expect("a face"), true);
    let (shaper, x_face) = shaper.add(rustybuzz::Face::from_slice(&with_x, 0).expect("a face"), true);
    let (shaper, _) = shaper.add(rustybuzz::Face::from_slice(&also_x, 0).expect("a face"), true);

    // The first character of the run and the first of a later text are
    // looked for like any other.
    let mut glyphs = vec![plan(9, 9, 9)];
    let shaper = shaper.shape(first, 12 * 64, &vec!["xay", "x", "", "yx"], &mut glyphs).expect("shaped");
    let found: Vec<(ShapeFaceRef, u16)> = glyphs.iter().map(|g| (g.face_ref, g.glyph_id)).collect();
    assert_eq!(
        found,
        vec![
            (ShapeFaceRef(9), 9),
            (x_face, 1),
            (first, 0),
            (y_face, 1),
            (x_face, 1),
            (y_face, 1),
            (x_face, 1),
        ]
    );

    // A face that has the glyph is not asked further.
    let mut glyphs = Vec::new();
    let shaper = shaper.shape(x_face, 12 * 64, &vec!["xy"], &mut glyphs).expect("shaped");
    let found: Vec<(ShapeFaceRef, u16)> = glyphs.iter().map(|g| (g.face_ref, g.glyph_id)).collect();
    assert_eq!(found, vec![(x_face, 1), (y_face, 1)]);
    assert_eq!(shaper.len(), 4);
}

#[test]
fn a_glyph_gets_one_rectangle_however_often_it_is_asked_for() {
    let mut printer = SculpturePrinter::new(64, (2048, 2048));
    assert_eq!(printer.atlas_size(), (1024, 1024));
    let glyph = plan(0, 65, 640);
    let ident = GlyphIdent::new(12 * 64, &glyph);
    assert_eq!(printer.lookup(ident), None);
    assert!(!printer.take_refresh());

    let rect = printer.alloc_glyph(ident, 10, 12).expect("room");
    assert_eq!(rect.max_x - rect.min_x, 10);
    assert!(rect.max_y - rect.min_y >= 12);
    assert!(0 <= rect.min_x && rect.max_x <= 1024 && 0 <= rect.min_y && rect.max_y <= 1024);
    assert!(printer.take_refresh());
    assert!(!printer.take_refresh());

    // The second request finds the rectangle: nothing is allocated, nothing is to be drawn.
    assert_eq!(printer.lookup(ident), Some(rect));
    assert_eq!(printer.alloc_glyph(ident, 10, 12), Ok(rect));
    assert_eq!(printer.alloc_glyph(ident, 900, 900), Ok(rect));
    assert!(!printer.take_refresh());

    // Another size of the glyph is another image, apart from the first.
    let larger = GlyphIdent::new(24 * 64, &glyph);
    let other = printer.alloc_glyph(larger, 20, 24).expect("room");
    assert_ne!(other, rect);
    assert!(
        other.max_x <= rect.min_x
            || rect.max_x <= other.min_x
            || other.max_y <= rect.min_y
            || rect.max_y <= other.min_y
    );
    assert!(printer.take_refresh());
}

#[test]
fn the_atlas_grows_as_far_as_it_may() {
    let mut printer = SculpturePrinter::new(64, (1500, 3000));
    assert_eq!(printer.atlas_size(), (1024, 1024));
    let mut rects: Vec<AtlasRect> = Vec::new();
    let mut failed = None;
    for i in 0..20u16 {
        let ident = GlyphIdent { face_ref: ShapeFaceRef(0), glyph_id: i, size: 640 };
        match printer.alloc_glyph(ident, 700, 700) {
            Ok(rect) => rects.push(rect),
            Err(e) => {
                failed = Some((i, e));
                break;
            }
        }
    }
    let (at, error) = failed.expect("the atlas is full at last");
    assert_eq!(error, SculpturePrinterError::GrowAtlasFailed);
    assert!(at >= 2);
    let (w, h) = printer.atlas_size();
    assert!(1024 <= w && w <= 1500 && 1024 <= h && h <= 3000);
    assert!(h > 1024);
    for (i, a) in rects.iter().enumerate() {
        assert!(a.max_x <= w && a.max_y <= h);
        for b in &rects[..i] {
            assert!(a.max_x <= b.min_x || b.max_x <= a.min_x || a.max_y <= b.min_y || b.max_y <= a.min_y);
        }
    }
    // An image without width or height has no rectangle.
    let flat = GlyphIdent { face_ref: ShapeFaceRef(1), glyph_id: 0, size: 640 };
    assert_eq!(printer.alloc_glyph(flat, 0, 10), Err(SculpturePrinterError::GrowAtlasFailed));
    assert_eq!(printer.alloc_glyph(flat, 10, -1), Err(SculpturePrinterError::GrowAtlasFailed));
    // A limit that is smaller than the first size is kept.
    let small = SculpturePrinter::new(64, (300, 200));
    assert_eq!(small.atlas_size(), (300, 200));
    let huge = SculpturePrinter::new(64, (u16::MAX, u16::MAX));
    assert_eq!(huge.atlas_size(), (1024, 1024));
}

#[test]
fn an_empty_atlas_has_room_for_what_it_can_hold() {
    // The whole atlas, and the whole of a small one.
    let mut printer = SculpturePrinter::new(64, (1024, 1024));
    let ident = GlyphIdent { face_ref: ShapeFaceRef(0), glyph_id: 1, size: 640 };
    let rect = printer.alloc_glyph(ident, 1024, 1024).expect("an empty atlas");
    assert_eq!((rect.min_x, rect.min_y, rect.max_x, rect.max_y), (0, 0, 1024, 1024));
    assert_eq!(printer.atlas_size(), (1024, 1024));
    let mut small = SculpturePrinter::new(64, (300, 200));
    assert!(small.alloc_glyph(ident, 300, 200).is_ok());
    assert!(small.alloc_glyph(ident, 1, 1).is_ok());
    // Wider than the atlas may get: it grows as far as it may and fails.
    let mut narrow = SculpturePrinter::new(64, (300, 200));
    assert_eq!(narrow.alloc_glyph(ident, 301, 10), Err(SculpturePrinterError::GrowAtlasFailed));
    assert_eq!(narrow.lookup(ident), None);
    // No room as it is, room once it has grown.
    let mut grows = SculpturePrinter::new(64, (2048, 2048));
    assert!(grows.alloc_glyph(ident, 1500, 10).is_ok());
    assert_eq!(grows.atlas_size(), (2048, 2048));
}

#[test]
fn the_images_that_lines_need_are_listed_once() {
    let mut printer = SculpturePrinter::new(64, (1024, 1024));
    let a = plan(0, 65, 640);
    let b = plan(0, 66, 640);
    let c = plan(1, 65, 320);
    let first = [a, b, a];
    let second = [c, b, a, c];
    let lines = vec![Line { glyphs: &first }, Line { glyphs: &second }];
    let size = 12 * 64;
    assert_eq!(
        printer.unpacked(size, &lines),
        vec![GlyphIdent::new(size, &a), GlyphIdent::new(size, &b), GlyphIdent::new(size, &c)]
    );
    // Lines that lack an image are not printed.
    assert_eq!(
        printer.print_lines(size, 64, &lines).err(),
        Some(SculpturePrinterError::OutlineMissing(65))
    );
    // A glyph that has its rectangle is not listed; another size of it is.
    let rect_b = printer.alloc_glyph(GlyphIdent::new(size, &b), 8, 9).expect("room");
    assert_eq!(
        printer.unpacked(size, &lines),
        vec![GlyphIdent::new(size, &a), GlyphIdent::new(size, &c)]
    );
    assert_eq!(printer.unpacked(size + 1, &lines).len(), 3);
    // Once each of them has its rectangle, every glyph is printed, and the
    // same glyph shows the same part of the atlas wherever it stands.
    let mut given = 1;
    for ident in printer.unpacked(size, &lines) {
        printer.alloc_glyph(ident, 7, 9).expect("room");
        given += 1;
    }
    assert_eq!(given, 3);
    assert!(printer.unpacked(size, &lines).is_empty());
    let out = printer.print_lines(size, 64, &lines).expect("printed");
    assert_eq!(out.len(), 7);
    assert_eq!((out[0].uv_pos, out[0].uv_size), (out[2].uv_pos, out[2].uv_size));
    assert_eq!((out[0].uv_pos, out[0].uv_size), (out[5].uv_pos, out[5].uv_size));
    assert_eq!((out[3].uv_pos, out[3].uv_size), (out[6].uv_pos, out[6].uv_size));
    assert_eq!(out[1].uv_pos, (rect_b.min_x, rect_b.min_y));
    assert_ne!(out[0].uv_pos, out[1].uv_pos);
    assert!(printer.unpacked(size, &Vec::new()).is_empty());
}

#[test]
fn lines_are_printed_with_a_running_pen() {
    let mut printer = SculpturePrinter::new(64, (1024, 1024));
    let a = GlyphPlan {
        face_ref: ShapeFaceRef(0),
        glyph_id: 1,
        pos: GlyphPosition { x_advance: 640, y_advance: 0, x_offset: 0, y_offset: 0 },
    };
    let b = GlyphPlan {
        face_ref: ShapeFaceRef(0),
        glyph_id: 2,
        pos: GlyphPosition { x_advance: 320, y_advance: 0, x_offset: 64, y_offset: -128 },
    };
    let size = 12 * 64;
    let first = [a, b];
    let second = [a];
    let lines = vec![Line { glyphs: &first }, Line { glyphs: &second }];
    assert_eq!(
        printer.print_lines(size, 96, &lines).map(|v| v.len()),
        Err(SculpturePrinterError::OutlineMissing(1))
    );
    let rect_a = printer.alloc_glyph(GlyphIdent::new(size, &a), 8, 10).unwrap();
    assert_eq!(
        printer.print_lines(size, 96, &lines).map(|v| v.len()),
        Err(SculpturePrinterError::OutlineMissing(2))
    );
    let rect_b = printer.alloc_glyph(GlyphIdent::new(size, &b), 4, 5).unwrap();
    let out = printer.print_lines(size, 96, &lines).unwrap();
    assert_eq!(out.len(), 3);
    assert_eq!((out[0].pos, out[0].size), ((0, 0), (640, 0)));
    assert_eq!(out[0].uv_pos, (rect_a.min_x, rect_a.min_y));
    assert_eq!(out[0].uv_size, (8, rect_a.max_y - rect_a.min_y));
    assert_eq!((out[1].pos, out[1].size), ((704, -128), (320, 0)));
    assert_eq!(out[1].uv_pos, (rect_b.min_x, rect_b.min_y));
    // 12 pt at a line height of 1.5 em and 85/64 pixels to the point: 18 * 85 / 64,
    // rounded down in 64ths. The pen is not set back to the left.
    assert_eq!(out[2].pos, (1024, 1530));
    assert!(printer.print_lines(size, 96, &vec![]).unwrap().is_empty());
}

#[test]
fn families_are_read_from_the_names() {
    let names = vec![
        name(1, true, Some("Plain"), "German_Germany"),
        name(16, false, Some("Legacy"), "English_UnitedStates"),
        name(16, true, None, "English_UnitedStates"),
        name(16, true, Some("Feine"), "German_Germany"),
        name(4, true, Some("Full"), "English_UnitedStates"),
        name(16, true, Some("Fine"), "English_UnitedStates"),
        name(16, true, Some("Fine US"), "English_UnitedStates"),
    ];
    let families = collect_families(&names);
    let texts: Vec<_> = families.iter().map(|f| f.0.as_str()).collect();
    assert_eq!(texts, vec!["Fine", "Feine", "Fine US"]);
    let plain = collect_families(&names[..1].iter().map(|n| name(n.name_id, n.unicode, n.text.as_deref(), &n.language)).collect());
    assert_eq!(plain, vec![("Plain".to_string(), "German_Germany".to_string())]);
    assert!(collect_families(&vec![name(2, true, Some("Bold"), "English_UnitedStates")]).is_empty());
}

#[test]
fn fonts_are_found_by_family() {
    let data = [0u8; 4];
    let entry = |hash: u64, families: &[&str]| FontEntry {
        hash,
        families: families.iter().map(|f| (f.to_string(), "English_UnitedStates".to_string())).collect(),
        data: &data,
        font_index: 0,
    };
    let mut catalog = Sculpter::new();
    catalog.load(entry(30, &["EB Garamond"]));
    catalog.load(entry(10, &["Open Sans", "Open Sans Light"]));
    catalog.load(entry(20, &["EB Garamond", "Garamond"]));
    catalog.load_fallback(create_font_fallback(&data, 77));
    assert_eq!(catalog.fallbacks().len(), 1);
    assert_eq!(catalog.fallbacks()[0].hash, 77);

    assert_eq!(catalog.find_font(&Family::Serif).unwrap().hash, 20);
    assert_eq!(catalog.find_font(&Family::SansSerif).unwrap().hash, 10);
    assert_eq!(catalog.find_font(&Family::Name("Garamond")).unwrap().hash, 20);
    assert_eq!(catalog.find_font(&FontOptions::new(Family::default()).family).unwrap().hash, 20);
    match catalog.find_font(&Family::Name("Comic")) {
        Err(SculpterCreateError::NoFontFound(family)) => assert_eq!(family, "Comic"),
        Ok(_) => panic!("no such font"),
    }
    // A font with the hash of another takes its place.
    catalog.load(entry(20, &["Other"]));
    assert_eq!(catalog.find_font(&Family::Serif).unwrap().hash, 30);
    catalog.set_serif_family("Other".to_string());
    catalog.set_sans_serif_family("Open Sans Light".to_string());
    assert_eq!(catalog.find_font(&Family::Serif).unwrap().hash, 20);
    assert_eq!(catalog.find_font(&Family::SansSerif).unwrap().hash, 10);
    assert!(catalog.find_font(&Family::Name("EB Garamond")).unwrap().has("EB Garamond"));
}

#[test]
fn fonts_are_read_or_refused() {
    let font = bare_font(1000);
    let entry = create_font_entry(&font, 5).expect("a font");
    assert_eq!(entry.hash, 5);
    assert_eq!(entry.font_index, 0);
    assert!(entry.families.is_empty());
    assert!(matches!(create_font_entry(b"no font at all", 5), Err(SculpterLoadError::FaceParsing(_))));
}

#[test]
fn families_are_read_from_the_font() {
    let font = named_font(&[(0x0407, "Antiqua"), (0x0409, "Old Style")]);
    let entry = create_font_entry(&font, 9).expect("a font");
    assert_eq!(entry.hash, 9);
    assert_eq!(entry.data, &font[..]);
    assert_eq!(
        entry.families,
        vec![
            ("Old Style".to_string(), "English_UnitedStates".to_string()),
            ("Antiqua".to_string(), "German_Germany".to_string()),
        ]
    );
    assert!(entry.has("Antiqua"));
    assert!(!entry.has("Bodoni"));
    // The same bytes give the same families.
    assert_eq!(create_font_entry(&font, 9).expect("a font").families, entry.families);
}

#[test]
fn white_space_gives_the_breakpoints() {
    let text: Vec<char> = "a\nb c\u{a0}".chars().collect();
    assert_eq!(
        breakpoints(&text),
        vec![
            Breakpoint { distance: 1, t: BreakpointType::Newline },
            Breakpoint { distance: 2, t: BreakpointType::Wordbreak },
            Breakpoint { distance: 2, t: BreakpointType::Wordbreak },
        ]
    );
    assert!(breakpoints(&"abc".chars().collect()).is_empty());
    assert!(breakpoints(&vec![]).is_empty());
}

#[test]
fn lines_are_filled_word_by_word() {
    let glyphs: Vec<GlyphPlan> = (0..8).map(|i| plan(0, i, 10)).collect();
    let bps = breakpoints(&"ab cd ef".chars().collect());
    assert_eq!(bps.iter().map(|b| b.distance).collect::<Vec<_>>(), vec![2, 3]);

    let filled = fill_lines(&glyphs, &vec![100], &bps).expect("a filling");
    assert_eq!(filled.lines.len(), 1);
    assert_eq!(filled.lines[0].glyphs, &glyphs[0..7]);
    assert_eq!(filled.used_glyphs, 7);
    assert_eq!(filled.rest, &glyphs[7..]);

    // The second word does not fit into the first line.
    let filled = fill_lines(&glyphs, &vec![25, 100], &bps).expect("a filling");
    assert_eq!(filled.lines.len(), 2);
    assert_eq!(filled.lines[0].glyphs, &glyphs[0..3]);
    assert_eq!(filled.lines[1].glyphs, &glyphs[3..7]);
    assert_eq!(filled.used_glyphs, 7);

    // A line that nothing fits into is empty, and without lines nothing is used.
    let filled = fill_lines(&glyphs, &vec![5], &bps).expect("a filling");
    assert_eq!(filled.lines.len(), 1);
    assert!(filled.lines[0].glyphs.is_empty());
    assert_eq!(filled.used_glyphs, 0);
    let filled = fill_lines(&glyphs, &vec![], &bps).expect("a filling");
    assert!(filled.lines.is_empty());
    assert_eq!(filled.rest.len(), 8);
    // What is left when the breakpoints have run out stands in every further line.
    let filled = fill_lines(&glyphs, &vec![100, 100], &bps).expect("a filling");
    assert_eq!(filled.lines.len(), 2);
    assert_eq!(filled.lines[1].glyphs, &glyphs[0..7]);

    // A breakpoint needs a glyph behind it, and glyphs in front of it.
    assert!(fill_lines(&glyphs[..3], &vec![100], &breakpoints(&"ab ".chars().collect())).is_none());
    assert!(fill_lines(&glyphs[..1], &vec![100], &bps).is_none());
}
