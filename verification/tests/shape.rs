use wgui_ttf::atlas::{build_atlas, GlyphMetrics, Glyphs};
use wgui_ttf::shape::TextShape;

fn atlas_with(ascender: i16, descender: i16) -> Glyphs {
    let metrics = vec![
        GlyphMetrics { code: 63, x_min: 50, y_min: 0, x_max: 450, y_max: 700, lsb: 50, advance: 500 },
        GlyphMetrics { code: 65, x_min: 0, y_min: 0, x_max: 600, y_max: 700, lsb: 0, advance: 620 },
    ];
    build_atlas(1000, ascender, descender, &metrics).unwrap().0
}

fn atlas() -> Glyphs {
    atlas_with(800, -200)
}

fn shape(glyphs: &Glyphs, text: &str, size: u32) -> (Vec<i128>, Vec<i128>, Vec<u64>, TextShape) {
    let n = text.chars().count();
    let mut positions = vec![0; 2 * n];
    let mut sizes = vec![0; 2 * n];
    let mut uvs = vec![0; 4 * n];
    let extent = glyphs.get_text_shape(text, size, &mut positions, &mut sizes, &mut uvs);
    (positions, sizes, uvs, extent)
}

#[test]
fn empty_text_has_no_quads_and_font_height() {
    let glyphs = atlas();
    let (positions, sizes, uvs, extent) = shape(&glyphs, "", 96);
    assert!(positions.is_empty());
    assert!(sizes.is_empty());
    assert!(uvs.is_empty());
    assert_eq!(extent.width, 0);
    assert_eq!(extent.height, 600 * 96 * 96);
    let (_, _, _, other) = shape(&glyphs, "A?", 96);
    assert_eq!(other.height, extent.height);
}

#[test]
fn height_at_size_96_is_96_pixels() {
    // Ascender and descender add up to the em: the height is the pixel size.
    let glyphs = atlas_with(800, 200);
    let (_, _, _, extent) = shape(&glyphs, "A?A", 96);
    let denominator = glyphs.shape_denominator();
    assert_eq!(denominator, 96000);
    assert_eq!(extent.height, 9_216_000);
    assert_eq!(extent.height as f32 / denominator as f32, 96.0);
}

#[test]
fn height_is_the_sum_of_ascender_and_descender_scaled() {
    let glyphs = atlas_with(800, -200);
    let (_, _, _, extent) = shape(&glyphs, "A", 96);
    assert_eq!(extent.height, 5_529_600);
    assert_eq!(extent.height as f32 / glyphs.shape_denominator() as f32, 57.6);
}

#[test]
fn quads_follow_the_formulas() {
    let glyphs = atlas();
    let (positions, sizes, uvs, extent) = shape(&glyphs, "A?", 96);
    assert_eq!(positions, vec![-576_000, -1_497_600, 5_598_720, -1_497_600]);
    assert_eq!(sizes, vec![6_681_600, 7_603_200, 4_838_400, 7_603_200]);
    assert_eq!(uvs, vec![0, 80, 70, 80, 0, 0, 51, 80]);
    assert_eq!(extent, TextShape { width: 10_321_920, height: 5_529_600 });
}

#[test]
fn unmapped_codepoint_is_shaped_as_replacement() {
    let glyphs = atlas();
    assert_eq!(shape(&glyphs, "AB", 32), shape(&glyphs, "A?", 32));
    assert_eq!(shape(&glyphs, "\u{1F600}", 7), shape(&glyphs, "?", 7));
}

#[test]
fn pen_carries_over_from_prefix() {
    let glyphs = atlas();
    let (_, _, _, first) = shape(&glyphs, "A?", 10);
    let (whole, _, _, _) = shape(&glyphs, "A?A", 10);
    let (alone, _, _, _) = shape(&glyphs, "A", 10);
    assert_eq!(whole[4] - alone[0], first.width);
}

#[test]
fn buffers_keep_what_lies_behind_the_text() {
    let glyphs = atlas();
    let mut positions = vec![7; 5];
    let mut sizes = vec![8; 4];
    let mut uvs = vec![9; 6];
    let codes = vec![65];
    let extent = glyphs.shape_codepoints(&codes, 1, &mut positions, &mut sizes, &mut uvs);
    assert_eq!(positions, vec![-6000, -100 * 96 - 6000, 7, 7, 7]);
    assert_eq!(sizes, vec![600 * 96 + 12000, 700 * 96 + 12000, 8, 8]);
    assert_eq!(uvs, vec![0, 80, 70, 80, 9, 9]);
    assert_eq!(extent.width, 620 * 96);
}

#[test]
fn glyph_lookup_falls_back() {
    let glyphs = atlas();
    assert_eq!(glyphs.glyph_for(65).0.code, 65);
    assert_eq!(glyphs.glyph_for(66).0.code, 63);
    assert_eq!(glyphs.glyph_for(66).1, glyphs.glyph_for(63).1);
}
