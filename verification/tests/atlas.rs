use wgui_ttf::atlas::{
    assemble_atlas, build_atlas, pixel_side_of, placement_for, quad_from_metrics, FontError,
    GlyphMetrics, Quad, Uv,
};
use wgui_ttf::pack::{pack_shelves, Rectangle, MAX_RECTANGLES};

fn question() -> GlyphMetrics {
    GlyphMetrics { code: 63, x_min: 50, y_min: 0, x_max: 450, y_max: 700, lsb: 50, advance: 500 }
}

fn letter_a() -> GlyphMetrics {
    GlyphMetrics { code: 65, x_min: 0, y_min: 0, x_max: 600, y_max: 700, lsb: 0, advance: 620 }
}

#[test]
fn pixel_side_rounds_up_and_pads() {
    assert_eq!(pixel_side_of(400, 1000), 51);
    assert_eq!(pixel_side_of(600, 1000), 70);
    assert_eq!(pixel_side_of(700, 1000), 80);
    assert_eq!(pixel_side_of(1000, 1000), 108);
    assert_eq!(pixel_side_of(0, 1000), 12);
    assert_eq!(pixel_side_of(1, 1000), 13);
    assert_eq!(pixel_side_of(-1, 1000), 12);
    assert_eq!(pixel_side_of(-125, 1000), 0);
    assert_eq!(pixel_side_of(-126, 1000), 0);
    assert_eq!(pixel_side_of(-136, 1000), -1);
    assert_eq!(pixel_side_of(65535, 16), 393222);
}

#[test]
fn quad_holds_bearings_and_box() {
    let quad = quad_from_metrics(&question());
    assert_eq!(
        quad,
        Quad { code: 63, lsb: 50, rsb: 50, width: 400, height: 700, y: 0, x: 50 }
    );
}

#[test]
fn placement_offsets_the_box_by_the_glyph_origin() {
    let rect = Rectangle { id: 0, x: 10, y: 20, width: 51, height: 80 };
    let m = GlyphMetrics {
        code: 63,
        x_min: 50,
        y_min: -100,
        x_max: 450,
        y_max: 600,
        lsb: 50,
        advance: 500,
    };
    let p = placement_for(&m, rect, 1000);
    assert_eq!(p.code, 63);
    assert_eq!(p.origin_x, 16 * 1000 - 50 * 96);
    assert_eq!(p.origin_y, 94 * 1000 - 100 * 96);
}

#[test]
fn minimal_atlas_of_replacement_and_one_glyph() {
    let metrics = vec![question(), letter_a()];
    let (atlas, placements) = build_atlas(1000, 800, -200, &metrics).unwrap();
    assert_eq!(atlas.get_atlas_width(), 256);
    assert_eq!(atlas.get_atlas_height(), 256);
    assert!(atlas.has_replacement());
    assert_eq!(atlas.uvs[&63], Uv { x: 0, y: 0, width: 51, height: 80 });
    assert_eq!(atlas.uvs[&65], Uv { x: 0, y: 80, width: 70, height: 80 });
    assert_eq!(atlas.quads[&65], Quad { code: 65, lsb: 0, rsb: 20, width: 600, height: 700, y: 0, x: 0 });
    assert_eq!(atlas.quads.len(), 2);
    assert_eq!(atlas.uvs.len(), 2);
    assert_eq!(placements.len(), 2);
    assert_eq!(placements[0].code, 63);
    assert_eq!((placements[0].origin_x, placements[0].origin_y), (1200, 74000));
    assert_eq!(placements[1].code, 65);
    assert_eq!((placements[1].origin_x, placements[1].origin_y), (6000, 154000));
}

#[test]
fn atlas_of_no_glyphs_is_empty() {
    let (atlas, placements) = build_atlas(1000, 800, -200, &Vec::new()).unwrap();
    assert_eq!(atlas.get_atlas_width(), 0);
    assert_eq!(atlas.get_atlas_height(), 0);
    assert!(!atlas.has_replacement());
    assert!(placements.is_empty());
}

#[test]
fn later_entry_of_a_codepoint_wins() {
    let mut second = question();
    second.advance = 900;
    let metrics = vec![question(), second];
    let (atlas, placements) = build_atlas(1000, 800, -200, &metrics).unwrap();
    assert_eq!(atlas.quads.len(), 1);
    assert_eq!(atlas.quads[&63].rsb, 450);
    assert_eq!(atlas.uvs[&63].x, placements[1].rect.x);
    assert_eq!(atlas.uvs[&63].y, placements[1].rect.y);
}

#[test]
fn assembled_tables_follow_the_packing() {
    let metrics = vec![question(), letter_a()];
    let packing = pack_shelves(vec![vec![51, 80], vec![70, 80]]);
    let (atlas, placements) = assemble_atlas(1000, 800, -200, &metrics, packing);
    assert_eq!(atlas.units_per_em, 1000);
    assert_eq!(atlas.ascender, 800);
    assert_eq!(atlas.descender, -200);
    assert_eq!(atlas.pack_width, 256);
    assert_eq!(atlas.uvs[&65], Uv { x: 0, y: 80, width: 70, height: 80 });
    assert_eq!(placements[1].rect.y, 80);
}

#[test]
fn inverted_box_is_refused() {
    let flat = GlyphMetrics { code: 70, x_min: 1000, y_min: 0, x_max: -1000, y_max: 10, lsb: 0, advance: 10 };
    let metrics = vec![question(), flat, letter_a()];
    assert_eq!(build_atlas(1000, 800, -200, &metrics).err(), Some(FontError::EmptyGlyphBox(70)));
}

#[test]
fn too_many_glyphs_are_refused() {
    let metrics = vec![question(); MAX_RECTANGLES + 1];
    assert_eq!(build_atlas(1000, 800, -200, &metrics).err(), Some(FontError::TooManyGlyphs));
}
