use wgui_ttf::atlas::{FontError, GlyphMetrics, Uv};
use wgui_ttf::font::{glyph_metrics, parse_ttf, read_font_glyphs, BoundingBox};

type Outline = Option<(i16, i16, i16, i16)>;

struct Subtable {
    platform: u16,
    encoding: u16,
    first_code: u16,
    glyphs: Vec<u16>,
}

struct Font {
    units_per_em: u16,
    ascender: i16,
    descender: i16,
    outlines: Vec<Outline>,
    metrics: Vec<(u16, i16)>,
    subtables: Option<Vec<Subtable>>,
    with_metrics: bool,
}

fn put16(out: &mut Vec<u8>, v: u16) {
    out.extend_from_slice(&v.to_be_bytes());
}

fn puti16(out: &mut Vec<u8>, v: i16) {
    out.extend_from_slice(&v.to_be_bytes());
}

fn put32(out: &mut Vec<u8>, v: u32) {
    out.extend_from_slice(&v.to_be_bytes());
}

fn head(units_per_em: u16) -> Vec<u8> {
    let mut t = Vec::new();
    put32(&mut t, 0x0001_0000);
    put32(&mut t, 0x0001_0000);
    put32(&mut t, 0);
    put32(&mut t, 0x5F0F_3CF5);
    put16(&mut t, 0);
    put16(&mut t, units_per_em);
    t.extend_from_slice(&[0; 16]);
    t.extend_from_slice(&[0; 8]);
    put16(&mut t, 0);
    put16(&mut t, 8);
    put16(&mut t, 2);
    put16(&mut t, 0);
    put16(&mut t, 0);
    t
}

fn hhea(ascender: i16, descender: i16, metrics: u16) -> Vec<u8> {
    let mut t = Vec::new();
    put32(&mut t, 0x0001_0000);
    puti16(&mut t, ascender);
    puti16(&mut t, descender);
    puti16(&mut t, 0);
    t.extend_from_slice(&[0; 24]);
    put16(&mut t, metrics);
    t
}

fn maxp(glyphs: u16) -> Vec<u8> {
    let mut t = Vec::new();
    put32(&mut t, 0x0000_5000);
    put16(&mut t, glyphs);
    t
}

// A trimmed table mapping: the codes from `first_code` on, one glyph each.
fn trimmed_mapping(s: &Subtable) -> Vec<u8> {
    let mut t = Vec::new();
    put16(&mut t, 6);
    put16(&mut t, 10 + 2 * s.glyphs.len() as u16);
    put16(&mut t, 0);
    put16(&mut t, s.first_code);
    put16(&mut t, s.glyphs.len() as u16);
    for g in &s.glyphs {
        put16(&mut t, *g);
    }
    t
}

// A segment mapping with one segment, the single code `first_code`, whose
// range offset is the invalid 0xFFFF: the code is listed and has no glyph.
fn dangling_segment(s: &Subtable) -> Vec<u8> {
    let mut t = Vec::new();
    put16(&mut t, 4);
    put16(&mut t, 24);
    put16(&mut t, 0);
    put16(&mut t, 2);
    put16(&mut t, 2);
    put16(&mut t, 0);
    put16(&mut t, 0);
    put16(&mut t, s.first_code);
    put16(&mut t, 0);
    put16(&mut t, s.first_code);
    put16(&mut t, 0);
    put16(&mut t, 0xFFFF);
    t
}

fn cmap(subtables: &[Subtable]) -> Vec<u8> {
    let bodies: Vec<Vec<u8>> = subtables
        .iter()
        .map(|s| if s.glyphs.is_empty() { dangling_segment(s) } else { trimmed_mapping(s) })
        .collect();
    let mut t = Vec::new();
    put16(&mut t, 0);
    put16(&mut t, subtables.len() as u16);
    let mut offset = 4 + 8 * subtables.len() as u32;
    for (s, body) in subtables.iter().zip(&bodies) {
        put16(&mut t, s.platform);
        put16(&mut t, s.encoding);
        put32(&mut t, offset);
        offset += body.len() as u32;
    }
    for body in &bodies {
        t.extend_from_slice(body);
    }
    t
}

fn glyf_and_loca(outlines: &[Outline]) -> (Vec<u8>, Vec<u8>) {
    let mut glyf = Vec::new();
    let mut loca = Vec::new();
    for outline in outlines {
        put16(&mut loca, (glyf.len() / 2) as u16);
        if let Some((x0, y0, x1, y1)) = *outline {
            puti16(&mut glyf, 1);
            puti16(&mut glyf, x0);
            puti16(&mut glyf, y0);
            puti16(&mut glyf, x1);
            puti16(&mut glyf, y1);
            put16(&mut glyf, 3);
            put16(&mut glyf, 0);
            glyf.extend_from_slice(&[1, 1, 1, 1]);
            for dx in [x0, x1 - x0, 0, x0 - x1] {
                puti16(&mut glyf, dx);
            }
            for dy in [y0, 0, y1 - y0, 0] {
                puti16(&mut glyf, dy);
            }
        }
    }
    put16(&mut loca, (glyf.len() / 2) as u16);
    (glyf, loca)
}

fn hmtx(metrics: &[(u16, i16)]) -> Vec<u8> {
    let mut t = Vec::new();
    for (advance, bearing) in metrics {
        put16(&mut t, *advance);
        puti16(&mut t, *bearing);
    }
    t
}

fn font_bytes(font: &Font) -> Vec<u8> {
    let (glyf, loca) = glyf_and_loca(&font.outlines);
    let mut tables: Vec<(&[u8; 4], Vec<u8>)> = Vec::new();
    if let Some(subtables) = &font.subtables {
        tables.push((b"cmap", cmap(subtables)));
    }
    tables.push((b"glyf", glyf));
    tables.push((b"head", head(font.units_per_em)));
    tables.push((b"hhea", hhea(font.ascender, font.descender, font.metrics.len() as u16)));
    if font.with_metrics {
        tables.push((b"hmtx", hmtx(&font.metrics)));
    }
    tables.push((b"loca", loca));
    tables.push((b"maxp", maxp(font.outlines.len() as u16)));

    let mut out = Vec::new();
    put32(&mut out, 0x0001_0000);
    put16(&mut out, tables.len() as u16);
    put16(&mut out, 0);
    put16(&mut out, 0);
    put16(&mut out, 0);
    let mut offset = 12 + 16 * tables.len() as u32;
    for (tag, data) in &tables {
        out.extend_from_slice(&tag[..]);
        put32(&mut out, 0);
        put32(&mut out, offset);
        put32(&mut out, data.len() as u32);
        offset += (data.len() as u32 + 3) / 4 * 4;
    }
    for (_, data) in &tables {
        out.extend_from_slice(data);
        while out.len() % 4 != 0 {
            out.push(0);
        }
    }
    out
}

fn unicode(first_code: u16, glyphs: Vec<u16>) -> Subtable {
    Subtable { platform: 0, encoding: 3, first_code, glyphs }
}

fn sample() -> Font {
    Font {
        units_per_em: 1000,
        ascender: 800,
        descender: -200,
        outlines: vec![
            Some((0, 0, 500, 500)),
            Some((50, 0, 450, 700)),
            Some((0, 0, 600, 700)),
            None,
        ],
        metrics: vec![(500, 0), (500, 50), (620, 0), (300, 10)],
        subtables: Some(vec![unicode(63, vec![1, 3, 2])]),
        with_metrics: true,
    }
}

fn sample_metrics() -> Vec<GlyphMetrics> {
    vec![
        GlyphMetrics { code: 63, x_min: 50, y_min: 0, x_max: 450, y_max: 700, lsb: 50, advance: 500 },
        GlyphMetrics { code: 64, x_min: 0, y_min: 0, x_max: 500, y_max: 500, lsb: 10, advance: 300 },
        GlyphMetrics { code: 65, x_min: 0, y_min: 0, x_max: 600, y_max: 700, lsb: 0, advance: 620 },
    ]
}

#[test]
fn bytes_that_are_no_font_are_refused() {
    assert_eq!(parse_ttf(Vec::new()).err(), Some(FontError::InvalidFont));
    assert_eq!(read_font_glyphs(&vec![1, 2, 3, 4]).err(), Some(FontError::InvalidFont));
}

#[test]
fn metrics_need_box_bearing_and_advance() {
    let bounds = BoundingBox { x_min: 1, y_min: 2, x_max: 3, y_max: 4 };
    assert_eq!(
        glyph_metrics(9, Some(bounds), Some(-5), Some(6)),
        Ok(GlyphMetrics { code: 9, x_min: 1, y_min: 2, x_max: 3, y_max: 4, lsb: -5, advance: 6 })
    );
    assert_eq!(glyph_metrics(9, None, Some(-5), Some(6)), Err(FontError::MissingBoundingBox(9)));
    assert_eq!(glyph_metrics(9, Some(bounds), None, Some(6)), Err(FontError::MissingMetrics(9)));
    assert_eq!(glyph_metrics(9, Some(bounds), Some(-5), None), Err(FontError::MissingMetrics(9)));
}

#[test]
fn glyphs_are_read_in_the_order_of_the_character_map() {
    assert_eq!(read_font_glyphs(&font_bytes(&sample())), Ok(sample_metrics()));
}

#[test]
fn glyph_without_outline_takes_the_box_of_glyph_zero() {
    let metrics = read_font_glyphs(&font_bytes(&sample())).unwrap();
    assert_eq!((metrics[1].x_max, metrics[1].y_max), (500, 500));
    assert_eq!((metrics[1].lsb, metrics[1].advance), (10, 300));
}

#[test]
fn font_is_packed_into_an_atlas() {
    let (atlas, placements) = parse_ttf(font_bytes(&sample())).unwrap();
    assert_eq!(atlas.units_per_em, 1000);
    assert_eq!(atlas.ascender, 800);
    assert_eq!(atlas.descender, -200);
    assert_eq!(atlas.get_atlas_width(), 256);
    assert_eq!(atlas.get_atlas_height(), 256);
    assert_eq!(atlas.uvs[&63], Uv { x: 0, y: 0, width: 51, height: 80 });
    assert_eq!(atlas.uvs[&64], Uv { x: 51, y: 0, width: 60, height: 60 });
    assert_eq!(atlas.uvs[&65], Uv { x: 0, y: 80, width: 70, height: 80 });
    assert_eq!(atlas.quads[&64].rsb, 300 - 10 - 500);
    assert_eq!(placements.len(), 3);
    assert_eq!(placements[1].code, 64);
    assert_eq!(placements[1].origin_x, 57 * 1000);
    assert_eq!(placements[1].origin_y, 54 * 1000);
}

#[test]
fn font_without_character_map_is_refused() {
    let mut font = sample();
    font.subtables = None;
    assert_eq!(parse_ttf(font_bytes(&font)).err(), Some(FontError::MissingCharacterMap));
}

#[test]
fn font_without_horizontal_metrics_is_refused() {
    let mut font = sample();
    font.with_metrics = false;
    assert_eq!(parse_ttf(font_bytes(&font)).err(), Some(FontError::MissingHorizontalMetrics));
}

#[test]
fn missing_box_without_fallback_is_refused() {
    let mut font = sample();
    font.outlines[0] = None;
    assert_eq!(
        read_font_glyphs(&font_bytes(&font)).err(),
        Some(FontError::MissingBoundingBox(64))
    );
}

#[test]
fn glyph_outside_the_metrics_is_refused() {
    let mut font = sample();
    font.subtables = Some(vec![unicode(63, vec![1, 9, 2])]);
    assert_eq!(read_font_glyphs(&font_bytes(&font)).err(), Some(FontError::MissingMetrics(64)));
}

#[test]
fn listed_codepoint_without_glyph_is_refused() {
    let mut font = sample();
    font.subtables = Some(vec![unicode(70, Vec::new())]);
    assert_eq!(parse_ttf(font_bytes(&font)).err(), Some(FontError::UnresolvedGlyph(70)));
}

#[test]
fn only_the_first_unicode_subtable_is_read() {
    let mut font = sample();
    font.subtables = Some(vec![
        Subtable { platform: 1, encoding: 0, first_code: 48, glyphs: vec![2] },
        unicode(65, vec![2]),
        unicode(63, vec![1]),
    ]);
    let metrics = read_font_glyphs(&font_bytes(&font)).unwrap();
    assert_eq!(metrics, vec![sample_metrics()[2]]);
}

#[test]
fn font_without_unicode_subtable_gives_an_empty_atlas() {
    let mut font = sample();
    font.subtables = Some(vec![Subtable { platform: 1, encoding: 0, first_code: 63, glyphs: vec![1] }]);
    let (atlas, placements) = parse_ttf(font_bytes(&font)).unwrap();
    assert_eq!(atlas.get_atlas_width(), 0);
    assert!(atlas.quads.is_empty());
    assert!(placements.is_empty());
}

#[test]
fn units_per_em_outside_the_range_are_refused() {
    let mut font = sample();
    font.units_per_em = 8;
    assert_eq!(parse_ttf(font_bytes(&font)).err(), Some(FontError::InvalidFont));
}
