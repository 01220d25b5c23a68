//! Reading a font: the glyph metrics of every codepoint of its first Unicode
//! character map, and the atlas built from them.
//!
//! The font's bytes are read by `ttf_parser`. What it returns is taken on
//! trust and named by the functions without a body below; everything that is
//! decided from those values is proved.

use crate::atlas::{build_atlas, build_failure, is_atlas_of, FontError, GlyphMetrics, Glyphs, Placement};
use vstd::prelude::*;

verus! {

/// The face of a font collection that is read.
pub const FACE_INDEX: u32 = 0;

/// A glyph's bounding box in font units.
#[derive(Debug, Clone, Copy, PartialEq, Eq)]
pub struct BoundingBox {
    pub x_min: i16,
    pub y_min: i16,
    pub x_max: i16,
    pub y_max: i16,
}

/// The units per em of face `face` of the font `data`; `None` where the
/// face cannot be parsed.
pub uninterp spec fn face_units_per_em(data: Seq<u8>, face: u32) -> Option<u16>;

/// The ascender in the face's horizontal header.
pub uninterp spec fn face_ascender(data: Seq<u8>, face: u32) -> Option<i16>;

/// The descender in the face's horizontal header.
pub uninterp spec fn face_descender(data: Seq<u8>, face: u32) -> Option<i16>;

/// Whether the face has a table of horizontal metrics.
pub uninterp spec fn face_has_metrics(data: Seq<u8>, face: u32) -> Option<bool>;

/// The number of subtables of the face's character map; `None` where it
/// has no character map.
pub uninterp spec fn face_subtable_count(data: Seq<u8>, face: u32) -> Option<u16>;

/// Whether a subtable of the character map is a Unicode one; `None` where
/// the subtable cannot be read.
pub uninterp spec fn subtable_is_unicode(data: Seq<u8>, face: u32, subtable: u16) -> Option<bool>;

/// The codepoints that a subtable of the character map lists, in its order.
pub uninterp spec fn subtable_codepoints(data: Seq<u8>, face: u32, subtable: u16) -> Option<
    Seq<u32>,
>;

/// The glyph that a subtable of the character map gives a codepoint.
pub uninterp spec fn subtable_glyph(data: Seq<u8>, face: u32, subtable: u16, code: u32) -> Option<
    u16,
>;

/// The bounding box of a glyph's outline.
pub uninterp spec fn glyph_box(data: Seq<u8>, face: u32, glyph: u16) -> Option<BoundingBox>;

/// The left side bearing of a glyph in the horizontal metrics.
pub uninterp spec fn glyph_bearing(data: Seq<u8>, face: u32, glyph: u16) -> Option<i16>;

/// The advance of a glyph in the horizontal metrics.
pub uninterp spec fn glyph_advance(data: Seq<u8>, face: u32, glyph: u16) -> Option<u16>;

/// Calls `ttf_parser::Face::parse` and `Face::units_per_em`. The result is
/// taken to depend on the bytes and the face index alone; the parser
/// accepts no face whose units per em are outside 16 to 16384.
#[verifier::external_body]
fn read_units_per_em(data: &Vec<u8>, face: u32) -> (r: Option<u16>)
    ensures
        r == face_units_per_em(data@, face),
        r matches Some(units) ==> 16 <= units <= 16384,
{
    ttf_parser::Face::parse(data, face).ok().map(|f| f.units_per_em())
}

/// Calls `ttf_parser::Face::parse` and `Face::tables`, and reads the
/// ascender of the horizontal header.
#[verifier::external_body]
fn read_ascender(data: &Vec<u8>, face: u32) -> (r: Option<i16>)
    ensures
        r == face_ascender(data@, face),
{
    ttf_parser::Face::parse(data, face).ok().map(|f| f.tables().hhea.ascender)
}

/// Calls `ttf_parser::Face::parse` and `Face::tables`, and reads the
/// descender of the horizontal header.
#[verifier::external_body]
fn read_descender(data: &Vec<u8>, face: u32) -> (r: Option<i16>)
    ensures
        r == face_descender(data@, face),
{
    ttf_parser::Face::parse(data, face).ok().map(|f| f.tables().hhea.descender)
}

/// Calls `ttf_parser::Face::parse` and `Face::tables`, and says whether the
/// table of horizontal metrics is there.
#[verifier::external_body]
fn read_has_metrics(data: &Vec<u8>, face: u32) -> (r: Option<bool>)
    ensures
        r == face_has_metrics(data@, face),
{
    ttf_parser::Face::parse(data, face).ok().map(|f| f.tables().hmtx.is_some())
}

/// Calls `ttf_parser::cmap::Subtables::len` on the face's character map.
#[verifier::external_body]
fn read_subtable_count(data: &Vec<u8>, face: u32) -> (r: Option<u16>)
    ensures
        r == face_subtable_count(data@, face),
{
    ttf_parser::Face::parse(data, face).ok()?.tables().cmap.map(|c| c.subtables.len())
}

/// Calls `ttf_parser::cmap::Subtables::get` and `Subtable::is_unicode`.
#[verifier::external_body]
fn read_is_unicode(data: &Vec<u8>, face: u32, subtable: u16) -> (r: Option<bool>)
    ensures
        r == subtable_is_unicode(data@, face, subtable),
{
    let cmap = ttf_parser::Face::parse(data, face).ok()?.tables().cmap?;
    cmap.subtables.get(subtable).map(|s| s.is_unicode())
}

/// Calls `ttf_parser::cmap::Subtable::codepoints` and collects the
/// codepoints in the order in which it hands them out.
#[verifier::external_body]
fn read_codepoints(data: &Vec<u8>, face: u32, subtable: u16) -> (r: Option<Vec<u32>>)
    ensures
        match r {
            Some(codes) => subtable_codepoints(data@, face, subtable) == Some(codes@),
            None => subtable_codepoints(data@, face, subtable) is None,
        },
{
    let cmap = ttf_parser::Face::parse(data, face).ok()?.tables().cmap?;
    let table = cmap.subtables.get(subtable)?;
    let mut codes: Vec<u32> = Vec::new();
    table.codepoints(|code| codes.push(code));
    Some(codes)
}

/// Calls `ttf_parser::cmap::Subtable::glyph_index`.
#[verifier::external_body]
fn read_glyph(data: &Vec<u8>, face: u32, subtable: u16, code: u32) -> (r: Option<u16>)
    ensures
        r == subtable_glyph(data@, face, subtable, code),
{
    let cmap = ttf_parser::Face::parse(data, face).ok()?.tables().cmap?;
    cmap.subtables.get(subtable)?.glyph_index(code).map(|g| g.0)
}

/// Calls `ttf_parser::Face::glyph_bounding_box`.
#[verifier::external_body]
fn read_box(data: &Vec<u8>, face: u32, glyph: u16) -> (r: Option<BoundingBox>)
    ensures
        r == glyph_box(data@, face, glyph),
{
    let parsed = ttf_parser::Face::parse(data, face).ok()?;
    parsed.glyph_bounding_box(ttf_parser::GlyphId(glyph)).map(
        |b| BoundingBox { x_min: b.x_min, y_min: b.y_min, x_max: b.x_max, y_max: b.y_max },
    )
}

/// Calls `ttf_parser::hmtx::Table::side_bearing`.
#[verifier::external_body]
fn read_bearing(data: &Vec<u8>, face: u32, glyph: u16) -> (r: Option<i16>)
    ensures
        r == glyph_bearing(data@, face, glyph),
{
    let hmtx = ttf_parser::Face::parse(data, face).ok()?.tables().hmtx?;
    hmtx.side_bearing(ttf_parser::GlyphId(glyph))
}

/// Calls `ttf_parser::hmtx::Table::advance`.
#[verifier::external_body]
fn read_advance(data: &Vec<u8>, face: u32, glyph: u16) -> (r: Option<u16>)
    ensures
        r == glyph_advance(data@, face, glyph),
{
    let hmtx = ttf_parser::Face::parse(data, face).ok()?.tables().hmtx?;
    hmtx.advance(ttf_parser::GlyphId(glyph))
}

/// The first Unicode subtable among those from `from` on. The search ends
/// at a subtable that cannot be read.
pub open spec fn unicode_subtable_from(data: Seq<u8>, face: u32, from: int, count: int) -> Option<
    u16,
>
    decreases count - from,
{
    if from < 0 || from >= count || from > u16::MAX {
        None
    } else {
        match subtable_is_unicode(data, face, from as u16) {
            None => None,
            Some(true) => Some(from as u16),
            Some(false) => unicode_subtable_from(data, face, from + 1, count),
        }
    }
}

/// The metrics of a codepoint, from what the font gives for it: its box
/// (that of glyph 0 where its own glyph has none), its side bearing and its
/// advance.
pub open spec fn metrics_from_parts(
    code: u32,
    bounds: Option<BoundingBox>,
    bearing: Option<i16>,
    advance: Option<u16>,
) -> Result<GlyphMetrics, FontError> {
    match (bounds, bearing, advance) {
        (None, _, _) => Err(FontError::MissingBoundingBox(code)),
        (Some(_), None, _) => Err(FontError::MissingMetrics(code)),
        (Some(_), Some(_), None) => Err(FontError::MissingMetrics(code)),
        (Some(b), Some(lsb), Some(advance)) => Ok(
            GlyphMetrics {
                code,
                x_min: b.x_min,
                y_min: b.y_min,
                x_max: b.x_max,
                y_max: b.y_max,
                lsb,
                advance,
            },
        ),
    }
}

/// The box used for a glyph: its own, or that of glyph 0 where it has none.
pub open spec fn box_or_fallback(data: Seq<u8>, face: u32, glyph: u16) -> Option<BoundingBox> {
    match glyph_box(data, face, glyph) {
        Some(b) => Some(b),
        None => glyph_box(data, face, 0),
    }
}

/// The metrics of one codepoint of a subtable.
pub open spec fn metrics_of(data: Seq<u8>, face: u32, subtable: u16, code: u32) -> Result<
    GlyphMetrics,
    FontError,
> {
    match subtable_glyph(data, face, subtable, code) {
        None => Err(FontError::UnresolvedGlyph(code)),
        Some(glyph) => metrics_from_parts(
            code,
            box_or_fallback(data, face, glyph),
            glyph_bearing(data, face, glyph),
            glyph_advance(data, face, glyph),
        ),
    }
}

/// The metrics of the first `upto` of the codepoints, or the first failure
/// among them.
pub open spec fn collect_upto(
    data: Seq<u8>,
    face: u32,
    subtable: u16,
    codes: Seq<u32>,
    upto: int,
) -> Result<Seq<GlyphMetrics>, FontError>
    decreases upto,
{
    if upto <= 0 {
        Ok(Seq::empty())
    } else {
        match collect_upto(data, face, subtable, codes, upto - 1) {
            Err(e) => Err(e),
            Ok(before) => match metrics_of(data, face, subtable, codes[upto - 1]) {
                Err(e) => Err(e),
                Ok(m) => Ok(before.push(m)),
            },
        }
    }
}

/// The glyph metrics of the font: those of every codepoint of its first
/// Unicode subtable, in the subtable's order; none where it has no such
/// subtable.
pub open spec fn font_glyphs(data: Seq<u8>, face: u32) -> Result<Seq<GlyphMetrics>, FontError> {
    if face_units_per_em(data, face) is None || face_ascender(data, face) is None
        || face_descender(data, face) is None {
        Err(FontError::InvalidFont)
    } else {
        match face_subtable_count(data, face) {
            None => Err(FontError::MissingCharacterMap),
            Some(count) => if face_has_metrics(data, face) != Some(true) {
                Err(FontError::MissingHorizontalMetrics)
            } else {
                match unicode_subtable_from(data, face, 0, count as int) {
                    None => Ok(Seq::empty()),
                    Some(subtable) => match subtable_codepoints(data, face, subtable) {
                        None => Ok(Seq::empty()),
                        Some(codes) => collect_upto(data, face, subtable, codes, codes.len() as int),
                    },
                }
            },
        }
    }
}

/// The metrics of a codepoint from its box, side bearing and advance, or
/// what is missing.
pub fn glyph_metrics(
    code: u32,
    bounds: Option<BoundingBox>,
    bearing: Option<i16>,
    advance: Option<u16>,
) -> (r: Result<GlyphMetrics, FontError>)
    ensures
        r == metrics_from_parts(code, bounds, bearing, advance),
{
    match bounds {
        None => Err(FontError::MissingBoundingBox(code)),
        Some(b) => match bearing {
            None => Err(FontError::MissingMetrics(code)),
            Some(lsb) => match advance {
                None => Err(FontError::MissingMetrics(code)),
                Some(advance) => Ok(
                    GlyphMetrics {
                        code,
                        x_min: b.x_min,
                        y_min: b.y_min,
                        x_max: b.x_max,
                        y_max: b.y_max,
                        lsb,
                        advance,
                    },
                ),
            },
        },
    }
}

/// The first Unicode subtable of the character map.
fn find_unicode_subtable(data: &Vec<u8>, count: u16) -> (r: Option<u16>)
    ensures
        r == unicode_subtable_from(data@, FACE_INDEX, 0, count as int),
{
    let mut i: u16 = 0;
    while i < count
        invariant
            i <= count,
            unicode_subtable_from(data@, FACE_INDEX, 0, count as int) == unicode_subtable_from(
                data@,
                FACE_INDEX,
                i as int,
                count as int,
            ),
        decreases count - i,
    {
        match read_is_unicode(data, FACE_INDEX, i) {
            None => {
                return None;
            },
            Some(true) => {
                return Some(i);
            },
            Some(false) => {},
        }
        i = i + 1;
    }
    None
}

/// The metrics of one codepoint of a subtable.
fn read_metrics(data: &Vec<u8>, subtable: u16, code: u32) -> (r: Result<GlyphMetrics, FontError>)
    ensures
        r == metrics_of(data@, FACE_INDEX, subtable, code),
{
    match read_glyph(data, FACE_INDEX, subtable, code) {
        None => Err(FontError::UnresolvedGlyph(code)),
        Some(glyph) => {
            let own = read_box(data, FACE_INDEX, glyph);
            let bounds = match own {
                Some(b) => Some(b),
                None => read_box(data, FACE_INDEX, 0),
            };
            let bearing = read_bearing(data, FACE_INDEX, glyph);
            let advance = read_advance(data, FACE_INDEX, glyph);
            glyph_metrics(code, bounds, bearing, advance)
        },
    }
}

/// Reads the glyph metrics of every codepoint of the font's first Unicode
/// subtable.
pub fn read_font_glyphs(data: &Vec<u8>) -> (r: Result<Vec<GlyphMetrics>, FontError>)
    ensures
        match r {
            Ok(metrics) => font_glyphs(data@, FACE_INDEX) == Ok::<Seq<GlyphMetrics>, FontError>(
                metrics@,
            ),
            Err(e) => font_glyphs(data@, FACE_INDEX) == Err::<Seq<GlyphMetrics>, FontError>(e),
        },
{
    if read_units_per_em(data, FACE_INDEX).is_none() || read_ascender(data, FACE_INDEX).is_none()
        || read_descender(data, FACE_INDEX).is_none() {
        return Err(FontError::InvalidFont);
    }
    let count = match read_subtable_count(data, FACE_INDEX) {
        None => {
            return Err(FontError::MissingCharacterMap);
        },
        Some(count) => count,
    };
    match read_has_metrics(data, FACE_INDEX) {
        Some(true) => {},
        _ => {
            return Err(FontError::MissingHorizontalMetrics);
        },
    }
    let mut metrics: Vec<GlyphMetrics> = Vec::new();
    let subtable = match find_unicode_subtable(data, count) {
        None => {
            return Ok(metrics);
        },
        Some(subtable) => subtable,
    };
    let codes = match read_codepoints(data, FACE_INDEX, subtable) {
        None => {
            return Ok(metrics);
        },
        Some(codes) => codes,
    };
    let mut i: usize = 0;
    while i < codes.len()
        invariant
            i <= codes@.len(),
            font_glyphs(data@, FACE_INDEX) == collect_upto(
                data@,
                FACE_INDEX,
                subtable,
                codes@,
                codes@.len() as int,
            ),
            collect_upto(data@, FACE_INDEX, subtable, codes@, i as int) == Ok::<
                Seq<GlyphMetrics>,
                FontError,
            >(metrics@),
        decreases codes@.len() - i,
    {
        match read_metrics(data, subtable, codes[i]) {
            Err(e) => {
                proof {
                    assert(collect_upto(data@, FACE_INDEX, subtable, codes@, i as int + 1) == Err::<
                        Seq<GlyphMetrics>,
                        FontError,
                    >(e));
                    lemma_collect_fails(
                        data@,
                        FACE_INDEX,
                        subtable,
                        codes@,
                        i as int + 1,
                        codes@.len() as int,
                    );
                }
                return Err(e);
            },
            Ok(m) => {
                metrics.push(m);
            },
        }
        i = i + 1;
    }
    Ok(metrics)
}

/// Once the collection has failed, it fails in the same way however far it
/// goes on.
proof fn lemma_collect_fails(
    data: Seq<u8>,
    face: u32,
    subtable: u16,
    codes: Seq<u32>,
    failed: int,
    upto: int,
)
    requires
        0 <= failed <= upto,
        collect_upto(data, face, subtable, codes, failed) is Err,
    ensures
        collect_upto(data, face, subtable, codes, upto) == collect_upto(
            data,
            face,
            subtable,
            codes,
            failed,
        ),
    decreases upto - failed,
{
    if failed < upto {
        lemma_collect_fails(data, face, subtable, codes, failed, upto - 1);
    }
}

/// Reads a font and builds its atlas: the glyphs of every codepoint of the
/// first Unicode subtable, packed, and where the host draws each of them.
pub fn parse_ttf(buffer: Vec<u8>) -> (r: Result<(Glyphs, Vec<Placement>), FontError>)
    ensures
        match font_glyphs(buffer@, FACE_INDEX) {
            Err(e) => r == Err::<(Glyphs, Vec<Placement>), FontError>(e),
            Ok(metrics) => {
                let units = face_units_per_em(buffer@, FACE_INDEX).unwrap();
                match r {
                    Err(e) => build_failure(metrics, units as int) == Some(e),
                    Ok((atlas, placements)) => {
                        &&& build_failure(metrics, units as int) is None
                        &&& is_atlas_of(
                            atlas,
                            placements@,
                            metrics,
                            units,
                            face_ascender(buffer@, FACE_INDEX).unwrap(),
                            face_descender(buffer@, FACE_INDEX).unwrap(),
                        )
                    },
                }
            },
        },
{
    let metrics = match read_font_glyphs(&buffer) {
        Err(e) => {
            return Err(e);
        },
        Ok(metrics) => metrics,
    };
    let units = read_units_per_em(&buffer, FACE_INDEX).unwrap();
    let ascender = read_ascender(&buffer, FACE_INDEX).unwrap();
    let descender = read_descender(&buffer, FACE_INDEX).unwrap();
    build_atlas(units, ascender, descender, &metrics)
}

} // verus!
