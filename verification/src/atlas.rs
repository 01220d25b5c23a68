//! The glyph atlas: per-glyph metrics in font units, the pixel box that each
//! glyph gets in the atlas, and where the host draws each glyph's ink.

use crate::pack::{
    is_packing_of, is_shelf_layout, pack_shelves, Packing, Rectangle, MAX_RECTANGLES,
};
use std::collections::HashMap;
use vstd::arithmetic::div_mod::{lemma_fundamental_div_mod, lemma_fundamental_div_mod_converse};
use vstd::prelude::*;

verus! {

broadcast use vstd::std_specs::hash::group_hash_axioms;

/// The font size, in pixels, at which the atlas holds the glyphs.
pub const ATLAS_FONT_SIZE: u32 = 96;

/// The border, in atlas pixels, that each glyph box keeps on every side.
pub const ATLAS_GAP: u32 = 6;

/// The codepoint whose glyph stands in for codepoints the atlas lacks: `?`.
pub const REPLACEMENT: u32 = 63;

/// What the font says of one codepoint's glyph, in font units.
#[derive(Debug, Clone, Copy, PartialEq, Eq)]
pub struct GlyphMetrics {
    pub code: u32,
    pub x_min: i16,
    pub y_min: i16,
    pub x_max: i16,
    pub y_max: i16,
    pub lsb: i16,
    pub advance: u16,
}

/// A glyph as the atlas keeps it, in font units: side bearings, the size of
/// the ink box and its lower left corner.
#[derive(Debug, Clone, Copy, PartialEq, Eq)]
pub struct Quad {
    pub code: u32,
    pub lsb: i32,
    pub rsb: i32,
    pub width: i32,
    pub height: i32,
    pub y: i32,
    pub x: i32,
}

/// A glyph's box in the atlas, in atlas pixels. Divided by the atlas side it
/// is the glyph's texture rectangle.
#[derive(Debug, Clone, Copy, PartialEq, Eq)]
pub struct Uv {
    pub x: u64,
    pub y: u64,
    pub width: u64,
    pub height: u64,
}

/// Where the host draws one glyph: its box in the atlas, and the origin of
/// its ink as numerators over the font's units per em.
#[derive(Debug, Clone, Copy)]
pub struct Placement {
    pub code: u32,
    pub rect: Rectangle,
    pub origin_x: i128,
    pub origin_y: i128,
}

/// Why no atlas was built.
#[derive(Debug, Clone, Copy, PartialEq, Eq)]
pub enum FontError {
    /// The bytes are no font that can be read.
    InvalidFont,
    /// The font has no character map.
    MissingCharacterMap,
    /// The font has no horizontal metrics.
    MissingHorizontalMetrics,
    /// The character map lists the codepoint and gives it no glyph.
    UnresolvedGlyph(u32),
    /// Neither the codepoint's glyph nor glyph 0 has a bounding box.
    MissingBoundingBox(u32),
    /// The horizontal metrics do not cover the codepoint's glyph.
    MissingMetrics(u32),
    /// The codepoint's padded box has no positive size in the atlas.
    EmptyGlyphBox(u32),
    /// There are more glyphs than one atlas takes.
    TooManyGlyphs,
}

/// A font's glyphs, packed: the metrics that shaping reads, the atlas size,
/// and for each codepoint its glyph and its box in the atlas.
pub struct Glyphs {
    pub units_per_em: u16,
    pub ascender: i16,
    pub descender: i16,
    pub pack_width: u64,
    pub pack_height: u64,
    pub quads: HashMap<u32, Quad>,
    pub uvs: HashMap<u32, Uv>,
}

impl Quad {
    /// The glyph's advance: both side bearings and the ink between them.
    pub open spec fn advance(self) -> int {
        self.lsb + self.width + self.rsb
    }

    /// Every field is in the range that a font's 16-bit values give.
    pub open spec fn bounded(self) -> bool {
        &&& -0x8000 <= self.lsb <= 0x7FFF
        &&& -0xFFFF <= self.width <= 0xFFFF
        &&& -0xFFFF <= self.height <= 0xFFFF
        &&& -0x8000 <= self.x <= 0x7FFF
        &&& -0x8000 <= self.y <= 0x7FFF
        &&& 0 <= self.advance() <= 0xFFFF
    }
}

impl Glyphs {
    /// The atlas is consistent: the font has a positive em size, each
    /// codepoint with a glyph has a box and the other way round, and every
    /// glyph's metrics are in range.
    pub open spec fn wf(self) -> bool {
        &&& self.units_per_em > 0
        &&& self.quads@.dom() =~= self.uvs@.dom()
        &&& forall|c: u32| self.quads@.contains_key(c) ==> (#[trigger] self.quads@[c]).bounded()
    }

    /// The atlas holds the replacement glyph.
    pub open spec fn has_replacement_spec(self) -> bool {
        self.quads@.contains_key(REPLACEMENT)
    }

    /// Whether the atlas holds the replacement glyph, without which text
    /// cannot be shaped.
    pub fn has_replacement(&self) -> (r: bool)
        ensures
            r == self.has_replacement_spec(),
    {
        let code: u32 = REPLACEMENT;
        self.quads.contains_key(&code)
    }
}

/// The glyph that the atlas keeps for `m`.
pub open spec fn quad_of(m: GlyphMetrics) -> Quad {
    Quad {
        code: m.code,
        lsb: m.lsb as i32,
        rsb: (m.advance - m.lsb - (m.x_max - m.x_min)) as i32,
        width: (m.x_max - m.x_min) as i32,
        height: (m.y_max - m.y_min) as i32,
        y: m.y_min as i32,
        x: m.x_min as i32,
    }
}

/// `a / b`, rounded up.
pub open spec fn ceil_div(a: int, b: int) -> int {
    if a % b == 0 {
        a / b
    } else {
        a / b + 1
    }
}

/// The side, in atlas pixels, of the box for an extent of `units` font units:
/// the extent at the atlas font size, rounded up, with the gap on both sides.
pub open spec fn pixel_side(units: int, units_per_em: int) -> int {
    ceil_div(units * ATLAS_FONT_SIZE, units_per_em) + 2 * ATLAS_GAP
}

/// The width of the glyph's box in the atlas.
pub open spec fn pixel_width(m: GlyphMetrics, units_per_em: int) -> int {
    pixel_side(m.x_max - m.x_min, units_per_em)
}

/// The height of the glyph's box in the atlas.
pub open spec fn pixel_height(m: GlyphMetrics, units_per_em: int) -> int {
    pixel_side(m.y_max - m.y_min, units_per_em)
}

/// The pixel boxes of all the glyphs, in order.
pub open spec fn pixel_sizes(metrics: Seq<GlyphMetrics>, units_per_em: int) -> Seq<(int, int)> {
    Seq::new(
        metrics.len(),
        |i: int| (pixel_width(metrics[i], units_per_em), pixel_height(metrics[i], units_per_em)),
    )
}

/// The glyph table: each codepoint's glyph, the last entry winning where a
/// codepoint comes twice.
pub open spec fn quad_table(metrics: Seq<GlyphMetrics>) -> Map<u32, Quad>
    decreases metrics.len(),
{
    if metrics.len() == 0 {
        Map::empty()
    } else {
        quad_table(metrics.drop_last()).insert(metrics.last().code, quad_of(metrics.last()))
    }
}

/// The atlas box of the packed rectangle `r`.
pub open spec fn uv_of(r: Rectangle) -> Uv {
    Uv { x: r.x, y: r.y, width: r.width, height: r.height }
}

/// The box table: each codepoint's box, where `positions[i]` is the box of
/// `metrics[i]`; the last entry wins where a codepoint comes twice.
pub open spec fn uv_table(metrics: Seq<GlyphMetrics>, positions: Seq<Rectangle>) -> Map<u32, Uv>
    decreases metrics.len(),
{
    if metrics.len() == 0 || positions.len() != metrics.len() {
        Map::empty()
    } else {
        uv_table(metrics.drop_last(), positions.drop_last()).insert(
            metrics.last().code,
            uv_of(positions.last()),
        )
    }
}

/// Where the host draws the glyph of `m`, packed at `rect`: the box's corner
/// moved in by the gap and back by the glyph's own origin, which is scaled
/// to the atlas font size. The origin's y is measured from the box's far edge.
pub open spec fn placement_of(m: GlyphMetrics, rect: Rectangle, units_per_em: int) -> Placement {
    Placement {
        code: m.code,
        rect,
        origin_x: ((rect.x + ATLAS_GAP) * units_per_em - m.x_min * ATLAS_FONT_SIZE) as i128,
        origin_y: ((rect.y + rect.height - ATLAS_GAP) * units_per_em + m.y_min
            * ATLAS_FONT_SIZE) as i128,
    }
}

/// The packed rectangles of the placements, in order.
pub open spec fn placed_rects(placements: Seq<Placement>) -> Seq<Rectangle> {
    placements.map_values(|p: Placement| p.rect)
}

/// The side of the atlas box for an extent of `units` font units.
pub fn pixel_side_of(units: i32, units_per_em: u16) -> (side: i64)
    requires
        units_per_em > 0,
        -0xFFFF <= units <= 0xFFFF,
    ensures
        side == pixel_side(units as int, units_per_em as int),
        -0x60_0000 <= side <= 0x60_0000,
{
    let d: u64 = units_per_em as u64;
    let scaled: i64 = (units as i64) * (ATLAS_FONT_SIZE as i64);
    let whole: i64 = if scaled >= 0 {
        let n: u64 = scaled as u64;
        let q: u64 = n / d;
        let r: u64 = n % d;
        proof {
            lemma_fundamental_div_mod(n as int, d as int);
            assert(d * q == q * d) by (nonlinear_arith);
            lemma_fundamental_div_mod_converse(scaled as int, d as int, q as int, r as int);
        }
        if r == 0 {
            q as i64
        } else {
            (q + 1) as i64
        }
    } else {
        let n: u64 = (-scaled) as u64;
        let q: u64 = n / d;
        let r: u64 = n % d;
        proof {
            lemma_fundamental_div_mod(n as int, d as int);
            assert(d * q == q * d) by (nonlinear_arith);
            assert((-(q as int)) * d == -(q * d)) by (nonlinear_arith);
            assert((-(q as int) - 1) * d == -(q * d) - d) by (nonlinear_arith);
            if r == 0 {
                lemma_fundamental_div_mod_converse(scaled as int, d as int, -(q as int), 0);
            } else {
                lemma_fundamental_div_mod_converse(
                    scaled as int,
                    d as int,
                    -(q as int) - 1,
                    d as int - r as int,
                );
            }
        }
        -(q as i64)
    };
    whole + 2 * (ATLAS_GAP as i64)
}

/// The glyph that the atlas keeps for `m`.
pub fn quad_from_metrics(m: &GlyphMetrics) -> (q: Quad)
    ensures
        q == quad_of(*m),
        q.bounded(),
{
    let width: i32 = m.x_max as i32 - m.x_min as i32;
    let height: i32 = m.y_max as i32 - m.y_min as i32;
    Quad {
        code: m.code,
        lsb: m.lsb as i32,
        rsb: m.advance as i32 - m.lsb as i32 - width,
        width,
        height,
        y: m.y_min as i32,
        x: m.x_min as i32,
    }
}

/// Where the host draws the glyph of `m`, packed at `rect`.
pub fn placement_for(m: &GlyphMetrics, rect: Rectangle, units_per_em: u16) -> (p: Placement)
    ensures
        p == placement_of(*m, rect, units_per_em as int),
{
    let em: i128 = units_per_em as i128;
    let left: i128 = rect.x as i128 + ATLAS_GAP as i128;
    let top: i128 = rect.y as i128 + rect.height as i128 - ATLAS_GAP as i128;
    assert(-0x8_0000_0000_0000_0000_0000 <= left * em <= 0x8_0000_0000_0000_0000_0000
        && -0x8_0000_0000_0000_0000_0000 <= top * em <= 0x8_0000_0000_0000_0000_0000)
        by (nonlinear_arith)
        requires
            0 <= left <= 0x1_0000_0000_0000_0010,
            -6 <= top <= 0x2_0000_0000_0000_0000,
            0 <= em <= 0xFFFF,
    ;
    Placement {
        code: m.code,
        rect,
        origin_x: left * em - (m.x_min as i128) * (ATLAS_FONT_SIZE as i128),
        origin_y: top * em + (m.y_min as i128) * (ATLAS_FONT_SIZE as i128),
    }
}

/// Builds the atlas tables from the glyphs' metrics and their packed boxes,
/// and says where the host draws each glyph.
pub fn assemble_atlas(
    units_per_em: u16,
    ascender: i16,
    descender: i16,
    metrics: &Vec<GlyphMetrics>,
    packing: Packing,
) -> (res: (Glyphs, Vec<Placement>))
    requires
        units_per_em > 0,
        packing.positions@.len() == metrics@.len(),
    ensures
        res.0.wf(),
        res.0.units_per_em == units_per_em,
        res.0.ascender == ascender,
        res.0.descender == descender,
        res.0.pack_width == packing.width,
        res.0.pack_height == packing.height,
        res.0.quads@ == quad_table(metrics@),
        res.0.uvs@ == uv_table(metrics@, packing.positions@),
        res.1@.len() == metrics@.len(),
        placed_rects(res.1@) == packing.positions@,
        forall|i: int|
            0 <= i < metrics@.len() ==> (#[trigger] res.1@[i]) == placement_of(
                metrics@[i],
                packing.positions@[i],
                units_per_em as int,
            ),
{
    let n = metrics.len();
    let mut quads: HashMap<u32, Quad> = HashMap::new();
    let mut uvs: HashMap<u32, Uv> = HashMap::new();
    let mut placements: Vec<Placement> = Vec::new();
    let mut i: usize = 0;
    assert(metrics@.take(0) =~= Seq::empty());
    assert(packing.positions@.take(0) =~= Seq::empty());
    while i < n
        invariant
            i <= n,
            n == metrics@.len(),
            n == packing.positions@.len(),
            quads@ == quad_table(metrics@.take(i as int)),
            uvs@ == uv_table(metrics@.take(i as int), packing.positions@.take(i as int)),
            quads@.dom() =~= uvs@.dom(),
            forall|c: u32| quads@.contains_key(c) ==> (#[trigger] quads@[c]).bounded(),
            placements@.len() == i,
            forall|j: int|
                0 <= j < i ==> (#[trigger] placements@[j]) == placement_of(
                    metrics@[j],
                    packing.positions@[j],
                    units_per_em as int,
                ),
        decreases n - i,
    {
        let m = &metrics[i];
        let rect = packing.positions[i];
        let quad = quad_from_metrics(m);
        proof {
            let next = i as int + 1;
            assert(metrics@.take(next).drop_last() =~= metrics@.take(i as int));
            assert(packing.positions@.take(next).drop_last() =~= packing.positions@.take(
                i as int,
            ));
        }
        uvs.insert(m.code, Uv { x: rect.x, y: rect.y, width: rect.width, height: rect.height });
        quads.insert(m.code, quad);
        placements.push(placement_for(m, rect, units_per_em));
        i = i + 1;
    }
    proof {
        assert(metrics@.take(n as int) =~= metrics@);
        assert(packing.positions@.take(n as int) =~= packing.positions@);
        assert(placed_rects(placements@) =~= packing.positions@);
    }
    let atlas = Glyphs {
        units_per_em,
        ascender,
        descender,
        pack_width: packing.width,
        pack_height: packing.height,
        quads,
        uvs,
    };
    (atlas, placements)
}

/// The codepoint of the first glyph, from index `from` on, whose padded box
/// has no positive size.
pub open spec fn empty_box_from(metrics: Seq<GlyphMetrics>, units_per_em: int, from: int) -> Option<
    u32,
>
    decreases metrics.len() - from,
{
    if from < 0 || from >= metrics.len() {
        None
    } else if pixel_width(metrics[from], units_per_em) <= 0 || pixel_height(
        metrics[from],
        units_per_em,
    ) <= 0 {
        Some(metrics[from].code)
    } else {
        empty_box_from(metrics, units_per_em, from + 1)
    }
}

/// Why these glyphs give no atlas, if they give none.
pub open spec fn build_failure(metrics: Seq<GlyphMetrics>, units_per_em: int) -> Option<FontError> {
    if metrics.len() > MAX_RECTANGLES {
        Some(FontError::TooManyGlyphs)
    } else {
        match empty_box_from(metrics, units_per_em, 0) {
            Some(code) => Some(FontError::EmptyGlyphBox(code)),
            None => None,
        }
    }
}

/// `atlas` and `placements` are what these glyphs give: the glyphs' padded
/// boxes are packed without overlap into the square atlas, the tables hold
/// each codepoint's glyph and box, and each placement is that of its glyph.
pub open spec fn is_atlas_of(
    atlas: Glyphs,
    placements: Seq<Placement>,
    metrics: Seq<GlyphMetrics>,
    units_per_em: u16,
    ascender: i16,
    descender: i16,
) -> bool {
    &&& atlas.wf()
    &&& atlas.units_per_em == units_per_em
    &&& atlas.ascender == ascender
    &&& atlas.descender == descender
    &&& atlas.pack_height == atlas.pack_width
    &&& is_packing_of(
        pixel_sizes(metrics, units_per_em as int),
        placed_rects(placements),
        atlas.pack_width as int,
    )
    &&& is_shelf_layout(pixel_sizes(metrics, units_per_em as int), placed_rects(placements))
    &&& atlas.quads@ == quad_table(metrics)
    &&& atlas.uvs@ == uv_table(metrics, placed_rects(placements))
    &&& placements.len() == metrics.len()
    &&& forall|i: int|
        0 <= i < metrics.len() ==> (#[trigger] placements[i]) == placement_of(
            metrics[i],
            placements[i].rect,
            units_per_em as int,
        )
}

/// Builds the atlas for glyphs with the given metrics: sizes each glyph's
/// padded box at the atlas font size, packs the boxes, and fills the tables.
pub fn build_atlas(
    units_per_em: u16,
    ascender: i16,
    descender: i16,
    metrics: &Vec<GlyphMetrics>,
) -> (res: Result<(Glyphs, Vec<Placement>), FontError>)
    requires
        units_per_em > 0,
    ensures
        match res {
            Ok((atlas, placements)) => {
                &&& build_failure(metrics@, units_per_em as int) is None
                &&& is_atlas_of(atlas, placements@, metrics@, units_per_em, ascender, descender)
            },
            Err(e) => build_failure(metrics@, units_per_em as int) == Some(e),
        },
{
    let n = metrics.len();
    if n > MAX_RECTANGLES {
        return Err(FontError::TooManyGlyphs);
    }
    let mut sizes: Vec<Vec<u32>> = Vec::new();
    let mut i: usize = 0;
    while i < n
        invariant
            i <= n,
            n == metrics@.len(),
            n <= MAX_RECTANGLES,
            units_per_em > 0,
            sizes@.len() == i,
            empty_box_from(metrics@, units_per_em as int, 0) == empty_box_from(
                metrics@,
                units_per_em as int,
                i as int,
            ),
            forall|j: int|
                0 <= j < i ==> {
                    &&& (#[trigger] sizes@[j])@.len() == 2
                    &&& sizes@[j]@[0] > 0
                    &&& sizes@[j]@[1] > 0
                    &&& sizes@[j]@[0] == pixel_width(metrics@[j], units_per_em as int)
                    &&& sizes@[j]@[1] == pixel_height(metrics@[j], units_per_em as int)
                },
        decreases n - i,
    {
        let m = &metrics[i];
        let width = pixel_side_of(m.x_max as i32 - m.x_min as i32, units_per_em);
        let height = pixel_side_of(m.y_max as i32 - m.y_min as i32, units_per_em);
        if width <= 0 || height <= 0 {
            return Err(FontError::EmptyGlyphBox(m.code));
        }
        let mut size: Vec<u32> = Vec::new();
        size.push(width as u32);
        size.push(height as u32);
        sizes.push(size);
        i = i + 1;
    }
    let ghost given = sizes@;
    let packing = pack_shelves(sizes);
    proof {
        assert(crate::pack::size_pairs(given) =~= pixel_sizes(metrics@, units_per_em as int));
    }
    let (atlas, placements) = assemble_atlas(units_per_em, ascender, descender, metrics, packing);
    Ok((atlas, placements))
}

} // verus!
