//! Text shaping: one quad per character, laid out left to right from the
//! glyphs of an atlas.
//!
//! Positions and sizes are exact: each value is a numerator over
//! `Glyphs::shape_denominator`, the font's units per em times the atlas font
//! size.

use crate::atlas::{Glyphs, Quad, Uv, ATLAS_FONT_SIZE, ATLAS_GAP, REPLACEMENT};
use vstd::prelude::*;
use vstd::string::*;

verus! {

broadcast use vstd::std_specs::hash::group_hash_axioms;

/// The extent of a shaped text, as numerators over the shape denominator.
#[derive(Debug, Clone, Copy, PartialEq, Eq)]
pub struct TextShape {
    pub width: i128,
    pub height: i128,
}

/// The codepoints of a text, in order.
pub open spec fn codepoints(text: Seq<char>) -> Seq<u32> {
    text.map_values(|c: char| c as u32)
}

/// `units` font units at pixel size `size`, as a numerator.
pub open spec fn scaled(units: int, size: int) -> int {
    units * (size * ATLAS_FONT_SIZE)
}

/// Writes the two values of quad `i` into a buffer of positions or sizes.
fn write_pair(buffer: &mut Vec<i128>, i: usize, first: i128, second: i128)
    requires
        2 * i + 1 < old(buffer)@.len(),
    ensures
        final(buffer)@ == old(buffer)@.update(2 * i, first).update(2 * i + 1, second),
{
    assert(buffer@.len() <= usize::MAX) by {
        vstd::std_specs::vec::axiom_spec_len(buffer);
    }
    buffer.set(2 * i, first);
    buffer.set(2 * i + 1, second);
}

/// Writes the atlas box of quad `i` into a buffer of boxes.
fn write_box(buffer: &mut Vec<u64>, i: usize, uv: &Uv)
    requires
        4 * i + 3 < old(buffer)@.len(),
    ensures
        final(buffer)@ == old(buffer)@.update(4 * i, uv.x).update(4 * i + 1, uv.y).update(
            4 * i + 2,
            uv.width,
        ).update(4 * i + 3, uv.height),
{
    assert(buffer@.len() <= usize::MAX) by {
        vstd::std_specs::vec::axiom_spec_len(buffer);
    }
    buffer.set(4 * i, uv.x);
    buffer.set(4 * i + 1, uv.y);
    buffer.set(4 * i + 2, uv.width);
    buffer.set(4 * i + 3, uv.height);
}

impl Glyphs {
    /// The codepoint whose glyph stands for `c`: `c` itself where the atlas
    /// has it, else the replacement.
    pub open spec fn glyph_code(self, c: u32) -> u32 {
        if self.quads@.contains_key(c) {
            c
        } else {
            REPLACEMENT
        }
    }

    /// The glyph that stands for `c`.
    pub open spec fn glyph(self, c: u32) -> Quad {
        self.quads@[self.glyph_code(c)]
    }

    /// The atlas box of the glyph that stands for `c`.
    pub open spec fn uv(self, c: u32) -> Uv {
        self.uvs@[self.glyph_code(c)]
    }

    /// The pen's x after the whole of `codes`, in font units: the sum of the
    /// glyphs' advances.
    pub open spec fn cursor(self, codes: Seq<u32>) -> int
        decreases codes.len(),
    {
        if codes.len() == 0 {
            0
        } else {
            self.cursor(codes.drop_last()) + self.glyph(codes.last()).advance()
        }
    }

    /// The pen's x before character `i` of `codes`, in font units.
    pub open spec fn pen(self, codes: Seq<u32>, i: int) -> int {
        self.cursor(codes.take(i))
    }

    /// The font's vertical anchor, in font units.
    pub open spec fn cap_height(self) -> int {
        self.ascender + self.descender
    }

    /// The border round each quad at pixel size `size`, as a numerator.
    pub open spec fn padding(self, size: int) -> int {
        ATLAS_GAP * (size * self.units_per_em)
    }

    /// The denominator of all shaped values.
    pub open spec fn denominator(self) -> int {
        self.units_per_em * ATLAS_FONT_SIZE
    }

    /// The left edge of the quad of character `i`.
    pub open spec fn position_x(self, codes: Seq<u32>, i: int, size: int) -> int {
        scaled(self.pen(codes, i) + self.glyph(codes[i]).lsb, size) - self.padding(size)
    }

    /// The upper edge of the quad of `c`, measured down from the anchor.
    pub open spec fn position_y(self, c: u32, size: int) -> int {
        scaled(self.cap_height() - self.glyph(c).y - self.glyph(c).height, size) - self.padding(
            size,
        )
    }

    /// The width of the quad of `c`.
    pub open spec fn size_x(self, c: u32, size: int) -> int {
        scaled(self.glyph(c).width as int, size) + 2 * self.padding(size)
    }

    /// The height of the quad of `c`.
    pub open spec fn size_y(self, c: u32, size: int) -> int {
        scaled(self.glyph(c).height as int, size) + 2 * self.padding(size)
    }

    /// The first `codes.len()` quads of the three buffers are those of
    /// `codes` at pixel size `size`: two values of each quad's position,
    /// two of its size, four of its atlas box.
    pub open spec fn shaped(
        self,
        codes: Seq<u32>,
        size: int,
        positions: Seq<i128>,
        sizes: Seq<i128>,
        uvs: Seq<u64>,
    ) -> bool {
        &&& positions.len() >= 2 * codes.len()
        &&& sizes.len() >= 2 * codes.len()
        &&& uvs.len() >= 4 * codes.len()
        &&& forall|i: int| 0 <= i < codes.len() ==> #[trigger] self.quad_written(
            codes,
            size,
            positions,
            sizes,
            uvs,
            i,
        )
    }

    /// Quad `i` of the three buffers is that of character `i` of `codes`.
    pub open spec fn quad_written(
        self,
        codes: Seq<u32>,
        size: int,
        positions: Seq<i128>,
        sizes: Seq<i128>,
        uvs: Seq<u64>,
        i: int,
    ) -> bool {
        &&& positions[2 * i] == self.position_x(codes, i, size)
        &&& positions[2 * i + 1] == self.position_y(codes[i], size)
        &&& sizes[2 * i] == self.size_x(codes[i], size)
        &&& sizes[2 * i + 1] == self.size_y(codes[i], size)
        &&& uvs[4 * i] == self.uv(codes[i]).x
        &&& uvs[4 * i + 1] == self.uv(codes[i]).y
        &&& uvs[4 * i + 2] == self.uv(codes[i]).width
        &&& uvs[4 * i + 3] == self.uv(codes[i]).height
    }

    /// The side of the atlas along x, in pixels.
    pub fn get_atlas_width(&self) -> (w: u64)
        ensures
            w == self.pack_width,
    {
        self.pack_width
    }

    /// The side of the atlas along y, in pixels.
    pub fn get_atlas_height(&self) -> (h: u64)
        ensures
            h == self.pack_height,
    {
        self.pack_height
    }

    /// The denominator of all shaped values.
    pub fn shape_denominator(&self) -> (d: u32)
        ensures
            d == self.denominator(),
    {
        self.units_per_em as u32 * ATLAS_FONT_SIZE
    }

    /// The glyph that stands for `c`, and its atlas box.
    pub fn glyph_for(&self, c: u32) -> (res: (Quad, Uv))
        requires
            self.wf(),
            self.has_replacement_spec(),
        ensures
            res.0 == self.glyph(c),
            res.1 == self.uv(c),
            res.0.bounded(),
    {
        let key: u32 = if self.quads.contains_key(&c) {
            c
        } else {
            REPLACEMENT
        };
        assert(self.quads@.dom().contains(key));
        assert(self.uvs@.dom().contains(key));
        let quad = *self.quads.get(&key).unwrap();
        let uv = *self.uvs.get(&key).unwrap();
        (quad, uv)
    }

    /// The position and the size of a glyph's quad with the pen at `pen`:
    /// left edge, upper edge, width, height.
    fn quad_values(&self, quad: &Quad, pen: i128, size: u32) -> (at: (i128, i128, i128, i128))
        requires
            quad.bounded(),
            0 <= pen <= 0x1_0000_0000_0000_0000_0000,
        ensures
            at.0 == scaled(pen + quad.lsb, size as int) - self.padding(size as int),
            at.1 == scaled(self.cap_height() - quad.y - quad.height, size as int) - self.padding(
                size as int,
            ),
            at.2 == scaled(quad.width as int, size as int) + 2 * self.padding(size as int),
            at.3 == scaled(quad.height as int, size as int) + 2 * self.padding(size as int),
    {
        let per_unit: i128 = size as i128 * (ATLAS_FONT_SIZE as i128);
        assert(0 <= size * self.units_per_em <= 0x1_0000_0000_0000) by (nonlinear_arith)
            requires
                0 <= size <= 0xFFFF_FFFF,
                0 <= self.units_per_em <= 0xFFFF,
        ;
        let pad: i128 = (ATLAS_GAP as i128) * (size as i128 * self.units_per_em as i128);
        let cap: i128 = self.ascender as i128 + self.descender as i128;
        let from_pen: i128 = pen + quad.lsb as i128;
        let from_cap: i128 = cap - quad.y as i128 - quad.height as i128;
        let width: i128 = quad.width as i128;
        let height: i128 = quad.height as i128;
        assert(-0x0100_0000_0000_0000_0000_0000_0000_0000 <= from_pen * per_unit
            <= 0x0100_0000_0000_0000_0000_0000_0000_0000) by (nonlinear_arith)
            requires
                -0x1_0000 <= from_pen <= 0x1_0000_0000_0000_0000_8000,
                0 <= per_unit <= 0x60_0000_0000,
        ;
        assert(-0x1_0000_0000_0000_0000 <= from_cap * per_unit <= 0x1_0000_0000_0000_0000)
            by (nonlinear_arith)
            requires
                -0x4_0000 <= from_cap <= 0x4_0000,
                0 <= per_unit <= 0x60_0000_0000,
        ;
        assert(-0x1_0000_0000_0000_0000 <= width * per_unit <= 0x1_0000_0000_0000_0000)
            by (nonlinear_arith)
            requires
                -0x1_0000 <= width <= 0x1_0000,
                0 <= per_unit <= 0x60_0000_0000,
        ;
        assert(-0x1_0000_0000_0000_0000 <= height * per_unit <= 0x1_0000_0000_0000_0000)
            by (nonlinear_arith)
            requires
                -0x1_0000 <= height <= 0x1_0000,
                0 <= per_unit <= 0x60_0000_0000,
        ;
        (
            from_pen * per_unit - pad,
            from_cap * per_unit - pad,
            width * per_unit + 2 * pad,
            height * per_unit + 2 * pad,
        )
    }

    /// Shapes `codes` at pixel size `size` into the first quads of the three
    /// buffers and returns the text's extent. What lies behind those quads
    /// in the buffers stays as it was.
    pub fn shape_codepoints(
        &self,
        codes: &Vec<u32>,
        size: u32,
        positions: &mut Vec<i128>,
        sizes: &mut Vec<i128>,
        uvs: &mut Vec<u64>,
    ) -> (shape: TextShape)
        requires
            self.wf(),
            self.has_replacement_spec(),
            old(positions)@.len() >= 2 * codes@.len(),
            old(sizes)@.len() >= 2 * codes@.len(),
            old(uvs)@.len() >= 4 * codes@.len(),
        ensures
            self.shaped(codes@, size as int, final(positions)@, final(sizes)@, final(uvs)@),
            final(positions)@.len() == old(positions)@.len(),
            final(sizes)@.len() == old(sizes)@.len(),
            final(uvs)@.len() == old(uvs)@.len(),
            forall|j: int|
                2 * codes@.len() <= j < old(positions)@.len() ==> final(positions)@[j] == old(
                    positions,
                )@[j],
            forall|j: int|
                2 * codes@.len() <= j < old(sizes)@.len() ==> final(sizes)@[j] == old(sizes)@[j],
            forall|j: int|
                4 * codes@.len() <= j < old(uvs)@.len() ==> final(uvs)@[j] == old(uvs)@[j],
            shape.width == scaled(self.cursor(codes@), size as int),
            shape.height == scaled(self.cap_height(), size as int),
            codes@.len() == 0 ==> shape.width == 0,
    {
        let n = codes.len();
        let per_unit: i128 = size as i128 * (ATLAS_FONT_SIZE as i128);
        let cap: i128 = self.ascender as i128 + self.descender as i128;
        let mut cursor: i128 = 0;
        let mut i: usize = 0;
        assert(codes@.take(0) =~= Seq::empty());
        while i < n
            invariant
                i <= n,
                n == codes@.len(),
                self.wf(),
                self.has_replacement_spec(),
                per_unit == size * ATLAS_FONT_SIZE,
                cap == self.cap_height(),
                positions@.len() == old(positions)@.len(),
                sizes@.len() == old(sizes)@.len(),
                uvs@.len() == old(uvs)@.len(),
                positions@.len() >= 2 * n,
                sizes@.len() >= 2 * n,
                uvs@.len() >= 4 * n,
                cursor == self.cursor(codes@.take(i as int)),
                0 <= cursor <= i * 0xFFFF,
                0 <= per_unit <= 0x60_0000_0000,
                forall|j: int|
                    0 <= j < i ==> #[trigger] self.quad_written(
                        codes@,
                        size as int,
                        positions@,
                        sizes@,
                        uvs@,
                        j,
                    ),
                forall|j: int| 2 * i <= j < positions@.len() ==> positions@[j] == old(positions)@[j],
                forall|j: int| 2 * i <= j < sizes@.len() ==> sizes@[j] == old(sizes)@[j],
                forall|j: int| 4 * i <= j < uvs@.len() ==> uvs@[j] == old(uvs)@[j],
            decreases n - i,
        {
            let c = codes[i];
            let (quad, uv) = self.glyph_for(c);
            let at = self.quad_values(&quad, cursor, size);
            proof {
                let next = i as int + 1;
                assert(codes@.take(next).drop_last() =~= codes@.take(i as int));
                assert(codes@.take(next).last() == c);
            }
            let ghost before = (positions@, sizes@, uvs@);
            write_pair(positions, i, at.0, at.1);
            write_pair(sizes, i, at.2, at.3);
            write_box(uvs, i, &uv);
            proof {
                assert forall|j: int| 0 <= j < i implies #[trigger] self.quad_written(
                    codes@,
                    size as int,
                    positions@,
                    sizes@,
                    uvs@,
                    j,
                ) by {
                    assert(self.quad_written(
                        codes@,
                        size as int,
                        before.0,
                        before.1,
                        before.2,
                        j,
                    ));
                }
                assert(self.quad_written(
                    codes@,
                    size as int,
                    positions@,
                    sizes@,
                    uvs@,
                    i as int,
                ));
            }
            cursor = cursor + (quad.lsb as i128 + quad.width as i128 + quad.rsb as i128);
            i = i + 1;
        }
        assert(codes@.take(n as int) =~= codes@);
        assert(cursor * per_unit <= 0x0100_0000_0000_0000_0000_0000_0000_0000) by (nonlinear_arith)
            requires
                0 <= cursor <= 0x1_0000_0000_0000_0000_0000,
                0 <= per_unit <= 0x60_0000_0000,
        ;
        assert(-0x1_0000_0000_0000_0000 <= cap * per_unit <= 0x1_0000_0000_0000_0000)
            by (nonlinear_arith)
            requires
                -0x1_0000 <= cap <= 0x1_0000,
                0 <= per_unit <= 0x60_0000_0000,
        ;
        assert(0 <= cursor * per_unit) by (nonlinear_arith)
            requires
                0 <= cursor,
                0 <= per_unit,
        ;
        TextShape { width: cursor * per_unit, height: cap * per_unit }
    }

    /// Shapes `text` at pixel size `size`: see `shape_codepoints`.
    pub fn get_text_shape(
        &self,
        text: &str,
        size: u32,
        positions: &mut Vec<i128>,
        sizes: &mut Vec<i128>,
        uvs: &mut Vec<u64>,
    ) -> (shape: TextShape)
        requires
            self.wf(),
            self.has_replacement_spec(),
            old(positions)@.len() >= 2 * text@.len(),
            old(sizes)@.len() >= 2 * text@.len(),
            old(uvs)@.len() >= 4 * text@.len(),
        ensures
            self.shaped(
                codepoints(text@),
                size as int,
                final(positions)@,
                final(sizes)@,
                final(uvs)@,
            ),
            final(positions)@.len() == old(positions)@.len(),
            final(sizes)@.len() == old(sizes)@.len(),
            final(uvs)@.len() == old(uvs)@.len(),
            forall|j: int|
                2 * text@.len() <= j < old(positions)@.len() ==> final(positions)@[j] == old(
                    positions,
                )@[j],
            forall|j: int|
                2 * text@.len() <= j < old(sizes)@.len() ==> final(sizes)@[j] == old(sizes)@[j],
            forall|j: int|
                4 * text@.len() <= j < old(uvs)@.len() ==> final(uvs)@[j] == old(uvs)@[j],
            shape.width == scaled(self.cursor(codepoints(text@)), size as int),
            shape.height == scaled(self.cap_height(), size as int),
            text@.len() == 0 ==> shape.width == 0,
    {
        let n = text.unicode_len();
        let mut codes: Vec<u32> = Vec::new();
        let mut i: usize = 0;
        while i < n
            invariant
                i <= n,
                n == text@.len(),
                codes@.len() == i,
                forall|j: int| 0 <= j < i ==> codes@[j] == (#[trigger] text@[j]) as u32,
            decreases n - i,
        {
            codes.push(text.get_char(i) as u32);
            i = i + 1;
        }
        assert(codes@ =~= codepoints(text@));
        self.shape_codepoints(&codes, size, positions, sizes, uvs)
    }
}

/// The pen's travel over a text is the sum of its travel over the parts.
pub proof fn lemma_cursor_concat(atlas: Glyphs, a: Seq<u32>, b: Seq<u32>)
    ensures
        atlas.cursor(a + b) == atlas.cursor(a) + atlas.cursor(b),
    decreases b.len(),
{
    if b.len() == 0 {
        assert(a + b =~= a);
    } else {
        assert((a + b).drop_last() =~= a + b.drop_last());
        assert((a + b).last() == b.last());
        lemma_cursor_concat(atlas, a, b.drop_last());
    }
}

/// Shaping runs left to right: in `a` followed by `b`, the quads of `a` are
/// those of `a` alone, the pen stands before the first character of `b`
/// where it stood after the whole of `a`, and it goes on through `b` from
/// there.
pub proof fn lemma_shaping_is_cumulative(atlas: Glyphs, a: Seq<u32>, b: Seq<u32>, size: int)
    ensures
        atlas.pen(a + b, a.len() as int) == atlas.cursor(a),
        forall|j: int|
            0 <= j < a.len() ==> #[trigger] atlas.position_x(a + b, j, size) == atlas.position_x(
                a,
                j,
                size,
            ),
        forall|j: int|
            0 <= j <= b.len() ==> #[trigger] atlas.pen(a + b, a.len() + j) == atlas.cursor(a)
                + atlas.pen(b, j),
{
    assert((a + b).take(a.len() as int) =~= a);
    assert forall|j: int| 0 <= j < a.len() implies #[trigger] atlas.position_x(a + b, j, size)
        == atlas.position_x(a, j, size) by {
        assert((a + b).take(j) =~= a.take(j));
        assert((a + b)[j] == a[j]);
    }
    assert forall|j: int| 0 <= j <= b.len() implies #[trigger] atlas.pen(a + b, a.len() + j)
        == atlas.cursor(a) + atlas.pen(b, j) by {
        assert((a + b).take(a.len() + j) =~= a + b.take(j));
        lemma_cursor_concat(atlas, a, b.take(j));
    }
}

/// Texts whose characters stand for the same glyphs move the pen alike.
pub proof fn lemma_cursor_by_glyph(atlas: Glyphs, a: Seq<u32>, b: Seq<u32>)
    requires
        a.len() == b.len(),
        forall|j: int| 0 <= j < a.len() ==> atlas.glyph_code(#[trigger] a[j]) == atlas.glyph_code(b[j]),
    ensures
        atlas.cursor(a) == atlas.cursor(b),
    decreases a.len(),
{
    if a.len() > 0 {
        let a0 = a.drop_last();
        let b0 = b.drop_last();
        assert forall|j: int| 0 <= j < a0.len() implies atlas.glyph_code(#[trigger] a0[j])
            == atlas.glyph_code(b0[j]) by {
            assert(a0[j] == a[j] && b0[j] == b[j]);
        }
        lemma_cursor_by_glyph(atlas, a0, b0);
        assert(atlas.glyph_code(a[a.len() - 1]) == atlas.glyph_code(b[a.len() - 1]));
    }
}

/// A codepoint that the atlas lacks is shaped as the replacement codepoint
/// is: where `other` is `codes` with some of its unmapped codepoints
/// replaced, every quad and the text's extent are the same for both.
pub proof fn lemma_unmapped_shapes_as_replacement(
    atlas: Glyphs,
    codes: Seq<u32>,
    other: Seq<u32>,
    size: int,
)
    requires
        codes.len() == other.len(),
        forall|j: int|
            0 <= j < codes.len() ==> (#[trigger] other[j]) == codes[j] || (
            !atlas.quads@.contains_key(codes[j]) && other[j] == REPLACEMENT),
    ensures
        atlas.cursor(codes) == atlas.cursor(other),
        forall|j: int|
            0 <= j < codes.len() ==> {
                &&& #[trigger] atlas.position_x(codes, j, size) == atlas.position_x(other, j, size)
                &&& atlas.position_y(codes[j], size) == atlas.position_y(other[j], size)
                &&& atlas.size_x(codes[j], size) == atlas.size_x(other[j], size)
                &&& atlas.size_y(codes[j], size) == atlas.size_y(other[j], size)
                &&& atlas.uv(codes[j]) == atlas.uv(other[j])
            },
{
    assert forall|j: int| 0 <= j < codes.len() implies atlas.glyph_code(#[trigger] codes[j])
        == atlas.glyph_code(other[j]) by {
        assert(other[j] == codes[j] || other[j] == REPLACEMENT);
    }
    lemma_cursor_by_glyph(atlas, codes, other);
    assert forall|j: int| 0 <= j < codes.len() implies {
        &&& #[trigger] atlas.position_x(codes, j, size) == atlas.position_x(other, j, size)
        &&& atlas.position_y(codes[j], size) == atlas.position_y(other[j], size)
        &&& atlas.size_x(codes[j], size) == atlas.size_x(other[j], size)
        &&& atlas.size_y(codes[j], size) == atlas.size_y(other[j], size)
        &&& atlas.uv(codes[j]) == atlas.uv(other[j])
    } by {
        let a = codes.take(j);
        let b = other.take(j);
        assert forall|k: int| 0 <= k < a.len() implies atlas.glyph_code(#[trigger] a[k])
            == atlas.glyph_code(b[k]) by {
            assert(a[k] == codes[k] && b[k] == other[k]);
            assert(atlas.glyph_code(codes[k]) == atlas.glyph_code(other[k]));
        }
        lemma_cursor_by_glyph(atlas, a, b);
        assert(atlas.glyph_code(codes[j]) == atlas.glyph_code(other[j]));
    }
}

} // verus!
