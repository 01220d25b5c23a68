//! Shelf packing with region splitting: places boxes, tallest first, into
//! free regions of a strip and reports the square, power-of-two atlas that
//! holds them.

use vstd::prelude::*;

verus! {

/// The largest number of boxes that one packing takes.
pub const MAX_RECTANGLES: usize = 0x20_0000;

/// A placed box. `id` is its index in the input.
#[derive(Debug, Clone, Copy)]
pub struct Rectangle {
    pub id: usize,
    pub x: u64,
    pub y: u64,
    pub width: u64,
    pub height: u64,
}

/// The atlas side lengths and the boxes, in input order.
#[derive(Debug)]
pub struct Packing {
    pub width: u64,
    pub height: u64,
    pub positions: Vec<Rectangle>,
}

/// A free region of the strip. An `open` region has no lower edge; its
/// `height` is not read.
#[derive(Debug, Clone, Copy)]
pub struct Region {
    pub x: u64,
    pub y: u64,
    pub width: u64,
    pub height: u64,
    pub open: bool,
}

impl Rectangle {
    /// The x coordinate just past the box.
    pub open spec fn right(self) -> int {
        self.x + self.width
    }

    /// The y coordinate just past the box.
    pub open spec fn bottom(self) -> int {
        self.y + self.height
    }

    /// The two boxes share no point.
    pub open spec fn disjoint(self, other: Rectangle) -> bool {
        ||| self.right() <= other.x
        ||| other.right() <= self.x
        ||| self.bottom() <= other.y
        ||| other.bottom() <= self.y
    }
}

/// Every entry gives a positive width and a positive height, and there are
/// at most `MAX_RECTANGLES` of them.
pub open spec fn valid_sizes(sizes: Seq<Vec<u32>>) -> bool {
    &&& sizes.len() <= MAX_RECTANGLES
    &&& forall|i: int|
        0 <= i < sizes.len() ==> {
            &&& (#[trigger] sizes[i])@.len() >= 2
            &&& sizes[i]@[0] > 0
            &&& sizes[i]@[1] > 0
        }
}

/// `n` is a power of two.
pub open spec fn is_pow2(n: int) -> bool
    decreases n,
{
    if n <= 0 {
        false
    } else if n == 1 {
        true
    } else {
        n % 2 == 0 && is_pow2(n / 2)
    }
}

/// The first of `p, 2p, 4p, ..` that reaches `v`.
pub open spec fn doubled_until(p: int, v: int) -> int
    decreases (if v > p { v - p } else { 0 }),
{
    if p >= v || p <= 0 {
        p
    } else {
        doubled_until(2 * p, v)
    }
}

/// The least power of two that is at least `v`; 0 for 0.
pub open spec fn pow2_ceil(v: int) -> int {
    if v <= 0 {
        0
    } else {
        doubled_until(1, v)
    }
}

/// The greatest entry of `s`, and 0 for the empty sequence.
pub open spec fn max_of(s: Seq<int>) -> int
    decreases s.len(),
{
    if s.len() == 0 {
        0
    } else if max_of(s.drop_last()) >= s.last() {
        max_of(s.drop_last())
    } else {
        s.last()
    }
}

/// The width of the tightest box around `positions` that starts at x = 0.
pub open spec fn extent_right(positions: Seq<Rectangle>) -> int {
    max_of(positions.map_values(|r: Rectangle| r.right()))
}

/// The height of the tightest box around `positions` that starts at y = 0.
pub open spec fn extent_bottom(positions: Seq<Rectangle>) -> int {
    max_of(positions.map_values(|r: Rectangle| r.bottom()))
}

proof fn lemma_doubled_until(p: int, v: int)
    requires
        is_pow2(p),
        p < 2 * v,
    ensures
        is_pow2(doubled_until(p, v)),
        v <= doubled_until(p, v) < 2 * v,
    decreases (if v > p { v - p } else { 0 }),
{
    if p < v {
        assert(is_pow2(2 * p)) by {
            assert((2 * p) / 2 == p);
        }
        lemma_doubled_until(2 * p, v);
    }
}

/// For a positive `v`, `pow2_ceil(v)` is the one power of two in `[v, 2v)`.
pub proof fn lemma_pow2_ceil(v: int)
    requires
        v > 0,
    ensures
        is_pow2(pow2_ceil(v)),
        v <= pow2_ceil(v) < 2 * v,
{
    lemma_doubled_until(1, v);
}

proof fn lemma_max_of(s: Seq<int>)
    requires
        forall|i: int| 0 <= i < s.len() ==> (#[trigger] s[i]) >= 0,
    ensures
        max_of(s) >= 0,
        forall|i: int| 0 <= i < s.len() ==> (#[trigger] s[i]) <= max_of(s),
        s.len() > 0 ==> exists|i: int| 0 <= i < s.len() && s[i] == max_of(s),
    decreases s.len(),
{
    if s.len() > 0 {
        let t = s.drop_last();
        lemma_max_of(t);
        assert forall|i: int| 0 <= i < s.len() implies (#[trigger] s[i]) <= max_of(s) by {
            if i < t.len() {
                assert(t[i] == s[i]);
            }
        }
        if max_of(t) >= s.last() && t.len() > 0 {
            let w = choose|i: int| 0 <= i < t.len() && t[i] == max_of(t);
            assert(s[w] == max_of(s));
        } else {
            assert(s[s.len() - 1] == max_of(s));
        }
    }
}

/// A bound that every entry keeps and one entry meets is the greatest entry.
proof fn lemma_max_of_is(s: Seq<int>, bound: int, at: int)
    requires
        forall|i: int| 0 <= i < s.len() ==> 0 <= (#[trigger] s[i]) && s[i] <= bound,
        s.len() == 0 ==> bound == 0,
        s.len() > 0 ==> 0 <= at < s.len() && s[at] == bound,
    ensures
        max_of(s) == bound,
{
    lemma_max_of(s);
}

/// The least power of two that is at least `v`, and 0 for 0.
pub fn ceil_pow2(v: u64) -> (r: u64)
    requires
        v <= 0x8000_0000_0000_0000,
    ensures
        r == pow2_ceil(v as int),
{
    if v == 0 {
        return 0;
    }
    let mut p: u64 = 1;
    while p < v
        invariant
            0 < p,
            p < 2 * v,
            v <= 0x8000_0000_0000_0000,
            doubled_until(p as int, v as int) == doubled_until(1, v as int),
        decreases (if v > p { v - p } else { 0 }),
    {
        p = p * 2;
    }
    p
}

/// `w` is the least whole number whose square is at least `area / 0.95`.
pub open spec fn is_seed_width(area: int, w: int) -> bool {
    &&& w >= 0
    &&& 19 * (w * w) >= 20 * area
    &&& w > 0 ==> 19 * ((w - 1) * (w - 1)) < 20 * area
}

/// An area has one seed width.
pub proof fn lemma_seed_width_unique(area: int, a: int, b: int)
    requires
        is_seed_width(area, a),
        is_seed_width(area, b),
    ensures
        a == b,
{
    if a < b {
        assert(a * a <= (b - 1) * (b - 1)) by (nonlinear_arith)
            requires
                0 <= a <= b - 1,
        ;
    } else if b < a {
        assert(b * b <= (a - 1) * (a - 1)) by (nonlinear_arith)
            requires
                0 <= b <= a - 1,
        ;
    }
}

/// The side of a square of `area / 0.95`, rounded up.
pub fn seed_width(area: u128) -> (w: u64)
    requires
        area <= 0x100_0000_0000_0000_0000_0000,
    ensures
        is_seed_width(area as int, w as int),
        w <= 0x2000_0000_0000,
{
    let mut lo: u64 = 0;
    let mut hi: u64 = 0x2000_0000_0000;
    assert(19 * (0x2000_0000_0000int * 0x2000_0000_0000int) >= 20 * area) by (nonlinear_arith)
        requires
            area <= 0x100_0000_0000_0000_0000_0000,
    ;
    while lo < hi
        invariant
            lo <= hi <= 0x2000_0000_0000,
            area <= 0x100_0000_0000_0000_0000_0000,
            19 * (hi * hi) >= 20 * area,
            lo > 0 ==> 19 * ((lo - 1) * (lo - 1)) < 20 * area,
        decreases hi - lo,
    {
        let mid: u64 = lo + (hi - lo) / 2;
        assert(mid * mid <= 0x2000_0000_0000int * 0x2000_0000_0000int) by (nonlinear_arith)
            requires
                mid <= 0x2000_0000_0000,
        ;
        let square: u128 = (mid as u128) * (mid as u128);
        if 19 * square >= 20 * area {
            hi = mid;
        } else {
            lo = mid + 1;
        }
    }
    lo
}

impl Region {
    /// A box of `w` by `h` fits into the region.
    pub open spec fn fits(self, w: u64, h: u64) -> bool {
        w <= self.width && (self.open || h <= self.height)
    }

    /// The region without its upper `h` rows.
    pub open spec fn lowered(self, h: u64) -> Region {
        Region {
            x: self.x,
            y: (self.y + h) as u64,
            width: self.width,
            height: if self.open {
                self.height
            } else {
                (self.height - h) as u64
            },
            open: self.open,
        }
    }

    /// What the region leaves free beside a box of width `w` at its origin,
    /// `h` rows high.
    pub open spec fn beside(self, w: u64, h: u64) -> Region {
        Region {
            x: (self.x + w) as u64,
            y: self.y,
            width: (self.width - w) as u64,
            height: h,
            open: false,
        }
    }

    /// The closed region and the box share no point.
    spec fn clear_of(self, r: Rectangle) -> bool {
        ||| r.right() <= self.x
        ||| self.x + self.width <= r.x
        ||| r.bottom() <= self.y
        ||| self.y + self.height <= r.y
    }

    /// The two closed regions share no point.
    spec fn apart(self, o: Region) -> bool {
        ||| o.x + o.width <= self.x
        ||| self.x + self.width <= o.x
        ||| o.y + o.height <= self.y
        ||| self.y + self.height <= o.y
    }
}

/// The region that takes a box of `w` by `h`: the last one that fits, and
/// -1 where none does.
pub open spec fn chosen_region(regions: Seq<Region>, w: u64, h: u64) -> int
    decreases regions.len(),
{
    if regions.len() == 0 {
        -1
    } else if regions.last().fits(w, h) {
        regions.len() - 1
    } else {
        chosen_region(regions.drop_last(), w, h)
    }
}

/// The free regions once a box of `w` by `h` stands at the origin of region
/// `i`. A region that the box fills leaves, and the last region takes its
/// place. A region whose height the box has keeps what is beside the box, one
/// whose width it has keeps what is below. Any other region keeps what is
/// below, and what is beside the box becomes a new, last region.
pub open spec fn regions_after(regions: Seq<Region>, i: int, w: u64, h: u64) -> Seq<Region> {
    let g = regions[i];
    if !g.open && w == g.width && h == g.height {
        if i == regions.len() - 1 {
            regions.drop_last()
        } else {
            regions.drop_last().update(i, regions.last())
        }
    } else if !g.open && h == g.height {
        regions.update(i, g.beside(w, g.height))
    } else if w == g.width {
        regions.update(i, g.lowered(h))
    } else {
        regions.update(i, g.lowered(h)).push(g.beside(w, h))
    }
}

/// The sum of the boxes' areas.
pub open spec fn total_area(sizes: Seq<(int, int)>) -> int
    decreases sizes.len(),
{
    if sizes.len() == 0 {
        0
    } else {
        total_area(sizes.drop_last()) + sizes.last().0 * sizes.last().1
    }
}

/// The greatest of the boxes' widths.
pub open spec fn widest(sizes: Seq<(int, int)>) -> int
    decreases sizes.len(),
{
    if sizes.len() == 0 {
        0
    } else if widest(sizes.drop_last()) >= sizes.last().0 {
        widest(sizes.drop_last())
    } else {
        sizes.last().0
    }
}

/// `order` lists the boxes tallest first, those of one height in input
/// order.
pub open spec fn is_height_order(sizes: Seq<(int, int)>, order: Seq<int>) -> bool {
    &&& order.len() == sizes.len()
    &&& forall|a: int| 0 <= a < order.len() ==> 0 <= #[trigger] order[a] < sizes.len()
    &&& forall|a: int, b: int|
        0 <= a < b < order.len() ==> {
            ||| sizes[#[trigger] order[a]].1 > sizes[#[trigger] order[b]].1
            ||| (sizes[order[a]].1 == sizes[order[b]].1 && order[a] < order[b])
        }
}

/// The boxes before any is placed: each at the origin, with its index.
pub open spec fn unplaced(sizes: Seq<(int, int)>) -> Seq<Rectangle> {
    Seq::new(
        sizes.len(),
        |i: int|
            Rectangle { id: i as usize, x: 0, y: 0, width: sizes[i].0 as u64, height: sizes[i].1 as u64 },
    )
}

/// The free regions and the boxes once the first `upto` boxes of `order`
/// are placed in a strip of width `limit`: each box in turn goes to the
/// origin of the region that takes it.
pub open spec fn laid_out(sizes: Seq<(int, int)>, order: Seq<int>, limit: u64, upto: int) -> (
    Seq<Region>,
    Seq<Rectangle>,
)
    decreases upto,
{
    if upto <= 0 {
        (seq![Region { x: 0, y: 0, width: limit, height: 0, open: true }], unplaced(sizes))
    } else {
        let (regions, rects) = laid_out(sizes, order, limit, upto - 1);
        let id = order[upto - 1];
        let w = rects[id].width;
        let h = rects[id].height;
        let i = chosen_region(regions, w, h);
        (
            regions_after(regions, i, w, h),
            rects.update(
                id,
                Rectangle { id: rects[id].id, x: regions[i].x, y: regions[i].y, width: w, height: h },
            ),
        )
    }
}

/// `positions` is where shelf packing puts boxes of the given sizes: in a
/// strip whose width is the side of a square of the boxes' area over 0.95,
/// rounded up, and at least the widest box, the boxes are placed tallest
/// first.
pub open spec fn is_shelf_layout(sizes: Seq<(int, int)>, positions: Seq<Rectangle>) -> bool {
    exists|order: Seq<int>, seed: int|
        {
            &&& is_height_order(sizes, order)
            &&& is_seed_width(total_area(sizes), seed)
            &&& positions == (#[trigger] laid_out(
                sizes,
                order,
                vstd::math::max(seed, widest(sizes)) as u64,
                sizes.len() as int,
            )).1
        }
}

/// Every box has its turn in a height order.
proof fn lemma_height_order_covers(sizes: Seq<(int, int)>, order: Seq<int>, p: int)
    requires
        is_height_order(sizes, order),
        0 <= p < sizes.len(),
    ensures
        exists|a: int| 0 <= a < order.len() && order[a] == p,
{
    let n = sizes.len() as int;
    assert forall|i: int, j: int| 0 <= i < order.len() && 0 <= j < order.len() && i != j implies order[i]
        != order[j] by {
        if i < j {
            assert(sizes[order[i]].1 > sizes[order[j]].1 || order[i] < order[j]);
        } else {
            assert(sizes[order[j]].1 > sizes[order[i]].1 || order[j] < order[i]);
        }
    }
    assert(order.no_duplicates());
    order.unique_seq_to_set();
    let range = vstd::set_lib::set_int_range(0, n);
    vstd::set_lib::lemma_int_range(0, n);
    assert(order.to_set().subset_of(range)) by {
        assert forall|x: int| order.to_set().contains(x) implies range.contains(x) by {
            assert(order.contains(x));
            let i = choose|i: int| 0 <= i < order.len() && order[i] == x;
            assert(0 <= order[i] < n);
        }
    }
    vstd::set_lib::lemma_len_subset(order.to_set(), range);
    vstd::set_lib::lemma_subset_equality(order.to_set(), range);
    assert(range.contains(p));
    assert(order.to_set().contains(p));
    assert(order.contains(p));
}

proof fn lemma_height_orders_agree_at(sizes: Seq<(int, int)>, a: Seq<int>, b: Seq<int>, i: int)
    requires
        is_height_order(sizes, a),
        is_height_order(sizes, b),
        0 <= i < sizes.len(),
    ensures
        a[i] == b[i],
    decreases i,
{
    let p = a[i];
    let q = b[i];
    if p != q {
        lemma_height_order_covers(sizes, b, p);
        let k = choose|k: int| 0 <= k < b.len() && b[k] == p;
        lemma_height_order_covers(sizes, a, q);
        let m = choose|m: int| 0 <= m < a.len() && a[m] == q;
        if k < i {
            lemma_height_orders_agree_at(sizes, a, b, k);
            assert(sizes[a[k]].1 > sizes[a[i]].1 || a[k] < a[i]);
        }
        if m < i {
            lemma_height_orders_agree_at(sizes, a, b, m);
            assert(sizes[b[m]].1 > sizes[b[i]].1 || b[m] < b[i]);
        }
        assert(sizes[b[i]].1 > sizes[b[k]].1 || (sizes[b[i]].1 == sizes[b[k]].1 && b[i] < b[k]));
        assert(sizes[a[i]].1 > sizes[a[m]].1 || (sizes[a[i]].1 == sizes[a[m]].1 && a[i] < a[m]));
    }
}

/// Boxes have one height order.
pub proof fn lemma_height_order_unique(sizes: Seq<(int, int)>, a: Seq<int>, b: Seq<int>)
    requires
        is_height_order(sizes, a),
        is_height_order(sizes, b),
    ensures
        a == b,
{
    assert forall|i: int| 0 <= i < a.len() implies a[i] == b[i] by {
        lemma_height_orders_agree_at(sizes, a, b, i);
    }
    assert(a =~= b);
}

/// Shelf packing puts boxes of given sizes in one way.
pub proof fn lemma_shelf_layout_unique(
    sizes: Seq<(int, int)>,
    first: Seq<Rectangle>,
    second: Seq<Rectangle>,
)
    requires
        is_shelf_layout(sizes, first),
        is_shelf_layout(sizes, second),
    ensures
        first == second,
{
    let (order1, seed1) = choose|order: Seq<int>, seed: int|
        {
            &&& is_height_order(sizes, order)
            &&& is_seed_width(total_area(sizes), seed)
            &&& first == (#[trigger] laid_out(
                sizes,
                order,
                vstd::math::max(seed, widest(sizes)) as u64,
                sizes.len() as int,
            )).1
        };
    let (order2, seed2) = choose|order: Seq<int>, seed: int|
        {
            &&& is_height_order(sizes, order)
            &&& is_seed_width(total_area(sizes), seed)
            &&& second == (#[trigger] laid_out(
                sizes,
                order,
                vstd::math::max(seed, widest(sizes)) as u64,
                sizes.len() as int,
            )).1
        };
    lemma_height_order_unique(sizes, order1, order2);
    lemma_seed_width_unique(total_area(sizes), seed1, seed2);
}

proof fn lemma_chosen_region(regions: Seq<Region>, w: u64, h: u64, i: int)
    requires
        0 <= i < regions.len(),
        regions[i].fits(w, h),
        forall|j: int| i < j < regions.len() ==> !(#[trigger] regions[j]).fits(w, h),
    ensures
        chosen_region(regions, w, h) == i,
    decreases regions.len(),
{
    if i < regions.len() - 1 {
        let rest = regions.drop_last();
        assert(!regions[regions.len() - 1].fits(w, h));
        assert(rest[i] == regions[i]);
        assert forall|j: int| i < j < rest.len() implies !(#[trigger] rest[j]).fits(w, h) by {
            assert(rest[j] == regions[j]);
        }
        lemma_chosen_region(rest, w, h, i);
    }
}

/// The state of the strip: region 0 is the open rest of the strip, below
/// everything else; the closed regions and the placed boxes are pairwise
/// disjoint and lie within the strip's width.
spec fn layout_ok(placed: Seq<Rectangle>, regions: Seq<Region>, limit: int) -> bool {
    &&& regions.len() >= 1
    &&& regions[0].open
    &&& regions[0].x == 0
    &&& regions[0].width == limit
    &&& forall|r: int|
        1 <= r < regions.len() ==> {
            &&& !(#[trigger] regions[r]).open
            &&& regions[r].x + regions[r].width <= limit
            &&& regions[r].y + regions[r].height <= regions[0].y
        }
    &&& forall|r: int, s: int|
        1 <= r < s < regions.len() ==> (#[trigger] regions[r]).apart(#[trigger] regions[s])
    &&& forall|a: int, r: int|
        0 <= a < placed.len() && 1 <= r < regions.len() ==> (#[trigger] regions[r]).clear_of(
            #[trigger] placed[a],
        )
    &&& forall|a: int, b: int|
        0 <= a < b < placed.len() ==> (#[trigger] placed[a]).disjoint(#[trigger] placed[b])
    &&& forall|a: int|
        0 <= a < placed.len() ==> (#[trigger] placed[a]).right() <= limit && placed[a].bottom()
            <= regions[0].y
}

/// The free region that takes a box of `w` by `h`: the last one that fits.
fn find_region(regions: &Vec<Region>, w: u64, h: u64) -> (i: usize)
    requires
        regions@.len() >= 1,
        regions@[0].fits(w, h),
    ensures
        i < regions@.len(),
        i == chosen_region(regions@, w, h),
        regions@[i as int].fits(w, h),
{
    let mut i: usize = regions.len() - 1;
    while i > 0 && !(w <= regions[i].width && (regions[i].open || h <= regions[i].height))
        invariant
            i < regions@.len(),
            regions@[0].fits(w, h),
            forall|j: int| i < j < regions@.len() ==> !(#[trigger] regions@[j]).fits(w, h),
        decreases i,
    {
        i = i - 1;
    }
    proof {
        lemma_chosen_region(regions@, w, h, i as int);
    }
    i
}

/// Places a box of `w` by `h` at the origin of the region that takes it, and
/// cuts that region down to what the box leaves free.
fn place(
    regions: &mut Vec<Region>,
    id: usize,
    w: u64,
    h: u64,
    Ghost(placed): Ghost<Seq<Rectangle>>,
    Ghost(limit): Ghost<int>,
) -> (rect: Rectangle)
    requires
        layout_ok(placed, old(regions)@, limit),
        0 < w <= limit,
        0 < h,
        limit <= u64::MAX,
        old(regions)@[0].y + h <= u64::MAX,
    ensures
        layout_ok(placed.push(rect), final(regions)@, limit),
        rect.id == id,
        rect.width == w,
        rect.height == h,
        old(regions)@[0].y <= final(regions)@[0].y <= old(regions)@[0].y + h,
        rect.right() <= limit,
        rect.bottom() <= final(regions)@[0].y,
        rect.x == old(regions)@[chosen_region(old(regions)@, w, h)].x,
        rect.y == old(regions)@[chosen_region(old(regions)@, w, h)].y,
        final(regions)@ == regions_after(
            old(regions)@,
            chosen_region(old(regions)@, w, h),
            w,
            h,
        ),
{
    let i = find_region(regions, w, h);
    let region = regions[i];
    let rect = Rectangle { id, x: region.x, y: region.y, width: w, height: h };
    let ghost before = regions@;
    if !region.open && w == region.width && h == region.height {
        let last = regions.pop().unwrap();
        if i < regions.len() {
            regions.set(i, last);
        }
    } else if !region.open && h == region.height {
        regions.set(
            i,
            Region {
                x: region.x + w,
                y: region.y,
                width: region.width - w,
                height: region.height,
                open: false,
            },
        );
    } else if w == region.width {
        let rest: u64 = if region.open {
            region.height
        } else {
            region.height - h
        };
        regions.set(
            i,
            Region {
                x: region.x,
                y: region.y + h,
                width: region.width,
                height: rest,
                open: region.open,
            },
        );
    } else {
        let rest: u64 = if region.open {
            region.height
        } else {
            region.height - h
        };
        regions.set(
            i,
            Region {
                x: region.x,
                y: region.y + h,
                width: region.width,
                height: rest,
                open: region.open,
            },
        );
        regions.push(
            Region {
                x: region.x + w,
                y: region.y,
                width: region.width - w,
                height: h,
                open: false,
            },
        );
    }
    proof {
        assert(regions@ =~= regions_after(before, i as int, w, h));
        let after = regions@;
        let now = placed.push(rect);
        assert forall|a: int| 0 <= a < now.len() implies (#[trigger] now[a]).right() <= limit
            && now[a].bottom() <= after[0].y by {
            if a < placed.len() {
                assert(now[a] == placed[a]);
            }
        }
        assert forall|a: int, b: int| 0 <= a < b < now.len() implies (#[trigger] now[a]).disjoint(
            #[trigger] now[b],
        ) by {
            assert(now[a] == placed[a]);
            if b < placed.len() {
                assert(now[b] == placed[b]);
            } else if i > 0 {
                assert(before[i as int].clear_of(placed[a]));
            }
        }
    }
    rect
}

/// `inverse` maps each index below `order.len()` to the place at which
/// `order` holds it, so `order` holds each of them exactly once.
spec fn inverse_of(order: Seq<usize>, inverse: Seq<int>) -> bool {
    &&& inverse.len() == order.len()
    &&& forall|i: int|
        0 <= i < order.len() ==> 0 <= (#[trigger] inverse[i]) < order.len() && order[inverse[i]]
            == i
    &&& forall|a: int|
        0 <= a < order.len() ==> (#[trigger] order[a]) < order.len() && inverse[order[a] as int]
            == a
}

/// Box `p` comes before box `q`: it is taller, or as tall and earlier in
/// the input.
spec fn taller_first(rects: Seq<Rectangle>, p: int, q: int) -> bool {
    rects[p].height > rects[q].height || (rects[p].height == rects[q].height && p < q)
}

/// Places `lo` to `hi` of `order` hold boxes `lo` to `hi`, tallest first.
spec fn run_sorted(rects: Seq<Rectangle>, order: Seq<usize>, lo: int, hi: int) -> bool {
    &&& forall|a: int| lo <= a < hi ==> lo <= (#[trigger] order[a]) < hi
    &&& forall|a: int, b: int|
        lo <= a < b < hi ==> taller_first(
            rects,
            (#[trigger] order[a]) as int,
            (#[trigger] order[b]) as int,
        )
}

/// Merges the sorted runs `lo` to `mid` and `mid` to `hi` of `order`. Of two
/// boxes of one height the one from the first run goes first.
fn merge_runs(rects: &Vec<Rectangle>, order: &mut Vec<usize>, lo: usize, mid: usize, hi: usize)
    requires
        lo <= mid <= hi <= rects@.len(),
        old(order)@.len() == rects@.len(),
        run_sorted(rects@, old(order)@, lo as int, mid as int),
        run_sorted(rects@, old(order)@, mid as int, hi as int),
    ensures
        final(order)@.len() == old(order)@.len(),
        run_sorted(rects@, final(order)@, lo as int, hi as int),
        forall|a: int|
            0 <= a < lo || hi <= a < old(order)@.len() ==> final(order)@[a] == old(order)@[a],
{
    let mut out: Vec<usize> = Vec::new();
    let mut i: usize = lo;
    let mut j: usize = mid;
    while i < mid || j < hi
        invariant
            lo <= i <= mid <= j <= hi <= rects@.len(),
            order@ == old(order)@,
            order@.len() == rects@.len(),
            run_sorted(rects@, order@, lo as int, mid as int),
            run_sorted(rects@, order@, mid as int, hi as int),
            out@.len() == (i - lo) + (j - mid),
            forall|a: int| 0 <= a < out@.len() ==> lo <= (#[trigger] out@[a]) < hi,
            forall|a: int, b: int|
                0 <= a < b < out@.len() ==> taller_first(
                    rects@,
                    (#[trigger] out@[a]) as int,
                    (#[trigger] out@[b]) as int,
                ),
            forall|a: int, c: int|
                0 <= a < out@.len() && (i <= c < mid || j <= c < hi) ==> taller_first(
                    rects@,
                    (#[trigger] out@[a]) as int,
                    (#[trigger] order@[c]) as int,
                ),
        decreases (mid - i) + (hi - j),
    {
        let from_second: bool = if i == mid {
            true
        } else if j == hi {
            false
        } else {
            rects[order[j]].height > rects[order[i]].height
        };
        if from_second {
            out.push(order[j]);
            j = j + 1;
        } else {
            out.push(order[i]);
            i = i + 1;
        }
    }
    let mut k: usize = 0;
    while k < out.len()
        invariant
            k <= out@.len(),
            out@.len() == hi - lo,
            lo <= hi <= order@.len(),
            order@.len() == old(order)@.len(),
            forall|a: int| 0 <= a < k ==> order@[lo + a] == out@[a],
            forall|a: int| 0 <= a < lo || hi <= a < order@.len() ==> order@[a] == old(order)@[a],
        decreases out@.len() - k,
    {
        order.set(lo + k, out[k]);
        k = k + 1;
    }
    proof {
        assert forall|a: int| lo <= a < hi implies lo <= (#[trigger] order@[a]) < hi by {
            assert(order@[lo + (a - lo)] == out@[a - lo]);
        }
        assert forall|a: int, b: int| lo <= a < b < hi implies taller_first(
            rects@,
            (#[trigger] order@[a]) as int,
            (#[trigger] order@[b]) as int,
        ) by {
            assert(order@[lo + (a - lo)] == out@[a - lo]);
            assert(order@[lo + (b - lo)] == out@[b - lo]);
        }
    }
}

/// Sorts places `lo` to `hi` of `order`, which hold boxes `lo` to `hi` in
/// input order, tallest first.
fn sort_run(rects: &Vec<Rectangle>, order: &mut Vec<usize>, lo: usize, hi: usize)
    requires
        lo <= hi <= rects@.len(),
        old(order)@.len() == rects@.len(),
        forall|a: int| lo <= a < hi ==> (#[trigger] old(order)@[a]) == a,
    ensures
        final(order)@.len() == old(order)@.len(),
        run_sorted(rects@, final(order)@, lo as int, hi as int),
        forall|a: int|
            0 <= a < lo || hi <= a < old(order)@.len() ==> final(order)@[a] == old(order)@[a],
    decreases hi - lo,
{
    if hi - lo < 2 {
        return ;
    }
    let mid: usize = lo + (hi - lo) / 2;
    sort_run(rects, order, lo, mid);
    sort_run(rects, order, mid, hi);
    merge_runs(rects, order, lo, mid, hi);
}

/// The indices of `rects`, those of taller boxes first; boxes of one height
/// keep their order.
fn height_order(rects: &Vec<Rectangle>) -> (order: Vec<usize>)
    ensures
        order@.len() == rects@.len(),
        run_sorted(rects@, order@, 0, rects@.len() as int),
{
    let n = rects.len();
    let mut order: Vec<usize> = Vec::new();
    let mut i: usize = 0;
    while i < n
        invariant
            i <= n,
            order@.len() == i,
            forall|a: int| 0 <= a < i ==> (#[trigger] order@[a]) == a,
        decreases n - i,
    {
        order.push(i);
        i = i + 1;
    }
    sort_run(rects, &mut order, 0, n);
    order
}

/// The widths and heights that `sizes` gives, as pairs.
pub open spec fn size_pairs(sizes: Seq<Vec<u32>>) -> Seq<(int, int)> {
    Seq::new(sizes.len(), |i: int| (sizes[i]@[0] as int, sizes[i]@[1] as int))
}

/// `positions` lays boxes of the given sizes out, in the order of `sizes`,
/// in a square atlas of side `side`: no two boxes overlap, all lie within
/// the atlas, and `side` is the least power of two that covers their extent
/// in x and in y (0 where there is no box).
pub open spec fn is_packing_of(sizes: Seq<(int, int)>, positions: Seq<Rectangle>, side: int) -> bool {
    &&& positions.len() == sizes.len()
    &&& forall|i: int|
        0 <= i < sizes.len() ==> {
            &&& (#[trigger] positions[i]).id == i
            &&& positions[i].width == sizes[i].0
            &&& positions[i].height == sizes[i].1
        }
    &&& forall|i: int, j: int|
        0 <= i < j < sizes.len() ==> (#[trigger] positions[i]).disjoint(#[trigger] positions[j])
    &&& forall|i: int|
        0 <= i < sizes.len() ==> (#[trigger] positions[i]).right() <= side && positions[i].bottom()
            <= side
    &&& side == vstd::math::max(
        pow2_ceil(extent_right(positions)),
        pow2_ceil(extent_bottom(positions)),
    )
    &&& sizes.len() == 0 ==> side == 0
    &&& sizes.len() > 0 ==> is_pow2(side)
}

/// Packs boxes of the given sizes, each a width and a height, into a square
/// atlas whose side is a power of two.
///
/// The boxes come back in input order. No two of them overlap, all lie
/// within the atlas, and the atlas side is the least power of two that
/// covers their extent in x and in y. An empty input gives an atlas of side 0.
pub fn pack_shelves(sizes: Vec<Vec<u32>>) -> (packing: Packing)
    requires
        valid_sizes(sizes@),
    ensures
        is_packing_of(size_pairs(sizes@), packing.positions@, packing.width as int),
        is_shelf_layout(size_pairs(sizes@), packing.positions@),
        packing.height == packing.width,
{
    let n = sizes.len();
    let ghost pairs = size_pairs(sizes@);
    let mut rects: Vec<Rectangle> = Vec::new();
    let mut area: u128 = 0;
    let mut max_width: u64 = 0;
    let mut i: usize = 0;
    assert(pairs.take(0) =~= Seq::empty());
    while i < n
        invariant
            i <= n,
            n == sizes@.len(),
            valid_sizes(sizes@),
            pairs == size_pairs(sizes@),
            rects@.len() == i,
            area == total_area(pairs.take(i as int)),
            max_width == widest(pairs.take(i as int)),
            area <= i * 0x1_0000_0000_0000_0000,
            max_width <= u32::MAX,
            forall|j: int|
                0 <= j < i ==> {
                    &&& (#[trigger] rects@[j]).id == j
                    &&& rects@[j].x == 0
                    &&& rects@[j].y == 0
                    &&& rects@[j].width == sizes@[j]@[0]
                    &&& rects@[j].height == sizes@[j]@[1]
                    &&& rects@[j].width <= max_width
                },
        decreases n - i,
    {
        let w: u64 = sizes[i][0] as u64;
        let h: u64 = sizes[i][1] as u64;
        assert(w * h <= 0x1_0000_0000_0000_0000) by (nonlinear_arith)
            requires
                w <= 0xFFFF_FFFF,
                h <= 0xFFFF_FFFF,
        ;
        proof {
            assert(pairs.take(i as int + 1).drop_last() =~= pairs.take(i as int));
            assert(pairs.take(i as int + 1).last() == (w as int, h as int));
        }
        area = area + (w as u128) * (h as u128);
        if w > max_width {
            max_width = w;
        }
        rects.push(Rectangle { id: i, x: 0, y: 0, width: w, height: h });
        i = i + 1;
    }
    assert(pairs.take(n as int) =~= pairs);
    assert(rects@ =~= unplaced(pairs));
    let order = height_order(&rects);
    let ghost turns = order@.map_values(|v: usize| v as int);
    assert(is_height_order(pairs, turns)) by {
        assert forall|a: int, b: int| 0 <= a < b < turns.len() implies {
            ||| pairs[#[trigger] turns[a]].1 > pairs[#[trigger] turns[b]].1
            ||| (pairs[turns[a]].1 == pairs[turns[b]].1 && turns[a] < turns[b])
        } by {
            assert(taller_first(rects@, order@[a] as int, order@[b] as int));
        }
    }
    let ghost inverse = Seq::new(n as nat, |p: int| choose|a: int| 0 <= a < n && turns[a] == p);
    assert(inverse_of(order@, inverse)) by {
        assert forall|p: int| 0 <= p < n implies 0 <= (#[trigger] inverse[p]) < n
            && order@[inverse[p]] == p by {
            lemma_height_order_covers(pairs, turns, p);
        }
        assert forall|a: int| 0 <= a < n implies (#[trigger] order@[a]) < n
            && inverse[order@[a] as int] == a by {
            let p = order@[a] as int;
            lemma_height_order_covers(pairs, turns, p);
            let twin = inverse[p];
            assert(turns[twin] == p && turns[a] == p);
            if twin < a {
                assert(taller_first(rects@, order@[twin] as int, order@[a] as int));
            } else if a < twin {
                assert(taller_first(rects@, order@[a] as int, order@[twin] as int));
            }
        }
    }
    let seed = seed_width(area);
    let start_width: u64 = if seed > max_width {
        seed
    } else {
        max_width
    };
    let mut regions: Vec<Region> = Vec::new();
    regions.push(Region { x: 0, y: 0, width: start_width, height: 0, open: true });
    let mut width: u64 = 0;
    let mut height: u64 = 0;
    let ghost mut placed: Seq<Rectangle> = Seq::empty();
    let ghost mut rightmost: int = 0;
    let ghost mut lowest: int = 0;
    let mut k: usize = 0;
    while k < n
        invariant
            k <= n,
            n == sizes@.len(),
            n == rects@.len(),
            n == order@.len(),
            n <= MAX_RECTANGLES,
            valid_sizes(sizes@),
            start_width <= 0x2000_0000_0000,
            inverse_of(order@, inverse),
            turns == order@.map_values(|v: usize| v as int),
            pairs == size_pairs(sizes@),
            laid_out(pairs, turns, start_width, k as int) == (regions@, rects@),
            layout_ok(placed, regions@, start_width as int),
            placed.len() == k,
            forall|a: int| 0 <= a < k ==> (#[trigger] placed[a]) == rects@[order@[a] as int],
            forall|j: int|
                0 <= j < n ==> {
                    &&& (#[trigger] rects@[j]).id == j
                    &&& rects@[j].width == sizes@[j]@[0]
                    &&& rects@[j].height == sizes@[j]@[1]
                    &&& rects@[j].width <= start_width
                },
            regions@[0].y <= k * 0xFFFF_FFFF,
            forall|a: int|
                0 <= a < k ==> (#[trigger] placed[a]).right() <= width && placed[a].bottom()
                    <= height,
            width <= start_width,
            height <= regions@[0].y,
            k == 0 ==> width == 0 && height == 0,
            k > 0 ==> 0 <= rightmost < k && placed[rightmost].right() == width,
            k > 0 ==> 0 <= lowest < k && placed[lowest].bottom() == height,
        decreases n - k,
    {
        let id = order[k];
        let size = rects[id];
        let ghost earlier = rects@;
        let rect = place(
            &mut regions,
            id,
            size.width,
            size.height,
            Ghost(placed),
            Ghost(start_width as int),
        );
        rects.set(id, rect);
        proof {
            assert forall|a: int| 0 <= a < k implies placed[a] == rects@[order@[a] as int] by {
                assert(order@[a] != order@[k as int]);
            }
            placed = placed.push(rect);
            if rect.x + rect.width > width {
                rightmost = k as int;
            }
            if rect.y + rect.height > height {
                lowest = k as int;
            }
        }
        if rect.x + rect.width > width {
            width = rect.x + rect.width;
        }
        if rect.y + rect.height > height {
            height = rect.y + rect.height;
        }
        k = k + 1;
    }
    proof {
        assert forall|i: int| 0 <= i < n implies rects@[i] == #[trigger] placed[inverse[i]] by {
            assert(order@[inverse[i]] == i);
        }
        assert forall|i: int, j: int| 0 <= i < j < n implies (#[trigger] rects@[i]).disjoint(
            #[trigger] rects@[j],
        ) by {
            let a = inverse[i];
            let b = inverse[j];
            assert(rects@[i] == placed[a] && rects@[j] == placed[b]);
            if a < b {
                assert(placed[a].disjoint(placed[b]));
            } else {
                assert(placed[b].disjoint(placed[a]));
            }
        }
        let rights = rects@.map_values(|r: Rectangle| r.right());
        let bottoms = rects@.map_values(|r: Rectangle| r.bottom());
        assert forall|i: int| 0 <= i < n implies 0 <= (#[trigger] rights[i]) && rights[i]
            <= width by {
            assert(rects@[i] == placed[inverse[i]]);
        }
        assert forall|i: int| 0 <= i < n implies (#[trigger] rects@[i]).right() <= width
            && rects@[i].bottom() <= height by {
            assert(rects@[i] == placed[inverse[i]]);
        }
        assert forall|i: int| 0 <= i < n implies 0 <= (#[trigger] bottoms[i]) && bottoms[i]
            <= height by {
            assert(rects@[i] == placed[inverse[i]]);
        }
        if n > 0 {
            lemma_max_of_is(rights, width as int, order@[rightmost] as int);
            lemma_max_of_is(bottoms, height as int, order@[lowest] as int);
            assert(rects@[0] == placed[inverse[0]]);
            lemma_pow2_ceil(width as int);
            lemma_pow2_ceil(height as int);
        } else {
            lemma_max_of_is(rights, 0, 0);
            lemma_max_of_is(bottoms, 0, 0);
        }
    }
    assert(is_shelf_layout(pairs, rects@)) by {
        let limit = vstd::math::max(seed as int, widest(pairs)) as u64;
        assert(limit == start_width);
        assert(rects@ == laid_out(pairs, turns, limit, pairs.len() as int).1);
    }
    let across = ceil_pow2(width);
    let down = ceil_pow2(height);
    let size: u64 = if across > down {
        across
    } else {
        down
    };
    Packing { width: size, height: size, positions: rects }
}

} // verus!
