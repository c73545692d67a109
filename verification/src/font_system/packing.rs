//! The layout of glyphs in a square font atlas: rows of glyphs (shelves), left to right, the
//! atlas doubling in size from 256 until every row fits.
//!
//! The caller measures and draws the glyphs; the layout decides where each goes.

use vstd::prelude::*;
use vstd::arithmetic::power2::pow2;

verus! {

/// The width of a glyph.
pub open spec fn width(sizes: Seq<(u32, u32)>, i: int) -> int {
    sizes[i].0 as int
}

/// The height of a glyph.
pub open spec fn height(sizes: Seq<(u32, u32)>, i: int) -> int {
    sizes[i].1 as int
}

/// Whether glyph `a` comes before glyph `b` when reordering: taller first, then wider, then
/// in the order they were given.
pub open spec fn comes_before(sizes: Seq<(u32, u32)>, a: int, b: int) -> bool {
    ||| height(sizes, a) > height(sizes, b)
    ||| height(sizes, a) == height(sizes, b) && width(sizes, a) > width(sizes, b)
    ||| height(sizes, a) == height(sizes, b) && width(sizes, a) == width(sizes, b) && a < b
}

/// Whether `order` lists each glyph of `0..n` once, in the order of `comes_before`.
pub open spec fn sorted_order(sizes: Seq<(u32, u32)>, order: Seq<usize>, n: int) -> bool {
    &&& order.len() == n
    &&& forall|k: int| 0 <= k < n ==> #[trigger] order[k] < n
    &&& forall|j: int| 0 <= j < n ==> #[trigger] order.contains(j as usize)
    &&& forall|a: int, b: int| 0 <= a < b < n ==> comes_before(sizes, #[trigger] order[a] as int, #[trigger] order[b] as int)
}

/// The order in which glyphs are placed: sorted by `comes_before` when reordering, else as
/// given.
pub open spec fn placement_order(sizes: Seq<(u32, u32)>, order: Seq<usize>, reorder: bool) -> bool {
    if reorder {
        sorted_order(sizes, order, sizes.len() as int)
    } else {
        order == Seq::new(sizes.len(), |i: int| i as usize)
    }
}

/// The bottom of the first row: the first glyph's height and two spacings when reordering,
/// else the scale.
pub open spec fn first_row_bottom(sizes: Seq<(u32, u32)>, order: Seq<usize>, scale: u32, spacing: u32, reorder: bool) -> int {
    if reorder {
        spacing + spacing + height(sizes, order[0] as int)
    } else {
        scale as int
    }
}

/// Where the next glyph would go, and the bottom of the current row, after the first `k`
/// glyphs of `order` in an atlas of side `size`: `(x, y, next_y)`. The first column is kept
/// for a white pixel.
pub open spec fn cursor_after(
    sizes: Seq<(u32, u32)>,
    order: Seq<usize>,
    k: int,
    size: int,
    scale: u32,
    spacing: u32,
    reorder: bool,
) -> (int, int, int)
    decreases k,
{
    if k <= 0 {
        (spacing + 1, spacing as int, first_row_bottom(sizes, order, scale, spacing, reorder))
    } else {
        let c = cursor_after(sizes, order, k - 1, size, scale, spacing, reorder);
        let g = order[k - 1] as int;
        let w = width(sizes, g);
        if c.0 + w > size {
            (spacing + w + spacing, c.2, c.2 + if reorder { height(sizes, g) + spacing } else { scale as int })
        } else {
            (c.0 + w + spacing, c.1, c.2)
        }
    }
}

/// Where the `k`th glyph of `order` goes: at the cursor, or at the start of a new row when it
/// does not fit in the current one.
pub open spec fn position_of(
    sizes: Seq<(u32, u32)>,
    order: Seq<usize>,
    k: int,
    size: int,
    scale: u32,
    spacing: u32,
    reorder: bool,
) -> (int, int) {
    let c = cursor_after(sizes, order, k, size, scale, spacing, reorder);
    if c.0 + width(sizes, order[k] as int) > size {
        (spacing as int, c.2)
    } else {
        (c.0, c.1)
    }
}

/// Whether all the rows fit in an atlas of side `size`.
pub open spec fn fits(sizes: Seq<(u32, u32)>, order: Seq<usize>, size: int, scale: u32, spacing: u32, reorder: bool) -> bool {
    cursor_after(sizes, order, sizes.len() as int, size, scale, spacing, reorder).2 <= size
}

/// The most that one glyph adds to a coordinate: the largest `width + height + 2 * spacing +
/// scale`.
pub open spec fn glyph_cost(sizes: Seq<(u32, u32)>, scale: u32, spacing: u32) -> int
    decreases sizes.len(),
{
    if sizes.len() == 0 {
        0
    } else {
        let rest = glyph_cost(sizes.drop_last(), scale, spacing);
        let last = sizes.last().0 + sizes.last().1 + 2 * spacing + scale;
        if last > rest { last } else { rest }
    }
}

/// An atlas side from which every glyph fits in the first row.
pub open spec fn one_row_side(sizes: Seq<(u32, u32)>, scale: u32, spacing: u32) -> int {
    3 * spacing + 1 + (sizes.len() + 1) * glyph_cost(sizes, scale, spacing)
}

proof fn lemma_glyph_cost(sizes: Seq<(u32, u32)>, scale: u32, spacing: u32)
    ensures
        glyph_cost(sizes, scale, spacing) >= 0,
        forall|i: int| #![trigger sizes[i]] 0 <= i < sizes.len() ==> sizes[i].0 + sizes[i].1 + 2 * spacing + scale
            <= glyph_cost(sizes, scale, spacing),
    decreases sizes.len(),
{
    if sizes.len() > 0 {
        lemma_glyph_cost(sizes.drop_last(), scale, spacing);
        assert forall|i: int| #![trigger sizes[i]] 0 <= i < sizes.len() implies sizes[i].0 + sizes[i].1 + 2 * spacing + scale
            <= glyph_cost(sizes, scale, spacing) by {
            if i < sizes.len() - 1 {
                assert(sizes.drop_last()[i] == sizes[i]);
            }
        }
    }
}

/// Bounds on the cursor: each glyph moves it by at most the glyph cost `c`; and where the
/// atlas is at least `one_row_side`, no glyph starts a new row.
proof fn lemma_cursor_bounds(
    sizes: Seq<(u32, u32)>,
    order: Seq<usize>,
    k: int,
    size: int,
    scale: u32,
    spacing: u32,
    reorder: bool,
)
    requires
        0 <= k <= order.len(),
        order.len() == sizes.len(),
        sizes.len() > 0,
        forall|j: int| 0 <= j < order.len() ==> #[trigger] order[j] < sizes.len(),
    ensures
        ({
            let c = cursor_after(sizes, order, k, size, scale, spacing, reorder);
            let g = glyph_cost(sizes, scale, spacing);
            &&& spacing <= c.0 <= spacing + 1 + k * g
            &&& 0 <= c.1 <= 2 * spacing + g + k * g
            &&& 0 <= c.2 <= 2 * spacing + g + k * g
            &&& size >= one_row_side(sizes, scale, spacing) ==> c.1 == spacing && c.2
                == first_row_bottom(sizes, order, scale, spacing, reorder) && c.0 <= spacing + 1 + k * g
        }),
    decreases k,
{
    lemma_glyph_cost(sizes, scale, spacing);
    let g = glyph_cost(sizes, scale, spacing);
    assert(order[0] < sizes.len());
    let g0 = sizes[order[0] as int];
    assert(g0.0 + g0.1 + 2 * spacing + scale <= g);
    assert(first_row_bottom(sizes, order, scale, spacing, reorder) <= 2 * spacing + g);
    if k > 0 {
        lemma_cursor_bounds(sizes, order, k - 1, size, scale, spacing, reorder);
        let c = cursor_after(sizes, order, k - 1, size, scale, spacing, reorder);
        let gi = order[k - 1] as int;
        let gg = sizes[gi];
        assert(gg.0 + gg.1 + 2 * spacing + scale <= g);
        assert((k - 1) * g + g == k * g) by (nonlinear_arith);
        if size >= one_row_side(sizes, scale, spacing) {
            assert(k * g <= sizes.len() * g) by (nonlinear_arith)
                requires
                    k <= sizes.len(),
                    g >= 0,
            ;
            assert((sizes.len() + 1) * g == sizes.len() * g + g) by (nonlinear_arith);
            assert(c.0 + width(sizes, gi) <= size);
        }
        assert(0 <= (k - 1) * g) by (nonlinear_arith)
            requires
                k >= 1,
                g >= 0,
        ;
    }
}

/// Whether the `w` by `h` rectangles at `a` and `b` share no pixel.
pub open spec fn apart(a: (int, int), wa: int, ha: int, b: (int, int), wb: int, hb: int) -> bool {
    a.0 + wa <= b.0 || b.0 + wb <= a.0 || a.1 + ha <= b.1 || b.1 + hb <= a.1
}

/// Whether the `w` by `h` rectangle at `a` covers the white pixel at `(0, 0)`.
pub open spec fn covers_origin(a: (int, int), w: int, h: int) -> bool {
    a.0 <= 0 < a.0 + w && a.1 <= 0 < a.1 + h
}

/// The rows so far, taller glyphs first: after the first `k` glyphs every later glyph fits in
/// the current row's height, every glyph placed lies above the current row or left of the
/// cursor, and inside the atlas's width, clear of the white pixel.
proof fn lemma_rows(sizes: Seq<(u32, u32)>, order: Seq<usize>, k: int, size: int, scale: u32, spacing: u32)
    requires
        sizes.len() > 0,
        sorted_order(sizes, order, sizes.len() as int),
        0 <= k <= sizes.len(),
        forall|i: int| 0 <= i < sizes.len() ==> #[trigger] width(sizes, i) + spacing <= size,
    ensures
        ({
            let c = cursor_after(sizes, order, k, size, scale, spacing, true);
            let top = first_row_bottom(sizes, order, scale, spacing, true);
            &&& spacing <= c.0
            &&& spacing <= c.1 <= c.2
            &&& top <= c.2
            &&& (c.1 == spacing && c.0 >= spacing + 1) || c.1 >= top
            &&& forall|m: int| k <= m < sizes.len() ==> c.2 - c.1 >= spacing + height(sizes, #[trigger] order[m] as int)
            &&& forall|j: int| 0 <= j < k ==> {
                let p = #[trigger] position_of(sizes, order, j, size, scale, spacing, true);
                let w = width(sizes, order[j] as int);
                let h = height(sizes, order[j] as int);
                &&& p.1 + h <= c.2
                &&& p.1 + h <= c.1 || p.0 + w <= c.0
                &&& 0 <= p.0 && p.0 + w <= size && 0 <= p.1
                &&& p.0 >= 1 || p.1 >= h
            }
        }),
    decreases k,
{
    let n = sizes.len() as int;
    let top = first_row_bottom(sizes, order, scale, spacing, true);
    assert(order.contains(order[0])) by {
        assert(order[0] < n);
    }
    assert forall|m: int| 0 <= m < n implies height(sizes, order[0] as int) >= height(sizes, #[trigger] order[m] as int) by {
        if m > 0 {
            assert(comes_before(sizes, order[0] as int, order[m] as int));
        }
    }
    if k > 0 {
        lemma_rows(sizes, order, k - 1, size, scale, spacing);
        let c = cursor_after(sizes, order, k - 1, size, scale, spacing, true);
        let c2 = cursor_after(sizes, order, k, size, scale, spacing, true);
        let g = order[k - 1] as int;
        assert(order[k - 1] < n);
        let w = width(sizes, g);
        let h = height(sizes, g);
        assert(w + spacing <= size);
        assert(c.2 - c.1 >= spacing + h);
        assert forall|m: int| k <= m < n implies c2.2 - c2.1 >= spacing + height(sizes, #[trigger] order[m] as int) by {
            assert(comes_before(sizes, order[k - 1] as int, order[m] as int));
            assert(c.2 - c.1 >= spacing + height(sizes, order[m] as int));
        }
        assert forall|j: int| 0 <= j < k implies {
            let p = #[trigger] position_of(sizes, order, j, size, scale, spacing, true);
            let wj = width(sizes, order[j] as int);
            let hj = height(sizes, order[j] as int);
            &&& p.1 + hj <= c2.2
            &&& p.1 + hj <= c2.1 || p.0 + wj <= c2.0
            &&& 0 <= p.0 && p.0 + wj <= size && 0 <= p.1
            &&& p.0 >= 1 || p.1 >= hj
        } by {
            if j == k - 1 {
                assert(height(sizes, order[0] as int) >= h);
            }
        }
    } else {
        assert(order[0] < n);
    }
}

/// Glyphs laid out taller first share no pixel, lie inside the atlas and leave the white pixel
/// at `(0, 0)` uncovered, wherever every row fits and each glyph fits in a row's width. (Laid
/// out as given, glyphs taller than the row spacing overlap the next row.)
pub proof fn lemma_layout_apart(sizes: Seq<(u32, u32)>, order: Seq<usize>, size: int, scale: u32, spacing: u32)
    requires
        sizes.len() > 0,
        placement_order(sizes, order, true),
        fits(sizes, order, size, scale, spacing, true),
        forall|i: int| 0 <= i < sizes.len() ==> #[trigger] width(sizes, i) + spacing <= size,
    ensures
        forall|j: int, k: int| 0 <= j < k < sizes.len() ==> apart(
            #[trigger] position_of(sizes, order, j, size, scale, spacing, true),
            width(sizes, order[j] as int),
            height(sizes, order[j] as int),
            #[trigger] position_of(sizes, order, k, size, scale, spacing, true),
            width(sizes, order[k] as int),
            height(sizes, order[k] as int),
        ),
        forall|k: int| 0 <= k < sizes.len() ==> {
            let p = #[trigger] position_of(sizes, order, k, size, scale, spacing, true);
            let w = width(sizes, order[k] as int);
            let h = height(sizes, order[k] as int);
            &&& 0 <= p.0 && p.0 + w <= size
            &&& 0 <= p.1 && p.1 + h <= size
            &&& !covers_origin(p, w, h)
        },
{
    let n = sizes.len() as int;
    lemma_rows(sizes, order, n, size, scale, spacing);
    let last = cursor_after(sizes, order, n, size, scale, spacing, true);
    assert forall|j: int, k: int| 0 <= j < k < n implies apart(
        #[trigger] position_of(sizes, order, j, size, scale, spacing, true),
        width(sizes, order[j] as int),
        height(sizes, order[j] as int),
        #[trigger] position_of(sizes, order, k, size, scale, spacing, true),
        width(sizes, order[k] as int),
        height(sizes, order[k] as int),
    ) by {
        lemma_rows(sizes, order, k, size, scale, spacing);
        assert(order[k] < n);
        let pj = position_of(sizes, order, j, size, scale, spacing, true);
        let pk = position_of(sizes, order, k, size, scale, spacing, true);
        assert(pj.1 + height(sizes, order[j] as int) <= pk.1 || pj.0 + width(sizes, order[j] as int) <= pk.0);
    }
    assert forall|k: int| 0 <= k < n implies {
        let p = #[trigger] position_of(sizes, order, k, size, scale, spacing, true);
        let w = width(sizes, order[k] as int);
        let h = height(sizes, order[k] as int);
        &&& 0 <= p.0 && p.0 + w <= size
        &&& 0 <= p.1 && p.1 + h <= size
        &&& !covers_origin(p, w, h)
    } by {
        let p = position_of(sizes, order, k, size, scale, spacing, true);
        assert(p.1 + height(sizes, order[k] as int) <= last.2);
    }
}

/// Where each glyph goes in the atlas, and the side of the atlas.
pub struct PackedLayout {
    /// The side of the square atlas.
    pub size: u32,
    /// The glyphs, in the order they were placed.
    pub order: Vec<usize>,
    /// The position of each glyph of `order`, in the same order.
    pub positions: Vec<(u32, u32)>,
}

/// Whether glyphs of sizes `sizes` are small enough for `pack_layout`: `one_row_side` at most
/// `2^29`.
pub fn layout_in_range(sizes: &Vec<(u32, u32)>, scale: u32, spacing: u32) -> (r: bool)
    ensures
        r == (one_row_side(sizes@, scale, spacing) <= 0x2000_0000),
{
    let mut g: u64 = 0;
    let mut i: usize = 0;
    while i < sizes.len()
        invariant
            i <= sizes@.len(),
            g == glyph_cost(sizes@.take(i as int), scale, spacing),
            g <= 5 * 0x1_0000_0000,
        decreases sizes@.len() - i,
    {
        let (w, h) = sizes[i];
        let c: u64 = w as u64 + h as u64 + 2 * (spacing as u64) + scale as u64;
        proof {
            assert(sizes@.take(i + 1).drop_last() =~= sizes@.take(i as int));
        }
        if c > g {
            g = c;
        }
        i = i + 1;
    }
    proof {
        assert(sizes@.take(sizes@.len() as int) =~= sizes@);
        lemma_glyph_cost(sizes@, scale, spacing);
    }
    let n: u128 = sizes.len() as u128;
    let g: u128 = g as u128;
    proof {
        assert((n + 1) * g <= 0x1_0000_0000_0000_0001 * (5 * 0x1_0000_0000)) by (nonlinear_arith)
            requires n + 1 <= 0x1_0000_0000_0000_0001, 0 <= g <= 5 * 0x1_0000_0000;
    }
    let total: u128 = (n + 1) * g + 3 * (spacing as u128) + 1;
    total <= 0x2000_0000
}

/// Sorts the glyphs by `comes_before`: taller first, then wider, ties kept in order.
fn sorted_glyphs(sizes: &Vec<(u32, u32)>) -> (r: Vec<usize>)
    ensures
        sorted_order(sizes@, r@, sizes@.len() as int),
{
    let ghost s = sizes@;
    let mut order: Vec<usize> = Vec::new();
    let mut i: usize = 0;
    while i < sizes.len()
        invariant
            s == sizes@,
            i <= s.len(),
            sorted_order(s, order@, i as int),
        decreases s.len() - i,
    {
        let (w, h) = sizes[i];
        // The glyphs already placed that come before glyph `i` form a prefix.
        let mut p: usize = 0;
        while p < order.len()
            invariant
                s == sizes@,
                i < s.len(),
                (w, h) == s[i as int],
                sorted_order(s, order@, i as int),
                p <= order@.len(),
                forall|k: int| 0 <= k < p ==> comes_before(s, #[trigger] order@[k] as int, i as int),
            ensures
                p <= order@.len(),
                forall|k: int| 0 <= k < p ==> comes_before(s, #[trigger] order@[k] as int, i as int),
                p < order@.len() ==> !comes_before(s, order@[p as int] as int, i as int),
            decreases order@.len() - p,
        {
            let (ow, oh) = sizes[order[p]];
            if !(oh > h || (oh == h && ow >= w)) {
                break;
            }
            p = p + 1;
        }
        proof {
            assert forall|k: int| p <= k < order@.len() implies comes_before(s, i as int, #[trigger] order@[k] as int) by {
                if k > p {
                    assert(comes_before(s, order@[p as int] as int, order@[k] as int));
                }
            }
        }
        let ghost before = order@;
        order.insert(p, i);
        proof {
            assert forall|j: int| 0 <= j < i + 1 implies #[trigger] order@.contains(j as usize) by {
                if j == i {
                    assert(order@[p as int] == i);
                } else {
                    assert(before.contains(j as usize));
                    let k = choose|k: int| 0 <= k < before.len() && before[k] == j as usize;
                    if k < p {
                        assert(order@[k] == j as usize);
                    } else {
                        assert(order@[k + 1] == j as usize);
                    }
                }
            }
            assert forall|a: int, b: int| 0 <= a < b < i + 1 implies comes_before(s, #[trigger] order@[a] as int, #[trigger] order@[b] as int) by {
                if a < p && b < p {
                    assert(order@[a] == before[a] && order@[b] == before[b]);
                } else if a < p && b == p {
                    assert(order@[a] == before[a]);
                } else if a < p {
                    assert(order@[a] == before[a] && order@[b] == before[b - 1]);
                } else if a == p {
                    assert(order@[b] == before[b - 1]);
                } else {
                    assert(order@[a] == before[a - 1] && order@[b] == before[b - 1]);
                }
            }
        }
        i = i + 1;
    }
    order
}

/// The positions of the glyphs of `order` in an atlas of side `size`, and the bottom of the
/// last row.
fn layout_at(sizes: &Vec<(u32, u32)>, order: &Vec<usize>, size: u32, scale: u32, spacing: u32, reorder: bool) -> (r: (Vec<(u32, u32)>, u32))
    requires
        sizes@.len() > 0,
        order@.len() == sizes@.len(),
        forall|j: int| 0 <= j < order@.len() ==> #[trigger] order@[j] < sizes@.len(),
        one_row_side(sizes@, scale, spacing) <= 0x2000_0000,
    ensures
        r.0@.len() == order@.len(),
        forall|k: int| 0 <= k < order@.len() ==> (#[trigger] r.0@[k]).0 == position_of(sizes@, order@, k, size as int, scale, spacing, reorder).0
            && r.0@[k].1 == position_of(sizes@, order@, k, size as int, scale, spacing, reorder).1,
        r.1 == cursor_after(sizes@, order@, order@.len() as int, size as int, scale, spacing, reorder).2,
{
    let ghost s = sizes@;
    let ghost o = order@;
    let ghost n = s.len() as int;
    let ghost g = glyph_cost(s, scale, spacing);
    proof {
        lemma_glyph_cost(s, scale, spacing);
        assert((n + 1) * g == n * g + g) by (nonlinear_arith);
        assert(0 <= n * g) by (nonlinear_arith) requires n >= 0, g >= 0;
    }
    let first = order[0];
    let mut cur_y: u32 = spacing;
    let mut cur_x: u32 = spacing + 1;
    let mut next_y: u32 = if reorder { spacing + spacing + sizes[first].1 } else { scale };
    let mut positions: Vec<(u32, u32)> = Vec::new();
    let mut k: usize = 0;
    while k < order.len()
        invariant
            s == sizes@,
            o == order@,
            n == s.len(),
            n > 0,
            o.len() == n,
            forall|j: int| 0 <= j < o.len() ==> #[trigger] o[j] < n,
            g == glyph_cost(s, scale, spacing),
            g >= 0,
            0 <= n * g,
            (n + 1) * g == n * g + g,
            one_row_side(s, scale, spacing) <= 0x2000_0000,
            k <= n,
            (cur_x as int, cur_y as int, next_y as int) == cursor_after(s, o, k as int, size as int, scale, spacing, reorder),
            positions@.len() == k,
            forall|j: int| 0 <= j < k ==> (#[trigger] positions@[j]).0 == position_of(s, o, j, size as int, scale, spacing, reorder).0
                && positions@[j].1 == position_of(s, o, j, size as int, scale, spacing, reorder).1,
        decreases n - k,
    {
        proof {
            lemma_cursor_bounds(s, o, k as int, size as int, scale, spacing, reorder);
            lemma_cursor_step(s, o, k as int, size as int, scale, spacing, reorder);
            lemma_glyph_cost(s, scale, spacing);
            assert(k * g <= n * g) by (nonlinear_arith) requires k <= n, g >= 0;
            let gg = s[o[k as int] as int];
            assert(gg.0 + gg.1 + 2 * spacing + scale <= g);
        }
        let (w, h) = sizes[order[k]];
        if cur_x + w > size {
            cur_x = spacing;
            cur_y = next_y;
            next_y = next_y + if reorder { h + spacing } else { scale };
        }
        positions.push((cur_x, cur_y));
        cur_x = cur_x + w + spacing;
        k = k + 1;
    }
    (positions, next_y)
}

/// Lays out glyphs of sizes `sizes` (width, height) in a square atlas, with `spacing` between
/// glyphs and rows: in the order of `comes_before` when `reorder` is set (each row then as tall
/// as its first glyph), else as given with rows `scale` apart. The atlas side is the first of
/// 256, 512, 1024, ... where the rows fit. `requires` asks for at least one glyph, and keeps
/// every coordinate below `2^29`, so no side passes `u32::MAX`.
pub fn pack_layout(sizes: &Vec<(u32, u32)>, scale: u32, spacing: u32, reorder: bool) -> (r: PackedLayout)
    requires
        sizes@.len() > 0,
        one_row_side(sizes@, scale, spacing) <= 0x2000_0000,
    ensures
        placement_order(sizes@, r.order@, reorder),
        exists|j: nat| r.size == 256 * pow2(j) && forall|i: nat| i < j ==> !fits(sizes@, r.order@, (256 * pow2(i)) as int, scale, spacing, reorder),
        fits(sizes@, r.order@, r.size as int, scale, spacing, reorder),
        r.positions@.len() == sizes@.len(),
        forall|k: int| 0 <= k < sizes@.len() ==> (#[trigger] r.positions@[k]).0 == position_of(sizes@, r.order@, k, r.size as int, scale, spacing, reorder).0
            && r.positions@[k].1 == position_of(sizes@, r.order@, k, r.size as int, scale, spacing, reorder).1,
{
    let order = if reorder {
        sorted_glyphs(sizes)
    } else {
        let mut o: Vec<usize> = Vec::new();
        let mut i: usize = 0;
        while i < sizes.len()
            invariant
                i <= sizes@.len(),
                o@ == Seq::new(i as nat, |j: int| j as usize),
            decreases sizes@.len() - i,
        {
            o.push(i);
            i = i + 1;
            proof {
                assert(o@ =~= Seq::new(i as nat, |j: int| j as usize));
            }
        }
        o
    };
    proof {
        if reorder {
            assert forall|j: int| 0 <= j < order@.len() implies #[trigger] order@[j] < sizes@.len() by {}
        }
        vstd::arithmetic::power2::lemma2_to64();
    }
    let ghost s = sizes@;
    let ghost side = one_row_side(s, scale, spacing);
    let mut size: u32 = 256;
    let ghost mut j: nat = 0;
    loop
        invariant
            s == sizes@,
            side == one_row_side(s, scale, spacing),
            side <= 0x2000_0000,
            s.len() > 0,
            placement_order(s, order@, reorder),
            order@.len() == s.len(),
            forall|k: int| 0 <= k < order@.len() ==> #[trigger] order@[k] < s.len(),
            size == 256 * pow2(j),
            256 <= size <= 0x4000_0000,
            size <= 256 || size < 2 * side,
            forall|i: nat| i < j ==> !fits(s, order@, (256 * pow2(i)) as int, scale, spacing, reorder),
        decreases 0x4000_0000 - size,
    {
        let (positions, next_y) = layout_at(sizes, &order, size, scale, spacing, reorder);
        if next_y > size {
            proof {
                lemma_cursor_bounds(s, order@, s.len() as int, size as int, scale, spacing, reorder);
                lemma_glyph_cost(s, scale, spacing);
                assert(order@[0] < s.len());
                let g0 = s[order@[0] as int];
                assert(g0.0 + g0.1 + 2 * spacing + scale <= glyph_cost(s, scale, spacing));
                assert(glyph_cost(s, scale, spacing) <= side) by (nonlinear_arith)
                    requires
                        side == 3 * spacing + 1 + (s.len() + 1) * glyph_cost(s, scale, spacing),
                        s.len() >= 0,
                        glyph_cost(s, scale, spacing) >= 0,
                ;
                assert(size < side);
                vstd::arithmetic::power2::lemma_pow2_unfold(j + 1);
                assert forall|i: nat| i < j + 1 implies !fits(s, order@, (256 * pow2(i)) as int, scale, spacing, reorder) by {
                    if i == j {
                        assert(256 * pow2(i) == size);
                    }
                }
                j = j + 1;
            }
            size = size * 2;
            continue;
        }
        return PackedLayout { size, order, positions };
    }
}

/// The layout grows by one glyph.
proof fn lemma_cursor_step(
    sizes: Seq<(u32, u32)>,
    order: Seq<usize>,
    k: int,
    size: int,
    scale: u32,
    spacing: u32,
    reorder: bool,
)
    requires
        0 <= k,
    ensures
        cursor_after(sizes, order, k + 1, size, scale, spacing, reorder) == ({
            let c = cursor_after(sizes, order, k, size, scale, spacing, reorder);
            let g = order[k] as int;
            let p = position_of(sizes, order, k, size, scale, spacing, reorder);
            (p.0 + width(sizes, g) + spacing, p.1, if c.0 + width(sizes, g) > size {
                c.2 + if reorder { height(sizes, g) + spacing } else { scale as int }
            } else {
                c.2
            })
        }),
{
}

} // verus!
