//! Positions, seed points, and the nearest-seed selection rule.

use vstd::prelude::*;

verus! {

/// Largest allowed canvas dimension.  Keeping every coordinate below
/// `2^31` lets all squared-distance arithmetic stay within `i64`/`u64`.
pub const MAX_DIM: usize = 0x7FFF_FFFF;

/// A packed color value, `0xRRGGBBAA`.  Opaque to all grid logic; only
/// the image encoder looks at its channels.
pub type Color = u32;

/// A grid position: `(row, column)`.
pub type Coord = (usize, usize);

/// A seed point: a grid position `(row, column)` and the color its
/// Voronoi region is filled with.
#[derive(Copy, Clone, Debug)]
pub struct Point {
    pub color: Color,
    pub pos: Coord,
}

/// Squared Euclidean distance between two positions.  All comparisons
/// between distances are made on this value; it orders pairs of
/// positions exactly as the true Euclidean distance does.
pub open spec fn dist2(a: (int, int), b: (int, int)) -> int {
    (a.0 - b.0) * (a.0 - b.0) + (a.1 - b.1) * (a.1 - b.1)
}

/// The position of a seed point, as a pair of mathematical integers.
pub open spec fn seed_pos(s: Point) -> (int, int) {
    (s.pos.0 as int, s.pos.1 as int)
}

/// Distance correctness (law): the squared distance is symmetric,
/// vanishes on a pair of equal positions, and is never negative.
pub proof fn lemma_dist2_symmetric(a: (int, int), b: (int, int))
    ensures
        dist2(a, b) == dist2(b, a),
        dist2(a, a) == 0,
        dist2(a, b) >= 0,
{
    assert((a.0 - b.0) * (a.0 - b.0) == (b.0 - a.0) * (b.0 - a.0)) by (nonlinear_arith);
    assert((a.1 - b.1) * (a.1 - b.1) == (b.1 - a.1) * (b.1 - a.1)) by (nonlinear_arith);
    assert((a.0 - b.0) * (a.0 - b.0) >= 0) by (nonlinear_arith);
    assert((a.1 - b.1) * (a.1 - b.1) >= 0) by (nonlinear_arith);
}

/// Index of the seed nearest to `p` among the first `n` seeds, scanning
/// in list order and keeping the earlier seed on an exact tie.
pub open spec fn nearest_prefix(seeds: Seq<Point>, p: (int, int), n: int) -> int
    recommends
        1 <= n <= seeds.len(),
    decreases n,
{
    if n <= 1 {
        0
    } else {
        let prev = nearest_prefix(seeds, p, n - 1);
        if dist2(p, seed_pos(seeds[n - 1])) < dist2(p, seed_pos(seeds[prev])) {
            n - 1
        } else {
            prev
        }
    }
}

/// Index of the seed nearest to `p`, ties broken toward the lowest index.
pub open spec fn nearest_idx(seeds: Seq<Point>, p: (int, int)) -> int {
    nearest_prefix(seeds, p, seeds.len() as int)
}

proof fn lemma_nearest_prefix_props(seeds: Seq<Point>, p: (int, int), n: int)
    requires
        1 <= n <= seeds.len(),
    ensures
        0 <= nearest_prefix(seeds, p, n) < n,
        forall|k: int|
            0 <= k < n ==> dist2(p, seed_pos(seeds[nearest_prefix(seeds, p, n)])) <= dist2(
                p,
                #[trigger] seed_pos(seeds[k]),
            ),
        forall|k: int|
            0 <= k < nearest_prefix(seeds, p, n) ==> dist2(p, #[trigger] seed_pos(seeds[k]))
                > dist2(p, seed_pos(seeds[nearest_prefix(seeds, p, n)])),
    decreases n,
{
    if n > 1 {
        lemma_nearest_prefix_props(seeds, p, n - 1);
    }
}

/// Nearest-seed correctness (law): the selected seed is at least as
/// close to `p` as every registered seed, and every seed of lower index
/// is strictly farther away — on an exact tie the lowest index wins.
pub proof fn lemma_nearest_idx_correct(seeds: Seq<Point>, p: (int, int))
    requires
        seeds.len() > 0,
    ensures
        0 <= nearest_idx(seeds, p) < seeds.len(),
        forall|k: int|
            0 <= k < seeds.len() ==> dist2(p, seed_pos(seeds[nearest_idx(seeds, p)])) <= dist2(
                p,
                #[trigger] seed_pos(seeds[k]),
            ),
        forall|k: int|
            0 <= k < nearest_idx(seeds, p) ==> dist2(p, #[trigger] seed_pos(seeds[k])) > dist2(
                p,
                seed_pos(seeds[nearest_idx(seeds, p)]),
            ),
{
    lemma_nearest_prefix_props(seeds, p, seeds.len() as int);
}

} // verus!
