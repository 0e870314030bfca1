//! The canvas: a fixed-size grid of packed colors plus a seed list,
//! with fill, seed stamping, and Voronoi rasterization.

use vstd::prelude::*;

use crate::geom::{dist2, lemma_nearest_idx_correct, nearest_idx, nearest_prefix, seed_pos, Color, Coord, Point, MAX_DIM};

verus! {

/// The marker color a seed stamp paints its block with.
pub const COLOR_BLACK: Color = 0;

/// Errors reported by canvas operations.
#[derive(Copy, Clone, Debug, PartialEq, Eq)]
pub enum CanvasError {
    /// A stamp would touch cells outside the grid.
    Bounds,
    /// Rasterization was invoked with no registered seeds.
    EmptySeedSet,
}

/// The mathematical state of a canvas: its dimensions, its grid as a
/// flat row-major sequence of colors, and its ordered seed list.
#[verifier::ext_equal]
pub struct CanvasView {
    pub width: nat,
    pub height: nat,
    pub grid: Seq<Color>,
    pub seeds: Seq<Point>,
}

/// A seed lies on the grid of the given dimensions.
pub open spec fn seed_in_bounds(s: Point, width: int, height: int) -> bool {
    s.pos.0 < height && s.pos.1 < width
}

/// Well-formedness of a canvas state: positive bounded dimensions, a
/// grid of exactly `width * height` cells, and every seed on the grid.
pub open spec fn inv(v: CanvasView) -> bool {
    &&& 0 < v.width <= MAX_DIM as nat
    &&& 0 < v.height <= MAX_DIM as nat
    &&& v.width * v.height <= usize::MAX as nat
    &&& v.grid.len() == v.width * v.height
    &&& forall|k: int|
        0 <= k < v.seeds.len() ==> seed_in_bounds(
            #[trigger] v.seeds[k],
            v.width as int,
            v.height as int,
        )
}

/// The flat row-major index of cell `(i, j)` on a grid of width `w`.
pub open spec fn flat(w: int, i: int, j: int) -> int {
    i * w + j
}

/// The marker block of radius `radius` centered at `pos` lies on the
/// grid of the canvas state `v`.
pub open spec fn stamp_fits(v: CanvasView, pos: Coord, radius: int) -> bool {
    &&& radius <= pos.0 as int && pos.0 + radius < v.height
    &&& radius <= pos.1 as int && pos.1 + radius < v.width
}

/// Cell `(i, j)` lies inside the square marker block of radius `radius`
/// centered at `pos`.
pub open spec fn in_stamp_block(pos: Coord, radius: int, i: int, j: int) -> bool {
    &&& pos.0 - radius <= i < pos.0 + radius
    &&& pos.1 - radius <= j < pos.1 + radius
}

/// `p` is strictly closer to pixel `(i, j)` than some seed of the list.
pub open spec fn closer_than_some_seed(seeds: Seq<Point>, p: Point, i: int, j: int) -> bool {
    exists|k: int|
        0 <= k < seeds.len() && dist2((i, j), seed_pos(p)) < dist2(
            (i, j),
            #[trigger] seed_pos(seeds[k]),
        )
}

/// The color rasterization assigns to pixel `(i, j)`: the color of the
/// nearest seed, ties broken toward the lowest seed index.
pub open spec fn voronoi_color(seeds: Seq<Point>, i: int, j: int) -> Color {
    seeds[nearest_idx(seeds, (i, j))].color
}

/// The canvas state after rasterization: same dimensions and seeds, and
/// every pixel recolored by its nearest seed.
pub open spec fn rasterized(v: CanvasView) -> CanvasView {
    CanvasView {
        width: v.width,
        height: v.height,
        seeds: v.seeds,
        grid: Seq::new(
            v.width * v.height,
            |p: int| voronoi_color(v.seeds, p / (v.width as int), p % (v.width as int)),
        ),
    }
}

/// Idempotence (law): rasterizing an already rasterized canvas changes
/// nothing.  The rasterized grid depends only on the seed list and the
/// dimensions, and rasterization leaves both untouched.
pub proof fn lemma_rasterize_idempotent(v: CanvasView)
    ensures
        rasterized(rasterized(v)) == rasterized(v),
{
    assert(rasterized(rasterized(v)) =~= rasterized(v));
}

/// Coverage (law): the color rasterization assigns to any pixel is the
/// color of some registered seed.
pub proof fn lemma_voronoi_coverage(seeds: Seq<Point>, i: int, j: int)
    requires
        seeds.len() > 0,
    ensures
        exists|k: int| 0 <= k < seeds.len() && voronoi_color(seeds, i, j) == #[trigger] seeds[k].color,
{
    lemma_nearest_idx_correct(seeds, (i, j));
    let n = nearest_idx(seeds, (i, j));
    assert(0 <= n < seeds.len() && voronoi_color(seeds, i, j) == seeds[n].color);
}

/// A grid of packed 32-bit colors together with the registered seed
/// points.  The grid is stored flat in row-major order; cell `(i, j)`
/// lives at index `i * width + j`.
pub struct Canvas {
    width: usize,
    height: usize,
    grid: Vec<Color>,
    seeds: Vec<Point>,
}

impl View for Canvas {
    type V = CanvasView;

    closed spec fn view(&self) -> CanvasView {
        CanvasView {
            width: self.width as nat,
            height: self.height as nat,
            grid: self.grid@,
            seeds: self.seeds@,
        }
    }
}

proof fn lemma_flat_index_bounds(i: int, j: int, w: int, h: int)
    by (nonlinear_arith)
    requires
        0 <= i < h,
        0 <= j < w,
    ensures
        0 <= i * w + j < h * w,
        i * w + j < w * h,
{
}

proof fn lemma_flat_index_inj(i1: int, j1: int, i2: int, j2: int, w: int)
    by (nonlinear_arith)
    requires
        0 <= j1 < w,
        0 <= j2 < w,
        0 <= i1,
        0 <= i2,
        i1 * w + j1 == i2 * w + j2,
    ensures
        i1 == i2,
        j1 == j2,
{
}

proof fn lemma_flat_unflatten(p: int, w: int, h: int)
    requires
        0 < w,
        0 < h,
        0 <= p < w * h,
    ensures
        0 <= p / w < h,
        0 <= p % w < w,
        (p / w) * w + (p % w) == p,
{
    vstd::arithmetic::div_mod::lemma_fundamental_div_mod(p, w);
    vstd::arithmetic::div_mod::lemma_mod_bound(p, w);
    vstd::arithmetic::div_mod::lemma_div_pos_is_pos(p, w);
    vstd::arithmetic::mul::lemma_mul_is_commutative(w, p / w);
    if p / w >= h {
        vstd::arithmetic::mul::lemma_mul_inequality(h, p / w, w);
        vstd::arithmetic::mul::lemma_mul_is_commutative(w, h);
        assert(false);
    }
}

impl Canvas {
    /// The canvas is well formed: see `inv`.
    pub open spec fn wf(&self) -> bool {
        inv(self@)
    }

    /// Creates a canvas of the given dimensions with every cell set to
    /// zero and an empty seed list.
    pub fn new(width: usize, height: usize) -> (c: Canvas)
        requires
            0 < width <= MAX_DIM,
            0 < height <= MAX_DIM,
            width * height <= usize::MAX,
        ensures
            c.wf(),
            c@.width == width as nat,
            c@.height == height as nat,
            c@.seeds == Seq::<Point>::empty(),
            c@.grid.len() == width * height,
            forall|p: int| 0 <= p < c@.grid.len() ==> c@.grid[p] == 0u32,
    {
        let total: usize = width * height;
        let mut grid: Vec<Color> = Vec::new();
        let mut p: usize = 0;
        while p < total
            invariant
                p <= total,
                grid@.len() == p,
                forall|q: int| 0 <= q < p ==> grid@[q] == 0u32,
            decreases total - p,
        {
            grid.push(0u32);
            p = p + 1;
        }
        Canvas { width, height, grid, seeds: Vec::new() }
    }

    /// Comparison measure between two positions: the squared Euclidean
    /// distance.  It is used only for relative comparison, which it
    /// orders exactly as the true (square-root) distance would.
    pub fn sqr_dst(a: Coord, b: Coord) -> (r: u64)
        requires
            a.0 <= MAX_DIM,
            a.1 <= MAX_DIM,
            b.0 <= MAX_DIM,
            b.1 <= MAX_DIM,
        ensures
            r as int == dist2((a.0 as int, a.1 as int), (b.0 as int, b.1 as int)),
    {
        let dr: i64 = a.0 as i64 - b.0 as i64;
        let dc: i64 = a.1 as i64 - b.1 as i64;
        proof {
            lemma_square_bound(dr as int, MAX_DIM as int);
            lemma_square_bound(dc as int, MAX_DIM as int);
        }
        (dr * dr + dc * dc) as u64
    }

    /// Sets every cell of the grid to `color`.  The seed list and the
    /// dimensions are untouched.
    pub fn fill(&mut self, color: Color)
        requires
            old(self).wf(),
        ensures
            final(self).wf(),
            final(self)@.width == old(self)@.width,
            final(self)@.height == old(self)@.height,
            final(self)@.seeds == old(self)@.seeds,
            final(self)@.grid.len() == old(self)@.grid.len(),
            forall|p: int| 0 <= p < final(self)@.grid.len() ==> final(self)@.grid[p] == color,
    {
        let total: usize = self.grid.len();
        let mut p: usize = 0;
        while p < total
            invariant
                p <= total,
                total == self.grid@.len(),
                total == old(self)@.grid.len(),
                self.width == old(self).width,
                self.height == old(self).height,
                self.seeds@ == old(self).seeds@,
                old(self).wf(),
                forall|q: int| 0 <= q < p ==> self.grid@[q] == color,
            decreases total - p,
        {
            self.grid[p] = color;
            p = p + 1;
        }
        proof {
            assert forall|k: int| 0 <= k < self.seeds@.len() implies seed_in_bounds(
                #[trigger] self.seeds@[k],
                self.width as int,
                self.height as int,
            ) by {
                assert(seed_in_bounds(
                    old(self)@.seeds[k],
                    old(self)@.width as int,
                    old(self)@.height as int,
                ));
                assert(self.seeds@[k] == old(self)@.seeds[k]);
            }
        }
    }

    /// Returns the grid as a flat, row-major sequence of colors.  Its
    /// length is always `width * height` (buffer length invariant, law).
    pub fn pixels(&self) -> (r: Vec<Color>)
        requires
            self.wf(),
        ensures
            r@ == self@.grid,
            r@.len() == self@.width * self@.height,
    {
        let total: usize = self.grid.len();
        let mut out: Vec<Color> = Vec::new();
        let mut p: usize = 0;
        while p < total
            invariant
                p <= total,
                total == self.grid@.len(),
                out@.len() == p,
                forall|q: int| 0 <= q < p ==> out@[q] == self.grid@[q],
            decreases total - p,
        {
            out.push(self.grid[p]);
            p = p + 1;
        }
        proof {
            assert(out@ =~= self@.grid);
        }
        out
    }

    /// Registers a seed point: appends `Point { color, pos }` to the seed
    /// list and paints the square marker block of radius `width / 2`
    /// centered at `pos` with `COLOR_BLACK`.  The marker is cosmetic
    /// dead-space around the seed; rasterization later overwrites it.
    /// If the block does not fit on the grid, the canvas is left
    /// unchanged and `CanvasError::Bounds` is returned.
    pub fn point(&mut self, pos: Coord, width: u8, color: Color) -> (r: Result<
        (),
        CanvasError,
    >)
        requires
            old(self).wf(),
        ensures
            final(self).wf(),
            final(self)@.width == old(self)@.width,
            final(self)@.height == old(self)@.height,
            final(self)@.grid.len() == old(self)@.grid.len(),
            r is Ok <==> stamp_fits(old(self)@, pos, width as int / 2),
            r is Err ==> final(self)@ == old(self)@ && r == Err::<(), CanvasError>(
                CanvasError::Bounds,
            ),
            r is Ok ==> final(self)@.seeds == old(self)@.seeds.push(Point { color, pos }),
            r is Ok ==> forall|i: int, j: int|
                0 <= i < old(self)@.height && 0 <= j < old(self)@.width
                    ==> final(self)@.grid[#[trigger] flat(old(self)@.width as int, i, j)] == (if in_stamp_block(
                    pos,
                    width as int / 2,
                    i,
                    j,
                ) {
                    COLOR_BLACK
                } else {
                    old(self)@.grid[flat(old(self)@.width as int, i, j)]
                }),
    {
        let off: usize = (width / 2) as usize;
        let fits: bool = off <= pos.0 && pos.0 < self.height && off < self.height - pos.0 && off
            <= pos.1 && pos.1 < self.width && off < self.width - pos.1;
        if !fits {
            return Err(CanvasError::Bounds);
        }
        let w: usize = self.width;
        let h: usize = self.height;
        let r0: usize = pos.0 - off;
        let r1: usize = pos.0 + off;
        let c0: usize = pos.1 - off;
        let c1: usize = pos.1 + off;
        let mut i: usize = r0;
        while i < r1
            invariant
                old(self).wf(),
                self.width == old(self).width,
                self.height == old(self).height,
                self.seeds@ == old(self)@.seeds,
                self.grid@.len() == old(self)@.grid.len(),
                w == self.width,
                h == self.height,
                r0 == pos.0 - off,
                r1 == pos.0 + off,
                c0 == pos.1 - off,
                c1 == pos.1 + off,
                off <= pos.0,
                pos.0 + off < h,
                off <= pos.1,
                pos.1 + off < w,
                r0 <= i <= r1,
                forall|a: int, b: int|
                    0 <= a < h && 0 <= b < w
                        ==> self.grid@[#[trigger] flat(w as int, a, b)] == (if (r0 <= a < i && c0
                        <= b < c1) {
                        COLOR_BLACK
                    } else {
                        old(self)@.grid[flat(w as int, a, b)]
                    }),
            decreases r1 - i,
        {
            let mut j: usize = c0;
            while j < c1
                invariant
                    old(self).wf(),
                    self.width == old(self).width,
                    self.height == old(self).height,
                    self.seeds@ == old(self)@.seeds,
                    self.grid@.len() == old(self)@.grid.len(),
                    w == self.width,
                    h == self.height,
                    r0 == pos.0 - off,
                    r1 == pos.0 + off,
                    c0 == pos.1 - off,
                    c1 == pos.1 + off,
                    off <= pos.0,
                    pos.0 + off < h,
                    off <= pos.1,
                    pos.1 + off < w,
                    r0 <= i < r1,
                    c0 <= j <= c1,
                    forall|a: int, b: int|
                        0 <= a < h && 0 <= b < w
                            ==> self.grid@[#[trigger] flat(w as int, a, b)] == (if (r0 <= a < i
                            && c0 <= b < c1) || (a == i && c0 <= b < j) {
                            COLOR_BLACK
                        } else {
                            old(self)@.grid[flat(w as int, a, b)]
                        }),
                decreases c1 - j,
            {
                proof {
                    lemma_flat_index_bounds(i as int, j as int, w as int, h as int);
                }
                let idx: usize = i * w + j;
                self.grid[idx] = COLOR_BLACK;
                proof {
                    assert forall|a: int, b: int| 0 <= a < h && 0 <= b < w implies self.grid@[#[trigger] flat(
                        w as int,
                        a,
                        b,
                    )] == (if (r0 <= a < i && c0 <= b < c1) || (a == i && c0 <= b < j + 1) {
                        COLOR_BLACK
                    } else {
                        old(self)@.grid[flat(w as int, a, b)]
                    }) by {
                        lemma_flat_index_bounds(a, b, w as int, h as int);
                        if a * w + b == idx {
                            lemma_flat_index_inj(a, b, i as int, j as int, w as int);
                        }
                    }
                }
                j = j + 1;
            }
            i = i + 1;
        }
        self.seeds.push(Point { color, pos });
        proof {
            assert forall|k: int| 0 <= k < self.seeds@.len() implies seed_in_bounds(
                #[trigger] self.seeds@[k],
                self.width as int,
                self.height as int,
            ) by {
                if k < self.seeds@.len() - 1 {
                    assert(seed_in_bounds(
                        old(self)@.seeds[k],
                        old(self)@.width as int,
                        old(self)@.height as int,
                    ));
                    assert(self.seeds@[k] == old(self)@.seeds[k]);
                }
            }
        }
        Ok(())
    }

    /// Recolors with `p.color` every pixel that is strictly closer to
    /// `p` than to at least one registered seed; every other pixel keeps
    /// its color.  The seed list is untouched.
    pub fn fill_voronoi_cell(&mut self, p: &Point)
        requires
            old(self).wf(),
            p.pos.0 <= MAX_DIM,
            p.pos.1 <= MAX_DIM,
        ensures
            final(self).wf(),
            final(self)@.width == old(self)@.width,
            final(self)@.height == old(self)@.height,
            final(self)@.seeds == old(self)@.seeds,
            final(self)@.grid.len() == old(self)@.grid.len(),
            forall|i: int, j: int|
                0 <= i < old(self)@.height && 0 <= j < old(self)@.width
                    ==> final(self)@.grid[#[trigger] flat(old(self)@.width as int, i, j)] == (
                if closer_than_some_seed(old(self)@.seeds, *p, i, j) {
                    p.color
                } else {
                    old(self)@.grid[flat(old(self)@.width as int, i, j)]
                }),
    {
        let w: usize = self.width;
        let h: usize = self.height;
        let n: usize = self.seeds.len();
        let mut i: usize = 0;
        while i < h
            invariant
                old(self).wf(),
                self.width == old(self).width,
                self.height == old(self).height,
                self.seeds@ == old(self)@.seeds,
                self.grid@.len() == old(self)@.grid.len(),
                w == self.width,
                h == self.height,
                n == self.seeds@.len(),
                p.pos.0 <= MAX_DIM,
                p.pos.1 <= MAX_DIM,
                i <= h,
                forall|a: int, b: int|
                    0 <= a < h && 0 <= b < w
                        ==> self.grid@[#[trigger] flat(w as int, a, b)] == (if a < i
                        && closer_than_some_seed(old(self)@.seeds, *p, a, b) {
                        p.color
                    } else {
                        old(self)@.grid[flat(w as int, a, b)]
                    }),
            decreases h - i,
        {
            let mut j: usize = 0;
            while j < w
                invariant
                    old(self).wf(),
                    self.width == old(self).width,
                    self.height == old(self).height,
                    self.seeds@ == old(self)@.seeds,
                    self.grid@.len() == old(self)@.grid.len(),
                    w == self.width,
                    h == self.height,
                    n == self.seeds@.len(),
                    p.pos.0 <= MAX_DIM,
                    p.pos.1 <= MAX_DIM,
                    i < h,
                    j <= w,
                    forall|a: int, b: int|
                        0 <= a < h && 0 <= b < w
                            ==> self.grid@[#[trigger] flat(w as int, a, b)] == (if (a < i || (a == i
                            && b < j)) && closer_than_some_seed(old(self)@.seeds, *p, a, b) {
                            p.color
                        } else {
                            old(self)@.grid[flat(w as int, a, b)]
                        }),
                decreases w - j,
            {
                let d_p: u64 = Self::sqr_dst((i, j), p.pos);
                let mut closer: bool = false;
                let mut k: usize = 0;
                while k < n
                    invariant
                        old(self).wf(),
                        self.width == old(self).width,
                        self.height == old(self).height,
                        self.seeds@ == old(self)@.seeds,
                        w == self.width,
                        h == self.height,
                        n == self.seeds@.len(),
                        p.pos.0 <= MAX_DIM,
                        p.pos.1 <= MAX_DIM,
                        i < h,
                        j < w,
                        k <= n,
                        d_p as int == dist2((i as int, j as int), seed_pos(*p)),
                        closer == exists|t: int|
                            0 <= t < k && dist2((i as int, j as int), seed_pos(*p)) < dist2(
                                (i as int, j as int),
                                #[trigger] seed_pos(self.seeds@[t]),
                            ),
                    decreases n - k,
                {
                    let d_k: u64 = Self::sqr_dst((i, j), self.seeds[k].pos);
                    if d_p < d_k {
                        closer = true;
                        proof {
                            assert(dist2((i as int, j as int), seed_pos(*p)) < dist2(
                                (i as int, j as int),
                                seed_pos(self.seeds@[k as int]),
                            ));
                        }
                    }
                    k = k + 1;
                }
                proof {
                    assert(closer == closer_than_some_seed(old(self)@.seeds, *p, i as int, j as int));
                }
                if closer {
                    proof {
                        lemma_flat_index_bounds(i as int, j as int, w as int, h as int);
                    }
                    let idx: usize = i * w + j;
                    self.grid[idx] = p.color;
                    proof {
                        assert forall|a: int, b: int| 0 <= a < h && 0 <= b < w implies self.grid@[#[trigger] flat(
                            w as int,
                            a,
                            b,
                        )] == (if (a < i || (a == i && b < j + 1)) && closer_than_some_seed(
                            old(self)@.seeds,
                            *p,
                            a,
                            b,
                        ) {
                            p.color
                        } else {
                            old(self)@.grid[flat(w as int, a, b)]
                        }) by {
                            lemma_flat_index_bounds(a, b, w as int, h as int);
                            if a * w + b == idx {
                                lemma_flat_index_inj(a, b, i as int, j as int, w as int);
                            }
                        }
                    }
                }
                j = j + 1;
            }
            i = i + 1;
        }
        proof {
            assert forall|k: int| 0 <= k < self.seeds@.len() implies seed_in_bounds(
                #[trigger] self.seeds@[k],
                self.width as int,
                self.height as int,
            ) by {
                assert(seed_in_bounds(
                    old(self)@.seeds[k],
                    old(self)@.width as int,
                    old(self)@.height as int,
                ));
                assert(self.seeds@[k] == old(self)@.seeds[k]);
            }
        }
    }

    /// Rasterizes the Voronoi diagram of the registered seeds: every
    /// pixel is assigned the color of its nearest seed, ties broken
    /// toward the seed of lowest index.  The whole grid is overwritten,
    /// stamped marker blocks included.  With an empty seed list the
    /// canvas is left unchanged and `CanvasError::EmptySeedSet` is
    /// returned.
    pub fn fill_voronoi_areas(&mut self) -> (r: Result<(), CanvasError>)
        requires
            old(self).wf(),
        ensures
            final(self).wf(),
            final(self)@.width == old(self)@.width,
            final(self)@.height == old(self)@.height,
            final(self)@.seeds == old(self)@.seeds,
            final(self)@.grid.len() == old(self)@.grid.len(),
            r is Ok <==> old(self)@.seeds.len() > 0,
            r is Err ==> final(self)@ == old(self)@ && r == Err::<(), CanvasError>(
                CanvasError::EmptySeedSet,
            ),
            r is Ok ==> final(self)@ == rasterized(old(self)@),
            r is Ok ==> forall|i: int, j: int|
                0 <= i < old(self)@.height && 0 <= j < old(self)@.width
                    ==> final(self)@.grid[#[trigger] flat(old(self)@.width as int, i, j)]
                    == voronoi_color(old(self)@.seeds, i, j),
    {
        let n: usize = self.seeds.len();
        if n == 0 {
            return Err(CanvasError::EmptySeedSet);
        }
        let w: usize = self.width;
        let h: usize = self.height;
        let mut i: usize = 0;
        while i < h
            invariant
                old(self).wf(),
                self.width == old(self).width,
                self.height == old(self).height,
                self.seeds@ == old(self)@.seeds,
                self.grid@.len() == old(self)@.grid.len(),
                w == self.width,
                h == self.height,
                n == self.seeds@.len(),
                n > 0,
                i <= h,
                forall|a: int, b: int|
                    0 <= a < h && 0 <= b < w
                        ==> self.grid@[#[trigger] flat(w as int, a, b)] == (if a < i {
                        voronoi_color(old(self)@.seeds, a, b)
                    } else {
                        old(self)@.grid[flat(w as int, a, b)]
                    }),
            decreases h - i,
        {
            let mut j: usize = 0;
            while j < w
                invariant
                    old(self).wf(),
                    self.width == old(self).width,
                    self.height == old(self).height,
                    self.seeds@ == old(self)@.seeds,
                    self.grid@.len() == old(self)@.grid.len(),
                    w == self.width,
                    h == self.height,
                    n == self.seeds@.len(),
                    n > 0,
                    i < h,
                    j <= w,
                    forall|a: int, b: int|
                        0 <= a < h && 0 <= b < w
                            ==> self.grid@[#[trigger] flat(w as int, a, b)] == (if a < i || (a == i
                            && b < j) {
                            voronoi_color(old(self)@.seeds, a, b)
                        } else {
                            old(self)@.grid[flat(w as int, a, b)]
                        }),
                decreases w - j,
            {
                let mut best: usize = 0;
                let mut best_d: u64 = Self::sqr_dst((i, j), self.seeds[0].pos);
                let mut k: usize = 1;
                while k < n
                    invariant
                        old(self).wf(),
                        self.width == old(self).width,
                        self.height == old(self).height,
                        self.seeds@ == old(self)@.seeds,
                        w == self.width,
                        h == self.height,
                        n == self.seeds@.len(),
                        n > 0,
                        i < h,
                        j < w,
                        1 <= k <= n,
                        best < k,
                        best as int == nearest_prefix(
                            self.seeds@,
                            (i as int, j as int),
                            k as int,
                        ),
                        best_d as int == dist2(
                            (i as int, j as int),
                            seed_pos(self.seeds@[best as int]),
                        ),
                    decreases n - k,
                {
                    let d: u64 = Self::sqr_dst((i, j), self.seeds[k].pos);
                    if d < best_d {
                        best = k;
                        best_d = d;
                    }
                    k = k + 1;
                }
                proof {
                    assert(best as int == nearest_idx(self.seeds@, (i as int, j as int)));
                    lemma_flat_index_bounds(i as int, j as int, w as int, h as int);
                }
                let idx: usize = i * w + j;
                let c: Color = self.seeds[best].color;
                self.grid[idx] = c;
                proof {
                    assert(c == voronoi_color(old(self)@.seeds, i as int, j as int));
                    assert forall|a: int, b: int| 0 <= a < h && 0 <= b < w implies self.grid@[#[trigger] flat(
                        w as int,
                        a,
                        b,
                    )] == (if a < i || (a == i && b < j + 1) {
                        voronoi_color(old(self)@.seeds, a, b)
                    } else {
                        old(self)@.grid[flat(w as int, a, b)]
                    }) by {
                        lemma_flat_index_bounds(a, b, w as int, h as int);
                        if a * w + b == idx {
                            lemma_flat_index_inj(a, b, i as int, j as int, w as int);
                        }
                    }
                }
                j = j + 1;
            }
            i = i + 1;
        }
        proof {
            assert forall|k: int| 0 <= k < self.seeds@.len() implies seed_in_bounds(
                #[trigger] self.seeds@[k],
                self.width as int,
                self.height as int,
            ) by {
                assert(seed_in_bounds(
                    old(self)@.seeds[k],
                    old(self)@.width as int,
                    old(self)@.height as int,
                ));
                assert(self.seeds@[k] == old(self)@.seeds[k]);
            }
            assert forall|q: int| 0 <= q < self.grid@.len() implies self.grid@[q] == rasterized(
                old(self)@,
            ).grid[q] by {
                lemma_flat_unflatten(q, w as int, h as int);
                let a = q / (w as int);
                let b = q % (w as int);
                assert(self.grid@[flat(w as int, a, b)] == voronoi_color(old(self)@.seeds, a, b));
            }
            assert(self@ =~= rasterized(old(self)@));
        }
        Ok(())
    }
}

proof fn lemma_square_bound(x: int, m: int)
    by (nonlinear_arith)
    requires
        -m <= x <= m,
        0 <= m,
    ensures
        0 <= x * x <= m * m,
{
}

} // verus!
