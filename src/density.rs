//! Density grids.
//!
//! A square grid of `resolution × resolution` cells covers the bounding box of a
//! circle. Cells whose centre lies within the inscribed circle form the mask;
//! points are counted per cell, and each masked cell gets a z-score against a
//! Poisson null model (variance equal to the mean).
use crate::zscore::{
    lemma_le_same_denom, lemma_ranking_preorder, ranks_at_least, ranks_at_least_exec, Extremum,
    ZScore, DENOM_SQ_MAX,
};
use vstd::prelude::*;

verus! {

/// Cells per axis unless a caller chooses otherwise.
pub const DEFAULT_GRID_RESOLUTION: usize = 50;

/// A point projected into grid space: the cell it falls in, which may lie
/// outside the grid.
#[derive(Clone, Copy, Debug, PartialEq, Eq, Structural)]
pub struct GridPos {
    pub row: i64,
    pub col: i64,
}

/// The cell `(row, col)` has its centre within the inscribed circle: in half-cell
/// units, its squared distance from the grid centre is at most `resolution²`.
pub open spec fn cell_in_circle(res: int, row: int, col: int) -> bool {
    (2 * col + 1 - res) * (2 * col + 1 - res) + (2 * row + 1 - res) * (2 * row + 1 - res) <= res
        * res
}

/// A projected point is counted: it lies in the grid and in a masked cell.
pub open spec fn accepts(res: int, p: GridPos) -> bool {
    &&& 0 <= p.row < res
    &&& 0 <= p.col < res
    &&& cell_in_circle(res, p.row as int, p.col as int)
}

/// How many of `ps` a grid of `res` cells per axis accepts.
pub open spec fn accepted_count(res: int, ps: Seq<GridPos>) -> nat
    decreases ps.len(),
{
    if ps.len() == 0 {
        0
    } else {
        accepted_count(res, ps.drop_last()) + if accepts(res, ps.last()) {
            1nat
        } else {
            0nat
        }
    }
}

/// Sum of one row of counts.
pub open spec fn row_sum(s: Seq<nat>) -> nat
    decreases s.len(),
{
    if s.len() == 0 {
        0
    } else {
        row_sum(s.drop_last()) + s.last()
    }
}

/// Sum of all counts.
pub open spec fn grid_sum(m: Seq<Seq<nat>>) -> nat
    decreases m.len(),
{
    if m.len() == 0 {
        0
    } else {
        grid_sum(m.drop_last()) + row_sum(m.last())
    }
}

/// Number of masked cells among the first `c_end` cells of row `r`.
pub open spec fn row_mask_count(res: int, r: int, c_end: int) -> nat
    decreases c_end,
{
    if c_end <= 0 {
        0
    } else {
        row_mask_count(res, r, c_end - 1) + if cell_in_circle(res, r, c_end - 1) {
            1nat
        } else {
            0nat
        }
    }
}

/// Number of masked cells in the first `r_end` rows.
pub open spec fn mask_count_upto(res: int, r_end: int) -> nat
    decreases r_end,
{
    if r_end <= 0 {
        0
    } else {
        mask_count_upto(res, r_end - 1) + row_mask_count(res, r_end - 1, res)
    }
}

/// Number of masked cells of a grid with `res` cells per axis.
pub open spec fn mask_count(res: int) -> nat {
    mask_count_upto(res, res)
}

/// What a density grid holds: its resolution, the count of each cell and the
/// number of points accepted.
pub struct GridModel {
    pub resolution: nat,
    pub counts: Seq<Seq<nat>>,
    pub total: nat,
}

impl GridModel {
    /// The counts form a `resolution × resolution` matrix.
    pub open spec fn has_shape(self) -> bool {
        &&& self.counts.len() == self.resolution
        &&& forall|r: int| 0 <= r < self.resolution ==> #[trigger] self.counts[r].len() == self.resolution
    }

    /// Shape, zero outside the mask, and a total that is the sum of the counts.
    pub open spec fn consistent(self) -> bool {
        &&& self.has_shape()
        &&& forall|r: int, c: int|
            0 <= r < self.resolution && 0 <= c < self.resolution && !cell_in_circle(
                self.resolution as int,
                r,
                c,
            ) ==> #[trigger] self.counts[r][c] == 0
        &&& self.total == grid_sum(self.counts)
    }

    /// The z-score of a cell: `(count * n - total) / sqrt(n * total)` with `n` the
    /// number of masked cells; none outside the mask or when `n` or the total is zero.
    pub open spec fn z_of(self, r: int, c: int) -> Option<ZScore> {
        let n = mask_count(self.resolution as int);
        if n == 0 || self.total == 0 || !cell_in_circle(self.resolution as int, r, c) {
            None
        } else {
            Some(
                ZScore {
                    numer: (self.counts[r][c] * n - self.total) as i64,
                    denom_sq: (n * self.total) as u64,
                },
            )
        }
    }

    /// Every masked cell holds the same count.
    pub open spec fn is_uniform(self) -> bool {
        forall|r1: int, c1: int, r2: int, c2: int|
            0 <= r1 < self.resolution && 0 <= c1 < self.resolution && 0 <= r2 < self.resolution
                && 0 <= c2 < self.resolution && cell_in_circle(self.resolution as int, r1, c1)
                && cell_in_circle(self.resolution as int, r2, c2) ==> #[trigger] self.counts[r1][c1]
                == #[trigger] self.counts[r2][c2]
    }
}

/// A grid with `res` cells per axis and no points.
pub open spec fn empty_grid(res: nat) -> GridModel {
    GridModel { resolution: res, counts: Seq::new(res, |r: int| Seq::new(res, |c: int| 0nat)), total: 0 }
}

/// One projected point added to a grid.
pub open spec fn add_one(m: GridModel, p: GridPos) -> GridModel {
    if accepts(m.resolution as int, p) {
        let r = p.row as int;
        let c = p.col as int;
        GridModel {
            resolution: m.resolution,
            counts: m.counts.update(r, m.counts[r].update(c, m.counts[r][c] + 1)),
            total: m.total + 1,
        }
    } else {
        m
    }
}

/// The projected points `ps` added to a grid, in order.
pub open spec fn added(m: GridModel, ps: Seq<GridPos>) -> GridModel
    decreases ps.len(),
{
    if ps.len() == 0 {
        m
    } else {
        add_one(added(m, ps.drop_last()), ps.last())
    }
}

proof fn lemma_row_sum_update(s: Seq<nat>, i: int, v: nat)
    requires
        0 <= i < s.len(),
    ensures
        row_sum(s.update(i, v)) == row_sum(s) - s[i] + v,
    decreases s.len(),
{
    let t = s.update(i, v);
    if i == s.len() - 1 {
        assert(t.drop_last() =~= s.drop_last());
    } else {
        assert(t.drop_last() =~= s.drop_last().update(i, v));
        lemma_row_sum_update(s.drop_last(), i, v);
    }
}

proof fn lemma_grid_sum_update(m: Seq<Seq<nat>>, r: int, row: Seq<nat>)
    requires
        0 <= r < m.len(),
    ensures
        grid_sum(m.update(r, row)) == grid_sum(m) - row_sum(m[r]) + row_sum(row),
    decreases m.len(),
{
    let t = m.update(r, row);
    if r == m.len() - 1 {
        assert(t.drop_last() =~= m.drop_last());
    } else {
        assert(t.drop_last() =~= m.drop_last().update(r, row));
        lemma_grid_sum_update(m.drop_last(), r, row);
    }
}

proof fn lemma_row_elem_le_sum(s: Seq<nat>, i: int)
    requires
        0 <= i < s.len(),
    ensures
        s[i] <= row_sum(s),
    decreases s.len(),
{
    if i < s.len() - 1 {
        lemma_row_elem_le_sum(s.drop_last(), i);
    }
}

proof fn lemma_row_le_grid_sum(m: Seq<Seq<nat>>, r: int)
    requires
        0 <= r < m.len(),
    ensures
        row_sum(m[r]) <= grid_sum(m),
    decreases m.len(),
{
    if r < m.len() - 1 {
        lemma_row_le_grid_sum(m.drop_last(), r);
    }
}

/// A cell's count is at most the grid's total.
proof fn lemma_cell_le_total(m: GridModel, r: int, c: int)
    requires
        m.consistent(),
        0 <= r < m.resolution,
        0 <= c < m.resolution,
    ensures
        m.counts[r][c] <= m.total,
{
    lemma_row_elem_le_sum(m.counts[r], c);
    lemma_row_le_grid_sum(m.counts, r);
}

proof fn lemma_add_one_consistent(m: GridModel, p: GridPos)
    requires
        m.consistent(),
    ensures
        add_one(m, p).consistent(),
        add_one(m, p).resolution == m.resolution,
        add_one(m, p).total == m.total + if accepts(m.resolution as int, p) {
            1nat
        } else {
            0nat
        },
{
    if accepts(m.resolution as int, p) {
        let r = p.row as int;
        let c = p.col as int;
        let row = m.counts[r].update(c, m.counts[r][c] + 1);
        lemma_row_sum_update(m.counts[r], c, m.counts[r][c] + 1);
        lemma_grid_sum_update(m.counts, r, row);
        let n = add_one(m, p);
        assert forall|r2: int| 0 <= r2 < n.resolution implies #[trigger] n.counts[r2].len()
            == n.resolution by {
            if r2 != r {
                assert(n.counts[r2] == m.counts[r2]);
            }
        }
    }
}

/// Adding projected points to a consistent grid keeps it consistent: cells
/// outside the mask stay zero, and the sum of all counts grows by exactly the
/// number of points that fall in a masked cell.
pub proof fn lemma_mass_conservation(m: GridModel, ps: Seq<GridPos>)
    requires
        m.consistent(),
    ensures
        added(m, ps).consistent(),
        added(m, ps).resolution == m.resolution,
        grid_sum(added(m, ps).counts) == grid_sum(m.counts) + accepted_count(
            m.resolution as int,
            ps,
        ),
        accepted_count(m.resolution as int, ps) <= ps.len(),
    decreases ps.len(),
{
    if ps.len() > 0 {
        lemma_mass_conservation(m, ps.drop_last());
        lemma_add_one_consistent(added(m, ps.drop_last()), ps.last());
    }
}

proof fn lemma_zero_sums(m: Seq<Seq<nat>>)
    requires
        forall|r: int, c: int| 0 <= r < m.len() && 0 <= c < m[r].len() ==> #[trigger] m[r][c] == 0,
    ensures
        grid_sum(m) == 0,
    decreases m.len(),
{
    if m.len() > 0 {
        lemma_zero_sums(m.drop_last());
        lemma_zero_row(m.last());
    }
}

proof fn lemma_zero_row(s: Seq<nat>)
    requires
        forall|c: int| 0 <= c < s.len() ==> #[trigger] s[c] == 0,
    ensures
        row_sum(s) == 0,
    decreases s.len(),
{
    if s.len() > 0 {
        lemma_zero_row(s.drop_last());
    }
}

proof fn lemma_row_mask_count_le(res: int, r: int, c_end: int)
    requires
        c_end >= 0,
    ensures
        row_mask_count(res, r, c_end) <= c_end,
    decreases c_end,
{
    if c_end > 0 {
        lemma_row_mask_count_le(res, r, c_end - 1);
    }
}

proof fn lemma_mask_count_upto_le(res: int, r_end: int)
    requires
        r_end >= 0,
        res >= 0,
    ensures
        mask_count_upto(res, r_end) <= r_end * res,
    decreases r_end,
{
    if r_end > 0 {
        lemma_mask_count_upto_le(res, r_end - 1);
        lemma_row_mask_count_le(res, r_end - 1, res);
        assert((r_end - 1) * res + res == r_end * res) by (nonlinear_arith);
    }
}

/// Whether cell `(row, col)` of a grid with `res` cells per axis is in the mask.
fn cell_in_circle_exec(res: usize, row: usize, col: usize) -> (b: bool)
    requires
        row < res,
        col < res,
        res * res <= DENOM_SQ_MAX,
    ensures
        b == cell_in_circle(res as int, row as int, col as int),
{
    let n = res as i128;
    let dx = 2 * (col as i128) + 1 - n;
    let dy = 2 * (row as i128) + 1 - n;
    proof {
        assert(dx * dx <= n * n) by (nonlinear_arith)
            requires
                -n <= dx <= n,
        ;
        assert(dy * dy <= n * n) by (nonlinear_arith)
            requires
                -n <= dy <= n,
        ;
        assert(dx * dx >= 0 && dy * dy >= 0) by (nonlinear_arith);
    }
    dx * dx + dy * dy <= n * n
}

/// Sum of the first `c_end` counts of row `r` against `bound` per masked cell.
proof fn lemma_row_bound(m: GridModel, r: int, c_end: int, bound: int, upper: bool)
    requires
        m.consistent(),
        0 <= r < m.resolution,
        0 <= c_end <= m.resolution,
        bound >= 0,
        forall|c: int|
            0 <= c < m.resolution && cell_in_circle(m.resolution as int, r, c) ==> if upper {
                #[trigger] m.counts[r][c] <= bound
            } else {
                m.counts[r][c] >= bound
            },
    ensures
        upper ==> row_sum(m.counts[r].take(c_end)) <= row_mask_count(m.resolution as int, r, c_end)
            * bound,
        !upper ==> row_sum(m.counts[r].take(c_end)) >= row_mask_count(m.resolution as int, r, c_end)
            * bound,
        (exists|c: int|
            0 <= c < c_end && cell_in_circle(m.resolution as int, r, c) && #[trigger] m.counts[r][c]
                != bound) ==> row_sum(m.counts[r].take(c_end)) != row_mask_count(
            m.resolution as int,
            r,
            c_end,
        ) * bound,
    decreases c_end,
{
    let res = m.resolution as int;
    if c_end > 0 {
        lemma_row_bound(m, r, c_end - 1, bound, upper);
        let s = m.counts[r].take(c_end);
        assert(s.drop_last() =~= m.counts[r].take(c_end - 1));
        let k = row_mask_count(res, r, c_end - 1);
        assert((k + 1) * bound == k * bound + bound) by (nonlinear_arith);
        let x = m.counts[r][c_end - 1];
        assert(row_sum(s) == row_sum(m.counts[r].take(c_end - 1)) + x);
        if !cell_in_circle(res, r, c_end - 1) {
            assert(x == 0);
            assert(row_mask_count(res, r, c_end) == k);
        } else {
            assert(upper ==> x <= bound);
            assert(!upper ==> x >= bound);
            assert(row_mask_count(res, r, c_end) == k + 1);
        }
        if !upper {
            assert(row_sum(m.counts[r].take(c_end - 1)) >= k * bound);
            assert(row_sum(s) >= row_mask_count(res, r, c_end) * bound);
        }
        if exists|c: int|
            0 <= c < c_end && cell_in_circle(res, r, c) && #[trigger] m.counts[r][c] != bound {
            let c0 = choose|c: int|
                0 <= c < c_end && cell_in_circle(res, r, c) && #[trigger] m.counts[r][c] != bound;
            if c0 < c_end - 1 {
                assert(row_sum(m.counts[r].take(c_end - 1)) != k * bound);
            }
        }
    } else {
        assert(m.counts[r].take(0).len() == 0);
        assert(row_sum(m.counts[r].take(0)) == 0);
        assert(row_mask_count(res, r, 0) == 0);
        assert(row_mask_count(res, r, 0) * bound == 0);
    }
}

/// Sum of the counts of the first `r_end` rows against `bound` per masked cell.
proof fn lemma_grid_bound(m: GridModel, r_end: int, bound: int, upper: bool)
    requires
        m.consistent(),
        0 <= r_end <= m.resolution,
        bound >= 0,
        forall|r: int, c: int|
            0 <= r < m.resolution && 0 <= c < m.resolution && cell_in_circle(
                m.resolution as int,
                r,
                c,
            ) ==> if upper {
                #[trigger] m.counts[r][c] <= bound
            } else {
                m.counts[r][c] >= bound
            },
    ensures
        upper ==> grid_sum(m.counts.take(r_end)) <= mask_count_upto(m.resolution as int, r_end)
            * bound,
        !upper ==> grid_sum(m.counts.take(r_end)) >= mask_count_upto(m.resolution as int, r_end)
            * bound,
        (exists|r: int, c: int|
            0 <= r < r_end && 0 <= c < m.resolution && cell_in_circle(m.resolution as int, r, c)
                && #[trigger] m.counts[r][c] != bound) ==> grid_sum(m.counts.take(r_end))
            != mask_count_upto(m.resolution as int, r_end) * bound,
    decreases r_end,
{
    let res = m.resolution as int;
    if r_end > 0 {
        lemma_grid_bound(m, r_end - 1, bound, upper);
        let r = r_end - 1;
        assert forall|c: int|
            0 <= c < m.resolution && cell_in_circle(res, r, c) implies if upper {
                #[trigger] m.counts[r][c] <= bound
            } else {
                m.counts[r][c] >= bound
            } by {}
        lemma_row_bound(m, r, res, bound, upper);
        assert(m.counts[r].take(res) =~= m.counts[r]);
        assert(m.counts.take(r_end).drop_last() =~= m.counts.take(r_end - 1));
        let a = mask_count_upto(res, r_end - 1);
        let b = row_mask_count(res, r, res);
        assert((a + b) * bound == a * bound + b * bound) by (nonlinear_arith);
        assert(grid_sum(m.counts.take(r_end)) == grid_sum(m.counts.take(r_end - 1)) + row_sum(
            m.counts[r],
        ));
        assert(mask_count_upto(res, r_end) == a + b);
        if exists|r2: int, c: int|
            0 <= r2 < r_end && 0 <= c < m.resolution && cell_in_circle(res, r2, c)
                && #[trigger] m.counts[r2][c] != bound {
            let (r0, c0) = choose|r2: int, c: int|
                0 <= r2 < r_end && 0 <= c < m.resolution && cell_in_circle(res, r2, c)
                    && #[trigger] m.counts[r2][c] != bound;
            if r0 < r_end - 1 {
                assert(grid_sum(m.counts.take(r_end - 1)) != a * bound);
            } else {
                assert(0 <= c0 < res && cell_in_circle(res, r, c0) && m.counts[r][c0] != bound);
            }
        }
    } else {
        assert(m.counts.take(0).len() == 0);
        assert(grid_sum(m.counts.take(0)) == 0);
        assert(mask_count_upto(res, 0) == 0);
        assert(mask_count_upto(res, 0) * bound == 0);
    }
}

/// The numbers that z-scores are built from fit their integer types.
pub open spec fn fits(m: GridModel) -> bool {
    m.total * (m.resolution * m.resolution) <= DENOM_SQ_MAX
}

/// Where some cell has a score, every masked cell has one, all with the same
/// denominator, and numerators ordered as the counts.
proof fn lemma_scores_of_masked(m: GridModel, r1: int, c1: int, r2: int, c2: int)
    requires
        m.consistent(),
        fits(m),
        0 <= r1 < m.resolution,
        0 <= c1 < m.resolution,
        0 <= r2 < m.resolution,
        0 <= c2 < m.resolution,
        m.z_of(r1, c1) is Some,
        cell_in_circle(m.resolution as int, r2, c2),
    ensures
        m.z_of(r2, c2) is Some,
        m.z_of(r2, c2)->0.wf(),
        m.z_of(r1, c1)->0.wf(),
        m.z_of(r2, c2)->0.denom_sq == m.z_of(r1, c1)->0.denom_sq,
        m.z_of(r2, c2)->0.numer == m.counts[r2][c2] * mask_count(m.resolution as int) - m.total,
        m.z_of(r1, c1)->0.numer == m.counts[r1][c1] * mask_count(m.resolution as int) - m.total,
{
    let res = m.resolution as int;
    let n = mask_count(res) as int;
    let t = m.total as int;
    lemma_mask_count_upto_le(res, res);
    lemma_cell_le_total(m, r1, c1);
    lemma_cell_le_total(m, r2, c2);
    let k1 = m.counts[r1][c1] as int;
    let k2 = m.counts[r2][c2] as int;
    assert(k1 * n <= t * (res * res) && k2 * n <= t * (res * res) && n * t <= t * (res * res)
        && k1 * n >= 0 && k2 * n >= 0 && n * t > 0 && t <= t * (res * res)) by (nonlinear_arith)
        requires
            0 <= k1 <= t,
            0 <= k2 <= t,
            0 < n <= res * res,
            t > 0,
            res >= 1,
    ;
    assert(i64::MIN <= k1 * n - t <= i64::MAX);
    assert(i64::MIN <= k2 * n - t <= i64::MAX);
}

/// A score that a grid gives is well formed.
pub proof fn lemma_z_of_wf(m: GridModel, r: int, c: int)
    requires
        m.consistent(),
        fits(m),
        0 <= r < m.resolution,
        0 <= c < m.resolution,
        m.z_of(r, c) is Some,
    ensures
        m.z_of(r, c)->0.wf(),
{
    lemma_scores_of_masked(m, r, c, r, c);
}

/// When the masked cells do not all hold the same count, the highest score
/// is positive and the lowest is negative.
pub proof fn lemma_extreme_sign(m: GridModel, e: Extremum, row: int, col: int)
    requires
        m.consistent(),
        fits(m),
        e != Extremum::FarthestFromZero,
        is_extreme_cell(m, e, row, col),
        !m.is_uniform(),
    ensures
        e == Extremum::Highest ==> m.z_of(row, col)->0.is_positive(),
        e == Extremum::Lowest ==> m.z_of(row, col)->0.is_negative(),
{
    let res = m.resolution as int;
    let n = mask_count(res) as int;
    let t = m.total as int;
    let k = m.counts[row][col] as int;
    let upper = e == Extremum::Highest;
    lemma_scores_of_masked(m, row, col, row, col);
    assert forall|r: int, c: int|
        0 <= r < m.resolution && 0 <= c < m.resolution && cell_in_circle(res, r, c) implies if upper {
            #[trigger] m.counts[r][c] <= k
        } else {
            m.counts[r][c] >= k
        } by {
        lemma_scores_of_masked(m, row, col, r, c);
        let z = m.z_of(r, c)->0;
        let zb = m.z_of(row, col)->0;
        lemma_le_same_denom(z, zb);
        lemma_le_same_denom(zb, z);
        let x = m.counts[r][c] as int;
        if upper {
            assert(x * n - t <= k * n - t);
            assert(x <= k) by (nonlinear_arith)
                requires
                    x * n <= k * n,
                    n > 0,
            ;
        } else {
            assert(k * n - t <= x * n - t);
            assert(k <= x) by (nonlinear_arith)
                requires
                    k * n <= x * n,
                    n > 0,
            ;
        }
    }
    // Some masked cell differs from the extreme one.
    let (r1, c1, r2, c2) = choose|r1: int, c1: int, r2: int, c2: int|
        !(0 <= r1 < m.resolution && 0 <= c1 < m.resolution && 0 <= r2 < m.resolution && 0 <= c2
            < m.resolution && cell_in_circle(res, r1, c1) && cell_in_circle(res, r2, c2)
            ==> #[trigger] m.counts[r1][c1] == #[trigger] m.counts[r2][c2]);
    lemma_grid_bound(m, res, k, upper);
    assert(m.counts.take(res) =~= m.counts);
    if m.counts[r1][c1] != k {
        assert(grid_sum(m.counts) != n * k);
    } else {
        assert(m.counts[r2][c2] != k);
        assert(grid_sum(m.counts) != n * k);
    }
    assert(t == grid_sum(m.counts));
    assert(n * k == k * n) by (nonlinear_arith);
}

/// Adding points never lowers a cell's count.
pub proof fn lemma_counts_grow(m: GridModel, ps: Seq<GridPos>)
    requires
        m.consistent(),
    ensures
        forall|r: int, c: int|
            0 <= r < m.resolution && 0 <= c < m.resolution ==> #[trigger] added(m, ps).counts[r][c]
                >= m.counts[r][c],
    decreases ps.len(),
{
    if ps.len() > 0 {
        lemma_counts_grow(m, ps.drop_last());
        lemma_mass_conservation(m, ps.drop_last());
        let prev = added(m, ps.drop_last());
        assert forall|r: int, c: int|
            0 <= r < m.resolution && 0 <= c < m.resolution implies #[trigger] added(m, ps).counts[r][c]
                >= m.counts[r][c] by {
            assert(prev.counts[r][c] >= m.counts[r][c]);
        }
    }
}

/// A grid of point counts over the bounding box of a circle.
pub struct DensityGrid {
    /// Cells per axis.
    pub resolution: usize,
    /// Point count of each cell, `[row][col]`.
    pub cells: Vec<Vec<usize>>,
    /// Which cells lie within the circle, `[row][col]`.
    pub in_circle: Vec<Vec<bool>>,
    /// Number of points counted.
    pub total_points: usize,
}

impl View for DensityGrid {
    type V = GridModel;

    open spec fn view(&self) -> GridModel {
        GridModel {
            resolution: self.resolution as nat,
            counts: self.cells@.map_values(|row: Vec<usize>| row@.map_values(|x: usize| x as nat)),
            total: self.total_points as nat,
        }
    }
}

impl DensityGrid {
    /// The mask matches the geometry, the counts are consistent, and the
    /// numbers that z-scores are built from fit their integer types.
    pub open spec fn wf(&self) -> bool {
        let res = self.resolution as int;
        &&& self.cells@.len() == res
        &&& self.in_circle@.len() == res
        &&& forall|r: int| 0 <= r < res ==> #[trigger] self.cells@[r]@.len() == res
        &&& forall|r: int| 0 <= r < res ==> #[trigger] self.in_circle@[r]@.len() == res
        &&& forall|r: int, c: int|
            0 <= r < res && 0 <= c < res ==> #[trigger] self.in_circle@[r]@[c] == cell_in_circle(
                res,
                r,
                c,
            )
        &&& self@.consistent()
        &&& res * res <= DENOM_SQ_MAX
        &&& res * res <= usize::MAX
        &&& self.total_points * (res * res) <= DENOM_SQ_MAX
    }

    /// An empty grid with `resolution` cells per axis and its in-circle mask.
    pub fn new(resolution: usize) -> (g: DensityGrid)
        requires
            resolution * resolution <= DENOM_SQ_MAX,
            resolution * resolution <= usize::MAX,
        ensures
            g.wf(),
            g.resolution == resolution,
            g@ == empty_grid(resolution as nat),
    {
        let ghost res = resolution as int;
        let mut in_circle: Vec<Vec<bool>> = Vec::new();
        let mut cells: Vec<Vec<usize>> = Vec::new();
        let mut row: usize = 0;
        while row < resolution
            invariant
                0 <= row <= resolution,
                resolution * resolution <= DENOM_SQ_MAX,
                res == resolution,
                in_circle@.len() == row,
                cells@.len() == row,
                forall|r: int| 0 <= r < row ==> #[trigger] in_circle@[r]@.len() == res,
                forall|r: int| 0 <= r < row ==> #[trigger] cells@[r]@.len() == res,
                forall|r: int, c: int|
                    0 <= r < row && 0 <= c < res ==> #[trigger] in_circle@[r]@[c] == cell_in_circle(
                        res,
                        r,
                        c,
                    ),
                forall|r: int, c: int| 0 <= r < row && 0 <= c < res ==> #[trigger] cells@[r]@[c] == 0,
            decreases resolution - row,
        {
            let mut mask_row: Vec<bool> = Vec::new();
            let mut count_row: Vec<usize> = Vec::new();
            let mut col: usize = 0;
            while col < resolution
                invariant
                    0 <= col <= resolution,
                    resolution * resolution <= DENOM_SQ_MAX,
                    row < resolution,
                    res == resolution,
                    mask_row@.len() == col,
                    count_row@.len() == col,
                    forall|c: int|
                        0 <= c < col ==> #[trigger] mask_row@[c] == cell_in_circle(res, row as int, c),
                    forall|c: int| 0 <= c < col ==> #[trigger] count_row@[c] == 0,
                decreases resolution - col,
            {
                mask_row.push(cell_in_circle_exec(resolution, row, col));
                count_row.push(0);
                col = col + 1;
            }
            in_circle.push(mask_row);
            cells.push(count_row);
            row = row + 1;
        }
        let g = DensityGrid { resolution, cells, in_circle, total_points: 0 };
        proof {
            assert forall|r: int, c: int|
                0 <= r < g@.counts.len() && 0 <= c < g@.counts[r].len() implies #[trigger] g@.counts[r][c]
                == 0 by {
                assert(g.cells@[r]@[c] == 0);
            }
            lemma_zero_sums(g@.counts);
            assert(g@.counts =~~= empty_grid(resolution as nat).counts);
        }
        g
    }

    /// Number of cells within the circle.
    pub fn cells_in_circle(&self) -> (n: usize)
        requires
            self.wf(),
        ensures
            n == mask_count(self.resolution as int),
            n <= self.resolution * self.resolution,
    {
        let res = self.resolution;
        let mut count: usize = 0;
        let mut row: usize = 0;
        while row < res
            invariant
                self.wf(),
                res == self.resolution,
                0 <= row <= res,
                count == mask_count_upto(res as int, row as int),
            decreases res - row,
        {
            proof {
                lemma_mask_count_upto_le(res as int, row as int);
            }
            let mut col: usize = 0;
            while col < res
                invariant
                    self.wf(),
                    res == self.resolution,
                    0 <= row < res,
                    0 <= col <= res,
                    count == mask_count_upto(res as int, row as int) + row_mask_count(
                        res as int,
                        row as int,
                        col as int,
                    ),
                    mask_count_upto(res as int, row as int) <= row * res,
                decreases res - col,
            {
                proof {
                    lemma_row_mask_count_le(res as int, row as int, col as int);
                    assert(row * res + col < res * res) by (nonlinear_arith)
                        requires
                            row < res,
                            col < res,
                    ;
                }
                if self.in_circle[row][col] {
                    count = count + 1;
                }
                col = col + 1;
            }
            row = row + 1;
        }
        proof {
            lemma_mask_count_upto_le(res as int, res as int);
        }
        count
    }

    /// The z-score of every cell, `[row][col]`: see `GridModel::z_of`.
    pub fn calculate_z_scores(&self) -> (scores: Vec<Vec<Option<ZScore>>>)
        requires
            self.wf(),
        ensures
            scores@.len() == self.resolution,
            forall|r: int| 0 <= r < self.resolution ==> #[trigger] scores@[r]@.len() == self.resolution,
            forall|r: int, c: int|
                0 <= r < self.resolution && 0 <= c < self.resolution ==> #[trigger] scores@[r]@[c]
                    == self@.z_of(r, c),
            forall|r: int, c: int|
                0 <= r < self.resolution && 0 <= c < self.resolution && (#[trigger] scores@[r]@[c]) is Some
                    ==> scores@[r]@[c]->0.wf(),
    {
        let res = self.resolution;
        let n = self.cells_in_circle();
        let total = self.total_points;
        let mut scores: Vec<Vec<Option<ZScore>>> = Vec::new();
        let mut row: usize = 0;
        while row < res
            invariant
                self.wf(),
                res == self.resolution,
                n == mask_count(res as int),
                n <= res * res,
                total == self.total_points,
                0 <= row <= res,
                scores@.len() == row,
                forall|r: int| 0 <= r < row ==> #[trigger] scores@[r]@.len() == res,
                forall|r: int, c: int|
                    0 <= r < row && 0 <= c < res ==> #[trigger] scores@[r]@[c] == self@.z_of(r, c),
                forall|r: int, c: int|
                    0 <= r < row && 0 <= c < res && (#[trigger] scores@[r]@[c]) is Some
                        ==> scores@[r]@[c]->0.wf(),
            decreases res - row,
        {
            let mut line: Vec<Option<ZScore>> = Vec::new();
            let mut col: usize = 0;
            while col < res
                invariant
                    self.wf(),
                    res == self.resolution,
                    n == mask_count(res as int),
                    n <= res * res,
                    total == self.total_points,
                    0 <= row < res,
                    0 <= col <= res,
                    line@.len() == col,
                    forall|c: int| 0 <= c < col ==> #[trigger] line@[c] == self@.z_of(row as int, c),
                    forall|c: int| 0 <= c < col && (#[trigger] line@[c]) is Some ==> line@[c]->0.wf(),
                decreases res - col,
            {
                line.push(self.z_at(n, row, col));
                col = col + 1;
            }
            scores.push(line);
            row = row + 1;
        }
        scores
    }

    /// The z-score of one cell, given the number of masked cells.
    fn z_at(&self, n: usize, row: usize, col: usize) -> (z: Option<ZScore>)
        requires
            self.wf(),
            n == mask_count(self.resolution as int),
            n <= self.resolution * self.resolution,
            row < self.resolution,
            col < self.resolution,
        ensures
            z == self@.z_of(row as int, col as int),
            z is Some ==> z->0.wf(),
    {
        let total = self.total_points;
        if n == 0 || total == 0 || !self.in_circle[row][col] {
            None
        } else {
            let count = self.cells[row][col];
            let ghost res = self.resolution as int;
            proof {
                lemma_cell_le_total(self@, row as int, col as int);
                assert(count * n <= total * (res * res)) by (nonlinear_arith)
                    requires
                        count <= total,
                        n <= res * res,
                        count >= 0,
                        n >= 0,
                ;
                assert(n * total <= total * (res * res)) by (nonlinear_arith)
                    requires
                        n <= res * res,
                        total >= 0,
                ;
                assert(n * total > 0) by (nonlinear_arith)
                    requires
                        n > 0,
                        total > 0,
                ;
            }
            let numer = (count as i128) * (n as i128) - (total as i128);
            let denom = (n as u64) * (total as u64);
            Some(ZScore { numer: numer as i64, denom_sq: denom })
        }
    }

    /// Counts each projected point that falls in a masked cell of the grid;
    /// the others are dropped.
    pub fn add_points(&mut self, positions: &[GridPos])
        requires
            old(self).wf(),
            old(self).total_points + positions@.len() <= usize::MAX,
            (old(self).total_points + positions@.len()) * (old(self).resolution
                * old(self).resolution) <= DENOM_SQ_MAX,
        ensures
            final(self).wf(),
            final(self)@ == added(old(self)@, positions@),
            forall|r: int, c: int|
                0 <= r < old(self).resolution && 0 <= c < old(self).resolution
                    ==> #[trigger] final(self)@.counts[r][c] >= old(self)@.counts[r][c],
            final(self).resolution == old(self).resolution,
            final(self).in_circle == old(self).in_circle,
    {
        let res = self.resolution;
        let ghost m0 = self@;
        let ghost t0 = self.total_points as int;
        let ghost len = positions@.len() as int;
        let mut i: usize = 0;
        while i < positions.len()
            invariant
                0 <= i <= positions@.len(),
                len == positions@.len(),
                self.resolution == res,
                self.in_circle == old(self).in_circle,
                m0 == old(self)@,
                m0.consistent(),
                t0 == m0.total,
                t0 + len <= usize::MAX,
                (t0 + len) * (res * res) <= DENOM_SQ_MAX,
                self.cells@.len() == res,
                self.in_circle@.len() == res,
                res * res <= DENOM_SQ_MAX,
                forall|r: int| 0 <= r < res ==> #[trigger] self.cells@[r]@.len() == res,
                forall|r: int| 0 <= r < res ==> #[trigger] self.in_circle@[r]@.len() == res,
                forall|r: int, c: int|
                    0 <= r < res && 0 <= c < res ==> #[trigger] self.in_circle@[r]@[c]
                        == cell_in_circle(res as int, r, c),
                self@ == added(m0, positions@.take(i as int)),
            decreases positions.len() - i,
        {
            let ghost before = self@;
            proof {
                lemma_mass_conservation(m0, positions@.take(i as int));
            }
            let p = positions[i];
            assert(positions@.take(i + 1).drop_last() =~= positions@.take(i as int));
            assert(positions@.take(i + 1).last() == p);
            if p.row >= 0 && p.col >= 0 && (p.row as u64) < (res as u64) && (p.col as u64) < (
            res as u64) {
                let r = p.row as usize;
                let c = p.col as usize;
                if self.in_circle[r][c] {
                    proof {
                        lemma_cell_le_total(before, r as int, c as int);
                        assert(self.total_points as int <= t0 + i);
                        assert(before.counts[r as int][c as int] == self.cells@[r as int]@[c as int]);
                        assert(t0 + len <= (t0 + len) * (res * res)) by (nonlinear_arith)
                            requires
                                t0 + len >= 0,
                                res >= 1,
                        ;
                    }
                    let v = self.cells[r][c] + 1;
                    self.cells[r][c] = v;
                    self.total_points = self.total_points + 1;
                    assert(self@.counts =~~= add_one(before, p).counts);
                } else {
                    assert(!accepts(res as int, p));
                }
            } else {
                assert(!accepts(res as int, p));
            }
            i = i + 1;
        }
        assert(positions@.take(i as int) =~= positions@);
        proof {
            lemma_mass_conservation(m0, positions@);
            lemma_counts_grow(m0, positions@);
            let t = self.total_points as int;
            assert(t * (res * res) <= (t0 + len) * (res * res)) by (nonlinear_arith)
                requires
                    0 <= t <= t0 + len,
            ;
        }
    }
}

/// A cell picked by a search over the grid.
#[derive(Clone, Copy, Debug)]
pub struct CellResult {
    pub row: usize,
    pub col: usize,
    /// Points counted in the cell.
    pub count: usize,
    pub z_score: ZScore,
}

/// Cell `(r1, c1)` comes before `(r2, c2)` when scanning rows, then columns.
pub open spec fn scans_before(r1: int, c1: int, r2: int, c2: int) -> bool {
    r1 < r2 || (r1 == r2 && c1 < c2)
}

/// `(row, col)` is the cell a scan picks as most extreme in direction `e`: it
/// has a score, it ranks at least as high as every scored cell, and strictly
/// higher than every scored cell scanned before it.
pub open spec fn is_extreme_cell(m: GridModel, e: Extremum, row: int, col: int) -> bool {
    let res = m.resolution as int;
    &&& 0 <= row < res
    &&& 0 <= col < res
    &&& m.z_of(row, col) is Some
    &&& forall|r: int, c: int|
        0 <= r < res && 0 <= c < res && (#[trigger] m.z_of(r, c)) is Some ==> ranks_at_least(
            e,
            m.z_of(row, col)->0,
            m.z_of(r, c)->0,
        )
    &&& forall|r: int, c: int|
        0 <= r < res && 0 <= c < res && scans_before(r, c, row, col) && (#[trigger] m.z_of(
            r,
            c,
        )) is Some ==> !ranks_at_least(e, m.z_of(r, c)->0, m.z_of(row, col)->0)
}

/// The scan picks one cell only.
pub proof fn lemma_extreme_cell_unique(m: GridModel, e: Extremum, r1: int, c1: int, r2: int, c2: int)
    requires
        is_extreme_cell(m, e, r1, c1),
        is_extreme_cell(m, e, r2, c2),
    ensures
        r1 == r2 && c1 == c2,
{
    if scans_before(r1, c1, r2, c2) {
        assert(!ranks_at_least(e, m.z_of(r1, c1)->0, m.z_of(r2, c2)->0));
    } else if scans_before(r2, c2, r1, c1) {
        assert(!ranks_at_least(e, m.z_of(r2, c2)->0, m.z_of(r1, c1)->0));
    }
}

/// No cell of the grid has a score.
pub open spec fn has_no_scores(m: GridModel) -> bool {
    forall|r: int, c: int|
        0 <= r < m.resolution && 0 <= c < m.resolution ==> (#[trigger] m.z_of(r, c)) is None
}

/// What a search for the most extreme cell in direction `e` returns.
pub open spec fn extreme_cell_result(m: GridModel, e: Extremum, r: Option<CellResult>) -> bool {
    match r {
        None => has_no_scores(m),
        Some(cell) => {
            &&& is_extreme_cell(m, e, cell.row as int, cell.col as int)
            &&& m.z_of(cell.row as int, cell.col as int) == Some(cell.z_score)
            &&& cell.count == m.counts[cell.row as int][cell.col as int]
        },
    }
}

/// The scored cell that is most extreme in direction `e`; the first one in
/// scan order among equals.
fn find_extreme_cell(grid: &DensityGrid, e: Extremum) -> (r: Option<CellResult>)
    requires
        grid.wf(),
    ensures
        extreme_cell_result(grid@, e, r),
{
    let scores = grid.calculate_z_scores();
    let res = grid.resolution;
    let ghost m = grid@;
    assert forall|r: int, c: int|
        0 <= r < res && 0 <= c < res && (#[trigger] m.z_of(r, c)) is Some implies m.z_of(
            r,
            c,
        )->0.wf() by {
        assert(scores@[r]@[c] == m.z_of(r, c));
    }
    let mut best: Option<CellResult> = None;
    let mut row: usize = 0;
    while row < res
        invariant
            grid.wf(),
            m == grid@,
            res == grid.resolution,
            0 <= row <= res,
            scores@.len() == res,
            forall|r: int| 0 <= r < res ==> #[trigger] scores@[r]@.len() == res,
            forall|r: int, c: int|
                0 <= r < res && 0 <= c < res ==> #[trigger] scores@[r]@[c] == m.z_of(r, c),
            forall|r: int, c: int|
                0 <= r < res && 0 <= c < res && (#[trigger] m.z_of(r, c)) is Some ==> m.z_of(
                    r,
                    c,
                )->0.wf(),
            best_so_far(m, e, best, row as int, 0),
        decreases res - row,
    {
        let mut col: usize = 0;
        while col < res
            invariant
                grid.wf(),
                m == grid@,
                res == grid.resolution,
                0 <= row < res,
                0 <= col <= res,
                scores@.len() == res,
                forall|r: int| 0 <= r < res ==> #[trigger] scores@[r]@.len() == res,
                forall|r: int, c: int|
                    0 <= r < res && 0 <= c < res ==> #[trigger] scores@[r]@[c] == m.z_of(r, c),
                forall|r: int, c: int|
                    0 <= r < res && 0 <= c < res && (#[trigger] m.z_of(r, c)) is Some ==> m.z_of(
                        r,
                        c,
                    )->0.wf(),
                best_so_far(m, e, best, row as int, col as int),
            decreases res - col,
        {
            if let Some(z) = scores[row][col] {
                let dominated = match &best {
                    Some(b) => ranks_at_least_exec(e, &b.z_score, &z),
                    None => false,
                };
                proof {
                    assert(m.z_of(row as int, col as int) == Some(z));
                }
                if !dominated {
                    proof {
                        lemma_ranking_preorder(e, z, z, z);
                        if let Some(b) = best {
                            lemma_ranking_preorder(e, z, b.z_score, z);
                            assert forall|r: int, c: int|
                                0 <= r < res && 0 <= c < res && scans_before(
                                    r,
                                    c,
                                    row as int,
                                    col as int,
                                ) && (#[trigger] m.z_of(r, c)) is Some implies ranks_at_least(
                                e,
                                z,
                                m.z_of(r, c)->0,
                            ) && !ranks_at_least(e, m.z_of(r, c)->0, z) by {
                                let w = m.z_of(r, c)->0;
                                lemma_ranking_preorder(e, z, b.z_score, w);
                                lemma_ranking_preorder(e, b.z_score, w, z);
                            }
                        }
                    }
                    best = Some(CellResult { row, col, count: grid.cells[row][col], z_score: z });
                }
            }
            col = col + 1;
        }
        row = row + 1;
    }
    best
}

/// Invariant of the scan: `best` is the pick among the cells scanned before
/// `(row, col)`.
spec fn best_so_far(m: GridModel, e: Extremum, best: Option<CellResult>, row: int, col: int) -> bool {
    let res = m.resolution as int;
    match best {
        None => forall|r: int, c: int|
            0 <= r < res && 0 <= c < res && scans_before(r, c, row, col) ==> (#[trigger] m.z_of(
                r,
                c,
            )) is None,
        Some(b) => {
            &&& 0 <= b.row < res
            &&& 0 <= b.col < res
            &&& scans_before(b.row as int, b.col as int, row, col)
            &&& m.z_of(b.row as int, b.col as int) == Some(b.z_score)
            &&& b.count == m.counts[b.row as int][b.col as int]
            &&& forall|r: int, c: int|
                0 <= r < res && 0 <= c < res && scans_before(r, c, row, col) && (#[trigger] m.z_of(
                    r,
                    c,
                )) is Some ==> ranks_at_least(e, b.z_score, m.z_of(r, c)->0)
            &&& forall|r: int, c: int|
                0 <= r < res && 0 <= c < res && scans_before(r, c, b.row as int, b.col as int) && (
                #[trigger] m.z_of(r, c)) is Some ==> !ranks_at_least(e, m.z_of(r, c)->0, b.z_score)
        },
    }
}

/// The cell with the highest z-score (densest relative to expectation).
pub fn find_densest_cell(grid: &DensityGrid) -> (r: Option<CellResult>)
    requires
        grid.wf(),
    ensures
        extreme_cell_result(grid@, Extremum::Highest, r),
        !grid@.is_uniform() ==> (r matches Some(cell) ==> cell.z_score.is_positive()),
{
    let r = find_extreme_cell(grid, Extremum::Highest);
    proof {
        if let Some(cell) = r {
            if !grid@.is_uniform() {
                lemma_extreme_sign(grid@, Extremum::Highest, cell.row as int, cell.col as int);
            }
        }
    }
    r
}

/// The cell with the lowest z-score (emptiest relative to expectation).
pub fn find_emptiest_cell(grid: &DensityGrid) -> (r: Option<CellResult>)
    requires
        grid.wf(),
    ensures
        extreme_cell_result(grid@, Extremum::Lowest, r),
        !grid@.is_uniform() ==> (r matches Some(cell) ==> cell.z_score.is_negative()),
{
    let r = find_extreme_cell(grid, Extremum::Lowest);
    proof {
        if let Some(cell) = r {
            if !grid@.is_uniform() {
                lemma_extreme_sign(grid@, Extremum::Lowest, cell.row as int, cell.col as int);
            }
        }
    }
    r
}

/// The cell with the z-score of largest magnitude, with whether that score is
/// positive (an attractor rather than a void).
pub fn find_most_anomalous_cell(grid: &DensityGrid) -> (r: Option<(CellResult, bool)>)
    requires
        grid.wf(),
    ensures
        extreme_cell_result(
            grid@,
            Extremum::FarthestFromZero,
            match r {
                Some(p) => Some(p.0),
                None => None,
            },
        ),
        r matches Some(p) ==> p.1 == p.0.z_score.is_positive(),
{
    match find_extreme_cell(grid, Extremum::FarthestFromZero) {
        Some(cell) => Some((cell, cell.z_score.numer > 0)),
        None => None,
    }
}

} // verus!
