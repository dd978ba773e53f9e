//! Exact z-scores.
//!
//! A z-score `(observed - expected) / sqrt(expected)` with `expected = total / n`
//! equals `(observed * n - total) / sqrt(n * total)`. It is kept as that
//! integer numerator and the integer under the square root, and compared
//! exactly by cross-multiplying squares.
use vstd::arithmetic::div_mod::lemma_fundamental_div_mod;
use vstd::prelude::*;

verus! {

/// Largest value that the integer under the square root may take.
pub const DENOM_SQ_MAX: u64 = 0x7fff_ffff_ffff_ffff;

/// The real number `numer / sqrt(denom_sq)`.
#[derive(Clone, Copy, Debug, PartialEq, Eq, Structural)]
pub struct ZScore {
    pub numer: i64,
    pub denom_sq: u64,
}

impl ZScore {
    /// The denominator is a positive integer within range.
    pub open spec fn wf(self) -> bool {
        0 < self.denom_sq <= DENOM_SQ_MAX
    }

    /// Squared numerator.
    pub open spec fn numer_sq(self) -> int {
        self.numer * self.numer
    }

    /// `self <= other` as real numbers.
    pub open spec fn spec_le(self, other: ZScore) -> bool {
        if self.numer < 0 && other.numer >= 0 {
            true
        } else if self.numer >= 0 && other.numer < 0 {
            false
        } else if self.numer >= 0 {
            self.numer_sq() * other.denom_sq <= other.numer_sq() * self.denom_sq
        } else {
            other.numer_sq() * self.denom_sq <= self.numer_sq() * other.denom_sq
        }
    }

    /// `|self| <= |other|` as real numbers.
    pub open spec fn spec_abs_le(self, other: ZScore) -> bool {
        self.numer_sq() * other.denom_sq <= other.numer_sq() * self.denom_sq
    }

    /// The score is strictly positive.
    pub open spec fn is_positive(self) -> bool {
        self.numer > 0
    }

    /// The score is strictly negative.
    pub open spec fn is_negative(self) -> bool {
        self.numer < 0
    }

    fn numer_squared(&self) -> (r: u128)
        ensures
            r == self.numer_sq(),
    {
        let n = self.numer as i128;
        proof {
            assert(n * n >= 0) by (nonlinear_arith);
            assert(n * n <= 0x4000_0000_0000_0000_0000_0000_0000_0000) by (nonlinear_arith)
                requires
                    -0x8000_0000_0000_0000 <= n <= 0x7fff_ffff_ffff_ffff,
            ;
        }
        (n * n) as u128
    }

    /// Whether `self <= other` as real numbers.
    pub fn le(&self, other: &ZScore) -> (r: bool)
        requires
            self.wf(),
            other.wf(),
        ensures
            r == self.spec_le(*other),
    {
        if self.numer < 0 && other.numer >= 0 {
            true
        } else if self.numer >= 0 && other.numer < 0 {
            false
        } else if self.numer >= 0 {
            cross_le(self.numer_squared(), self.denom_sq, other.numer_squared(), other.denom_sq)
        } else {
            cross_le(other.numer_squared(), other.denom_sq, self.numer_squared(), self.denom_sq)
        }
    }

    /// Whether `|self| <= |other|` as real numbers.
    pub fn abs_le(&self, other: &ZScore) -> (r: bool)
        requires
            self.wf(),
            other.wf(),
        ensures
            r == self.spec_abs_le(*other),
    {
        cross_le(self.numer_squared(), self.denom_sq, other.numer_squared(), other.denom_sq)
    }
}

/// From `x * q <= y * p` and `y * r <= z * q`, with positive `p, q, r`:
/// `x * r <= z * p`.
proof fn lemma_cross_trans(x: int, p: int, y: int, q: int, z: int, r: int)
    requires
        p > 0,
        q > 0,
        r > 0,
        x * q <= y * p,
        y * r <= z * q,
    ensures
        x * r <= z * p,
{
    assert(x * q * r <= y * p * r) by (nonlinear_arith)
        requires
            x * q <= y * p,
            r > 0,
    ;
    assert(y * r * p <= z * q * p) by (nonlinear_arith)
        requires
            y * r <= z * q,
            p > 0,
    ;
    assert(y * p * r == y * r * p) by (nonlinear_arith);
    assert(q * (x * r) <= q * (z * p)) by (nonlinear_arith)
        requires
            x * q * r <= z * q * p,
    ;
    assert(x * r <= z * p) by (nonlinear_arith)
        requires
            q * (x * r) <= q * (z * p),
            q > 0,
    ;
}

/// Any two scores are ordered one way or the other.
pub proof fn lemma_le_total(a: ZScore, b: ZScore)
    ensures
        a.spec_le(b) || b.spec_le(a),
        a.spec_abs_le(b) || b.spec_abs_le(a),
{
}

/// `<=` on scores is transitive.
pub proof fn lemma_le_trans(a: ZScore, b: ZScore, c: ZScore)
    requires
        a.wf(),
        b.wf(),
        c.wf(),
        a.spec_le(b),
        b.spec_le(c),
    ensures
        a.spec_le(c),
{
    if a.numer >= 0 && b.numer >= 0 && c.numer >= 0 {
        lemma_cross_trans(
            a.numer_sq(),
            a.denom_sq as int,
            b.numer_sq(),
            b.denom_sq as int,
            c.numer_sq(),
            c.denom_sq as int,
        );
    } else if a.numer < 0 && b.numer < 0 && c.numer < 0 {
        lemma_cross_trans(
            c.numer_sq(),
            c.denom_sq as int,
            b.numer_sq(),
            b.denom_sq as int,
            a.numer_sq(),
            a.denom_sq as int,
        );
    }
}

/// `<=` on magnitudes is transitive.
pub proof fn lemma_abs_le_trans(a: ZScore, b: ZScore, c: ZScore)
    requires
        a.wf(),
        b.wf(),
        c.wf(),
        a.spec_abs_le(b),
        b.spec_abs_le(c),
    ensures
        a.spec_abs_le(c),
{
    lemma_cross_trans(
        a.numer_sq(),
        a.denom_sq as int,
        b.numer_sq(),
        b.denom_sq as int,
        c.numer_sq(),
        c.denom_sq as int,
    );
}

/// Scores that share a denominator are ordered as their numerators.
pub proof fn lemma_le_same_denom(a: ZScore, b: ZScore)
    requires
        a.wf(),
        b.wf(),
        a.denom_sq == b.denom_sq,
    ensures
        a.spec_le(b) <==> a.numer <= b.numer,
        a.spec_abs_le(b) <==> a.numer_sq() <= b.numer_sq(),
{
    let d = a.denom_sq as int;
    let x = a.numer_sq();
    let y = b.numer_sq();
    assert(x * d <= y * d <==> x <= y) by (nonlinear_arith)
        requires
            d > 0,
    ;
    assert(y * d <= x * d <==> y <= x) by (nonlinear_arith)
        requires
            d > 0,
    ;
    if a.numer >= 0 && b.numer >= 0 {
        lemma_sq_mono(a.numer as int, b.numer as int);
        lemma_sq_mono(b.numer as int, a.numer as int);
    } else if a.numer < 0 && b.numer < 0 {
        lemma_sq_mono(-b.numer, -a.numer);
        lemma_sq_mono(-a.numer, -b.numer);
        assert((-a.numer) * (-a.numer) == x) by (nonlinear_arith)
            requires
                x == a.numer * a.numer,
        ;
        assert((-b.numer) * (-b.numer) == y) by (nonlinear_arith)
            requires
                y == b.numer * b.numer,
        ;
    }
}

proof fn lemma_sq_mono(m: int, n: int)
    requires
        0 <= m,
        0 <= n,
    ensures
        m <= n ==> m * m <= n * n,
        m < n ==> m * m < n * n,
{
    if m <= n {
        assert(m * m <= m * n) by (nonlinear_arith)
            requires
                0 <= m <= n,
        ;
        assert(m * n <= n * n) by (nonlinear_arith)
            requires
                0 <= m <= n,
        ;
    }
    if m < n {
        assert(m * m <= m * n) by (nonlinear_arith)
            requires
                0 <= m < n,
        ;
        assert(m * n < n * n) by (nonlinear_arith)
            requires
                0 <= m < n,
        ;
    }
}

/// Which way a score is extreme.
#[derive(Clone, Copy, Debug, PartialEq, Eq, Structural)]
pub enum Extremum {
    /// The largest score.
    Highest,
    /// The smallest score.
    Lowest,
    /// The score of largest magnitude.
    FarthestFromZero,
}

/// `a` is at least as extreme as `b` in the direction `e`.
pub open spec fn ranks_at_least(e: Extremum, a: ZScore, b: ZScore) -> bool {
    match e {
        Extremum::Highest => b.spec_le(a),
        Extremum::Lowest => a.spec_le(b),
        Extremum::FarthestFromZero => b.spec_abs_le(a),
    }
}

/// Whether `a` is at least as extreme as `b` in the direction `e`.
pub fn ranks_at_least_exec(e: Extremum, a: &ZScore, b: &ZScore) -> (r: bool)
    requires
        a.wf(),
        b.wf(),
    ensures
        r == ranks_at_least(e, *a, *b),
{
    match e {
        Extremum::Highest => b.le(a),
        Extremum::Lowest => a.le(b),
        Extremum::FarthestFromZero => b.abs_le(a),
    }
}

/// The ranking is a total preorder: reflexive, total and transitive.
pub proof fn lemma_ranking_preorder(e: Extremum, a: ZScore, b: ZScore, c: ZScore)
    requires
        a.wf(),
        b.wf(),
        c.wf(),
    ensures
        ranks_at_least(e, a, a),
        ranks_at_least(e, a, b) || ranks_at_least(e, b, a),
        ranks_at_least(e, a, b) && ranks_at_least(e, b, c) ==> ranks_at_least(e, a, c),
{
    lemma_le_total(a, b);
    match e {
        Extremum::Highest => {
            if b.spec_le(a) && c.spec_le(b) {
                lemma_le_trans(c, b, a);
            }
        },
        Extremum::Lowest => {
            if a.spec_le(b) && b.spec_le(c) {
                lemma_le_trans(a, b, c);
            }
        },
        Extremum::FarthestFromZero => {
            if b.spec_abs_le(a) && c.spec_abs_le(b) {
                lemma_abs_le_trans(c, b, a);
            }
        },
    }
}

/// Whether `x * d <= y * b`, without forming either product.
fn cross_le(x: u128, b: u64, y: u128, d: u64) -> (r: bool)
    requires
        b > 0,
        d > 0,
    ensures
        r == (x * d <= y * b),
{
    let bb = b as u128;
    let dd = d as u128;
    let qa = x / bb;
    let ra = x % bb;
    let qc = y / dd;
    let rc = y % dd;
    let ghost xi: int = x as int;
    let ghost yi: int = y as int;
    let ghost bi: int = b as int;
    let ghost di: int = d as int;
    let ghost qai: int = qa as int;
    let ghost qci: int = qc as int;
    let ghost rai: int = ra as int;
    let ghost rci: int = rc as int;
    proof {
        lemma_fundamental_div_mod(xi, bi);
        lemma_fundamental_div_mod(yi, di);
        assert(xi == qai * bi + rai && 0 <= rai < bi) by (nonlinear_arith)
            requires
                xi == bi * (xi / bi) + xi % bi,
                qai == xi / bi,
                rai == xi % bi,
                bi > 0,
        ;
        assert(yi == qci * di + rci && 0 <= rci < di) by (nonlinear_arith)
            requires
                yi == di * (yi / di) + yi % di,
                qci == yi / di,
                rci == yi % di,
                di > 0,
        ;
        assert(xi * di - yi * bi == (qai - qci) * bi * di + rai * di - rci * bi) by (nonlinear_arith)
            requires
                xi == qai * bi + rai,
                yi == qci * di + rci,
        ;
        assert(rai * di < bi * di) by (nonlinear_arith)
            requires
                0 <= rai < bi,
                di > 0,
        ;
        assert(rci * bi < di * bi) by (nonlinear_arith)
            requires
                0 <= rci < di,
                bi > 0,
        ;
        assert(rai * di >= 0 && rci * bi >= 0) by (nonlinear_arith)
            requires
                rai >= 0,
                rci >= 0,
                bi > 0,
                di > 0,
        ;
        assert(rai * di <= 0xffff_ffff_ffff_ffff * 0xffff_ffff_ffff_ffff) by (nonlinear_arith)
            requires
                0 <= rai < bi,
                bi <= 0xffff_ffff_ffff_ffff,
                0 < di <= 0xffff_ffff_ffff_ffff,
        ;
        assert(rci * bi <= 0xffff_ffff_ffff_ffff * 0xffff_ffff_ffff_ffff) by (nonlinear_arith)
            requires
                0 <= rci < di,
                di <= 0xffff_ffff_ffff_ffff,
                0 < bi <= 0xffff_ffff_ffff_ffff,
        ;
        if qai < qci {
            assert((qai - qci) * bi * di <= -(bi * di)) by (nonlinear_arith)
                requires
                    qai < qci,
                    bi > 0,
                    di > 0,
            ;
        } else if qai > qci {
            assert((qai - qci) * bi * di >= bi * di) by (nonlinear_arith)
                requires
                    qai > qci,
                    bi > 0,
                    di > 0,
            ;
        } else {
            assert((qai - qci) * bi * di == 0) by (nonlinear_arith)
                requires
                    qai == qci,
            ;
        }
    }
    if qa != qc {
        qa < qc
    } else {
        ra * dd <= rc * bb
    }
}

} // verus!
