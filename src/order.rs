//! Comparing similarity scores, and reading them as scaled integers.
//!
//! For positive `m` and `n`, `x / sqrt(m) > y / sqrt(n)` holds exactly when
//! `x * |x| * n > y * |y| * m`, since `v ↦ v * |v|` is strictly increasing.
//! That lets scores be compared without leaving the integers.

use vstd::prelude::*;
use crate::similarity::Similarity;

verus! {

impl Similarity {
    /// `net * |net|` of a numeric score.
    pub open spec fn signed_square(self) -> int {
        match self {
            Similarity::Numeric { net, .. } => if net >= 0 {
                net * net
            } else {
                -(net * net)
            },
            Similarity::Incomparable => 0,
        }
    }

    /// The norm of a numeric score.
    pub open spec fn norm_of(self) -> int {
        match self {
            Similarity::Numeric { norm, .. } => norm as int,
            Similarity::Incomparable => 0,
        }
    }

    /// `self` is a strictly higher score than `other`. Every numeric score
    /// is higher than `Incomparable`; two `Incomparable` scores tie.
    pub open spec fn spec_ranks_above(self, other: Similarity) -> bool {
        match (self, other) {
            (Similarity::Numeric { .. }, Similarity::Numeric { .. }) => self.signed_square()
                * other.norm_of() > other.signed_square() * self.norm_of(),
            (Similarity::Numeric { .. }, Similarity::Incomparable) => true,
            (Similarity::Incomparable, _) => false,
        }
    }

    /// Whether `self` is a strictly higher score than `other`.
    pub fn ranks_above(&self, other: &Similarity) -> (r: bool)
        requires
            self.wf(),
            other.wf(),
        ensures
            r == self.spec_ranks_above(*other),
    {
        match (*self, *other) {
            (Similarity::Numeric { net: x, norm: m }, Similarity::Numeric { net: y, norm: n }) => {
                assert(0 <= x * x <= 0x1_0000_0000 && 0 <= y * y <= 0x1_0000_0000) by (nonlinear_arith)
                    requires
                        x * x <= m <= 0x1_0000_0000,
                        y * y <= n <= 0x1_0000_0000,
                ;
                let xx: i128 = x as i128 * x as i128;
                let yy: i128 = y as i128 * y as i128;
                let sx: i128 = if x >= 0 {
                    xx
                } else {
                    -xx
                };
                let sy: i128 = if y >= 0 {
                    yy
                } else {
                    -yy
                };
                assert(-0x1_0000_0000 <= sx <= 0x1_0000_0000);
                assert(-0x1_0000_0000 <= sy <= 0x1_0000_0000);
                assert(-0x1_0000_0000_0000_0000 <= sx * n <= 0x1_0000_0000_0000_0000)
                    by (nonlinear_arith)
                    requires
                        -0x1_0000_0000 <= sx <= 0x1_0000_0000,
                        0 <= n <= 0x1_0000_0000,
                ;
                assert(-0x1_0000_0000_0000_0000 <= sy * m <= 0x1_0000_0000_0000_0000)
                    by (nonlinear_arith)
                    requires
                        -0x1_0000_0000 <= sy <= 0x1_0000_0000,
                        0 <= m <= 0x1_0000_0000,
                ;
                sx * (n as i128) > sy * (m as i128)
            },
            (Similarity::Numeric { .. }, Similarity::Incomparable) => true,
            (Similarity::Incomparable, _) => false,
        }
    }
}

/// No score ranks above itself, and of two scores at most one ranks above
/// the other.
pub proof fn lemma_ranks_above_asymmetric(a: Similarity, b: Similarity)
    ensures
        !a.spec_ranks_above(a),
        a.spec_ranks_above(b) ==> !b.spec_ranks_above(a),
{
}

/// If `a` ranks above `c`, then every `b` ranks below `a` or above `c`.
pub proof fn lemma_ranks_above_split(a: Similarity, b: Similarity, c: Similarity)
    requires
        a.wf(),
        b.wf(),
        c.wf(),
        a.spec_ranks_above(c),
    ensures
        a.spec_ranks_above(b) || b.spec_ranks_above(c),
{
    if let (Similarity::Numeric { .. }, Similarity::Numeric { .. }, Similarity::Numeric { .. }) = (
        a,
        b,
        c,
    ) {
        let (sa, sb, sc) = (a.signed_square(), b.signed_square(), c.signed_square());
        let (na, nb, nc) = (a.norm_of(), b.norm_of(), c.norm_of());
        assert(sa * nb > sb * na || sb * nc > sc * nb) by (nonlinear_arith)
            requires
                na > 0,
                nb > 0,
                nc > 0,
                sa * nc > sc * na,
        {
            if sa * nb <= sb * na && sb * nc <= sc * nb {
                assert(sa * nb * nc <= sb * na * nc);
                assert(sb * nc * na <= sc * nb * na);
                assert(sa * nc * nb <= sc * na * nb);
                assert(sa * nc * nb > sc * na * nb);
            }
        }
    }
}

/// Ranking above is transitive.
pub proof fn lemma_ranks_above_transitive(a: Similarity, b: Similarity, c: Similarity)
    requires
        a.wf(),
        b.wf(),
        c.wf(),
        a.spec_ranks_above(b),
        b.spec_ranks_above(c),
    ensures
        a.spec_ranks_above(c),
{
    lemma_ranks_above_split(a, c, b);
}

/// `|t| = floor(10000 * |net| / sqrt(norm))`, with the sign of `net`: the
/// score times 10000, truncated toward zero.
pub open spec fn is_scaled(net: int, norm: int, t: int) -> bool {
    let a = if t >= 0 {
        t
    } else {
        -t
    };
    &&& net > 0 ==> t >= 0
    &&& net < 0 ==> t <= 0
    &&& a * a * norm <= net * net * 100_000_000
    &&& net * net * 100_000_000 < (a + 1) * (a + 1) * norm
}

impl Similarity {
    /// The score times 10000, truncated toward zero; `None` for
    /// `Incomparable`.
    pub fn scaled(&self) -> (r: Option<i64>)
        requires
            self.wf(),
        ensures
            match *self {
                Similarity::Numeric { net, norm } => r matches Some(t) && is_scaled(
                    net as int,
                    norm as int,
                    t as int,
                ),
                Similarity::Incomparable => r is None,
            },
    {
        match *self {
            Similarity::Incomparable => None,
            Similarity::Numeric { net, norm } => {
                let mag: u128 = if net >= 0 {
                    net as u128
                } else {
                    (-(net as i128)) as u128
                };
                assert(mag * mag == net * net && mag * mag <= 0x1_0000_0000) by (nonlinear_arith)
                    requires
                        mag == net || mag == -net,
                        net * net <= norm <= 0x1_0000_0000,
                ;
                let target: u128 = mag * mag * 100_000_000;
                let n = norm as u128;
                assert(target <= n * 100_000_000);
                assert(0 * 0 * n == 0) by (nonlinear_arith);
                assert(10001 * 10001 * n > target) by (nonlinear_arith)
                    requires
                        target <= n * 100_000_000,
                        n > 0,
                ;
                let mut lo: u128 = 0;
                let mut hi: u128 = 10001;
                while lo + 1 < hi
                    invariant
                        lo < hi <= 10001,
                        n > 0,
                        n <= 0x1_0000_0000,
                        lo * lo * n <= target,
                        target < hi * hi * n,
                    decreases hi - lo,
                {
                    let mid = lo + (hi - lo) / 2;
                    assert(mid * mid * n <= 10001 * 10001 * 0x1_0000_0000) by (nonlinear_arith)
                        requires
                            mid <= 10001,
                            n <= 0x1_0000_0000,
                    ;
                    assert(mid * mid <= 10001 * 10001) by (nonlinear_arith)
                        requires
                            mid <= 10001,
                    ;
                    if mid * mid * n <= target {
                        lo = mid;
                    } else {
                        hi = mid;
                    }
                }
                assert(hi == lo + 1);
                let t: i64 = if net >= 0 {
                    lo as i64
                } else {
                    -(lo as i64)
                };
                Some(t)
            },
        }
    }
}

} // verus!
