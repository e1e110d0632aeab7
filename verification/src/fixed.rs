//! Fixed-point arithmetic foundation.
//!
//! Fractional quantities (prices, volumes, rates, probabilities, variances)
//! are stored as integer counts of `1 / SCALE` units.  This module holds the
//! scale constants, truncating division and clamping in spec form, an exact
//! integer square root, and widening multiply-divide helpers whose contracts
//! pin the result as a mathematical expression over the inputs.

use vstd::prelude::*;

verus! {

/// Number of fixed-point units per 1.0.
pub const SCALE: u64 = 1_000_000_000;

/// Number of fixed-point units per 0.5.
pub const HALF_SCALE: u64 = 500_000_000;

/// Largest representable price, in SCALE units (one million in real terms).
pub const PRICE_CAP: u64 = 1_000_000_000_000_000;

/// Largest representable per-tick volume, in SCALE units.
pub const VOL_CAP: u64 = 1_000_000_000_000_000;

/// Truncating (round-toward-zero) division; `b` must be positive.
/// This matches what the executable code computes when dividing
/// magnitudes and re-applying the sign.
pub open spec fn div_t(a: int, b: int) -> int {
    if a >= 0 {
        a / b
    } else {
        -((-a) / b)
    }
}

/// `x` clamped into `[lo, hi]`.
pub open spec fn clip(x: int, lo: int, hi: int) -> int {
    if x < lo {
        lo
    } else if x > hi {
        hi
    } else {
        x
    }
}

/// Floor of the real square root of `n`.
pub open spec fn sqrt_floor(n: nat) -> nat
    decreases n,
{
    if n == 0 {
        0
    } else {
        let p = sqrt_floor((n - 1) as nat);
        if (p + 1) * (p + 1) <= n {
            (p + 1) as nat
        } else {
            p
        }
    }
}

/// `sqrt_floor(n)` squares to at most `n`, and the next integer squares
/// to more than `n`.
pub proof fn lemma_sqrt_floor_bounds(n: nat)
    ensures
        sqrt_floor(n) * sqrt_floor(n) <= n,
        n < (sqrt_floor(n) + 1) * (sqrt_floor(n) + 1),
    decreases n,
{
    if n == 0 {
        assert(sqrt_floor(n) == 0);
        assert(n < (sqrt_floor(n) + 1) * (sqrt_floor(n) + 1)) by (nonlinear_arith)
            requires
                n == 0,
                sqrt_floor(n) == 0,
        ;
    } else {
        lemma_sqrt_floor_bounds((n - 1) as nat);
        let p = sqrt_floor((n - 1) as nat);
        assert(p * p <= n - 1);
        assert((n - 1) < (p + 1) * (p + 1));
        assert(sqrt_floor(n) == if (p + 1) * (p + 1) <= n {
            (p + 1) as nat
        } else {
            p
        });
        if (p + 1) * (p + 1) <= n {
            let q = (p + 1) as nat;
            assert(sqrt_floor(n) == q);
            assert(q * q <= n);
            assert(n < (q + 1) * (q + 1)) by (nonlinear_arith)
                requires
                    n <= (p + 1) * (p + 1),
                    q == p + 1,
            ;
            assert(n < (sqrt_floor(n) + 1) * (sqrt_floor(n) + 1));
        } else {
            assert(sqrt_floor(n) == p);
            assert(p * p <= n);
            assert(n < (p + 1) * (p + 1));
            assert(n < (sqrt_floor(n) + 1) * (sqrt_floor(n) + 1));
        }
    }
}

/// Any `r` bracketed by the square-root bounds is `sqrt_floor(n)`.
pub proof fn lemma_sqrt_floor_unique(n: nat, r: nat)
    requires
        r * r <= n,
        n < (r + 1) * (r + 1),
    ensures
        r == sqrt_floor(n),
{
    lemma_sqrt_floor_bounds(n);
    let s = sqrt_floor(n);
    assert(r == s) by (nonlinear_arith)
        requires
            r * r <= n,
            n < (r + 1) * (r + 1),
            s * s <= n,
            n < (s + 1) * (s + 1),
    ;
}

/// Exact integer square root by bisection.
pub fn isqrt_u128(x: u128) -> (r: u64)
    ensures
        r == sqrt_floor(x as nat),
        r * r <= x,
        x < (r + 1) * (r + 1),
{
    let mut lo: u64 = 0;
    let mut hi: u64 = u64::MAX;
    proof {
        assert((hi as int + 1) * (hi as int + 1) > x as int) by (nonlinear_arith)
            requires
                hi == u64::MAX,
                x <= u128::MAX,
        ;
    }
    while lo < hi
        invariant
            lo <= hi,
            (lo as int) * (lo as int) <= x as int,
            (x as int) < (hi as int + 1) * (hi as int + 1),
        decreases hi - lo,
    {
        let mid: u64 = lo + (hi - lo) / 2;
        proof {
            assert((mid as int + 1) * (mid as int + 1) <= u128::MAX) by (nonlinear_arith)
                requires
                    mid < u64::MAX,
            ;
        }
        let cand: u128 = (mid as u128 + 1) * (mid as u128 + 1);
        if cand <= x {
            lo = mid + 1;
        } else {
            hi = mid;
        }
    }
    proof {
        lemma_sqrt_floor_unique(x as nat, lo as nat);
    }
    lo
}

/// Widening multiply-divide on non-negative values: `a * b / d`, exact.
pub fn mdu(a: u64, b: u64, d: u64) -> (r: u64)
    requires
        d > 0,
        a * b / (d as int) <= u64::MAX,
    ensures
        r == a * b / (d as int),
{
    proof {
        assert(a as int * b as int <= u128::MAX) by (nonlinear_arith)
            requires
                a <= u64::MAX,
                b <= u64::MAX,
        ;
    }
    (((a as u128) * (b as u128)) / (d as u128)) as u64
}

/// Widening multiply-divide on signed values with truncation toward zero:
/// `div_t(a * b, d)`, exact.
pub fn mdi(a: i64, b: i64, d: i64) -> (r: i64)
    requires
        d > 0,
        a > i64::MIN,
        b > i64::MIN,
        -(i64::MAX as int) <= div_t(a as int * b as int, d as int) <= i64::MAX,
    ensures
        r == div_t(a as int * b as int, d as int),
{
    let neg: bool = (a < 0) != (b < 0);
    let ma: u64 = if a < 0 { (-a) as u64 } else { a as u64 };
    let mb: u64 = if b < 0 { (-b) as u64 } else { b as u64 };
    proof {
        assert(ma as int * mb as int <= u128::MAX) by (nonlinear_arith)
            requires
                ma <= u64::MAX,
                mb <= u64::MAX,
        ;
        assert(ma as int * mb as int == if (a as int * b as int) >= 0 {
            a as int * b as int
        } else {
            -(a as int * b as int)
        }) by (nonlinear_arith)
            requires
                ma == if a < 0 { -(a as int) } else { a as int },
                mb == if b < 0 { -(b as int) } else { b as int },
        ;
        assert(neg && a as int * b as int >= 0 ==> a as int * b as int == 0) by (nonlinear_arith)
            requires
                neg == ((a < 0) != (b < 0)),
        ;
        assert(!neg ==> a as int * b as int >= 0) by (nonlinear_arith)
            requires
                neg == ((a < 0) != (b < 0)),
        ;
    }
    let q: u128 = ((ma as u128) * (mb as u128)) / (d as u128);
    proof {
        let ab = a as int * b as int;
        if ab >= 0 {
            assert(q == ab / (d as int));
            assert(div_t(ab, d as int) == ab / (d as int));
        } else {
            assert(q == (-ab) / (d as int));
            assert(div_t(ab, d as int) == -((-ab) / (d as int)));
            assert(q > 0 ==> -(q as int) == div_t(ab, d as int));
            assert(q == 0 ==> div_t(ab, d as int) == 0);
        }
        assert(q <= i64::MAX);
    }
    if neg {
        if q == 0 {
            0
        } else {
            -(q as i64)
        }
    } else {
        q as i64
    }
}

/// Sum of a sequence of signed 64-bit values, as a mathematical integer.
pub open spec fn sum_i64(s: Seq<i64>) -> int
    decreases s.len(),
{
    if s.len() == 0 {
        0
    } else {
        sum_i64(s.drop_last()) + s.last()
    }
}

/// Sum of a sequence of unsigned 64-bit values, as a mathematical integer.
pub open spec fn sum_u64(s: Seq<u64>) -> int
    decreases s.len(),
{
    if s.len() == 0 {
        0
    } else {
        sum_u64(s.drop_last()) + s.last()
    }
}

pub proof fn lemma_sum_u64_nonneg(s: Seq<u64>)
    ensures
        sum_u64(s) >= 0,
    decreases s.len(),
{
    if s.len() > 0 {
        lemma_sum_u64_nonneg(s.drop_last());
    }
}

/// Removing the first element subtracts it from the sum.
pub proof fn lemma_sum_i64_drop_first(s: Seq<i64>)
    requires
        s.len() > 0,
    ensures
        sum_i64(s.subrange(1, s.len() as int)) == sum_i64(s) - s[0],
    decreases s.len(),
{
    let t = s.subrange(1, s.len() as int);
    if s.len() == 1 {
        assert(t =~= Seq::<i64>::empty());
        assert(sum_i64(t) == 0);
        assert(sum_i64(s) == sum_i64(s.drop_last()) + s.last());
        assert(s.drop_last() =~= Seq::<i64>::empty());
    } else {
        lemma_sum_i64_drop_first(s.drop_last());
        assert(s.drop_last().subrange(1, s.drop_last().len() as int) =~= t.drop_last());
        assert(t.last() == s.last());
        assert(sum_i64(t) == sum_i64(t.drop_last()) + t.last());
        assert(sum_i64(s) == sum_i64(s.drop_last()) + s.last());
    }
}

/// Appending an element adds it to the sum.
pub proof fn lemma_sum_i64_push(s: Seq<i64>, x: i64)
    ensures
        sum_i64(s.push(x)) == sum_i64(s) + x,
{
    assert(s.push(x).drop_last() =~= s);
    assert(s.push(x).last() == x);
}

/// Appending an element adds it to the sum.
pub proof fn lemma_sum_u64_push(s: Seq<u64>, x: u64)
    ensures
        sum_u64(s.push(x)) == sum_u64(s) + x,
{
    assert(s.push(x).drop_last() =~= s);
    assert(s.push(x).last() == x);
}

/// A sequence of values each at most `cap` sums to at most `len * cap`.
pub proof fn lemma_sum_u64_bounded(s: Seq<u64>, cap: int)
    requires
        forall|i: int| 0 <= i < s.len() ==> #[trigger] s[i] <= cap,
    ensures
        sum_u64(s) <= s.len() * cap,
    decreases s.len(),
{
    if s.len() > 0 {
        lemma_sum_u64_bounded(s.drop_last(), cap);
        assert((s.len() - 1) * cap + cap == s.len() * cap) by (nonlinear_arith);
    }
}

/// A signed sequence pointwise bounded by an unsigned one has its sum
/// bounded by the unsigned sum, on both sides.
pub proof fn lemma_sum_pair_bounds(s: Seq<i64>, a: Seq<u64>)
    requires
        s.len() == a.len(),
        forall|i: int| 0 <= i < s.len() ==> -(a[i] as int) <= #[trigger] s[i] <= a[i],
    ensures
        -sum_u64(a) <= sum_i64(s) <= sum_u64(a),
    decreases s.len(),
{
    if s.len() > 0 {
        lemma_sum_pair_bounds(s.drop_last(), a.drop_last());
    }
}

/// Pointwise-equal signed and unsigned sequences have equal sums.
pub proof fn lemma_sum_pair_eq(s: Seq<i64>, a: Seq<u64>)
    requires
        s.len() == a.len(),
        forall|i: int| 0 <= i < s.len() ==> #[trigger] s[i] == a[i],
    ensures
        sum_i64(s) == sum_u64(a),
    decreases s.len(),
{
    if s.len() > 0 {
        lemma_sum_pair_eq(s.drop_last(), a.drop_last());
    }
}

/// Removing the first element subtracts it from the sum.
pub proof fn lemma_sum_u64_drop_first(s: Seq<u64>)
    requires
        s.len() > 0,
    ensures
        sum_u64(s.subrange(1, s.len() as int)) == sum_u64(s) - s[0],
    decreases s.len(),
{
    let t = s.subrange(1, s.len() as int);
    if s.len() == 1 {
        assert(t =~= Seq::<u64>::empty());
        assert(sum_u64(t) == 0);
        assert(sum_u64(s) == sum_u64(s.drop_last()) + s.last());
        assert(s.drop_last() =~= Seq::<u64>::empty());
    } else {
        lemma_sum_u64_drop_first(s.drop_last());
        assert(s.drop_last().subrange(1, s.drop_last().len() as int) =~= t.drop_last());
        assert(t.last() == s.last());
        assert(sum_u64(t) == sum_u64(t.drop_last()) + t.last());
        assert(sum_u64(s) == sum_u64(s.drop_last()) + s.last());
    }
}

} // verus!
