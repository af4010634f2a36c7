use vstd::prelude::*;

verus! {

use vstd::math::abs;
use vstd::arithmetic::div_mod::{
    lemma_div_is_ordered,
    lemma_div_multiples_vanish,
    lemma_div_pos_is_pos,
};
use vstd::arithmetic::mul::lemma_mul_is_commutative;

/// Fixed-point scale: every position, velocity, distance, force value and
/// force parameter in this crate is an integer count of thousandths of a
/// world unit.
pub const SCALE: i64 = 1000;

/// Quotient of `n / d` rounded toward zero, as the executable code computes
/// it; the divisions in every contract of this crate are stated with it.
pub open spec fn tdiv(n: int, d: int) -> int {
    if n >= 0 {
        n / d
    } else {
        -((-n) / d)
    }
}

/// Largest non-negative integer whose square does not exceed `n`.
pub open spec fn sqrt_floor(n: int) -> int
    decreases n,
{
    if n < 1 {
        0
    } else {
        let s = sqrt_floor(n - 1);
        if (s + 1) * (s + 1) <= n {
            s + 1
        } else {
            s
        }
    }
}

/// `sqrt_floor` is what its name says: its square is at most `n` and the
/// next square is beyond `n`.
pub proof fn lemma_sqrt_floor(n: int)
    requires
        n >= 0,
    ensures
        0 <= sqrt_floor(n),
        sqrt_floor(n) * sqrt_floor(n) <= n,
        n < (sqrt_floor(n) + 1) * (sqrt_floor(n) + 1),
    decreases n,
{
    if n < 1 {
    } else {
        lemma_sqrt_floor(n - 1);
        let s = sqrt_floor(n - 1);
        if (s + 1) * (s + 1) <= n {
            assert(n < (s + 2) * (s + 2)) by (nonlinear_arith)
                requires
                    0 <= s,
                    n <= (s + 1) * (s + 1),
            ;
        }
    }
}

/// Any integer in the `sqrt_floor` window equals `sqrt_floor(n)`.
pub proof fn lemma_sqrt_floor_unique(n: int, r: int)
    requires
        0 <= r,
        r * r <= n,
        n < (r + 1) * (r + 1),
    ensures
        r == sqrt_floor(n),
{
    assert(r * r >= 0) by (nonlinear_arith);
    lemma_sqrt_floor(n);
    let s = sqrt_floor(n);
    if r < s {
        assert((r + 1) * (r + 1) <= s * s) by (nonlinear_arith)
            requires
                0 <= r,
                r < s,
        ;
    } else if s < r {
        assert((s + 1) * (s + 1) <= r * r) by (nonlinear_arith)
            requires
                0 <= s,
                s < r,
        ;
    }
}

/// Integer square root by binary search on the root.
pub fn isqrt(n: u64) -> (r: u64)
    requires
        n < 0x4000_0000_0000_0000,
    ensures
        r == sqrt_floor(n as int),
        r * r <= n,
        (n as int) < (r + 1) * (r + 1),
{
    let mut lo: u64 = 0;
    let mut hi: u64 = 0x8000_0000;
    proof {
        assert((n as int) < (0x8000_0000int + 1) * (0x8000_0000int + 1)) by (nonlinear_arith)
            requires
                n < 0x4000_0000_0000_0000,
        ;
    }
    while lo < hi
        invariant
            lo <= hi <= 0x8000_0000,
            lo * lo <= n,
            (n as int) < (hi + 1) * (hi + 1),
        decreases hi - lo,
    {
        let mid: u64 = lo + (hi - lo + 1) / 2;
        proof {
            assert(mid * mid <= 0x8000_0000int * 0x8000_0000int) by (nonlinear_arith)
                requires
                    0 <= mid <= 0x8000_0000,
            ;
        }
        if mid * mid <= n {
            lo = mid;
        } else {
            hi = mid - 1;
        }
    }
    proof {
        lemma_sqrt_floor_unique(n as int, lo as int);
    }
    lo
}

/// A truncating quotient keeps its numerator's sign.
pub proof fn lemma_tdiv_sign(n: int, d: int)
    requires
        0 < d,
    ensures
        n <= 0 ==> tdiv(n, d) <= 0,
        n >= 0 ==> tdiv(n, d) >= 0,
{
    if n >= 0 {
        lemma_div_pos_is_pos(n, d);
    } else {
        lemma_div_pos_is_pos(-n, d);
    }
}

/// A truncating quotient is bounded by any bound on the numerator's
/// magnitude in units of the divisor.
pub proof fn lemma_tdiv_magnitude(n: int, d: int, bound: int)
    requires
        0 < d,
        0 <= bound,
        -(bound * d) <= n <= bound * d,
    ensures
        -bound <= tdiv(n, d) <= bound,
        (abs(n) as int) / d <= bound,
{
    lemma_mul_is_commutative(bound, d);
    lemma_div_multiples_vanish(bound, d);
    if n >= 0 {
        lemma_div_pos_is_pos(n, d);
        lemma_div_is_ordered(n, bound * d, d);
    } else {
        lemma_div_pos_is_pos(-n, d);
        lemma_div_is_ordered(-n, bound * d, d);
    }
}

/// `a * b / d` with the quotient rounded toward zero, computed through
/// unsigned 128-bit intermediates so that no step overflows.
pub fn mul_div(a: i64, b: i64, d: u64) -> (r: i64)
    requires
        d > 0,
        a != i64::MIN,
        b != i64::MIN,
        (abs(a * b) as int) / (d as int) <= i64::MAX as int,
    ensures
        r == tdiv(a * b, d as int),
{
    let am: u64 = if a >= 0 {
        a as u64
    } else {
        (-a) as u64
    };
    let bm: u64 = if b >= 0 {
        b as u64
    } else {
        (-b) as u64
    };
    proof {
        assert((am as int) * (bm as int) <= (u64::MAX as int) * (u64::MAX as int))
            by (nonlinear_arith)
            requires
                0 <= am <= u64::MAX,
                0 <= bm <= u64::MAX,
        ;
        if a >= 0 && b >= 0 {
            assert((a as int) * (b as int) == (am as int) * (bm as int));
        } else if a < 0 && b >= 0 {
            assert((a as int) * (b as int) == -((am as int) * (bm as int))) by (nonlinear_arith)
                requires
                    am as int == -(a as int),
                    bm as int == b as int,
            ;
        } else if a >= 0 && b < 0 {
            assert((a as int) * (b as int) == -((am as int) * (bm as int))) by (nonlinear_arith)
                requires
                    am as int == a as int,
                    bm as int == -(b as int),
            ;
        } else {
            assert((a as int) * (b as int) == (am as int) * (bm as int)) by (nonlinear_arith)
                requires
                    am as int == -(a as int),
                    bm as int == -(b as int),
            ;
        }
        assert((am as int) * (bm as int) >= 0) by (nonlinear_arith)
            requires
                0 <= am,
                0 <= bm,
        ;
    }
    let q: u128 = (am as u128) * (bm as u128) / (d as u128);
    let qi: i64 = q as i64;
    if (a >= 0) == (b >= 0) {
        qi
    } else {
        -qi
    }
}

} // verus!
