//! Exact fixed-point arithmetic: an `i64` counts units of `1/SCALE`.
//!
//! The spec-level model of every operation is plain integer arithmetic
//! with floor division, so contracts elsewhere in the crate can state
//! results exactly.

use vstd::prelude::*;
use vstd::arithmetic::div_mod::{
    lemma_div_is_ordered, lemma_div_is_strictly_smaller, lemma_div_multiples_vanish,
    lemma_div_pos_is_pos, lemma_fundamental_div_mod, lemma_fundamental_div_mod_converse_div,
    lemma_mod_division_less_than_divisor,
};

verus! {

/// One whole unit: a fixed-point value `q` stands for the real number `q / SCALE`.
pub const SCALE: i64 = 1_000_000;

/// One half, in fixed-point units.
pub const HALF: i64 = 500_000;

/// Largest magnitude allowed for a coordinate, a radius or a ray
/// parameter bound; keeps every intermediate product inside `i64`/`i128`.
pub const COORD_LIMIT: i64 = 500_000_000_000;

/// Magnitude limit on the operands of a single vector operation
/// (twice `COORD_LIMIT`, so differences of coordinates still qualify).
pub const WIDE_LIMIT: i64 = 1_000_000_000_000;

/// Magnitude bound that a dot product of `WIDE_LIMIT`-bounded vectors
/// never exceeds.
pub const DOT_BOUND: i64 = 3_000_000_000_000_000_000;

/// Magnitude limit on the operands of a sum or difference of
/// components; twice this value still fits an `i64`.
pub const HUGE_LIMIT: i64 = 4_000_000_000_000_000_000;

/// Product of two magnitudes bounds the product of the values.
pub proof fn lemma_mul_abs_bound(a: int, b: int, ma: int, mb: int)
    by (nonlinear_arith)
    requires
        -ma <= a <= ma,
        -mb <= b <= mb,
        0 <= ma,
        0 <= mb,
    ensures
        -(ma * mb) <= a * b <= ma * mb,
{
}

/// Fixed-point product: multiply and scale back down, rounding toward
/// negative infinity.
pub open spec fn smul(a: int, b: int) -> int {
    (a * b) / (SCALE as int)
}

/// Fixed-point quotient `a / d`: scale up then floor-divide.
pub open spec fn sdiv(a: int, d: int) -> int {
    (a * (SCALE as int)) / d
}

/// Clamp `x` into `[lo, hi]`.
pub open spec fn clip(x: int, lo: int, hi: int) -> int {
    if x < lo {
        lo
    } else if x > hi {
        hi
    } else {
        x
    }
}

/// Largest `r` with `r * r <= n` (0 for negative input).
pub open spec fn sqrt_floor(n: int) -> int
    decreases n,
{
    if n <= 0 {
        0
    } else {
        let p = sqrt_floor(n - 1);
        if (p + 1) * (p + 1) <= n {
            p + 1
        } else {
            p
        }
    }
}

pub proof fn lemma_sqrt_floor_bounds(n: int)
    requires
        0 <= n,
    ensures
        0 <= sqrt_floor(n),
        sqrt_floor(n) * sqrt_floor(n) <= n,
        n < (sqrt_floor(n) + 1) * (sqrt_floor(n) + 1),
    decreases n,
{
    if n == 0 {
        assert(sqrt_floor(0) == 0);
    } else {
        lemma_sqrt_floor_bounds(n - 1);
        let p = sqrt_floor(n - 1);
        if (p + 1) * (p + 1) <= n {
            assert((p + 2) * (p + 2) > (p + 1) * (p + 1)) by (nonlinear_arith)
                requires 0 <= p;
            assert(n - 1 < (p + 1) * (p + 1));
        }
    }
}

pub proof fn lemma_sqrt_floor_unique(n: int, s: int)
    requires
        0 <= n,
        0 <= s,
        s * s <= n,
        n < (s + 1) * (s + 1),
    ensures
        s == sqrt_floor(n),
{
    lemma_sqrt_floor_bounds(n);
    let r = sqrt_floor(n);
    if s < r {
        assert((s + 1) * (s + 1) <= r * r) by (nonlinear_arith)
            requires 0 <= s, s + 1 <= r;
        assert(false);
    }
    if r < s {
        assert((r + 1) * (r + 1) <= s * s) by (nonlinear_arith)
            requires 0 <= r, r + 1 <= s;
        assert(false);
    }
}

/// `smul` stays within `[-m, m]` whenever the raw product does, scaled.
pub proof fn lemma_smul_bounded(a: int, b: int, m: int)
    requires
        0 <= m,
        -(m * (SCALE as int)) <= a * b <= m * (SCALE as int),
    ensures
        -m <= smul(a, b) <= m,
{
    let s = SCALE as int;
    lemma_div_is_ordered(a * b, m * s, s);
    lemma_div_is_ordered(-(m * s), a * b, s);
    assert(m * s == s * m) by (nonlinear_arith);
    assert(-(m * s) == s * (-m)) by (nonlinear_arith);
    lemma_div_multiples_vanish(m, s);
    lemma_div_multiples_vanish(-m, s);
}

/// Scaling by one whole unit changes nothing.
pub proof fn lemma_smul_unit_factor(t: int)
    ensures
        smul(t, SCALE as int) == t,
{
    let s = SCALE as int;
    assert(t * s == s * t) by (nonlinear_arith);
    lemma_div_multiples_vanish(t, s);
}

/// Scaling a nonnegative value by a factor in `[0, 1]` keeps it in
/// `[0, value]`.
pub proof fn lemma_smul_in_unit(t: int, b: int)
    requires
        0 <= t,
        0 <= b <= SCALE,
    ensures
        0 <= smul(t, b) <= t,
{
    let s = SCALE as int;
    assert(0 <= t * b <= t * s) by (nonlinear_arith)
        requires 0 <= t, 0 <= b <= s;
    lemma_div_pos_is_pos(t * b, s);
    lemma_div_is_ordered(t * b, t * s, s);
    lemma_smul_unit_factor(t);
}

/// A fixed-point square is never negative.
pub proof fn lemma_smul_square_nonneg(a: int)
    ensures
        0 <= smul(a, a),
{
    assert(0 <= a * a) by (nonlinear_arith);
    lemma_div_pos_is_pos(a * a, SCALE as int);
}

/// Floor division (round toward negative infinity) by a positive
/// divisor, matching spec-level `/` exactly.
pub fn floor_div_i128(a: i128, b: i128) -> (q: i128)
    requires
        0 < b,
        i128::MIN < a,
    ensures
        q == a as int / b as int,
{
    let d = a / b;
    let m = a % b;
    if a < 0 && m != 0 {
        proof {
            let na = -(a as int);
            let qq = na / (b as int);
            let r = na % (b as int);
            lemma_fundamental_div_mod(na, b as int);
            lemma_mod_division_less_than_divisor(na, b as int);
            assert(r != 0);
            assert(a as int == (-qq - 1) * (b as int) + (b as int - r)) by (nonlinear_arith)
                requires na == (b as int) * qq + r, a as int == -na;
            lemma_fundamental_div_mod_converse_div(
                a as int, b as int, -qq - 1, b as int - r);
            lemma_div_pos_is_pos(na, b as int);
        }
        d - 1
    } else {
        proof {
            if a >= 0 {
                assert(d == a as int / b as int);
            } else {
                let na = -(a as int);
                let qq = na / (b as int);
                lemma_fundamental_div_mod(na, b as int);
                lemma_mod_division_less_than_divisor(na, b as int);
                assert(na % (b as int) == 0);
                assert(a as int == (-qq) * (b as int) + 0) by (nonlinear_arith)
                    requires na == (b as int) * qq + 0, a as int == -na;
                lemma_fundamental_div_mod_converse_div(a as int, b as int, -qq, 0);
            }
        }
        d
    }
}

/// Fixed-point multiplication, exact with respect to `smul`.
pub fn fix_mul(a: i64, b: i64) -> (r: i64)
    requires
        -(i64::MAX as int) * (SCALE as int) <= (a as int) * (b as int),
        (a as int) * (b as int) <= (i64::MAX as int) * (SCALE as int),
    ensures
        r == smul(a as int, b as int),
{
    let p: i128 = (a as i128) * (b as i128);
    let q = floor_div_i128(p, SCALE as i128);
    proof {
        lemma_smul_bounded(a as int, b as int, i64::MAX as int);
    }
    q as i64
}

/// Largest `r` with `r * r <= n`, by binary search.
pub fn isqrt_i128(n: i128) -> (r: i128)
    requires
        0 <= n,
        n < 0x40000000000000000000000000000000,
    ensures
        r == sqrt_floor(n as int),
        0 <= r,
        r * r <= n,
        n < (r + 1) * (r + 1),
{
    let mut lo: i128 = 0;
    let mut hi: i128 = 0x8000000000000000;
    proof {
        assert((0x8000000000000000i128 as int) * (0x8000000000000000i128 as int)
            == 0x40000000000000000000000000000000int) by (nonlinear_arith);
    }
    while lo + 1 < hi
        invariant
            0 <= lo < hi <= 0x8000000000000000i128,
            (lo as int) * (lo as int) <= n as int,
            (n as int) < (hi as int) * (hi as int),
        decreases hi - lo,
    {
        let gap = hi - lo;
        let mid = lo + gap / 2;
        proof {
            lemma_div_is_ordered(2, gap as int, 2);
            lemma_div_is_strictly_smaller(gap as int, 2);
            assert(lo < mid < hi);
            assert((mid as int) * (mid as int) < 0x40000000000000000000000000000000int)
                by (nonlinear_arith)
                requires 0 <= mid as int, mid as int <= 0x7fffffffffffffffi128 as int;
        }
        let sq = mid * mid;
        if sq <= n {
            lo = mid;
        } else {
            hi = mid;
        }
    }
    proof {
        lemma_sqrt_floor_unique(n as int, lo as int);
    }
    lo
}

/// Clamp an extended intermediate value into an `i64` interval.
pub fn clamp_wide(x: i128, lo: i64, hi: i64) -> (r: i64)
    requires
        lo <= hi,
    ensures
        r as int == clip(x as int, lo as int, hi as int),
{
    if x < lo as i128 {
        lo
    } else if x > hi as i128 {
        hi
    } else {
        x as i64
    }
}

} // verus!
