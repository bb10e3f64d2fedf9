//! Fixed-point scalars.
//!
//! A scalar holds its real value multiplied by `SCALE`, so `SCALE` itself is
//! the number one and resolution is `1 / SCALE`.  Multiplication and division
//! rescale with truncating (round-toward-zero) integer division, the same
//! rounding the machine's signed division performs.

use vstd::prelude::*;

verus! {

use vstd::arithmetic::div_mod::lemma_div_is_ordered;
use vstd::arithmetic::div_mod::lemma_div_pos_is_pos;
use vstd::arithmetic::div_mod::lemma_div_nonincreasing;
use vstd::arithmetic::div_mod::lemma_div_is_ordered_by_denominator;
use vstd::arithmetic::div_mod::lemma_fundamental_div_mod;
use vstd::arithmetic::div_mod::lemma_mod_bound;
use vstd::arithmetic::div_mod::lemma_div_multiples_vanish;

/// The fixed-point unit: scalars hold their value times `SCALE` (2^20).
pub const SCALE: i128 = 1048576;

/// Truncating (round-toward-zero) quotient, the rounding of signed machine
/// division.  Meaningful only for `b != 0`.
pub open spec fn tdiv(a: int, b: int) -> int {
    if b >= 0 {
        if a >= 0 {
            a / b
        } else {
            -((-a) / b)
        }
    } else {
        if a >= 0 {
            -(a / (-b))
        } else {
            (-a) / (-b)
        }
    }
}

/// The fixed-point product: `a * b` rescaled by `SCALE`.
pub open spec fn fmuls(a: int, b: int) -> int {
    tdiv(a * b, SCALE as int)
}

/// The fixed-point quotient: `a / b` kept at scale, rounded toward zero.
pub open spec fn fdivs(a: int, b: int) -> int {
    tdiv(a * SCALE, b)
}

/// Floor of the square root, as picked out by its characterization.
/// `lemma_sqrt_floor` shows the characterization has exactly one solution
/// for nonnegative arguments, so `choose` denotes that solution.
pub open spec fn sqrt_floor(x: int) -> int {
    choose|r: int| 0 <= r && #[trigger] (r * r) <= x && x < (r + 1) * (r + 1)
}

/// The fixed-point square root: scale the argument up once, then take the
/// integer square root, which leaves the result at scale.
pub open spec fn fsqrts(x: int) -> int {
    sqrt_floor(x * SCALE)
}

/// Any two solutions of the square-root characterization are equal.
proof fn lemma_sqrt_unique(x: int, r1: int, r2: int) by (nonlinear_arith)
    requires
        0 <= r1 && r1 * r1 <= x < (r1 + 1) * (r1 + 1),
        0 <= r2 && r2 * r2 <= x < (r2 + 1) * (r2 + 1),
    ensures
        r1 == r2,
{
}

/// `sqrt_floor(x)` really is the unique `r` with `r^2 <= x < (r+1)^2`,
/// given one witness for it.
pub proof fn lemma_sqrt_floor(x: int, r: int)
    requires
        0 <= r,
        r * r <= x < (r + 1) * (r + 1),
    ensures
        sqrt_floor(x) == r,
{
    assert(0 <= r && r * r <= x < (r + 1) * (r + 1));
    let w = sqrt_floor(x);
    assert(0 <= w && w * w <= x < (w + 1) * (w + 1));
    lemma_sqrt_unique(x, w, r);
}

/// A product is bounded by the product of the bounds.
pub proof fn lemma_mul_bound(a: int, b: int, x: int, y: int) by (nonlinear_arith)
    requires
        -x <= a <= x,
        -y <= b <= y,
    ensures
        -(x * y) <= a * b <= x * y,
        0 <= x * y,
        (0 <= a && 0 <= b) ==> 0 <= a * b,
{
}

/// A truncating quotient lands within one divisor of the exact quotient.
pub proof fn lemma_tdiv_close(a: int, b: int)
    requires
        1 <= b,
    ensures
        a - b < b * tdiv(a, b) < a + b,
{
    if a >= 0 {
        lemma_fundamental_div_mod(a, b);
        lemma_mod_bound(a, b);
    } else {
        lemma_fundamental_div_mod(-a, b);
        lemma_mod_bound(-a, b);
        assert(b * -((-a) / b) == -(b * ((-a) / b))) by (nonlinear_arith);
    }
}

/// A truncating quotient by a positive divisor is bounded by the quotient of
/// the bounds, which in turn never exceeds the dividend's bound.
pub proof fn lemma_tdiv_bound(a: int, b: int, m: int)
    requires
        1 <= b,
        -m <= a <= m,
    ensures
        -(m / b) <= tdiv(a, b) <= m / b,
        0 <= m / b <= m,
{
    if a >= 0 {
        lemma_div_is_ordered(a, m, b);
        lemma_div_pos_is_pos(a, b);
    } else {
        lemma_div_is_ordered(-a, m, b);
        lemma_div_pos_is_pos(-a, b);
    }
    lemma_div_pos_is_pos(m, b);
    lemma_div_nonincreasing(m, b);
}

/// Dividing an exact multiple truncates nothing.
pub proof fn lemma_tdiv_exact(a: int, b: int)
    requires
        1 <= b,
    ensures
        tdiv(a * b, b) == a,
{
    if a >= 0 {
        assert(a * b == b * a) by (nonlinear_arith);
        assert(0 <= a * b) by (nonlinear_arith)
            requires 0 <= a && 1 <= b,
        ;
        lemma_div_multiples_vanish(a, b);
    } else {
        assert(-(a * b) == b * (-a)) by (nonlinear_arith);
        assert(a * b < 0) by (nonlinear_arith)
            requires a < 0 && 1 <= b,
        ;
        lemma_div_multiples_vanish(-a, b);
    }
}

/// Multiplying by the fixed-point unit is the identity.
pub proof fn lemma_fmuls_one(a: int)
    ensures
        fmuls(a, SCALE as int) == a,
{
    lemma_tdiv_exact(a, SCALE as int);
}

/// A fixed-point quotient of a numerator no larger in magnitude than its
/// positive denominator stays within the unit.
pub proof fn lemma_fdivs_ratio_bound(a: int, b: int)
    requires
        0 < b,
        -b <= a <= b,
    ensures
        -(SCALE as int) <= fdivs(a, b) <= SCALE as int,
{
    assert(-(b * SCALE) <= a * SCALE <= b * SCALE) by (nonlinear_arith)
        requires
            0 < b,
            -b <= a <= b,
            SCALE == 1048576,
    ;
    lemma_tdiv_bound(a * SCALE, b, b * SCALE);
    lemma_div_multiples_vanish(SCALE as int, b);
}

/// A nonnegative fixed-point quotient moves oppositely to its denominator.
pub proof fn lemma_fdivs_den_range(a: int, b: int, bl: int, bh: int)
    requires
        0 <= a,
        1 <= bl <= b <= bh,
    ensures
        a * SCALE / bh <= fdivs(a, b) <= a * SCALE / bl,
        0 <= fdivs(a, b),
{
    assert(0 <= a * SCALE) by (nonlinear_arith)
        requires 0 <= a && SCALE == 1048576,
    ;
    lemma_div_is_ordered_by_denominator(a * SCALE, bl, b);
    lemma_div_is_ordered_by_denominator(a * SCALE, b, bh);
    lemma_div_pos_is_pos(a * SCALE, b);
}

/// A square root exists for every nonnegative argument.
proof fn lemma_sqrt_exists(x: int)
    requires
        0 <= x,
    ensures
        exists|r: int| 0 <= r && #[trigger] (r * r) <= x && x < (r + 1) * (r + 1),
    decreases x,
{
    if x == 0 {
        let r0: int = 0;
        assert(r0 * r0 == 0) by (nonlinear_arith)
            requires r0 == 0,
        ;
        assert((r0 + 1) * (r0 + 1) == 1) by (nonlinear_arith)
            requires r0 == 0,
        ;
        assert(0 <= r0 && r0 * r0 <= x && x < (r0 + 1) * (r0 + 1));
    } else {
        lemma_sqrt_exists(x - 1);
        let r0 = choose|r: int| 0 <= r && #[trigger] (r * r) <= x - 1 && x - 1 < (r + 1) * (r + 1);
        if x < (r0 + 1) * (r0 + 1) {
            assert(0 <= r0 && r0 * r0 <= x && x < (r0 + 1) * (r0 + 1));
        } else {
            assert((r0 + 1) * (r0 + 1) <= x < (r0 + 2) * (r0 + 2)) by (nonlinear_arith)
                requires
                    0 <= r0,
                    x - 1 < (r0 + 1) * (r0 + 1),
                    (r0 + 1) * (r0 + 1) <= x,
            ;
            assert(0 <= r0 + 1 && (r0 + 1) * (r0 + 1) <= x && x < (r0 + 1 + 1) * (r0 + 1 + 1));
        }
    }
}

/// `sqrt_floor` satisfies its characterization.
pub proof fn lemma_sqrt_floor_charac(x: int)
    requires
        0 <= x,
    ensures
        0 <= sqrt_floor(x),
        sqrt_floor(x) * sqrt_floor(x) <= x,
        x < (sqrt_floor(x) + 1) * (sqrt_floor(x) + 1),
{
    lemma_sqrt_exists(x);
}

/// The integer square root never decreases.
pub proof fn lemma_sqrt_monotone(x: int, y: int)
    requires
        0 <= x <= y,
    ensures
        sqrt_floor(x) <= sqrt_floor(y),
{
    lemma_sqrt_floor_charac(x);
    lemma_sqrt_floor_charac(y);
    let rx = sqrt_floor(x);
    let ry = sqrt_floor(y);
    if rx > ry {
        assert((ry + 1) * (ry + 1) <= rx * rx) by (nonlinear_arith)
            requires 0 <= ry && ry + 1 <= rx,
        ;
    }
}

/// Anything whose square fits below the argument bounds the root from below.
pub proof fn lemma_sqrt_lower(x: int, c: int)
    requires
        0 <= c,
        c * c <= x,
    ensures
        c <= sqrt_floor(x),
{
    lemma_sqrt_floor_charac(x);
    let r = sqrt_floor(x);
    if r < c {
        assert(c * c <= x ==> !(x < (r + 1) * (r + 1)) || !(r < c) || !(0 <= r)) by (nonlinear_arith)
            requires
                0 <= c,
                c * c <= x,
                0 <= r,
                r < c,
                x < (r + 1) * (r + 1),
        ;
    }
}

/// Anything whose successor squares above the argument bounds the root
/// from above.
pub proof fn lemma_sqrt_upper(x: int, c: int)
    requires
        0 <= x,
        0 <= c,
        x < (c + 1) * (c + 1),
    ensures
        sqrt_floor(x) <= c,
{
    lemma_sqrt_floor_charac(x);
    let r = sqrt_floor(x);
    if r > c {
        assert((c + 1) * (c + 1) <= r * r) by (nonlinear_arith)
            requires 0 <= c && c + 1 <= r,
        ;
    }
}

/// Fixed-point multiplication.
pub fn fmul(a: i128, b: i128) -> (r: i128)
    requires
        -(i128::MAX as int) <= a * b <= i128::MAX as int,
    ensures
        r == fmuls(a as int, b as int),
{
    (a * b) / SCALE
}

/// Fixed-point division.  The divisor's sign is split off by hand so that
/// the machine division below always sees a positive divisor.
pub fn fdiv(a: i128, b: i128) -> (r: i128)
    requires
        b != 0,
        -(i128::MAX as int) <= b,
        -(i128::MAX as int) <= a * SCALE <= i128::MAX as int,
    ensures
        r == fdivs(a as int, b as int),
{
    let n = a * SCALE;
    if b > 0 {
        n / b
    } else {
        -(n / (-b))
    }
}

/// Integer square root (floor), by bisection on the answer.
pub fn isqrt(x: i128) -> (r: i128)
    requires
        0 <= x,
    ensures
        r == sqrt_floor(x as int),
        0 <= r,
        r * r <= x < (r + 1) * (r + 1),
{
    let xu: u128 = x as u128;
    let mut lo: u128 = 0;
    let mut hi: u128 = 18446744073709551615;
    proof {
        assert(xu < hi * hi) by (nonlinear_arith)
            requires
                xu <= i128::MAX,
                hi == 18446744073709551615u128,
        ;
    }
    while hi - lo > 1
        invariant
            lo < hi,
            hi <= 18446744073709551615,
            lo * lo <= xu,
            xu < hi * hi,
        decreases hi - lo,
    {
        let mid: u128 = lo + (hi - lo) / 2;
        proof {
            assert(mid * mid <= u128::MAX) by (nonlinear_arith)
                requires
                    mid <= 18446744073709551615u128,
            ;
        }
        if mid * mid <= xu {
            lo = mid;
        } else {
            hi = mid;
        }
    }
    proof {
        assert(lo * lo <= xu < (lo + 1) * (lo + 1));
        assert(lo < 0x1_0000_0000_0000_0000);
        lemma_sqrt_floor(x as int, lo as int);
    }
    lo as i128
}

/// Fixed-point square root.
pub fn fsqrt(x: i128) -> (r: i128)
    requires
        0 <= x,
        x * SCALE <= i128::MAX as int,
    ensures
        r == fsqrts(x as int),
        0 <= r,
{
    isqrt(x * SCALE)
}

} // verus!
