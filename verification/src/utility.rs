//! Random scalar draws.
//!
//! The renderer's only source of randomness is the thread-local generator of
//! the `rand` crate, reached through the single trusted wrapper below.  No
//! contract pins which value comes back — only its range — so everything
//! proved downstream holds for every draw.

use vstd::prelude::*;

verus! {

use crate::fixed::SCALE;
use crate::fixed::fmul;
use crate::fixed::fmuls;
use crate::fixed::lemma_mul_bound;
use crate::fixed::lemma_tdiv_bound;
use vstd::arithmetic::div_mod::lemma_div_pos_is_pos;

/// A uniform fixed-point scalar in `[0, 1)`.
///
/// Relies on `rand::random_range`: a draw from the thread-local generator,
/// uniformly distributed within the given half-open range, which panics only
/// when the range is empty (this one never is).
#[verifier::external_body]
pub fn random_scalar() -> (r: i128)
    ensures
        0 <= r < SCALE,
{
    rand::random_range(0..SCALE)
}

/// A uniform fixed-point scalar in `[min, max)`, computed as
/// `min + (max - min) * u` for a unit draw `u`, as wide as the resolution
/// allows; an empty range returns `min` itself.
pub fn random_scalar_range(min: i128, max: i128) -> (r: i128)
    requires
        min <= max,
        -(VRAND_MAX as int) <= min <= VRAND_MAX as int,
        -(VRAND_MAX as int) <= max <= VRAND_MAX as int,
    ensures
        min <= r,
        min < max ==> r < max,
        min == max ==> r == min,
        exists|u: int| 0 <= u < SCALE && r == min + #[trigger] fmuls(max - min, u),
{
    let u = random_scalar();
    let d = max - min;
    proof {
        lemma_mul_bound(d as int, u as int, 2 * VRAND_MAX, SCALE as int);
        lemma_div_pos_is_pos(d * u, SCALE as int);
        if d == 0 {
            assert(d * u == 0) by (nonlinear_arith)
                requires d == 0,
            ;
        }
        if d > 0 {
            lemma_mul_bound(d as int, (SCALE - 1) as int - u, 2 * VRAND_MAX, SCALE as int);
            assert(d * u <= d * SCALE - d) by (nonlinear_arith)
                requires
                    0 < d,
                    u <= SCALE - 1,
            ;
            assert((d * SCALE - d) / (SCALE as int) <= d - 1) by (nonlinear_arith)
                requires
                    0 < d,
                    SCALE == 1048576,
            ;
            lemma_tdiv_bound(d * u, SCALE as int, d * SCALE - d);
        }
    }
    min + fmul(d, u)
}

/// Componentwise bound on the arguments of the ranged random draws.
pub const VRAND_MAX: i128 = 1099511627776;

} // verus!
