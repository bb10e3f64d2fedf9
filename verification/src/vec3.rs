//! Three-component vectors over fixed-point scalars.
//!
//! `Vec3` carries the executable components; its view is the ghost `Vec3s`
//! with unbounded integer components, over which all contracts are stated.

use vstd::prelude::*;

verus! {

use crate::fixed::SCALE;
use crate::fixed::tdiv;
use crate::fixed::fmuls;
use crate::fixed::fdivs;
use crate::fixed::fsqrts;
use crate::fixed::fmul;
use crate::fixed::fdiv;
use crate::fixed::fsqrt;
use crate::fixed::lemma_mul_bound;
use crate::fixed::lemma_tdiv_bound;
use crate::fixed::lemma_sqrt_floor_charac;
use crate::fixed::lemma_sqrt_lower;
use crate::fixed::lemma_sqrt_upper;
use crate::fixed::lemma_sqrt_floor;
use crate::fixed::lemma_fmuls_one;
use crate::fixed::lemma_tdiv_exact;
use crate::utility::random_scalar;
use crate::utility::random_scalar_range;
use vstd::arithmetic::div_mod::lemma_fundamental_div_mod;
use vstd::arithmetic::div_mod::lemma_div_pos_is_pos;
use vstd::arithmetic::div_mod::lemma_div_multiples_vanish;

/// Componentwise bound on the inputs of the general vector operations.
pub const VOP_MAX: i128 = 4611686018427387904;

/// Componentwise bound on the inputs of `length` and `unit_vector`.
pub const LEN_MAX: i128 = 35184372088832;

/// Componentwise bound on the near-unit inputs of `reflect` and `refract`.
pub const SMALL_MAX: i128 = 8 * SCALE;

/// The mathematical model of a vector: three unbounded integers, each a
/// fixed-point scalar.
pub ghost struct Vec3s {
    pub x: int,
    pub y: int,
    pub z: int,
}

/// A point in space; the same representation used as a position.
pub type Point3 = Vec3;

#[derive(Clone, Copy, PartialEq, Eq, Structural, Debug)]
pub struct Vec3 {
    pub x: i128,
    pub y: i128,
    pub z: i128,
}

impl View for Vec3 {
    type V = Vec3s;

    open spec fn view(&self) -> Vec3s {
        Vec3s { x: self.x as int, y: self.y as int, z: self.z as int }
    }
}

impl Default for Vec3 {
    /// The origin vector.
    fn default() -> (r: Vec3)
        ensures
            r@ == (Vec3s { x: 0, y: 0, z: 0 }),
    {
        Vec3 { x: 0, y: 0, z: 0 }
    }
}

/// Every component lies in `[-m, m]`.
pub open spec fn bounded(v: Vec3s, m: int) -> bool {
    &&& -m <= v.x <= m
    &&& -m <= v.y <= m
    &&& -m <= v.z <= m
}

pub open spec fn s_add(a: Vec3s, b: Vec3s) -> Vec3s {
    Vec3s { x: a.x + b.x, y: a.y + b.y, z: a.z + b.z }
}

pub open spec fn s_sub(a: Vec3s, b: Vec3s) -> Vec3s {
    Vec3s { x: a.x - b.x, y: a.y - b.y, z: a.z - b.z }
}

pub open spec fn s_neg(a: Vec3s) -> Vec3s {
    Vec3s { x: -a.x, y: -a.y, z: -a.z }
}

/// Componentwise fixed-point product.
pub open spec fn s_mul(a: Vec3s, b: Vec3s) -> Vec3s {
    Vec3s { x: fmuls(a.x, b.x), y: fmuls(a.y, b.y), z: fmuls(a.z, b.z) }
}

/// Scaling by a fixed-point scalar.
pub open spec fn s_scale(a: Vec3s, s: int) -> Vec3s {
    Vec3s { x: fmuls(a.x, s), y: fmuls(a.y, s), z: fmuls(a.z, s) }
}

/// Scaling by a plain integer count, exact.
pub open spec fn s_scale_int(a: Vec3s, k: int) -> Vec3s {
    Vec3s { x: a.x * k, y: a.y * k, z: a.z * k }
}

/// Division by a plain positive integer count.
pub open spec fn s_div_int(a: Vec3s, k: int) -> Vec3s {
    Vec3s { x: tdiv(a.x, k), y: tdiv(a.y, k), z: tdiv(a.z, k) }
}

/// Division by a fixed-point scalar.
pub open spec fn s_div_scale(a: Vec3s, s: int) -> Vec3s {
    Vec3s { x: fdivs(a.x, s), y: fdivs(a.y, s), z: fdivs(a.z, s) }
}

/// The dot product: the three exact component products are summed first and
/// rescaled once at the end.
pub open spec fn s_dot(a: Vec3s, b: Vec3s) -> int {
    tdiv(a.x * b.x + a.y * b.y + a.z * b.z, SCALE as int)
}

pub open spec fn s_cross(a: Vec3s, b: Vec3s) -> Vec3s {
    Vec3s {
        x: fmuls(a.y, b.z) - fmuls(a.z, b.y),
        y: fmuls(a.z, b.x) - fmuls(a.x, b.z),
        z: fmuls(a.x, b.y) - fmuls(a.y, b.x),
    }
}

pub open spec fn s_len_sq(a: Vec3s) -> int {
    s_dot(a, a)
}

pub open spec fn s_len(a: Vec3s) -> int {
    fsqrts(s_len_sq(a))
}

/// Division of each component by the vector's length.
pub open spec fn s_unit(a: Vec3s) -> Vec3s {
    Vec3s {
        x: fdivs(a.x, s_len(a)),
        y: fdivs(a.y, s_len(a)),
        z: fdivs(a.z, s_len(a)),
    }
}

/// The smallest representable magnitude threshold rounds to zero, so a
/// vector is near zero exactly when every component is zero.
pub open spec fn s_near_zero(a: Vec3s) -> bool {
    a.x == 0 && a.y == 0 && a.z == 0
}

/// Mirror reflection about a surface normal.
pub open spec fn s_reflect(v: Vec3s, n: Vec3s) -> Vec3s {
    s_sub(v, s_scale(n, 2 * s_dot(v, n)))
}

/// Snell refraction of the unit vector `uv` at a surface with unit normal
/// `n`, for the given ratio of refractive indices.
pub open spec fn s_refract(uv: Vec3s, n: Vec3s, ratio: int) -> Vec3s {
    let cos_theta = if s_dot(s_neg(uv), n) <= SCALE { s_dot(s_neg(uv), n) } else { SCALE as int };
    let r_out_perp = s_scale(s_add(uv, s_scale(n, cos_theta)), ratio);
    let back = SCALE - s_len_sq(r_out_perp);
    let back_abs = if back >= 0 { back } else { -back };
    let r_out_parallel = s_scale(n, -fsqrts(back_abs));
    s_add(r_out_perp, r_out_parallel)
}

/// A dot product of componentwise-bounded vectors is bounded.
pub proof fn lemma_dot_bound(a: Vec3s, b: Vec3s, m1: int, m2: int)
    requires
        bounded(a, m1),
        bounded(b, m2),
        0 <= m1,
        0 <= m2,
    ensures
        -(3 * m1 * m2 / (SCALE as int)) <= s_dot(a, b) <= 3 * m1 * m2 / (SCALE as int),
        0 <= 3 * m1 * m2 / (SCALE as int) <= 3 * m1 * m2,
{
    lemma_mul_bound(a.x, b.x, m1, m2);
    lemma_mul_bound(a.y, b.y, m1, m2);
    lemma_mul_bound(a.z, b.z, m1, m2);
    assert(3 * m1 * m2 == m1 * m2 + m1 * m2 + m1 * m2) by (nonlinear_arith);
    lemma_tdiv_bound(a.x * b.x + a.y * b.y + a.z * b.z, SCALE as int, 3 * m1 * m2);
}

/// Scaling bounded components by a bounded scalar stays bounded.
pub proof fn lemma_scale_bounded(a: Vec3s, s: int, m1: int, m2: int)
    requires
        bounded(a, m1),
        -m2 <= s <= m2,
        0 <= m1,
        0 <= m2,
    ensures
        bounded(s_scale(a, s), m1 * m2 / (SCALE as int)),
{
    lemma_mul_bound(a.x, s, m1, m2);
    lemma_mul_bound(a.y, s, m1, m2);
    lemma_mul_bound(a.z, s, m1, m2);
    lemma_tdiv_bound(a.x * s, SCALE as int, m1 * m2);
    lemma_tdiv_bound(a.y * s, SCALE as int, m1 * m2);
    lemma_tdiv_bound(a.z * s, SCALE as int, m1 * m2);
}

/// A cross product of bounded vectors is bounded.
pub proof fn lemma_cross_bounded(a: Vec3s, b: Vec3s, m1: int, m2: int)
    requires
        bounded(a, m1),
        bounded(b, m2),
        0 <= m1,
        0 <= m2,
    ensures
        bounded(s_cross(a, b), 2 * (m1 * m2 / (SCALE as int))),
{
    lemma_mul_bound(a.x, b.y, m1, m2);
    lemma_mul_bound(a.x, b.z, m1, m2);
    lemma_mul_bound(a.y, b.x, m1, m2);
    lemma_mul_bound(a.y, b.z, m1, m2);
    lemma_mul_bound(a.z, b.x, m1, m2);
    lemma_mul_bound(a.z, b.y, m1, m2);
    lemma_tdiv_bound(a.x * b.y, SCALE as int, m1 * m2);
    lemma_tdiv_bound(a.x * b.z, SCALE as int, m1 * m2);
    lemma_tdiv_bound(a.y * b.x, SCALE as int, m1 * m2);
    lemma_tdiv_bound(a.y * b.z, SCALE as int, m1 * m2);
    lemma_tdiv_bound(a.z * b.x, SCALE as int, m1 * m2);
    lemma_tdiv_bound(a.z * b.y, SCALE as int, m1 * m2);
}

/// Dividing bounded components by a positive count stays bounded.
pub proof fn lemma_div_int_bounded(a: Vec3s, k: int, m: int)
    requires
        bounded(a, m),
        1 <= k,
        0 <= m,
    ensures
        bounded(s_div_int(a, k), m),
{
    lemma_tdiv_bound(a.x, k, m);
    lemma_tdiv_bound(a.y, k, m);
    lemma_tdiv_bound(a.z, k, m);
}

/// A squared length is never negative.
pub proof fn lemma_len_sq_nonneg(a: Vec3s)
    ensures
        0 <= s_len_sq(a),
{
    assert(0 <= a.x * a.x) by (nonlinear_arith);
    assert(0 <= a.y * a.y) by (nonlinear_arith);
    assert(0 <= a.z * a.z) by (nonlinear_arith);
    lemma_div_pos_is_pos(a.x * a.x + a.y * a.y + a.z * a.z, SCALE as int);
}

/// A normalized vector of length at least one resolution step has
/// components within twice the fixed-point unit.
pub proof fn lemma_unit_bounded(v: Vec3s)
    requires
        bounded(v, LEN_MAX as int),
        1 <= s_len_sq(v),
    ensures
        1024 <= s_len(v),
        bounded(s_unit(v), 2 * SCALE),
{
    let q = v.x * v.x + v.y * v.y + v.z * v.z;
    let ls = s_len_sq(v);
    lemma_len_sq_nonneg(v);
    assert(0 <= v.x * v.x && 0 <= v.y * v.y && 0 <= v.z * v.z) by (nonlinear_arith);
    lemma_fundamental_div_mod(q, SCALE as int);
    assert(ls * SCALE > q - SCALE);
    assert(SCALE <= ls * SCALE) by (nonlinear_arith)
        requires 1 <= ls,
    ;
    let len = s_len(v);
    lemma_sqrt_floor_charac(ls * SCALE);
    lemma_sqrt_lower(ls * SCALE, 1024);
    assert(1024 * 1024 == SCALE) by (nonlinear_arith);
    lemma_unit_component(v.x, q, ls, len);
    lemma_unit_component(v.y, q, ls, len);
    lemma_unit_component(v.z, q, ls, len);
}

/// One component of a normalization stays within twice the unit.
proof fn lemma_unit_component(c: int, q: int, ls: int, len: int)
    requires
        c * c <= q,
        ls * SCALE > q - SCALE,
        len * len <= ls * SCALE < (len + 1) * (len + 1),
        1024 <= len,
    ensures
        -(2 * SCALE) <= fdivs(c, len) <= 2 * SCALE,
{
    assert(-(2 * len) <= c <= 2 * len) by (nonlinear_arith)
        requires
            c * c <= q,
            ls * SCALE > q - SCALE,
            ls * SCALE < (len + 1) * (len + 1),
            1024 <= len,
            SCALE == 1048576,
    ;
    assert(-(2 * len * SCALE) <= c * SCALE <= 2 * len * SCALE) by (nonlinear_arith)
        requires
            -(2 * len) <= c <= 2 * len,
            1 <= len,
            SCALE == 1048576,
    ;
    lemma_tdiv_bound(c * SCALE, len, 2 * len * SCALE);
    assert(2 * len * SCALE == len * (2 * SCALE)) by (nonlinear_arith);
    lemma_div_multiples_vanish(2 * SCALE, len);
}

/// Refraction at matched refractive indices leaves a ray undeviated: with a
/// ratio of one and the surface struck head on, the refracted direction is
/// exactly the incoming unit direction.  Away from head-on incidence the
/// fixed-point rounding can move the result by a few resolution steps, so
/// exactness is stated for the head-on case.
pub proof fn lemma_refract_head_on(uv: Vec3s)
    requires
        s_len_sq(uv) == SCALE,
    ensures
        s_refract(uv, s_neg(uv), SCALE as int) == uv,
{
    let n = s_neg(uv);
    assert((-uv.x) * (-uv.x) == uv.x * uv.x) by (nonlinear_arith);
    assert((-uv.y) * (-uv.y) == uv.y * uv.y) by (nonlinear_arith);
    assert((-uv.z) * (-uv.z) == uv.z * uv.z) by (nonlinear_arith);
    assert(s_dot(s_neg(uv), n) == SCALE);
    lemma_fmuls_one(n.x);
    lemma_fmuls_one(n.y);
    lemma_fmuls_one(n.z);
    assert(s_scale(n, SCALE as int) == n);
    assert(s_add(uv, n) == (Vec3s { x: 0, y: 0, z: 0 }));
    lemma_fmuls_one(0);
    let perp = s_scale(s_add(uv, n), SCALE as int);
    assert(perp == (Vec3s { x: 0, y: 0, z: 0 }));
    assert(0int * 0 == 0) by (nonlinear_arith);
    assert(s_len_sq(perp) == 0);
    assert(1048576int * 1048576 == 1099511627776) by (nonlinear_arith);
    assert((1048576int + 1) * (1048576int + 1) == 1099513724929) by (nonlinear_arith);
    lemma_sqrt_floor(1099511627776, 1048576);
    assert(fsqrts(SCALE as int) == SCALE);
    assert(n.x * -(SCALE as int) == (-n.x) * (SCALE as int)) by (nonlinear_arith);
    assert(n.y * -(SCALE as int) == (-n.y) * (SCALE as int)) by (nonlinear_arith);
    assert(n.z * -(SCALE as int) == (-n.z) * (SCALE as int)) by (nonlinear_arith);
    lemma_tdiv_exact(-n.x, SCALE as int);
    lemma_tdiv_exact(-n.y, SCALE as int);
    lemma_tdiv_exact(-n.z, SCALE as int);
    assert(s_scale(n, -fsqrts(SCALE as int)) == uv);
}

/// Componentwise range check against a symmetric bound.
pub fn within(v: Vec3, m: i128) -> (b: bool)
    requires
        0 <= m,
    ensures
        b == bounded(v@, m as int),
{
    -m <= v.x && v.x <= m && -m <= v.y && v.y <= m && -m <= v.z && v.z <= m
}

/// A vector that some admissible rejection sample normalizes to: the shape
/// of every direction `random_unit_vector` can return.
pub open spec fn is_unit_sample(u: Vec3s) -> bool {
    exists|p: Vec3s|
        bounded(p, SCALE as int) && 1 <= s_len_sq(p) < SCALE && u == #[trigger] s_unit(p)
}

impl Vec3 {
    /// The origin vector.
    pub fn zero() -> (r: Vec3)
        ensures
            r@.x == 0 && r@.y == 0 && r@.z == 0,
    {
        Vec3 { x: 0, y: 0, z: 0 }
    }

    pub fn new(x: i128, y: i128, z: i128) -> (r: Vec3)
        ensures
            r@.x == x && r@.y == y && r@.z == z,
    {
        Vec3 { x, y, z }
    }

    pub fn x(self) -> (r: i128)
        ensures
            r == self@.x,
    {
        self.x
    }

    pub fn y(self) -> (r: i128)
        ensures
            r == self@.y,
    {
        self.y
    }

    pub fn z(self) -> (r: i128)
        ensures
            r == self@.z,
    {
        self.z
    }

    pub fn add(self, other: Vec3) -> (r: Vec3)
        requires
            bounded(self@, VOP_MAX as int),
            bounded(other@, VOP_MAX as int),
        ensures
            r@ == s_add(self@, other@),
    {
        Vec3 { x: self.x + other.x, y: self.y + other.y, z: self.z + other.z }
    }

    pub fn sub(self, other: Vec3) -> (r: Vec3)
        requires
            bounded(self@, VOP_MAX as int),
            bounded(other@, VOP_MAX as int),
        ensures
            r@ == s_sub(self@, other@),
    {
        Vec3 { x: self.x - other.x, y: self.y - other.y, z: self.z - other.z }
    }

    pub fn neg(self) -> (r: Vec3)
        requires
            bounded(self@, VOP_MAX as int),
        ensures
            r@ == s_neg(self@),
    {
        Vec3 { x: -self.x, y: -self.y, z: -self.z }
    }

    /// Componentwise product, used for filtering one color by another.
    pub fn mul(self, other: Vec3) -> (r: Vec3)
        requires
            bounded(self@, VOP_MAX as int),
            bounded(other@, VOP_MAX as int),
        ensures
            r@ == s_mul(self@, other@),
    {
        proof {
            lemma_mul_bound(self@.x, other@.x, VOP_MAX as int, VOP_MAX as int);
            lemma_mul_bound(self@.y, other@.y, VOP_MAX as int, VOP_MAX as int);
            lemma_mul_bound(self@.z, other@.z, VOP_MAX as int, VOP_MAX as int);
        }
        Vec3 { x: fmul(self.x, other.x), y: fmul(self.y, other.y), z: fmul(self.z, other.z) }
    }

    /// Scaling by a fixed-point scalar.
    pub fn scale(self, s: i128) -> (r: Vec3)
        requires
            bounded(self@, VOP_MAX as int),
            -(VOP_MAX as int) <= s <= VOP_MAX as int,
        ensures
            r@ == s_scale(self@, s as int),
    {
        proof {
            lemma_mul_bound(self@.x, s as int, VOP_MAX as int, VOP_MAX as int);
            lemma_mul_bound(self@.y, s as int, VOP_MAX as int, VOP_MAX as int);
            lemma_mul_bound(self@.z, s as int, VOP_MAX as int, VOP_MAX as int);
        }
        Vec3 { x: fmul(self.x, s), y: fmul(self.y, s), z: fmul(self.z, s) }
    }

    /// Scaling by a plain integer count, such as a pixel index.
    pub fn scale_int(self, k: i128) -> (r: Vec3)
        requires
            bounded(self@, VOP_MAX as int),
            0 <= k <= SCALE,
        ensures
            r@ == s_scale_int(self@, k as int),
    {
        proof {
            lemma_mul_bound(self@.x, k as int, VOP_MAX as int, SCALE as int);
            lemma_mul_bound(self@.y, k as int, VOP_MAX as int, SCALE as int);
            lemma_mul_bound(self@.z, k as int, VOP_MAX as int, SCALE as int);
        }
        Vec3 { x: self.x * k, y: self.y * k, z: self.z * k }
    }

    /// Division by a fixed-point scalar; the divisor may be negative, as a
    /// sphere radius modelling a hollow shell is.
    pub fn div_scale(self, s: i128) -> (r: Vec3)
        requires
            s != 0,
            -(i128::MAX as int) <= s,
            -(i128::MAX as int) <= self@.x * SCALE <= i128::MAX as int,
            -(i128::MAX as int) <= self@.y * SCALE <= i128::MAX as int,
            -(i128::MAX as int) <= self@.z * SCALE <= i128::MAX as int,
        ensures
            r@ == s_div_scale(self@, s as int),
    {
        Vec3 { x: fdiv(self.x, s), y: fdiv(self.y, s), z: fdiv(self.z, s) }
    }

    /// Division by a plain positive integer count, such as an image width.
    pub fn div_int(self, k: i128) -> (r: Vec3)
        requires
            1 <= k,
            bounded(self@, VOP_MAX as int),
        ensures
            r@ == s_div_int(self@, k as int),
    {
        Vec3 { x: self.x / k, y: self.y / k, z: self.z / k }
    }

    pub fn add_assign(&mut self, other: Vec3)
        requires
            bounded(old(self)@, VOP_MAX as int),
            bounded(other@, VOP_MAX as int),
        ensures
            final(self)@ == s_add(old(self)@, other@),
    {
        self.x = self.x + other.x;
        self.y = self.y + other.y;
        self.z = self.z + other.z;
    }

    /// Each component a fresh uniform draw from `[0, 1)`.
    pub fn random() -> (r: Vec3)
        ensures
            0 <= r@.x < SCALE,
            0 <= r@.y < SCALE,
            0 <= r@.z < SCALE,
    {
        Vec3 { x: random_scalar(), y: random_scalar(), z: random_scalar() }
    }

    /// Each component a fresh uniform draw from `[min, max)`.
    pub fn random_range(min: i128, max: i128) -> (r: Vec3)
        requires
            min <= max,
            -(crate::utility::VRAND_MAX as int) <= min <= crate::utility::VRAND_MAX as int,
            -(crate::utility::VRAND_MAX as int) <= max <= crate::utility::VRAND_MAX as int,
        ensures
            min <= r@.x,
            min <= r@.y,
            min <= r@.z,
            min < max ==> r@.x < max && r@.y < max && r@.z < max,
            min == max ==> r@.x == min && r@.y == min && r@.z == min,
            exists|u: int| 0 <= u < SCALE && r@.x == min + #[trigger] fmuls(max - min, u),
            exists|u: int| 0 <= u < SCALE && r@.y == min + #[trigger] fmuls(max - min, u),
            exists|u: int| 0 <= u < SCALE && r@.z == min + #[trigger] fmuls(max - min, u),
    {
        Vec3 {
            x: random_scalar_range(min, max),
            y: random_scalar_range(min, max),
            z: random_scalar_range(min, max),
        }
    }

    /// Rejection-samples the cube until the draw lands inside the unit ball.
    /// A draw whose squared length rounds to zero carries no direction and is
    /// rejected too, so the result can always be normalized.  The retry count
    /// is capped only to give the loop a termination measure; each round
    /// succeeds with probability about one half, so the cap is unreachable in
    /// practice, and a fixed admissible sample stands in after it.
    pub fn random_in_unit_sphere() -> (r: Vec3)
        ensures
            bounded(r@, SCALE as int),
            1 <= s_len_sq(r@) < SCALE,
    {
        let mut tries: u64 = 0;
        while tries < 1000000000
            invariant
                true,
            decreases 1000000000 - tries,
        {
            let p = Vec3::random_range(-SCALE, SCALE);
            let ls = p.length_squared();
            if 1 <= ls && ls < SCALE {
                return p;
            }
            tries = tries + 1;
        }
        let q = Vec3 { x: 0, y: 0, z: SCALE / 2 };
        proof {
            assert(524288int * 524288 == 274877906944) by (nonlinear_arith);
            assert(0int * 0 == 0) by (nonlinear_arith);
            assert(s_len_sq(q@) == 262144);
        }
        q
    }

    /// A uniformly random direction: a ball sample scaled to unit length.
    pub fn random_unit_vector() -> (r: Vec3)
        ensures
            is_unit_sample(r@),
            bounded(r@, 2 * SCALE),
    {
        let p = Vec3::random_in_unit_sphere();
        proof {
            lemma_unit_bounded(p@);
        }
        p.unit_vector()
    }

    /// A random direction on the hemisphere around the given normal: a unit
    /// sample, negated when it points against the normal.
    pub fn random_on_hemisphere(normal: Vec3) -> (r: Vec3)
        requires
            bounded(normal@, VOP_MAX as int),
        ensures
            exists|u: Vec3s|
                #[trigger] is_unit_sample(u) && r@ == (
                if s_dot(u, normal@) > 0 {
                    u
                } else {
                    s_neg(u)
                }),
            bounded(r@, 2 * SCALE),
    {
        let on_unit_sphere = Vec3::random_unit_vector();
        if on_unit_sphere.dot(normal) > 0 {
            on_unit_sphere
        } else {
            on_unit_sphere.neg()
        }
    }

    /// Rejection-samples the unit disk in the plane of the lens.  The retry
    /// cap exists only as a termination measure, as in
    /// `random_in_unit_sphere`; the origin stands in after it.
    pub fn random_in_unit_disk() -> (r: Vec3)
        ensures
            bounded(r@, SCALE as int),
            s_len_sq(r@) < SCALE,
            r@.z == 0,
    {
        let mut tries: u64 = 0;
        while tries < 1000000000
            invariant
                true,
            decreases 1000000000 - tries,
        {
            let p = Vec3 {
                x: random_scalar_range(-SCALE, SCALE),
                y: random_scalar_range(-SCALE, SCALE),
                z: 0,
            };
            let ls = p.length_squared();
            if ls < SCALE {
                return p;
            }
            tries = tries + 1;
        }
        let q = Vec3 { x: 0, y: 0, z: 0 };
        proof {
            lemma_len_sq_nonneg(q@);
        }
        q
    }

    pub fn dot(self, other: Vec3) -> (r: i128)
        requires
            bounded(self@, VOP_MAX as int),
            bounded(other@, VOP_MAX as int),
        ensures
            r == s_dot(self@, other@),
    {
        proof {
            lemma_mul_bound(self@.x, other@.x, VOP_MAX as int, VOP_MAX as int);
            lemma_mul_bound(self@.y, other@.y, VOP_MAX as int, VOP_MAX as int);
            lemma_mul_bound(self@.z, other@.z, VOP_MAX as int, VOP_MAX as int);
        }
        (self.x * other.x + self.y * other.y + self.z * other.z) / SCALE
    }

    pub fn cross(self, other: Vec3) -> (r: Vec3)
        requires
            bounded(self@, VOP_MAX as int),
            bounded(other@, VOP_MAX as int),
        ensures
            r@ == s_cross(self@, other@),
    {
        proof {
            lemma_mul_bound(self@.x, other@.y, VOP_MAX as int, VOP_MAX as int);
            lemma_mul_bound(self@.x, other@.z, VOP_MAX as int, VOP_MAX as int);
            lemma_mul_bound(self@.y, other@.x, VOP_MAX as int, VOP_MAX as int);
            lemma_mul_bound(self@.y, other@.z, VOP_MAX as int, VOP_MAX as int);
            lemma_mul_bound(self@.z, other@.x, VOP_MAX as int, VOP_MAX as int);
            lemma_mul_bound(self@.z, other@.y, VOP_MAX as int, VOP_MAX as int);
            lemma_tdiv_bound(self@.y * other@.z, SCALE as int, VOP_MAX as int * VOP_MAX as int);
            lemma_tdiv_bound(self@.z * other@.y, SCALE as int, VOP_MAX as int * VOP_MAX as int);
            lemma_tdiv_bound(self@.z * other@.x, SCALE as int, VOP_MAX as int * VOP_MAX as int);
            lemma_tdiv_bound(self@.x * other@.z, SCALE as int, VOP_MAX as int * VOP_MAX as int);
            lemma_tdiv_bound(self@.x * other@.y, SCALE as int, VOP_MAX as int * VOP_MAX as int);
            lemma_tdiv_bound(self@.y * other@.x, SCALE as int, VOP_MAX as int * VOP_MAX as int);
        }
        Vec3 {
            x: fmul(self.y, other.z) - fmul(self.z, other.y),
            y: fmul(self.z, other.x) - fmul(self.x, other.z),
            z: fmul(self.x, other.y) - fmul(self.y, other.x),
        }
    }

    pub fn length_squared(self) -> (r: i128)
        requires
            bounded(self@, VOP_MAX as int),
        ensures
            r == s_len_sq(self@),
            0 <= r,
    {
        proof {
            lemma_len_sq_nonneg(self@);
        }
        self.dot(self)
    }

    pub fn length(self) -> (r: i128)
        requires
            bounded(self@, LEN_MAX as int),
        ensures
            r == s_len(self@),
            0 <= r,
    {
        let ls = self.length_squared();
        proof {
            lemma_dot_bound(self@, self@, LEN_MAX as int, LEN_MAX as int);
        }
        fsqrt(ls)
    }

    /// True when the vector rounds to the zero vector, the degenerate case a
    /// scatter direction must avoid.
    pub fn near_zero(self) -> (r: bool)
        ensures
            r == s_near_zero(self@),
    {
        self.x == 0 && self.y == 0 && self.z == 0
    }

    /// The direction scaled to unit length.  The squared length must be at
    /// least one resolution step; the zero vector has no direction.
    pub fn unit_vector(self) -> (r: Vec3)
        requires
            bounded(self@, LEN_MAX as int),
            1 <= s_len_sq(self@),
        ensures
            r@ == s_unit(self@),
            bounded(r@, 2 * SCALE),
    {
        let len = self.length();
        proof {
            lemma_unit_bounded(self@);
        }
        Vec3 { x: fdiv(self.x, len), y: fdiv(self.y, len), z: fdiv(self.z, len) }
    }

    /// Mirror reflection about the surface normal.
    pub fn reflect(self, normal: Vec3) -> (r: Vec3)
        requires
            bounded(self@, SMALL_MAX as int),
            bounded(normal@, SMALL_MAX as int),
        ensures
            r@ == s_reflect(self@, normal@),
    {
        let d = self.dot(normal);
        proof {
            lemma_dot_bound(self@, normal@, SMALL_MAX as int, SMALL_MAX as int);
            lemma_mul_bound(normal@.x, 2 * d, SMALL_MAX as int, 384 * SCALE);
            lemma_mul_bound(normal@.y, 2 * d, SMALL_MAX as int, 384 * SCALE);
            lemma_mul_bound(normal@.z, 2 * d, SMALL_MAX as int, 384 * SCALE);
            lemma_tdiv_bound(normal@.x * (2 * d), SCALE as int, SMALL_MAX as int * (384 * SCALE));
            lemma_tdiv_bound(normal@.y * (2 * d), SCALE as int, SMALL_MAX as int * (384 * SCALE));
            lemma_tdiv_bound(normal@.z * (2 * d), SCALE as int, SMALL_MAX as int * (384 * SCALE));
        }
        self.sub(normal.scale(2 * d))
    }

    /// Snell refraction: `self` must be a unit direction and `normal` the
    /// unit normal it strikes, `etai_over_etat` the ratio of refractive
    /// indices across the surface.
    pub fn refract(self, normal: Vec3, etai_over_etat: i128) -> (r: Vec3)
        requires
            bounded(self@, SMALL_MAX as int),
            bounded(normal@, SMALL_MAX as int),
            0 <= etai_over_etat <= 1024 * SCALE,
        ensures
            r@ == s_refract(self@, normal@, etai_over_etat as int),
    {
        let cos_raw = self.neg().dot(normal);
        proof {
            lemma_dot_bound(s_neg(self@), normal@, SMALL_MAX as int, SMALL_MAX as int);
        }
        let cos_theta = if cos_raw <= SCALE { cos_raw } else { SCALE };
        let scaled_n = normal.scale(cos_theta);
        proof {
            lemma_mul_bound(normal@.x, cos_theta as int, SMALL_MAX as int, 192 * SCALE);
            lemma_mul_bound(normal@.y, cos_theta as int, SMALL_MAX as int, 192 * SCALE);
            lemma_mul_bound(normal@.z, cos_theta as int, SMALL_MAX as int, 192 * SCALE);
            lemma_tdiv_bound(normal@.x * cos_theta, SCALE as int, SMALL_MAX as int * (192 * SCALE));
            lemma_tdiv_bound(normal@.y * cos_theta, SCALE as int, SMALL_MAX as int * (192 * SCALE));
            lemma_tdiv_bound(normal@.z * cos_theta, SCALE as int, SMALL_MAX as int * (192 * SCALE));
        }
        let summed = self.add(scaled_n);
        let r_out_perp = summed.scale(etai_over_etat);
        proof {
            lemma_mul_bound(summed@.x, etai_over_etat as int, 1544 * SCALE, 1024 * SCALE);
            lemma_mul_bound(summed@.y, etai_over_etat as int, 1544 * SCALE, 1024 * SCALE);
            lemma_mul_bound(summed@.z, etai_over_etat as int, 1544 * SCALE, 1024 * SCALE);
            lemma_tdiv_bound(summed@.x * etai_over_etat, SCALE as int, 1544 * SCALE * (1024 * SCALE));
            lemma_tdiv_bound(summed@.y * etai_over_etat, SCALE as int, 1544 * SCALE * (1024 * SCALE));
            lemma_tdiv_bound(summed@.z * etai_over_etat, SCALE as int, 1544 * SCALE * (1024 * SCALE));
        }
        let ls = r_out_perp.length_squared();
        proof {
            lemma_dot_bound(r_out_perp@, r_out_perp@, 1581056 * SCALE, 1581056 * SCALE);
        }
        let back = SCALE - ls;
        let back_abs = if back >= 0 { back } else { -back };
        let root = fsqrt(back_abs);
        proof {
            lemma_sqrt_upper(back_abs * (SCALE as int), 4398046511104);
        }
        let r_out_parallel = normal.scale(-root);
        proof {
            lemma_mul_bound(normal@.x, -root, SMALL_MAX as int, 4398046511104);
            lemma_mul_bound(normal@.y, -root, SMALL_MAX as int, 4398046511104);
            lemma_mul_bound(normal@.z, -root, SMALL_MAX as int, 4398046511104);
            lemma_tdiv_bound(normal@.x * -root, SCALE as int, SMALL_MAX as int * 4398046511104);
            lemma_tdiv_bound(normal@.y * -root, SCALE as int, SMALL_MAX as int * 4398046511104);
            lemma_tdiv_bound(normal@.z * -root, SCALE as int, SMALL_MAX as int * 4398046511104);
        }
        r_out_perp.add(r_out_parallel)
    }
}

} // verus!
