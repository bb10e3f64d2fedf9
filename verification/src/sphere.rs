//! Spheres and their ray-intersection test.
//!
//! `spec_sphere_hit` is the mathematical statement of the whole test: the
//! half-b quadratic solve, the nearer-root preference, and the range guards
//! under which the renderer works.  `hit` computes exactly that.

use vstd::prelude::*;

verus! {

use crate::fixed::SCALE;
use crate::fixed::fmuls;
use crate::fixed::fdivs;
use crate::fixed::fsqrts;
use crate::fixed::fmul;
use crate::fixed::fdiv;
use crate::fixed::fsqrt;
use crate::fixed::lemma_mul_bound;
use crate::fixed::lemma_tdiv_bound;
use crate::fixed::lemma_sqrt_upper;
use crate::hittable::HitRecord;
use crate::hittable::HitRecs;
use crate::hittable::NORMAL_MAX;
use crate::hittable::POINT_MAX;
use crate::hittable::RAY_MAX;
use crate::hittable::WORLD_MAX;
use crate::interval::Interval;
use crate::interval::s_surrounds;
use crate::interval::HIT_EPS;
use crate::interval::INF;
use crate::fixed::lemma_tdiv_exact;
use crate::fixed::lemma_fdivs_ratio_bound;
use crate::fixed::lemma_sqrt_lower;
use crate::fixed::sqrt_floor;
use crate::vec3::Vec3s;
use vstd::arithmetic::div_mod::lemma_div_pos_is_pos;
use vstd::arithmetic::div_mod::lemma_fundamental_div_mod;
use vstd::arithmetic::div_mod::lemma_mod_bound;
use vstd::arithmetic::div_mod::lemma_div_multiples_vanish;
use crate::material::Material;
use crate::material::material_ok;
use crate::material::material_params_ok;
use crate::material::rec_ok;
use crate::ray::Ray;
use crate::ray::Rays;
use crate::ray::s_ray_at;
use crate::vec3::Point3;
use crate::vec3::bounded;
use crate::vec3::within;
use crate::vec3::lemma_dot_bound;
use crate::vec3::s_div_scale;
use crate::vec3::s_dot;
use crate::vec3::s_len_sq;
use crate::vec3::lemma_len_sq_nonneg;
use crate::vec3::s_neg;
use crate::vec3::s_sub;

/// Componentwise bound on the origin-to-center offset of an in-range ray
/// and an in-range center: `RAY_MAX + WORLD_MAX`.
pub const OC_MAX: i128 = 618475290624;

#[derive(Clone, Copy, Debug)]
pub struct Sphere {
    pub center: Point3,
    pub radius: i128,
    pub material: Material,
}

/// A sphere the renderer accepts: center within the world, radius nonzero
/// (negative radii are allowed and flip the normal, for hollow shells) and
/// within the world, material parameters in range.
pub open spec fn sphere_wf(s: Sphere) -> bool {
    &&& bounded(s.center@, WORLD_MAX as int)
    &&& s.radius != 0
    &&& -(WORLD_MAX as int) <= s.radius <= WORLD_MAX as int
    &&& material_ok(s.material)
}

/// The intersection of a ray with a sphere over the interval `(tmin, tmax)`,
/// as the renderer computes it.  A ray outside the working range, a
/// direction whose squared length rounds to zero, a hit point beyond the
/// world, or a normal far from unit are all misses: the renderer's world is
/// bounded and such hits carry no usable geometry.
pub open spec fn spec_sphere_hit(s: Sphere, r: Rays, tmin: int, tmax: int) -> Option<HitRecs> {
    if !(bounded(r.origin, RAY_MAX as int) && bounded(r.direction, RAY_MAX as int)) {
        Option::None
    } else {
        let oc = s_sub(r.origin, s.center@);
        let a = s_len_sq(r.direction);
        let half_b = s_dot(oc, r.direction);
        let c = s_len_sq(oc) - fmuls(s.radius as int, s.radius as int);
        if a == 0 {
            Option::None
        } else {
            let discriminant = fmuls(half_b, half_b) - fmuls(a, c);
            if discriminant < 0 {
                Option::None
            } else {
                let sqrtd = fsqrts(discriminant);
                let root1 = fdivs(-half_b - sqrtd, a);
                let root = if s_surrounds(tmin, tmax, root1) {
                    root1
                } else {
                    fdivs(-half_b + sqrtd, a)
                };
                if !s_surrounds(tmin, tmax, root) {
                    Option::None
                } else {
                    let point = s_ray_at(r, root);
                    if !bounded(point, POINT_MAX as int) {
                        Option::None
                    } else {
                        let outward = s_div_scale(s_sub(point, s.center@), s.radius as int);
                        if !bounded(outward, NORMAL_MAX as int) {
                            Option::None
                        } else {
                            let ff = s_dot(r.direction, outward) < 0;
                            Option::Some(
                                HitRecs {
                                    point,
                                    normal: if ff {
                                        outward
                                    } else {
                                        s_neg(outward)
                                    },
                                    material: s.material,
                                    t: root,
                                    front_face: ff,
                                },
                            )
                        }
                    }
                }
            }
        }
    }
}

/// A ray cast from the center of a sphere hits it, at a parameter within
/// one resolution step of the radius, whatever its (unit) direction: the
/// distance from the center to the surface is the radius.  Exactness asks
/// for a radius of at least half a unit; below that the squared radius
/// loses too much to rounding for the one-step bound.
pub proof fn lemma_center_ray_hits(s: Sphere, r: Rays)
    requires
        sphere_wf(s),
        524289 <= s.radius,
        r.origin == s.center@,
        bounded(r.direction, RAY_MAX as int),
        s_len_sq(r.direction) == SCALE,
    ensures
        spec_sphere_hit(s, r, HIT_EPS as int, INF as int) is Some,
        s.radius - 1 <= spec_sphere_hit(s, r, HIT_EPS as int, INF as int)->Some_0.t <= s.radius,
        !spec_sphere_hit(s, r, HIT_EPS as int, INF as int)->Some_0.front_face,
{
    let d = r.direction;
    let rd = s.radius as int;
    assert(s_sub(r.origin, s.center@) == (Vec3s { x: 0, y: 0, z: 0 }));
    assert(0int * d.x == 0) by (nonlinear_arith);
    assert(0int * d.y == 0) by (nonlinear_arith);
    assert(0int * d.z == 0) by (nonlinear_arith);
    assert(0int * 0 == 0) by (nonlinear_arith);
    let q = fmuls(rd, rd);
    assert(0 <= rd * rd) by (nonlinear_arith);
    lemma_div_pos_is_pos(rd * rd, SCALE as int);
    assert((SCALE as int) * (0 - q) == (-q) * (SCALE as int)) by (nonlinear_arith);
    lemma_tdiv_exact(-q, SCALE as int);
    lemma_fundamental_div_mod(rd * rd, SCALE as int);
    lemma_mod_bound(rd * rd, SCALE as int);
    assert((SCALE as int) * q == q * (SCALE as int)) by (nonlinear_arith);
    let qs = q * (SCALE as int);
    assert(rd * rd - SCALE < qs <= rd * rd);
    assert(rd * rd < (rd + 1) * (rd + 1)) by (nonlinear_arith)
        requires 0 <= rd,
    ;
    lemma_sqrt_upper(qs, rd);
    assert((rd - 1) * (rd - 1) <= qs) by (nonlinear_arith)
        requires
            524289 <= rd,
            rd * rd - SCALE < qs,
            SCALE == 1048576,
    ;
    lemma_sqrt_lower(qs, rd - 1);
    let sq = sqrt_floor(qs);
    assert((0 - sq) * SCALE == (-sq) * (SCALE as int)) by (nonlinear_arith);
    lemma_tdiv_exact(-sq, SCALE as int);
    assert((0 + sq) * SCALE == sq * (SCALE as int)) by (nonlinear_arith);
    lemma_tdiv_exact(sq, SCALE as int);
    let qq = d.x * d.x + d.y * d.y + d.z * d.z;
    assert(0 <= d.x * d.x && 0 <= d.y * d.y && 0 <= d.z * d.z) by (nonlinear_arith);
    lemma_fundamental_div_mod(qq, SCALE as int);
    lemma_mod_bound(qq, SCALE as int);
    assert(-(SCALE as int) <= d.x <= SCALE) by (nonlinear_arith)
        requires
            d.x * d.x <= qq,
            qq < (SCALE as int) * (SCALE as int) + SCALE,
            SCALE == 1048576,
    ;
    assert(-(SCALE as int) <= d.y <= SCALE) by (nonlinear_arith)
        requires
            d.y * d.y <= qq,
            qq < (SCALE as int) * (SCALE as int) + SCALE,
            SCALE == 1048576,
    ;
    assert(-(SCALE as int) <= d.z <= SCALE) by (nonlinear_arith)
        requires
            d.z * d.z <= qq,
            qq < (SCALE as int) * (SCALE as int) + SCALE,
            SCALE == 1048576,
    ;
    lemma_mul_bound(d.x, sq, SCALE as int, rd);
    lemma_mul_bound(d.y, sq, SCALE as int, rd);
    lemma_mul_bound(d.z, sq, SCALE as int, rd);
    lemma_tdiv_bound(d.x * sq, SCALE as int, (SCALE as int) * rd);
    lemma_tdiv_bound(d.y * sq, SCALE as int, (SCALE as int) * rd);
    lemma_tdiv_bound(d.z * sq, SCALE as int, (SCALE as int) * rd);
    lemma_div_multiples_vanish(rd, SCALE as int);
    let point = s_ray_at(r, sq);
    lemma_fdivs_ratio_bound(point.x - s.center@.x, rd);
    lemma_fdivs_ratio_bound(point.y - s.center@.y, rd);
    lemma_fdivs_ratio_bound(point.z - s.center@.z, rd);
    // The ray starts inside the sphere, so it strikes a back face: each
    // component of the outward normal keeps the sign of the direction's.
    lemma_center_component_sign(d.x, sq, rd);
    lemma_center_component_sign(d.y, sq, rd);
    lemma_center_component_sign(d.z, sq, rd);
    let outward = s_div_scale(s_sub(point, s.center@), rd);
    lemma_div_pos_is_pos(d.x * outward.x + d.y * outward.y + d.z * outward.z, SCALE as int);
}

/// A component of the outward normal at a hit reached from the center
/// keeps the sign of the direction's component, so their product is never
/// negative: the offset from the center is the direction scaled by a
/// nonnegative parameter, and dividing by a positive radius preserves the
/// sign through both truncations.
proof fn lemma_center_component_sign(d: int, sq: int, rd: int)
    requires
        0 <= sq,
        1 <= rd,
    ensures
        0 <= d * fdivs(fmuls(d, sq), rd),
{
    let m = fmuls(d, sq);
    if d >= 0 {
        assert(0 <= d * sq) by (nonlinear_arith)
            requires 0 <= d && 0 <= sq,
        ;
        lemma_div_pos_is_pos(d * sq, SCALE as int);
        assert(0 <= m * SCALE) by (nonlinear_arith)
            requires 0 <= m && SCALE == 1048576,
        ;
        lemma_div_pos_is_pos(m * SCALE, rd);
        assert(0 <= d * fdivs(m, rd)) by (nonlinear_arith)
            requires 0 <= d && 0 <= fdivs(m, rd),
        ;
    } else {
        assert(d * sq <= 0) by (nonlinear_arith)
            requires d < 0 && 0 <= sq,
        ;
        lemma_div_pos_is_pos(-(d * sq), SCALE as int);
        assert(m <= 0);
        assert(m * SCALE <= 0) by (nonlinear_arith)
            requires m <= 0 && SCALE == 1048576,
        ;
        lemma_div_pos_is_pos(-(m * SCALE), rd);
        assert(fdivs(m, rd) <= 0);
        assert(0 <= d * fdivs(m, rd)) by (nonlinear_arith)
            requires d < 0 && fdivs(m, rd) <= 0,
        ;
    }
}

/// A genuine sphere hit only arises from an in-range ray with a usable
/// direction, and yields a record whose fields are in range, carrying a
/// well-formed material.
pub proof fn lemma_sphere_hit_some(s: Sphere, r: Rays, tmin: int, tmax: int)
    requires
        sphere_wf(s),
        spec_sphere_hit(s, r, tmin, tmax) is Some,
    ensures
        bounded(r.direction, RAY_MAX as int),
        1 <= s_len_sq(r.direction),
        rec_ok(spec_sphere_hit(s, r, tmin, tmax)->Some_0),
        material_ok(spec_sphere_hit(s, r, tmin, tmax)->Some_0.material),
{
    lemma_len_sq_nonneg(r.direction);
}

impl Sphere {
    pub fn new(center: Point3, radius: i128, material: Material) -> (r: Sphere)
        requires
            bounded(center@, WORLD_MAX as int),
            radius != 0,
            -(WORLD_MAX as int) <= radius <= WORLD_MAX as int,
            material_ok(material),
        ensures
            r.center == center,
            r.radius == radius,
            r.material == material,
            sphere_wf(r),
    {
        Sphere { center, radius, material }
    }

    /// Whether the given parameters satisfy what `new` requires.
    pub fn params_ok(center: Point3, radius: i128, material: &Material) -> (b: bool)
        ensures
            b == (bounded(center@, WORLD_MAX as int) && radius != 0 && -(WORLD_MAX as int)
                <= radius <= WORLD_MAX as int && material_ok(*material)),
    {
        within(center, WORLD_MAX) && radius != 0 && -WORLD_MAX <= radius && radius <= WORLD_MAX
            && material_params_ok(material)
    }

    pub fn center(self) -> (r: Point3)
        ensures
            r == self.center,
    {
        self.center
    }

    pub fn radius(self) -> (r: i128)
        ensures
            r == self.radius,
    {
        self.radius
    }

    /// Test the ray against this sphere over the parameter interval.  On a
    /// hit the record is filled and `true` returned; on a miss the record is
    /// untouched.  The result is exactly `spec_sphere_hit`.
    pub fn hit(&self, ray: Ray, ray_t: Interval, record: &mut HitRecord) -> (b: bool)
        requires
            sphere_wf(*self),
        ensures
            match spec_sphere_hit(*self, ray@, ray_t.min as int, ray_t.max as int) {
                Option::Some(h) => b && final(record)@ == h,
                Option::None => !b && *final(record) == *old(record),
            },
    {
        if !(within(ray.origin(), RAY_MAX) && within(ray.direction(), RAY_MAX)) {
            return false;
        }
        let oc = ray.origin().sub(self.center);
        let a = ray.direction().length_squared();
        let half_b = oc.dot(ray.direction());
        proof {
            lemma_dot_bound(ray@.direction, ray@.direction, RAY_MAX as int, RAY_MAX as int);
            lemma_dot_bound(oc@, oc@, OC_MAX as int, OC_MAX as int);
            lemma_dot_bound(oc@, ray@.direction, OC_MAX as int, RAY_MAX as int);
            lemma_mul_bound(self.radius as int, self.radius as int, WORLD_MAX as int,
                WORLD_MAX as int);
            lemma_tdiv_bound(self.radius as int * self.radius, SCALE as int,
                WORLD_MAX as int * (WORLD_MAX as int));
        }
        let c = oc.length_squared() - fmul(self.radius, self.radius);
        if a == 0 {
            return false;
        }
        proof {
            lemma_mul_bound(half_b as int, half_b as int, 972777519512027136,
                972777519512027136);
            lemma_tdiv_bound(half_b as int * half_b, SCALE as int,
                972777519512027136int * 972777519512027136);
            lemma_mul_bound(a as int, c as int, 864691128455135232, 1098878309078401024);
            lemma_tdiv_bound(a as int * c, SCALE as int,
                864691128455135232int * 1098878309078401024);
        }
        let discriminant = fmul(half_b, half_b) - fmul(a, c);
        if discriminant < 0 {
            return false;
        }
        let sqrtd = fsqrt(discriminant);
        proof {
            lemma_sqrt_upper(discriminant as int * SCALE, 2305843009213693952);
        }
        let mut root = fdiv(-half_b - sqrtd, a);
        proof {
            lemma_tdiv_bound((-half_b - sqrtd) * SCALE, a as int,
                3278620528725721088 * (SCALE as int));
        }
        if !ray_t.surrounds(root) {
            root = fdiv(-half_b + sqrtd, a);
            proof {
                lemma_tdiv_bound((-half_b + sqrtd) * SCALE, a as int,
                    3278620528725721088 * (SCALE as int));
            }
            if !ray_t.surrounds(root) {
                return false;
            }
        }
        proof {
            lemma_mul_bound(ray@.direction.x, root as int, RAY_MAX as int,
                3437882799529101715570688);
            lemma_mul_bound(ray@.direction.y, root as int, RAY_MAX as int,
                3437882799529101715570688);
            lemma_mul_bound(ray@.direction.z, root as int, RAY_MAX as int,
                3437882799529101715570688);
            lemma_tdiv_bound(ray@.direction.x * root, SCALE as int,
                (RAY_MAX as int) * 3437882799529101715570688);
            lemma_tdiv_bound(ray@.direction.y * root, SCALE as int,
                (RAY_MAX as int) * 3437882799529101715570688);
            lemma_tdiv_bound(ray@.direction.z * root, SCALE as int,
                (RAY_MAX as int) * 3437882799529101715570688);
        }
        let point = ray.at(root);
        if !within(point, POINT_MAX) {
            return false;
        }
        let pc = point.sub(self.center);
        let outward_normal = pc.div_scale(self.radius);
        if !within(outward_normal, NORMAL_MAX) {
            return false;
        }
        record.t = root;
        record.point = point;
        record.material = self.material;
        record.set_face_normal(ray, outward_normal);
        true
    }
}

} // verus!
