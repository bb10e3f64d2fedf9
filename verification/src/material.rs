//! Material scattering: diffuse, reflective and refractive surfaces.
//!
//! Each material's response is a deterministic function of the incoming ray,
//! the hit record and the random draws it consumes; the spec functions below
//! state that function exactly, and `scatter` promises to have applied it to
//! some admissible draws.

use vstd::prelude::*;

verus! {

use crate::fixed::SCALE;
use crate::fixed::fmuls;
use crate::fixed::fdivs;
use crate::fixed::fsqrts;
use crate::fixed::fmul;
use crate::fixed::fdiv;
use crate::fixed::fsqrt;
use crate::fixed::lemma_mul_bound;
use crate::fixed::lemma_tdiv_bound;
use crate::fixed::lemma_fdivs_ratio_bound;
use crate::fixed::lemma_fdivs_den_range;
use vstd::arithmetic::div_mod::lemma_div_pos_is_pos;
use crate::fixed::lemma_sqrt_upper;
use crate::color::Color;
use crate::hittable::HitRecord;
use crate::hittable::HitRecs;
use crate::hittable::NORMAL_MAX;
use crate::hittable::POINT_MAX;
use crate::hittable::RAY_MAX;
use crate::ray::Ray;
use crate::ray::Rays;
use crate::utility::random_scalar;
use crate::vec3::Vec3;
use crate::vec3::Vec3s;
use crate::vec3::bounded;
use crate::vec3::is_unit_sample;
use crate::vec3::lemma_dot_bound;
use crate::vec3::s_add;
use crate::vec3::s_dot;
use crate::vec3::s_len_sq;
use crate::vec3::s_near_zero;
use crate::vec3::s_neg;
use crate::vec3::s_reflect;
use crate::vec3::s_refract;
use crate::vec3::s_scale;
use crate::vec3::s_unit;

/// The least refractive index a dielectric may carry, a quarter.
pub const IR_MIN: i128 = 262144;

/// The greatest refractive index a dielectric may carry.
pub const IR_MAX: i128 = 1073741824;

#[derive(Clone, Copy, Debug)]
pub enum Material {
    Lambertian(Color),
    Metal(Color, i128),
    Dielectric(i128),
}

/// Each channel of an albedo is a reflectance fraction in `[0, 1]`.
pub open spec fn color_ok(c: Vec3s) -> bool {
    &&& 0 <= c.x <= SCALE
    &&& 0 <= c.y <= SCALE
    &&& 0 <= c.z <= SCALE
}

/// The parameter ranges a material must be built within.
pub open spec fn material_ok(m: Material) -> bool {
    match m {
        Material::Lambertian(albedo) => color_ok(albedo@),
        Material::Metal(albedo, fuzz) => color_ok(albedo@) && 0 <= fuzz <= SCALE,
        Material::Dielectric(ir) => IR_MIN <= ir <= IR_MAX,
    }
}

/// Whether each channel is a reflectance fraction; what `color_ok` states.
pub fn color_params_ok(c: &Color) -> (b: bool)
    ensures
        b == color_ok(c@),
{
    0 <= c.x && c.x <= SCALE && 0 <= c.y && c.y <= SCALE && 0 <= c.z && c.z <= SCALE
}

/// Whether the material's parameters are in range; what `material_ok`
/// states.
pub fn material_params_ok(m: &Material) -> (b: bool)
    ensures
        b == material_ok(*m),
{
    match m {
        Material::Lambertian(albedo) => color_params_ok(albedo),
        Material::Metal(albedo, fuzz) => color_params_ok(albedo) && 0 <= *fuzz && *fuzz <= SCALE,
        Material::Dielectric(ir) => IR_MIN <= *ir && *ir <= IR_MAX,
    }
}

/// What a diffuse surface does with a unit sample `ru`: scatter toward
/// `normal + ru`, or along the bare normal when that sum degenerates, and
/// attenuate by the albedo.  Always scatters.
pub open spec fn s_scatter_lambertian(albedo: Vec3s, rec: HitRecs, ru: Vec3s) -> (bool, Vec3s, Rays) {
    let dir = s_add(rec.normal, ru);
    let dir2 = if s_near_zero(dir) {
        rec.normal
    } else {
        dir
    };
    (true, albedo, Rays { origin: rec.point, direction: dir2 })
}

/// What a metal does with a unit sample `ru`: mirror the incoming direction
/// and perturb it by `fuzz * ru`; the ray is absorbed when the perturbed
/// direction points into the surface.
pub open spec fn s_scatter_metal(
    albedo: Vec3s,
    fuzz: int,
    rin: Rays,
    rec: HitRecs,
    ru: Vec3s,
) -> (bool, Vec3s, Rays) {
    let reflected = s_reflect(s_unit(rin.direction), rec.normal);
    let dir = s_add(reflected, s_scale(ru, fuzz));
    let ok = s_dot(dir, rec.normal) > 0;
    (ok, albedo, Rays { origin: rec.point, direction: dir })
}

/// Schlick's approximation of the reflectance at a dielectric boundary.
pub open spec fn s_reflectance(cos: int, ri: int) -> int {
    let r0 = fdivs(SCALE - ri, SCALE + ri);
    let r0sq = fmuls(r0, r0);
    r0sq + fmuls(SCALE - r0sq, s_pow5(SCALE - cos))
}

/// The fifth fixed-point power.
pub open spec fn s_pow5(x: int) -> int {
    let x2 = fmuls(x, x);
    let x4 = fmuls(x2, x2);
    fmuls(x4, x)
}

/// What a dielectric does with a unit draw `d`: refract by Snell's law, or
/// reflect when refraction is impossible or the draw falls below Schlick's
/// reflectance.  Always scatters, attenuating by white.
pub open spec fn s_scatter_dielectric(ir: int, rin: Rays, rec: HitRecs, d: int) -> (
    bool,
    Vec3s,
    Rays,
) {
    let ratio = if rec.front_face {
        fdivs(SCALE as int, ir)
    } else {
        ir
    };
    let unit_dir = s_unit(rin.direction);
    let cos0 = s_dot(s_neg(unit_dir), rec.normal);
    let cos = if cos0 <= SCALE {
        cos0
    } else {
        SCALE as int
    };
    let under = SCALE - fmuls(cos, cos);
    let sin = fsqrts(if under >= 0 {
        under
    } else {
        0
    });
    let cannot_refract = fmuls(ratio, sin) > SCALE;
    let dir = if cannot_refract || s_reflectance(cos, ratio) > d {
        s_reflect(unit_dir, rec.normal)
    } else {
        s_refract(unit_dir, rec.normal, ratio)
    };
    (true, Vec3s { x: SCALE as int, y: SCALE as int, z: SCALE as int }, Rays {
        origin: rec.point,
        direction: dir,
    })
}

/// The bounds under which a hit record is handed to `scatter`: the fields
/// the intersection routine guarantees.
pub open spec fn rec_ok(rec: HitRecs) -> bool {
    &&& bounded(rec.point, POINT_MAX as int)
    &&& bounded(rec.normal, NORMAL_MAX as int)
}

/// An outcome the material can produce for the incoming ray at the given
/// hit: its spec function applied to some admissible random draws.  The
/// triple is the scatter verdict, the attenuation written, and the
/// scattered ray written.
pub open spec fn possible_scatter(m: Material, rin: Rays, rec: HitRecs, res: (
    bool,
    Vec3s,
    Rays,
)) -> bool {
    match m {
        Material::Lambertian(albedo) => exists|ru: Vec3s|
            is_unit_sample(ru) && res == #[trigger] s_scatter_lambertian(albedo@, rec, ru),
        Material::Metal(albedo, fuzz) => exists|ru: Vec3s|
            is_unit_sample(ru) && res == #[trigger] s_scatter_metal(
                albedo@,
                fuzz as int,
                rin,
                rec,
                ru,
            ),
        Material::Dielectric(ir) => exists|d: int|
            0 <= d < SCALE && res == #[trigger] s_scatter_dielectric(ir as int, rin, rec, d),
    }
}

impl Material {
    /// Scatter the incoming ray at the given hit.  Writes the attenuation
    /// and the scattered ray and says whether the ray survived; the values
    /// written are exactly what the material's spec function yields on some
    /// admissible random draws.
    pub fn scatter(
        &self,
        r_in: &Ray,
        rec: &HitRecord,
        attenuation: &mut Color,
        scattered: &mut Ray,
    ) -> (b: bool)
        requires
            material_ok(*self),
            rec_ok(rec@),
            bounded(r_in@.direction, RAY_MAX as int),
            1 <= s_len_sq(r_in@.direction),
        ensures
            color_ok(final(attenuation)@),
            possible_scatter(*self, r_in@, rec@, (b, final(attenuation)@, final(scattered)@)),
    {
        match self {
            Material::Lambertian(albedo) => {
                let ru = Vec3::random_unit_vector();
                let mut scatter_direction = rec.normal.add(ru);
                if scatter_direction.near_zero() {
                    scatter_direction = rec.normal;
                }
                *scattered = Ray::new(rec.point, scatter_direction);
                *attenuation = *albedo;
                proof {
                    assert(s_scatter_lambertian(albedo@, rec@, ru@).0);
                }
                true
            },
            Material::Metal(albedo, fuzz) => {
                let unit_dir = r_in.direction().unit_vector();
                let reflected = unit_dir.reflect(rec.normal);
                proof {
                    lemma_reflect_bounded(unit_dir@, rec@.normal);
                }
                let ru = Vec3::random_unit_vector();
                let fuzzed = ru.scale(*fuzz);
                proof {
                    lemma_mul_bound(ru@.x, *fuzz as int, 2 * SCALE, SCALE as int);
                    lemma_mul_bound(ru@.y, *fuzz as int, 2 * SCALE, SCALE as int);
                    lemma_mul_bound(ru@.z, *fuzz as int, 2 * SCALE, SCALE as int);
                    lemma_tdiv_bound(ru@.x * *fuzz, SCALE as int, 2 * SCALE * SCALE);
                    lemma_tdiv_bound(ru@.y * *fuzz, SCALE as int, 2 * SCALE * SCALE);
                    lemma_tdiv_bound(ru@.z * *fuzz, SCALE as int, 2 * SCALE * SCALE);
                }
                let dir = reflected.add(fuzzed);
                *scattered = Ray::new(rec.point, dir);
                *attenuation = *albedo;
                let ok = scattered.direction().dot(rec.normal) > 0;
                proof {
                    assert(ok == s_scatter_metal(albedo@, *fuzz as int, r_in@, rec@, ru@).0);
                }
                ok
            },
            Material::Dielectric(ir) => {
                *attenuation = Color::new(SCALE, SCALE, SCALE);
                let refraction_ratio = if rec.front_face {
                    fdiv(SCALE, *ir)
                } else {
                    *ir
                };
                proof {
                    lemma_fdivs_den_range(SCALE as int, *ir as int, IR_MIN as int, IR_MAX as int);
                }
                let unit_direction = r_in.direction().unit_vector();
                let cos_raw = unit_direction.neg().dot(rec.normal);
                proof {
                    lemma_dot_bound(s_neg(unit_direction@), rec@.normal, 2 * SCALE,
                        NORMAL_MAX as int);
                }
                let cos_theta = if cos_raw <= SCALE {
                    cos_raw
                } else {
                    SCALE
                };
                proof {
                    lemma_mul_bound(cos_theta as int, cos_theta as int, 24 * SCALE, 24 * SCALE);
                    lemma_tdiv_bound(cos_theta as int * cos_theta, SCALE as int, 24 * SCALE * (24
                        * SCALE));
                    assert(0 <= cos_theta as int * cos_theta) by (nonlinear_arith);
                    lemma_div_pos_is_pos(cos_theta as int * cos_theta, SCALE as int);
                }
                let cos_sq = fmul(cos_theta, cos_theta);
                let under = SCALE - cos_sq;
                let under_nn = if under >= 0 {
                    under
                } else {
                    0
                };
                let sin_theta = fsqrt(under_nn);
                proof {
                    lemma_sqrt_upper(under_nn as int * SCALE, SCALE as int);
                }
                proof {
                    lemma_mul_bound(refraction_ratio as int, sin_theta as int, IR_MAX as int,
                        SCALE as int);
                }
                let rs = fmul(refraction_ratio, sin_theta);
                let cannot_refract = rs > SCALE;
                let refl = reflectance(cos_theta, refraction_ratio);
                let d = random_scalar();
                let direction = if cannot_refract || refl > d {
                    unit_direction.reflect(rec.normal)
                } else {
                    unit_direction.refract(rec.normal, refraction_ratio)
                };
                *scattered = Ray::new(rec.point, direction);
                proof {
                    assert(s_scatter_dielectric(*ir as int, r_in@, rec@, d as int).0);
                }
                true
            },
        }
    }
}

/// A metal with no fuzz is a pure mirror: whatever unit sample the scatter
/// draws, the scattered direction is exactly the reflection of the unit
/// incoming direction about the surface normal.
pub proof fn lemma_metal_mirror(albedo: Vec3s, rin: Rays, rec: HitRecs, ru: Vec3s)
    ensures
        s_scatter_metal(albedo, 0, rin, rec, ru).2.direction == s_reflect(
            s_unit(rin.direction),
            rec.normal,
        ),
{
    assert(ru.x * 0 == 0) by (nonlinear_arith);
    assert(ru.y * 0 == 0) by (nonlinear_arith);
    assert(ru.z * 0 == 0) by (nonlinear_arith);
}

/// A mirror reflection of a unit direction about a near-unit normal stays
/// within a few hundred units.
proof fn lemma_reflect_bounded(v: Vec3s, n: Vec3s)
    requires
        bounded(v, 2 * SCALE),
        bounded(n, NORMAL_MAX as int),
    ensures
        bounded(s_reflect(v, n), 200 * SCALE),
{
    lemma_dot_bound(v, n, 2 * SCALE, NORMAL_MAX as int);
    let d2 = 2 * s_dot(v, n);
    lemma_mul_bound(n.x, d2, NORMAL_MAX as int, 48 * SCALE);
    lemma_mul_bound(n.y, d2, NORMAL_MAX as int, 48 * SCALE);
    lemma_mul_bound(n.z, d2, NORMAL_MAX as int, 48 * SCALE);
    lemma_tdiv_bound(n.x * d2, SCALE as int, NORMAL_MAX as int * (48 * SCALE));
    lemma_tdiv_bound(n.y * d2, SCALE as int, NORMAL_MAX as int * (48 * SCALE));
    lemma_tdiv_bound(n.z * d2, SCALE as int, NORMAL_MAX as int * (48 * SCALE));
}

/// Schlick's reflectance approximation.
fn reflectance(cosine: i128, ref_idx: i128) -> (r: i128)
    requires
        -(24 * SCALE) <= cosine <= SCALE,
        1024 <= ref_idx <= 4 * SCALE * SCALE,
    ensures
        r == s_reflectance(cosine as int, ref_idx as int),
{
    let mut r0 = fdiv(SCALE - ref_idx, SCALE + ref_idx);
    proof {
        lemma_fdivs_ratio_bound(SCALE - ref_idx, SCALE + ref_idx);
        lemma_mul_bound(r0 as int, r0 as int, SCALE as int, SCALE as int);
        lemma_tdiv_bound(r0 as int * r0, SCALE as int, SCALE as int * (SCALE as int));
    }
    r0 = fmul(r0, r0);
    let x = SCALE - cosine;
    proof {
        lemma_mul_bound(x as int, x as int, 25 * SCALE, 25 * SCALE);
        lemma_tdiv_bound(x as int * x, SCALE as int, 25 * SCALE * (25 * SCALE));
    }
    let x2 = fmul(x, x);
    proof {
        lemma_mul_bound(x2 as int, x2 as int, 625 * SCALE, 625 * SCALE);
        lemma_tdiv_bound(x2 as int * x2, SCALE as int, 625 * SCALE * (625 * SCALE));
    }
    let x4 = fmul(x2, x2);
    proof {
        lemma_mul_bound(x4 as int, x as int, 390625 * SCALE, 25 * SCALE);
        lemma_tdiv_bound(x4 as int * x, SCALE as int, 390625 * SCALE * (25 * SCALE));
    }
    let x5 = fmul(x4, x);
    proof {
        lemma_mul_bound(SCALE as int - r0, x5 as int, 2 * SCALE, 9765625 * SCALE);
        lemma_tdiv_bound((SCALE as int - r0) * x5, SCALE as int, 2 * SCALE * (9765625 * SCALE));
    }
    let tail = fmul(SCALE - r0, x5);
    r0 + tail
}

} // verus!
