//! The camera and the light-transport recursion.
//!
//! The camera precomputes its viewport geometry once; `get_ray` jitters a
//! ray through a pixel, `ray_color` follows it through the scene, and
//! `render` resolves every pixel of the image.

use vstd::prelude::*;

verus! {

use crate::color::Color;
use crate::color::s_resolve_channel;
use crate::fixed::SCALE;
use crate::fixed::fmuls;
use crate::fixed::tdiv;
use crate::fixed::fmul;
use crate::fixed::lemma_mul_bound;
use crate::fixed::lemma_tdiv_bound;
use crate::fixed::lemma_tdiv_close;
use crate::fixed::lemma_tdiv_exact;
use crate::hittable::HitRecord;
use crate::hittable::WORLD_MAX;
use crate::hittable_list::HittableList;
use crate::hittable_list::lemma_list_hit_some;
use crate::hittable_list::list_wf;
use crate::hittable_list::spec_list_hit;
use crate::material::possible_scatter;
use crate::sphere::Sphere;
use crate::vec3::s_mul;
use crate::interval::HIT_EPS;
use crate::interval::INF;
use crate::interval::Interval;
use crate::ray::Ray;
use crate::ray::Rays;
use crate::utility::random_scalar;
use crate::vec3::LEN_MAX;
use crate::vec3::Point3;
use crate::vec3::Vec3;
use crate::vec3::Vec3s;
use crate::vec3::bounded;
use crate::vec3::lemma_cross_bounded;
use crate::vec3::lemma_div_int_bounded;
use crate::vec3::lemma_scale_bounded;
use crate::vec3::lemma_unit_bounded;
use crate::vec3::s_add;
use crate::vec3::s_cross;
use crate::vec3::s_div_int;
use crate::vec3::s_len_sq;
use crate::vec3::s_neg;
use crate::vec3::s_scale;
use crate::vec3::s_scale_int;
use crate::vec3::s_sub;
use crate::vec3::s_unit;
use crate::vec3::within;
use vstd::arithmetic::div_mod::lemma_div_pos_is_pos;
use vstd::arithmetic::mul::lemma_mul_inequality;

/// Componentwise bound on the pixel-grid origin of a valid camera.
pub const PIX_MAX: i128 = 137438953472;

/// Componentwise bound on the per-pixel deltas of a valid camera.
pub const DELTA_MAX: i128 = 4194304;

/// Largest image side length a camera accepts.
pub const SIDE_MAX: u32 = 16384;

/// Largest sample count per pixel a camera accepts.
pub const SAMPLES_MAX: u32 = 65536;

/// The red channel of the sky color at the top of the gradient, one half;
/// its blue channel is full, its green the constant below.
pub const SKY_BLUE_X: i128 = 524288;

/// The green channel of the sky color, seven tenths.
pub const SKY_BLUE_Y: i128 = 734003;

/// The background: a vertical gradient from white toward sky blue, driven by
/// the upward component of the unit ray direction.  A direction too large or
/// too small to normalize contributes the gradient's midpoint.
pub open spec fn s_sky(r: Rays) -> Vec3s {
    let u = if bounded(r.direction, LEN_MAX as int) && 1 <= s_len_sq(r.direction) {
        s_unit(r.direction)
    } else {
        Vec3s { x: 0, y: 0, z: 0 }
    };
    let t = tdiv(u.y + SCALE, 2);
    s_add(
        s_scale(Vec3s { x: SCALE as int, y: SCALE as int, z: SCALE as int }, SCALE - t),
        s_scale(Vec3s { x: SKY_BLUE_X as int, y: SKY_BLUE_Y as int, z: SCALE as int }, t),
    )
}

/// One channel of the sky blend stays within twice full brightness.
proof fn lemma_sky_channel(bc: int, t: int)
    requires
        524288 <= bc <= SCALE,
        -1572864 <= t <= 1572864,
    ensures
        0 <= (SCALE - t) + fmuls(bc, t) <= 2 * SCALE,
{
    lemma_tdiv_close(bc * t, SCALE as int);
    assert(bc * t == SCALE * t - (SCALE - bc) * t) by (nonlinear_arith);
    lemma_mul_bound(SCALE as int - bc, t, 524288, 1572864);
}

/// One admissible run of the light transport, recorded bounce by bounce:
/// each entry of `bounces` holds the attenuation drawn at a hit, the
/// scattered ray, and the color the recursion carries back along it.  After
/// the recorded bounces the path ends by exhausting the budget, missing the
/// scene, or being absorbed at a hit, and each level's color is the next
/// level's color filtered by that level's attenuation.
pub open spec fn possible_path(
    objs: Seq<Sphere>,
    r: Rays,
    depth: int,
    c: Vec3s,
    bounces: Seq<(Vec3s, Rays, Vec3s)>,
) -> bool
    decreases bounces.len(),
{
    if bounces.len() == 0 {
        if depth <= 0 {
            c == (Vec3s { x: 0, y: 0, z: 0 })
        } else if spec_list_hit(objs, r, HIT_EPS as int, INF as int) is None {
            c == s_sky(r)
        } else {
            exists|att: Vec3s, sray: Rays|
                c == (Vec3s { x: 0, y: 0, z: 0 }) && #[trigger] possible_scatter(
                    spec_list_hit(objs, r, HIT_EPS as int, INF as int)->Some_0.material,
                    r,
                    spec_list_hit(objs, r, HIT_EPS as int, INF as int)->Some_0,
                    (false, att, sray),
                )
        }
    } else {
        let step = bounces.first();
        &&& depth > 0
        &&& spec_list_hit(objs, r, HIT_EPS as int, INF as int) is Some
        &&& possible_scatter(
            spec_list_hit(objs, r, HIT_EPS as int, INF as int)->Some_0.material,
            r,
            spec_list_hit(objs, r, HIT_EPS as int, INF as int)->Some_0,
            (true, step.0, step.1),
        )
        &&& c == s_mul(step.2, step.0)
        &&& possible_path(objs, step.1, depth - 1, step.2, bounces.drop_first())
    }
}

/// The colors the light transport can return for a ray with the given
/// bounce budget: those reached by some admissible run of bounces.
pub open spec fn possible_ray_color(objs: Seq<Sphere>, r: Rays, depth: int, c: Vec3s) -> bool {
    exists|bounces: Seq<(Vec3s, Rays, Vec3s)>| #[trigger] possible_path(objs, r, depth, c, bounces)
}

/// Follow a ray through the scene: black once the bounce budget is spent,
/// the sky on a miss, and otherwise the scattered ray's color filtered by
/// the material's attenuation (or black when the material absorbs the ray).
/// The result is a possible transport color for the ray, and every channel
/// lies in `[0, 2]`.
#[verifier::rlimit(60)]
pub fn ray_color(r: Ray, depth: u32, world: &HittableList) -> (c: Color)
    requires
        list_wf(*world),
    ensures
        0 <= c@.x <= 2 * SCALE,
        0 <= c@.y <= 2 * SCALE,
        0 <= c@.z <= 2 * SCALE,
        possible_ray_color(world.objects@, r@, depth as int, c@),
        depth == 0 ==> c@ == (Vec3s { x: 0, y: 0, z: 0 }),
        depth > 0 && spec_list_hit(world.objects@, r@, HIT_EPS as int, INF as int) is None
            ==> c@ == s_sky(r@),
    decreases depth,
{
    if depth == 0 {
        let out = Vec3::zero();
        proof {
            assert(possible_path(
                world.objects@,
                r@,
                depth as int,
                out@,
                Seq::<(Vec3s, Rays, Vec3s)>::empty(),
            ));
        }
        return out;
    }
    let mut rec = HitRecord::default();
    if world.hit(r, Interval::new(HIT_EPS, INF), &mut rec) {
        proof {
            lemma_list_hit_some(world.objects@, r@, HIT_EPS as int, INF as int);
        }
        let mut scattered = Ray::default();
        let mut attenuation = Color::default();
        if rec.material.scatter(&r, &rec, &mut attenuation, &mut scattered) {
            let next = ray_color(scattered, depth - 1, world);
            proof {
                lemma_mul_bound(next@.x, attenuation@.x, 2 * SCALE, SCALE as int);
                lemma_mul_bound(next@.y, attenuation@.y, 2 * SCALE, SCALE as int);
                lemma_mul_bound(next@.z, attenuation@.z, 2 * SCALE, SCALE as int);
                lemma_tdiv_bound(next@.x * attenuation@.x, SCALE as int, 2 * SCALE * (
                SCALE as int));
                lemma_tdiv_bound(next@.y * attenuation@.y, SCALE as int, 2 * SCALE * (
                SCALE as int));
                lemma_tdiv_bound(next@.z * attenuation@.z, SCALE as int, 2 * SCALE * (
                SCALE as int));
                lemma_div_pos_is_pos(next@.x * attenuation@.x, SCALE as int);
                lemma_div_pos_is_pos(next@.y * attenuation@.y, SCALE as int);
                lemma_div_pos_is_pos(next@.z * attenuation@.z, SCALE as int);
            }
            let out = next.mul(attenuation);
            proof {
                let sub = choose|b: Seq<(Vec3s, Rays, Vec3s)>|
                    #[trigger] possible_path(world.objects@, scattered@, depth as int - 1, next@, b);
                let step = (attenuation@, scattered@, next@);
                let steps = seq![step] + sub;
                assert(steps.first() == step);
                assert(steps.drop_first() =~= sub);
                assert(possible_scatter(
                    spec_list_hit(world.objects@, r@, HIT_EPS as int, INF as int)->Some_0.material,
                    r@,
                    spec_list_hit(world.objects@, r@, HIT_EPS as int, INF as int)->Some_0,
                    (true, attenuation@, scattered@),
                ));
                assert(possible_path(world.objects@, r@, depth as int, out@, steps));
            }
            return out;
        }
        let out = Vec3::zero();
        proof {
            assert(possible_scatter(
                spec_list_hit(world.objects@, r@, HIT_EPS as int, INF as int)->Some_0.material,
                r@,
                spec_list_hit(world.objects@, r@, HIT_EPS as int, INF as int)->Some_0,
                (false, attenuation@, scattered@),
            ));
            assert(possible_path(
                world.objects@,
                r@,
                depth as int,
                out@,
                Seq::<(Vec3s, Rays, Vec3s)>::empty(),
            ));
        }
        return out;
    }
    let dirv = r.direction();
    let u = if within(dirv, LEN_MAX) {
        let ls = dirv.length_squared();
        if 1 <= ls {
            dirv.unit_vector()
        } else {
            Vec3::zero()
        }
    } else {
        Vec3::zero()
    };
    proof {
        if bounded(r@.direction, LEN_MAX as int) && 1 <= s_len_sq(r@.direction) {
            lemma_unit_bounded(r@.direction);
        }
    }
    let t = (u.y() + SCALE) / 2;
    proof {
        lemma_tdiv_bound(u@.y + SCALE, 2, 3 * SCALE);
        lemma_sky_channel(SKY_BLUE_X as int, t as int);
        lemma_sky_channel(SKY_BLUE_Y as int, t as int);
        lemma_sky_channel(SCALE as int, t as int);
        lemma_tdiv_exact(SCALE as int - t, SCALE as int);
        lemma_tdiv_exact(t as int, SCALE as int);
        assert((SCALE as int) * (SCALE as int - t) == (SCALE as int - t) * (SCALE as int))
            by (nonlinear_arith);
        assert((SCALE as int) * (t as int) == (t as int) * (SCALE as int)) by (nonlinear_arith);
        assert((SKY_BLUE_X as int) * (t as int) == (t as int) * (SKY_BLUE_X as int))
            by (nonlinear_arith);
        assert((SKY_BLUE_Y as int) * (t as int) == (t as int) * (SKY_BLUE_Y as int))
            by (nonlinear_arith);
    }
    let white = Vec3::new(SCALE, SCALE, SCALE);
    let blue = Vec3::new(SKY_BLUE_X, SKY_BLUE_Y, SCALE);
    let out = white.scale(SCALE - t).add(blue.scale(t));
    proof {
        assert(possible_path(
            world.objects@,
            r@,
            depth as int,
            out@,
            Seq::<(Vec3s, Rays, Vec3s)>::empty(),
        ));
    }
    out
}

/// The mathematical model of a camera's precomputed state.
pub ghost struct CameraS {
    pub image_width: int,
    pub image_height: int,
    pub center: Vec3s,
    pub pixel00_location: Vec3s,
    pub pixel_delta_x: Vec3s,
    pub pixel_delta_y: Vec3s,
    pub samples_per_pixel: int,
    pub max_depth: int,
    pub defocus_angle: int,
    pub defocus_disk_u: Vec3s,
    pub defocus_disk_v: Vec3s,
}

pub struct Camera {
    pub image_width: u32,
    pub image_height: u32,
    pub center: Point3,
    pub pixel00_location: Point3,
    pub pixel_delta_x: Vec3,
    pub pixel_delta_y: Vec3,
    pub samples_per_pixel: u32,
    pub max_depth: u32,
    pub defocus_angle: i128,
    pub defocus_disk_u: Vec3,
    pub defocus_disk_v: Vec3,
}

impl View for Camera {
    type V = CameraS;

    open spec fn view(&self) -> CameraS {
        CameraS {
            image_width: self.image_width as int,
            image_height: self.image_height as int,
            center: self.center@,
            pixel00_location: self.pixel00_location@,
            pixel_delta_x: self.pixel_delta_x@,
            pixel_delta_y: self.pixel_delta_y@,
            samples_per_pixel: self.samples_per_pixel as int,
            max_depth: self.max_depth as int,
            defocus_angle: self.defocus_angle as int,
            defocus_disk_u: self.defocus_disk_u@,
            defocus_disk_v: self.defocus_disk_v@,
        }
    }
}

/// The ranges a constructed camera's state stays within, which keep every
/// ray it generates inside the renderer's working bounds.
pub open spec fn camera_wf(c: Camera) -> bool {
    &&& 1 <= c.image_width <= SIDE_MAX
    &&& 1 <= c.image_height <= SIDE_MAX
    &&& 1 <= c.samples_per_pixel <= SAMPLES_MAX
    &&& bounded(c.center@, WORLD_MAX as int)
    &&& bounded(c.pixel00_location@, PIX_MAX as int)
    &&& bounded(c.pixel_delta_x@, DELTA_MAX as int)
    &&& bounded(c.pixel_delta_y@, DELTA_MAX as int)
    &&& bounded(c.defocus_disk_u@, WORLD_MAX as int)
    &&& bounded(c.defocus_disk_v@, WORLD_MAX as int)
}

/// What the camera constructor computes, step for step: the image height
/// from the aspect ratio, the orthonormal basis from the view direction,
/// the viewport rectangle at the focus distance, the pixel grid, and the
/// defocus-disk basis.  `None` when the configuration degenerates (height
/// out of range, the up vector parallel to the view axis) or when the
/// resulting geometry leaves the working ranges.
pub open spec fn spec_camera_new(
    aspect_ratio: int,
    image_width: int,
    samples_per_pixel: int,
    max_depth: int,
    tan_half_vfov: int,
    look_from: Vec3s,
    look_to: Vec3s,
    vup: Vec3s,
    defocus_angle: int,
    tan_half_defocus: int,
    focus_dist: int,
) -> Option<CameraS> {
    let image_height = tdiv(image_width * SCALE, aspect_ratio);
    if !(1 <= image_height <= SIDE_MAX as int) {
        Option::None
    } else {
        let center = look_from;
        let w = s_unit(s_sub(look_from, look_to));
        let cu = s_cross(vup, w);
        if s_len_sq(cu) < 1 {
            Option::None
        } else {
            let u = s_unit(cu);
            let v = s_cross(w, u);
            let viewport_height = 2 * fmuls(tan_half_vfov, focus_dist);
            let ratio_wh = tdiv(image_width * SCALE, image_height);
            let viewport_width = fmuls(ratio_wh, viewport_height);
            let viewport_u = s_scale(u, viewport_width);
            let viewport_v = s_scale(s_neg(v), viewport_height);
            let pixel_delta_x = s_div_int(viewport_u, image_width);
            let pixel_delta_y = s_div_int(viewport_v, image_height);
            let viewport_upper_left = s_sub(
                s_sub(s_sub(center, s_scale(w, focus_dist)), s_div_int(viewport_u, 2)),
                s_div_int(viewport_v, 2),
            );
            let pixel00_location = s_add(
                viewport_upper_left,
                s_div_int(s_add(pixel_delta_x, pixel_delta_y), 2),
            );
            let defocus_radius = fmuls(focus_dist, tan_half_defocus);
            let defocus_disk_u = s_scale(u, defocus_radius);
            let defocus_disk_v = s_scale(v, defocus_radius);
            if !(bounded(pixel00_location, PIX_MAX as int) && bounded(
                pixel_delta_x,
                DELTA_MAX as int,
            ) && bounded(pixel_delta_y, DELTA_MAX as int) && bounded(
                defocus_disk_u,
                WORLD_MAX as int,
            ) && bounded(defocus_disk_v, WORLD_MAX as int)) {
                Option::None
            } else {
                Option::Some(
                    CameraS {
                        image_width,
                        image_height,
                        center,
                        pixel00_location,
                        pixel_delta_x,
                        pixel_delta_y,
                        samples_per_pixel,
                        max_depth,
                        defocus_angle,
                        defocus_disk_u,
                        defocus_disk_v,
                    },
                )
            }
        }
    }
}

/// The input ranges `Camera::new` accepts.
pub open spec fn camera_args_ok(
    aspect_ratio: int,
    image_width: int,
    samples_per_pixel: int,
    tan_half_vfov: int,
    look_from: Vec3s,
    look_to: Vec3s,
    vup: Vec3s,
    defocus_angle: int,
    tan_half_defocus: int,
    focus_dist: int,
) -> bool {
    &&& 1 <= aspect_ratio <= 16 * SCALE
    &&& 1 <= image_width <= SIDE_MAX as int
    &&& 1 <= samples_per_pixel <= SAMPLES_MAX as int
    &&& 1 <= tan_half_vfov <= 8 * SCALE
    &&& 0 <= tan_half_defocus <= SCALE
    &&& -(1024 * (SCALE as int)) <= defocus_angle <= 1024 * SCALE
    &&& 65536 <= focus_dist <= 1073741824
    &&& bounded(look_from, WORLD_MAX as int)
    &&& bounded(look_to, WORLD_MAX as int)
    &&& bounded(vup, 16 * SCALE)
    &&& 1 <= s_len_sq(s_sub(look_from, look_to))
}

impl Camera {
    /// Build a camera from its configuration.  The field of view and the
    /// defocus cone are given by the tangents of their half angles, which
    /// is the form the viewport geometry consumes.  Returns `None` exactly
    /// when `spec_camera_new` does: a degenerate configuration.
    pub fn new(
        aspect_ratio: i128,
        image_width: u32,
        samples_per_pixel: u32,
        max_depth: u32,
        tan_half_vfov: i128,
        look_from: Point3,
        look_to: Point3,
        vup: Vec3,
        defocus_angle: i128,
        tan_half_defocus: i128,
        focus_dist: i128,
    ) -> (r: Option<Camera>)
        requires
            camera_args_ok(
                aspect_ratio as int,
                image_width as int,
                samples_per_pixel as int,
                tan_half_vfov as int,
                look_from@,
                look_to@,
                vup@,
                defocus_angle as int,
                tan_half_defocus as int,
                focus_dist as int,
            ),
        ensures
            ({
                let model = spec_camera_new(
                    aspect_ratio as int,
                    image_width as int,
                    samples_per_pixel as int,
                    max_depth as int,
                    tan_half_vfov as int,
                    look_from@,
                    look_to@,
                    vup@,
                    defocus_angle as int,
                    tan_half_defocus as int,
                    focus_dist as int,
                );
                match r {
                    Option::Some(cam) => model == Option::Some(cam@) && camera_wf(cam)
                        && cam.max_depth == max_depth && cam.samples_per_pixel
                        == samples_per_pixel,
                    Option::None => model is None,
                }
            }),
    {
        let image_height_w = (image_width as i128) * SCALE / aspect_ratio;
        if !(1 <= image_height_w && image_height_w <= SIDE_MAX as i128) {
            return Option::None;
        }
        let image_height = image_height_w as u32;
        let center = look_from;
        let diff = look_from.sub(look_to);
        let w = diff.unit_vector();
        proof {
            lemma_unit_bounded(diff@);
        }
        let cu = vup.cross(w);
        proof {
            lemma_cross_bounded(vup@, w@, 16 * SCALE, 2 * SCALE);
        }
        let cu_ls = cu.length_squared();
        if cu_ls < 1 {
            return Option::None;
        }
        let u = cu.unit_vector();
        proof {
            lemma_unit_bounded(cu@);
        }
        let v = w.cross(u);
        proof {
            lemma_cross_bounded(w@, u@, 2 * SCALE, 2 * SCALE);
            lemma_mul_bound(tan_half_vfov as int, focus_dist as int, 8 * SCALE, 1073741824);
            lemma_tdiv_bound(tan_half_vfov as int * focus_dist, SCALE as int, 8 * SCALE
                * 1073741824);
        }
        let viewport_height = 2 * fmul(tan_half_vfov, focus_dist);
        let ratio_wh = (image_width as i128) * SCALE / (image_height as i128);
        proof {
            lemma_tdiv_bound(image_width as int * SCALE, image_height as int, 17179869184);
            lemma_mul_bound(ratio_wh as int, viewport_height as int, 17179869184, 2 * (8 * SCALE
                * 1073741824 / (SCALE as int)));
            lemma_tdiv_bound(ratio_wh as int * viewport_height, SCALE as int, 17179869184 * (2 * (
            8 * SCALE * 1073741824 / (SCALE as int))));
        }
        let viewport_width = fmul(ratio_wh, viewport_height);
        proof {
            lemma_scale_bounded(u@, viewport_width as int, 2 * SCALE, 281474976710656);
            lemma_scale_bounded(s_neg(v@), viewport_height as int, 8 * SCALE, 17179869184);
            lemma_scale_bounded(w@, focus_dist as int, 2 * SCALE, 1073741824);
        }
        let viewport_u = u.scale(viewport_width);
        let viewport_v = v.neg().scale(viewport_height);
        proof {
            lemma_div_int_bounded(viewport_u@, image_width as int, 2 * SCALE * 281474976710656 / (
            SCALE as int));
            lemma_div_int_bounded(viewport_v@, image_height as int, 8 * SCALE * 17179869184 / (
            SCALE as int));
            lemma_div_int_bounded(viewport_u@, 2, 2 * SCALE * 281474976710656 / (SCALE as int));
            lemma_div_int_bounded(viewport_v@, 2, 8 * SCALE * 17179869184 / (SCALE as int));
        }
        let pixel_delta_x = viewport_u.div_int(image_width as i128);
        let pixel_delta_y = viewport_v.div_int(image_height as i128);
        let viewport_upper_left = center.sub(w.scale(focus_dist)).sub(viewport_u.div_int(2)).sub(
            viewport_v.div_int(2),
        );
        proof {
            lemma_div_int_bounded(
                s_add(pixel_delta_x@, pixel_delta_y@),
                2,
                2 * SCALE * 281474976710656 / (SCALE as int) + 8 * SCALE * 17179869184 / (
                SCALE as int),
            );
        }
        let pixel00_location = viewport_upper_left.add(pixel_delta_x.add(pixel_delta_y).div_int(2));
        proof {
            lemma_mul_bound(focus_dist as int, tan_half_defocus as int, 1073741824, SCALE as int);
            lemma_tdiv_bound(focus_dist as int * tan_half_defocus, SCALE as int, 1073741824 * (
            SCALE as int));
        }
        let defocus_radius = fmul(focus_dist, tan_half_defocus);
        proof {
            lemma_scale_bounded(u@, defocus_radius as int, 2 * SCALE, 1073741824);
            lemma_scale_bounded(v@, defocus_radius as int, 8 * SCALE, 1073741824);
        }
        let defocus_disk_u = u.scale(defocus_radius);
        let defocus_disk_v = v.scale(defocus_radius);
        if !(within(pixel00_location, PIX_MAX) && within(pixel_delta_x, DELTA_MAX) && within(
            pixel_delta_y,
            DELTA_MAX,
        ) && within(defocus_disk_u, WORLD_MAX) && within(defocus_disk_v, WORLD_MAX)) {
            return Option::None;
        }
        Option::Some(
            Camera {
                image_width,
                image_height,
                center,
                pixel00_location,
                pixel_delta_x,
                pixel_delta_y,
                samples_per_pixel,
                max_depth,
                defocus_angle,
                defocus_disk_u,
                defocus_disk_v,
            },
        )
    }

    /// Whether the given configuration lies in the ranges `new` accepts.
    pub fn params_ok(
        aspect_ratio: i128,
        image_width: u32,
        samples_per_pixel: u32,
        tan_half_vfov: i128,
        look_from: Point3,
        look_to: Point3,
        vup: Vec3,
        defocus_angle: i128,
        tan_half_defocus: i128,
        focus_dist: i128,
    ) -> (b: bool)
        ensures
            b == camera_args_ok(
                aspect_ratio as int,
                image_width as int,
                samples_per_pixel as int,
                tan_half_vfov as int,
                look_from@,
                look_to@,
                vup@,
                defocus_angle as int,
                tan_half_defocus as int,
                focus_dist as int,
            ),
    {
        let ranges = 1 <= aspect_ratio && aspect_ratio <= 16 * SCALE && 1 <= image_width
            && image_width <= SIDE_MAX && 1 <= samples_per_pixel && samples_per_pixel
            <= SAMPLES_MAX && 1 <= tan_half_vfov && tan_half_vfov <= 8 * SCALE && 0
            <= tan_half_defocus && tan_half_defocus <= SCALE && -(1024 * SCALE) <= defocus_angle
            && defocus_angle <= 1024 * SCALE && 65536 <= focus_dist && focus_dist <= 1073741824
            && within(look_from, WORLD_MAX) && within(look_to, WORLD_MAX) && within(
            vup,
            16 * SCALE,
        );
        if !ranges {
            return false;
        }
        let diff = look_from.sub(look_to);
        1 <= diff.length_squared()
    }

    /// A random offset within one pixel's footprint, for antialiasing.
    fn pixel_sample_square(&self) -> (r: Vec3)
        requires
            camera_wf(*self),
        ensures
            exists|jx: int, jy: int|
                0 <= jx < SCALE && 0 <= jy < SCALE && r@ == #[trigger] s_pixel_offset(
                    *self,
                    jx,
                    jy,
                ),
            bounded(r@, 2 * (DELTA_MAX as int)),
    {
        let jx = random_scalar();
        let jy = random_scalar();
        let px = jx - 524288;
        let py = jy - 524288;
        proof {
            lemma_scale_bounded(self.pixel_delta_x@, px as int, DELTA_MAX as int, 524288);
            lemma_scale_bounded(self.pixel_delta_y@, py as int, DELTA_MAX as int, 524288);
        }
        let r = self.pixel_delta_x.scale(px).add(self.pixel_delta_y.scale(py));
        proof {
            assert(r@ == s_pixel_offset(*self, jx as int, jy as int));
        }
        r
    }

    /// A random origin on the defocus lens disk.
    fn defocus_disk_sample(&self) -> (r: Point3)
        requires
            camera_wf(*self),
        ensures
            exists|p: Vec3s| disk_sample_ok(p) && r@ == #[trigger] s_disk_point(*self, p),
            bounded(r@, 3 * (WORLD_MAX as int)),
    {
        let p = Vec3::random_in_unit_disk();
        proof {
            lemma_scale_bounded(self.defocus_disk_u@, p@.x, WORLD_MAX as int, SCALE as int);
            lemma_scale_bounded(self.defocus_disk_v@, p@.y, WORLD_MAX as int, SCALE as int);
        }
        let r = self.center.add(self.defocus_disk_u.scale(p.x())).add(
            self.defocus_disk_v.scale(p.y()),
        );
        proof {
            assert(r@ == s_disk_point(*self, p@));
        }
        r
    }

    /// A ray through a jittered sample point in pixel `(i, j)`, originating
    /// at the camera center, or on the lens disk when depth of field is on.
    pub fn get_ray(&self, i: u32, j: u32) -> (r: Ray)
        requires
            camera_wf(*self),
            i < self.image_width,
            j < self.image_height,
        ensures
            exists|jx: int, jy: int, disk: Vec3s|
                0 <= jx < SCALE && 0 <= jy < SCALE && disk_sample_ok(disk) && r@
                    == #[trigger] s_get_ray(*self, i as int, j as int, jx, jy, disk),
    {
        proof {
            lemma_mul_bound(self.pixel_delta_x@.x, i as int, DELTA_MAX as int, 16384);
            lemma_mul_bound(self.pixel_delta_x@.y, i as int, DELTA_MAX as int, 16384);
            lemma_mul_bound(self.pixel_delta_x@.z, i as int, DELTA_MAX as int, 16384);
            lemma_mul_bound(self.pixel_delta_y@.x, j as int, DELTA_MAX as int, 16384);
            lemma_mul_bound(self.pixel_delta_y@.y, j as int, DELTA_MAX as int, 16384);
            lemma_mul_bound(self.pixel_delta_y@.z, j as int, DELTA_MAX as int, 16384);
        }
        let pixel_center = self.pixel00_location.add(self.pixel_delta_x.scale_int(i as i128)).add(
            self.pixel_delta_y.scale_int(j as i128),
        );
        let offset = self.pixel_sample_square();
        let pixel_sample = pixel_center.add(offset);
        let ray_origin = if self.defocus_angle <= 0 {
            self.center
        } else {
            self.defocus_disk_sample()
        };
        let ray_direction = pixel_sample.sub(ray_origin);
        let r = Ray::new(ray_origin, ray_direction);
        proof {
            let (jx, jy) = choose|jx: int, jy: int|
                0 <= jx < SCALE && 0 <= jy < SCALE && offset@ == #[trigger] s_pixel_offset(
                    *self,
                    jx,
                    jy,
                );
            if self.defocus_angle <= 0 {
                let disk0 = Vec3s { x: 0, y: 0, z: 0 };
                assert(0int * 0 == 0) by (nonlinear_arith);
                assert(s_len_sq(disk0) == 0);
                assert(disk_sample_ok(disk0));
                assert(r@ == s_get_ray(*self, i as int, j as int, jx, jy, disk0));
            } else {
                let disk = choose|p: Vec3s|
                    disk_sample_ok(p) && ray_origin@ == #[trigger] s_disk_point(*self, p);
                assert(r@ == s_get_ray(*self, i as int, j as int, jx, jy, disk));
            }
        }
        r
    }

    /// Render the scene: for every pixel, in row-major order from the top,
    /// average the configured number of jittered ray-color samples, then
    /// resolve to an 8-bit triple.  Each emitted pixel is the resolution of
    /// some admissible run of transport samples for its own grid position;
    /// with no bounce budget at all, every pixel of the image is exactly
    /// black.
    #[verifier::rlimit(60)]
    pub fn render(&self, world: &HittableList) -> (pixels: Vec<(u8, u8, u8)>)
        requires
            camera_wf(*self),
            list_wf(*world),
        ensures
            pixels@.len() == (self.image_height as int) * (self.image_width as int),
            forall|i: int, j: int|
                0 <= i < self.image_width && 0 <= j < self.image_height ==> possible_pixel(
                    *self,
                    world.objects@,
                    i,
                    j,
                    #[trigger] pixels@[j * (self.image_width as int) + i],
                ),
            self.max_depth == 0 ==> forall|k: int|
                0 <= k < pixels@.len() ==> pixels@[k] == ((0u8, 0u8, 0u8)),
    {
        let ghost objs = world.objects@;
        let ghost w = self.image_width as int;
        let mut pixels: Vec<(u8, u8, u8)> = Vec::new();
        let mut j: u32 = 0;
        while j < self.image_height
            invariant
                camera_wf(*self),
                list_wf(*world),
                objs == world.objects@,
                w == self.image_width as int,
                0 <= j <= self.image_height,
                pixels@.len() == j as int * w,
                forall|i2: int, j2: int|
                    0 <= i2 < w && 0 <= j2 < j ==> possible_pixel(
                        *self,
                        objs,
                        i2,
                        j2,
                        #[trigger] pixels@[j2 * w + i2],
                    ),
                self.max_depth == 0 ==> forall|k: int|
                    0 <= k < pixels@.len() ==> pixels@[k] == ((0u8, 0u8, 0u8)),
            decreases self.image_height - j,
        {
            let mut i: u32 = 0;
            while i < self.image_width
                invariant
                    camera_wf(*self),
                    list_wf(*world),
                    objs == world.objects@,
                    w == self.image_width as int,
                    j < self.image_height,
                    0 <= i <= self.image_width,
                    pixels@.len() == j as int * w + i as int,
                    forall|i2: int, j2: int|
                        0 <= i2 < w && 0 <= j2 < j ==> possible_pixel(
                            *self,
                            objs,
                            i2,
                            j2,
                            #[trigger] pixels@[j2 * w + i2],
                        ),
                    forall|i2: int|
                        0 <= i2 < i ==> possible_pixel(
                            *self,
                            objs,
                            i2,
                            j as int,
                            #[trigger] pixels@[j as int * w + i2],
                        ),
                    self.max_depth == 0 ==> forall|k: int|
                        0 <= k < pixels@.len() ==> pixels@[k] == ((0u8, 0u8, 0u8)),
                decreases self.image_width - i,
            {
                let mut pixel_color = Vec3::zero();
                let ghost mut samples: Seq<Vec3s> = Seq::empty();
                let mut s: u32 = 0;
                while s < self.samples_per_pixel
                    invariant
                        camera_wf(*self),
                        list_wf(*world),
                        objs == world.objects@,
                        i < self.image_width,
                        j < self.image_height,
                        0 <= s <= self.samples_per_pixel,
                        0 <= pixel_color@.x <= 2 * SCALE * (s as int),
                        0 <= pixel_color@.y <= 2 * SCALE * (s as int),
                        0 <= pixel_color@.z <= 2 * SCALE * (s as int),
                        samples.len() == s as int,
                        forall|k: int|
                            0 <= k < samples.len() ==> possible_sample(*self, objs, i as int,
                                j as int, #[trigger] samples[k]),
                        pixel_color@ == s_sum(samples),
                        self.max_depth == 0 ==> pixel_color@ == (Vec3s { x: 0, y: 0, z: 0 }),
                    decreases self.samples_per_pixel - s,
                {
                    let ray = self.get_ray(i, j);
                    let sample = ray_color(ray, self.max_depth, world);
                    proof {
                        assert(2 * SCALE * (s as int + 1) == 2 * SCALE * (s as int) + 2 * SCALE)
                            by (nonlinear_arith);
                        assert(2 * SCALE * (s as int) <= 2 * SCALE * 65536) by (nonlinear_arith)
                            requires s <= 65536,
                        ;
                        let (jx, jy, disk) = choose|jx: int, jy: int, disk: Vec3s|
                            0 <= jx < SCALE && 0 <= jy < SCALE && disk_sample_ok(disk) && ray@
                                == #[trigger] s_get_ray(*self, i as int, j as int, jx, jy, disk);
                        assert(possible_ray_color(objs, s_get_ray(*self, i as int, j as int, jx,
                            jy, disk), self.max_depth as int, sample@));
                        assert(possible_sample(*self, objs, i as int, j as int, sample@));
                        let grown = samples.push(sample@);
                        assert(grown.drop_last() =~= samples);
                        assert(grown.last() == sample@);
                        samples = grown;
                    }
                    pixel_color.add_assign(sample);
                    s = s + 1;
                }
                proof {
                    assert(2 * SCALE * (self.samples_per_pixel as int) <= 2 * SCALE * 65536)
                        by (nonlinear_arith)
                        requires self.samples_per_pixel <= 65536,
                    ;
                    if self.max_depth == 0 {
                        lemma_tdiv_bound(0, self.samples_per_pixel as int, 0);
                        crate::color::lemma_gamma_zero();
                    }
                }
                let rgb = pixel_color.to_rgb8(self.samples_per_pixel);
                proof {
                    assert(possible_pixel(*self, objs, i as int, j as int, rgb));
                }
                pixels.push(rgb);
                proof {
                    assert forall|i2: int, j2: int| 0 <= i2 < w && 0 <= j2 < j implies
                        possible_pixel(
                        *self,
                        objs,
                        i2,
                        j2,
                        #[trigger] pixels@[j2 * w + i2],
                    ) by {
                        lemma_mul_inequality(j2 + 1, j as int, w);
                        assert((j2 + 1) * w == j2 * w + w) by (nonlinear_arith);
                    }
                    assert forall|i2: int| 0 <= i2 < i + 1 implies possible_pixel(
                        *self,
                        objs,
                        i2,
                        j as int,
                        #[trigger] pixels@[j as int * w + i2],
                    ) by {
                    }
                }
                i = i + 1;
            }
            proof {
                assert((j as int + 1) * w == j as int * w + w) by (nonlinear_arith);
                assert forall|i2: int, j2: int| 0 <= i2 < w && 0 <= j2 < j + 1 implies
                    possible_pixel(
                    *self,
                    objs,
                    i2,
                    j2,
                    #[trigger] pixels@[j2 * w + i2],
                ) by {
                    lemma_mul_inequality(j2 + 1, j as int + 1, w);
                    assert((j2 + 1) * w == j2 * w + w) by (nonlinear_arith);
                }
            }
            j = j + 1;
        }
        pixels
    }
}

/// The componentwise sum of a sequence of sample colors.
pub open spec fn s_sum(samples: Seq<Vec3s>) -> Vec3s
    decreases samples.len(),
{
    if samples.len() == 0 {
        Vec3s { x: 0, y: 0, z: 0 }
    } else {
        s_add(s_sum(samples.drop_last()), samples.last())
    }
}

/// A color one transport sample of pixel `(i, j)` can contribute: a
/// possible ray color, at the camera's bounce budget, of some ray the
/// camera can generate for that pixel.
pub open spec fn possible_sample(c: Camera, objs: Seq<Sphere>, i: int, j: int, s: Vec3s) -> bool {
    exists|jx: int, jy: int, disk: Vec3s|
        0 <= jx < SCALE && 0 <= jy < SCALE && disk_sample_ok(disk) && possible_ray_color(
            objs,
            #[trigger] s_get_ray(c, i, j, jx, jy, disk),
            c.max_depth as int,
            s,
        )
}

/// A triple pixel `(i, j)` of the rendered image can hold: the resolution
/// (average, gamma, clamp, quantize) of the sum of one admissible transport
/// sample per configured sample slot.
pub open spec fn possible_pixel(c: Camera, objs: Seq<Sphere>, i: int, j: int, px: (
    u8,
    u8,
    u8,
)) -> bool {
    exists|samples: Seq<Vec3s>|
        {
            &&& #[trigger] samples.len() == c.samples_per_pixel as int
            &&& forall|k: int|
                0 <= k < samples.len() ==> possible_sample(c, objs, i, j, #[trigger] samples[k])
            &&& px.0 == s_resolve_channel(s_sum(samples).x, c.samples_per_pixel as int)
            &&& px.1 == s_resolve_channel(s_sum(samples).y, c.samples_per_pixel as int)
            &&& px.2 == s_resolve_channel(s_sum(samples).z, c.samples_per_pixel as int)
        }
}

/// The jitter offset inside one pixel, for unit draws `jx` and `jy`.
pub open spec fn s_pixel_offset(c: Camera, jx: int, jy: int) -> Vec3s {
    s_add(
        s_scale(c.pixel_delta_x@, jx - 524288),
        s_scale(c.pixel_delta_y@, jy - 524288),
    )
}

/// A point on the defocus lens disk, for a unit-disk sample `p`.
pub open spec fn s_disk_point(c: Camera, p: Vec3s) -> Vec3s {
    s_add(s_add(c.center@, s_scale(c.defocus_disk_u@, p.x)), s_scale(c.defocus_disk_v@, p.y))
}

/// What the disk sampler can produce.
pub open spec fn disk_sample_ok(p: Vec3s) -> bool {
    bounded(p, SCALE as int) && s_len_sq(p) < SCALE && p.z == 0
}

/// The ray that pixel `(i, j)` yields for the given jitter draws and lens
/// sample: from the camera center (or the lens point, when the defocus cone
/// is open) toward the jittered sample point of the pixel.
pub open spec fn s_get_ray(c: Camera, i: int, j: int, jx: int, jy: int, disk: Vec3s) -> Rays {
    let pixel_center = s_add(
        s_add(c.pixel00_location@, s_scale_int(c.pixel_delta_x@, i)),
        s_scale_int(c.pixel_delta_y@, j),
    );
    let pixel_sample = s_add(pixel_center, s_pixel_offset(c, jx, jy));
    let origin = if c.defocus_angle <= 0 {
        c.center@
    } else {
        s_disk_point(c, disk)
    };
    Rays { origin, direction: s_sub(pixel_sample, origin) }
}

} // verus!
