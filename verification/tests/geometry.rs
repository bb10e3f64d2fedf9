use raytracer::color::Color;
use raytracer::fixed::SCALE;
use raytracer::hittable::HitRecord;
use raytracer::hittable_list::HittableList;
use raytracer::interval::{Interval, HIT_EPS, INF, NEG_INF};
use raytracer::material::Material;
use raytracer::ray::Ray;
use raytracer::sphere::Sphere;
use raytracer::vec3::Vec3;

fn grey() -> Material {
    Material::Lambertian(Color::new(SCALE / 2, SCALE / 2, SCALE / 2))
}

#[test]
fn interval_contains_and_surrounds() {
    let iv = Interval::new(10, 20);
    assert!(iv.contains(10));
    assert!(iv.contains(20));
    assert!(!iv.contains(9));
    assert!(!iv.surrounds(10));
    assert!(iv.surrounds(11));
    assert!(!iv.surrounds(20));
}

#[test]
fn interval_empty_universe_default() {
    let e = Interval::empty();
    assert!(!e.contains(0));
    let u = Interval::universe();
    assert!(u.contains(0));
    assert_eq!(u.min(), NEG_INF);
    assert_eq!(u.max(), INF);
    let d = Interval::default();
    assert_eq!(d.min(), e.min());
    assert_eq!(d.max(), e.max());
}

#[test]
fn interval_clamp() {
    let iv = Interval::new(0, 1000);
    assert_eq!(iv.clamp(-5), 0);
    assert_eq!(iv.clamp(500), 500);
    assert_eq!(iv.clamp(2000), 1000);
}

#[test]
fn shadow_acne_guard_excludes_tiny_parameters() {
    // The hit interval the light transport uses rejects every parameter at
    // or below the acne threshold, so a bounce cannot re-hit its origin.
    let shadow = Interval::new(HIT_EPS, INF);
    assert!(!shadow.surrounds(0));
    assert!(!shadow.surrounds(HIT_EPS));
    assert!(!shadow.surrounds(-50));
    assert!(shadow.surrounds(HIT_EPS + 1));
}

#[test]
fn sphere_accessors() {
    let s = Sphere::new(Vec3::new(1, 2, 3), SCALE, grey());
    assert_eq!(s.center().x(), 1);
    assert_eq!(s.radius(), SCALE);
}

#[test]
fn sphere_params_ok_rejects_zero_radius() {
    let m = grey();
    assert!(Sphere::params_ok(Vec3::zero(), SCALE, &m));
    assert!(!Sphere::params_ok(Vec3::zero(), 0, &m));
    assert!(!Sphere::params_ok(Vec3::zero(), SCALE, &Material::Dielectric(1)));
}

#[test]
fn ray_from_center_hits_at_radius() {
    // A ray cast from the sphere's center meets the surface at t == radius
    // when its direction is exactly unit.
    let s = Sphere::new(Vec3::new(0, 0, -SCALE), SCALE, grey());
    let ray = Ray::new(Vec3::new(0, 0, -SCALE), Vec3::new(0, 0, -SCALE));
    let mut rec = HitRecord::default();
    let hit = s.hit(ray, Interval::new(HIT_EPS, INF), &mut rec);
    assert!(hit);
    assert_eq!(rec.t, SCALE);
}

#[test]
fn sphere_hit_from_outside() {
    let s = Sphere::new(Vec3::new(0, 0, -2 * SCALE), SCALE, grey());
    let ray = Ray::new(Vec3::zero(), Vec3::new(0, 0, -SCALE));
    let mut rec = HitRecord::default();
    assert!(s.hit(ray, Interval::new(HIT_EPS, INF), &mut rec));
    assert_eq!(rec.t, SCALE);
    assert!(rec.front_face);
    assert_eq!((rec.normal.x(), rec.normal.y(), rec.normal.z()), (0, 0, SCALE));
    assert_eq!((rec.point.x(), rec.point.y(), rec.point.z()), (0, 0, -SCALE));
}

#[test]
fn sphere_miss_leaves_record_alone() {
    let s = Sphere::new(Vec3::new(0, 0, -2 * SCALE), SCALE, grey());
    let ray = Ray::new(Vec3::zero(), Vec3::new(0, 0, SCALE));
    let mut rec = HitRecord::default();
    rec.t = 42;
    assert!(!s.hit(ray, Interval::new(HIT_EPS, INF), &mut rec));
    assert_eq!(rec.t, 42);
}

#[test]
fn negative_radius_flips_the_normal() {
    // A hollow shell: the "outward" normal of a negative radius points
    // inward, so a hit from outside reports a back face.
    let s = Sphere::new(Vec3::new(0, 0, -2 * SCALE), -SCALE, grey());
    let ray = Ray::new(Vec3::zero(), Vec3::new(0, 0, -SCALE));
    let mut rec = HitRecord::default();
    assert!(s.hit(ray, Interval::new(HIT_EPS, INF), &mut rec));
    assert!(!rec.front_face);
    assert_eq!((rec.normal.x(), rec.normal.y(), rec.normal.z()), (0, 0, SCALE));
}

#[test]
fn ray_at_steps_along_the_direction() {
    let ray = Ray::new(Vec3::new(SCALE, 0, 0), Vec3::new(0, 0, -SCALE));
    let p = ray.at(2 * SCALE);
    assert_eq!((p.x(), p.y(), p.z()), (SCALE, 0, -2 * SCALE));
    assert_eq!(ray.origin().x(), SCALE);
    assert_eq!(ray.direction().z(), -SCALE);
}

#[test]
fn set_face_normal_orients_against_the_ray() {
    let mut rec = HitRecord::default();
    let ray = Ray::new(Vec3::zero(), Vec3::new(0, 0, -SCALE));
    rec.set_face_normal(ray, Vec3::new(0, 0, SCALE));
    assert!(rec.front_face);
    assert_eq!(rec.normal.z(), SCALE);
    rec.set_face_normal(ray, Vec3::new(0, 0, -SCALE));
    assert!(!rec.front_face);
    assert_eq!(rec.normal.z(), SCALE);
}

#[test]
fn list_returns_the_nearest_hit() {
    let mut world = HittableList::new();
    world.add(Sphere::new(Vec3::new(0, 0, -6 * SCALE), SCALE, grey()));
    world.add(Sphere::new(Vec3::new(0, 0, -3 * SCALE), SCALE, grey()));
    let ray = Ray::new(Vec3::zero(), Vec3::new(0, 0, -SCALE));
    let mut rec = HitRecord::default();
    assert!(world.hit(ray, Interval::new(HIT_EPS, INF), &mut rec));
    assert_eq!(rec.t, 2 * SCALE);
}

#[test]
fn empty_list_misses() {
    let world = HittableList::new();
    let ray = Ray::new(Vec3::zero(), Vec3::new(0, 0, -SCALE));
    let mut rec = HitRecord::default();
    assert!(!world.hit(ray, Interval::new(HIT_EPS, INF), &mut rec));
}
