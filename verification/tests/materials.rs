use raytracer::color::Color;
use raytracer::fixed::SCALE;
use raytracer::hittable::HitRecord;
use raytracer::material::{material_params_ok, Material};
use raytracer::ray::Ray;
use raytracer::utility::{random_scalar, random_scalar_range};
use raytracer::vec3::Vec3;

fn head_on_record(material: Material) -> (Ray, HitRecord) {
    let r_in = Ray::new(Vec3::zero(), Vec3::new(0, 0, -SCALE));
    let mut rec = HitRecord::default();
    rec.point = Vec3::new(0, 0, -SCALE);
    rec.normal = Vec3::new(0, 0, SCALE);
    rec.front_face = true;
    rec.material = material;
    (r_in, rec)
}

#[test]
fn lambertian_always_scatters_with_its_albedo() {
    let albedo = Color::new(SCALE / 2, SCALE / 4, SCALE / 8);
    let (r_in, rec) = head_on_record(Material::Lambertian(albedo));
    for _ in 0..50 {
        let mut attenuation = Color::zero();
        let mut scattered = Ray::new(Vec3::zero(), Vec3::zero());
        let ok = rec.material.scatter(&r_in, &rec, &mut attenuation, &mut scattered);
        assert!(ok);
        assert_eq!(attenuation.x(), SCALE / 2);
        assert_eq!(attenuation.y(), SCALE / 4);
        assert_eq!(attenuation.z(), SCALE / 8);
        assert_eq!(scattered.origin().z(), -SCALE);
        // The scatter direction is the normal plus a unit sample, so it can
        // never point away from the hemisphere by more than a unit.
        assert!(!scattered.direction().near_zero());
    }
}

#[test]
fn metal_with_no_fuzz_is_a_pure_mirror() {
    // Whatever the internal random sample, a fuzz of zero must reproduce
    // exactly the reflection of the unit incoming direction.
    let albedo = Color::new(SCALE, SCALE, SCALE);
    let r_in = Ray::new(Vec3::zero(), Vec3::new(SCALE, -SCALE, 0));
    let mut rec = HitRecord::default();
    rec.point = Vec3::zero();
    rec.normal = Vec3::new(0, SCALE, 0);
    rec.front_face = true;
    rec.material = Material::Metal(albedo, 0);
    let expected = r_in.direction().unit_vector().reflect(rec.normal);
    for _ in 0..50 {
        let mut attenuation = Color::zero();
        let mut scattered = Ray::new(Vec3::zero(), Vec3::zero());
        let ok = rec.material.scatter(&r_in, &rec, &mut attenuation, &mut scattered);
        assert!(ok);
        let d = scattered.direction();
        assert_eq!((d.x(), d.y(), d.z()), (expected.x(), expected.y(), expected.z()));
    }
}

#[test]
fn metal_absorbs_rays_scattered_into_the_surface() {
    // With full fuzz and a grazing reflection, some draws point into the
    // surface and are absorbed; the scatter then reports false.
    let albedo = Color::new(SCALE, SCALE, SCALE);
    let r_in = Ray::new(Vec3::zero(), Vec3::new(SCALE, -1, 0));
    let mut rec = HitRecord::default();
    rec.point = Vec3::zero();
    rec.normal = Vec3::new(0, SCALE, 0);
    rec.front_face = true;
    rec.material = Material::Metal(albedo, SCALE);
    let mut absorbed = 0u32;
    for _ in 0..200 {
        let mut attenuation = Color::zero();
        let mut scattered = Ray::new(Vec3::zero(), Vec3::zero());
        if !rec.material.scatter(&r_in, &rec, &mut attenuation, &mut scattered) {
            absorbed += 1;
        }
    }
    assert!(absorbed > 0);
}

#[test]
fn dielectric_matched_index_passes_head_on_rays_through() {
    // With a refractive index of one there is no boundary: reflectance is
    // zero, refraction is always chosen, and a head-on ray is undeviated.
    let (r_in, rec) = head_on_record(Material::Dielectric(SCALE));
    for _ in 0..50 {
        let mut attenuation = Color::zero();
        let mut scattered = Ray::new(Vec3::zero(), Vec3::zero());
        let ok = rec.material.scatter(&r_in, &rec, &mut attenuation, &mut scattered);
        assert!(ok);
        assert_eq!(attenuation.x(), SCALE);
        assert_eq!(attenuation.y(), SCALE);
        assert_eq!(attenuation.z(), SCALE);
        let d = scattered.direction();
        assert_eq!((d.x(), d.y(), d.z()), (0, 0, -SCALE));
    }
}

#[test]
fn dielectric_total_internal_reflection() {
    // Leaving glass at a grazing angle: ratio * sin exceeds one, so the ray
    // must reflect, never refract.
    let r_in = Ray::new(Vec3::zero(), Vec3::new(SCALE, -1000, 0));
    let mut rec = HitRecord::default();
    rec.point = Vec3::zero();
    rec.normal = Vec3::new(0, SCALE, 0);
    rec.front_face = false;
    rec.material = Material::Dielectric(3 * SCALE / 2);
    let expected = r_in.direction().unit_vector().reflect(rec.normal);
    for _ in 0..50 {
        let mut attenuation = Color::zero();
        let mut scattered = Ray::new(Vec3::zero(), Vec3::zero());
        let ok = rec.material.scatter(&r_in, &rec, &mut attenuation, &mut scattered);
        assert!(ok);
        let d = scattered.direction();
        assert_eq!((d.x(), d.y(), d.z()), (expected.x(), expected.y(), expected.z()));
    }
}

#[test]
fn material_parameter_validation() {
    let good = Color::new(SCALE, 0, SCALE / 2);
    assert!(material_params_ok(&Material::Lambertian(good)));
    assert!(!material_params_ok(&Material::Lambertian(Color::new(-1, 0, 0))));
    assert!(!material_params_ok(&Material::Lambertian(Color::new(SCALE + 1, 0, 0))));
    assert!(material_params_ok(&Material::Metal(good, SCALE)));
    assert!(!material_params_ok(&Material::Metal(good, SCALE + 1)));
    assert!(!material_params_ok(&Material::Metal(good, -1)));
    assert!(material_params_ok(&Material::Dielectric(3 * SCALE / 2)));
    assert!(!material_params_ok(&Material::Dielectric(0)));
}

#[test]
fn random_scalars_stay_in_their_ranges() {
    for _ in 0..1000 {
        let u = random_scalar();
        assert!(0 <= u && u < SCALE);
        let v = random_scalar_range(-3 * SCALE, 5 * SCALE);
        assert!(-3 * SCALE <= v && v < 5 * SCALE);
    }
    assert_eq!(random_scalar_range(7, 7), 7);
}
