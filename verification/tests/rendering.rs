use raytracer::camera::{ray_color, Camera};
use raytracer::color::{linear_to_gamma_2, Color};
use raytracer::fixed::SCALE;
use raytracer::hittable_list::HittableList;
use raytracer::material::Material;
use raytracer::ray::Ray;
use raytracer::sphere::Sphere;
use raytracer::vec3::Vec3;

#[test]
fn gamma_fixes_zero_and_one_and_is_monotone() {
    assert_eq!(linear_to_gamma_2(0), 0);
    assert_eq!(linear_to_gamma_2(SCALE), SCALE);
    // A quarter becomes a half.
    assert_eq!(linear_to_gamma_2(SCALE / 4), SCALE / 2);
    let mut prev = -1;
    for step in 0..64 {
        let g = linear_to_gamma_2(step * SCALE / 64);
        assert!(g >= prev);
        prev = g;
    }
}

#[test]
fn resolve_pixel_to_bytes() {
    assert_eq!(Color::new(SCALE, SCALE, SCALE).to_rgb8(1), (255, 255, 255));
    assert_eq!(Color::zero().to_rgb8(1), (0, 0, 0));
    // A quarter of full brightness gamma-corrects to a half: byte 128.
    let quarter = SCALE / 4;
    assert_eq!(Color::new(quarter, quarter, quarter).to_rgb8(1), (128, 128, 128));
    // Averaging: two accumulated samples of double brightness resolve the
    // same as one sample of single brightness.
    assert_eq!(Color::new(2 * SCALE, 2 * SCALE, 2 * SCALE).to_rgb8(2), (255, 255, 255));
}

#[test]
fn missing_everything_yields_the_sky_gradient() {
    // Straight ahead the unit direction has no upward component, so the
    // gradient sits exactly halfway between white and sky blue.
    let world = HittableList::new();
    let ray = Ray::new(Vec3::zero(), Vec3::new(0, 0, -SCALE));
    let c = ray_color(ray, 8, &world);
    assert_eq!((c.x(), c.y(), c.z()), (786432, 891289, SCALE));
    // The sky is independent of scene contents: a scene whose sphere the
    // ray misses gives the identical answer.
    let mut with_sphere = HittableList::new();
    with_sphere.add(Sphere::new(
        Vec3::new(0, 10 * SCALE, 0),
        SCALE,
        Material::Lambertian(Color::new(SCALE / 2, SCALE / 2, SCALE / 2)),
    ));
    let c2 = ray_color(ray, 8, &with_sphere);
    assert_eq!((c2.x(), c2.y(), c2.z()), (c.x(), c.y(), c.z()));
}

#[test]
fn exhausted_depth_is_black() {
    let world = HittableList::new();
    let ray = Ray::new(Vec3::zero(), Vec3::new(0, 0, -SCALE));
    let c = ray_color(ray, 0, &world);
    assert_eq!((c.x(), c.y(), c.z()), (0, 0, 0));
}

fn test_camera(samples_per_pixel: u32, max_depth: u32) -> Camera {
    Camera::new(
        SCALE,            // aspect ratio 1
        2,                // image width
        samples_per_pixel,
        max_depth,
        SCALE / 4,        // tan of half the vertical field of view
        Vec3::zero(),
        Vec3::new(0, 0, -SCALE),
        Vec3::new(0, SCALE, 0),
        0,                // defocus angle: pinhole
        0,
        SCALE,            // focus distance 1
    )
    .expect("camera configuration is valid")
}

fn single_sphere_scene() -> HittableList {
    let mut world = HittableList::new();
    world.add(Sphere::new(
        Vec3::new(0, 0, -SCALE),
        SCALE / 2,
        Material::Lambertian(Color::new(SCALE / 2, SCALE / 2, SCALE / 2)),
    ));
    world
}

#[test]
fn two_by_two_render_distinguishes_sphere_from_sky() {
    // Every pixel ray of this narrow camera strikes the sphere; with a
    // bounce budget of one, each hit resolves to black.  Removing the
    // sphere leaves only the bright sky gradient.
    let camera = test_camera(1, 1);
    let hit_pixels = camera.render(&single_sphere_scene());
    assert_eq!(hit_pixels.len(), 4);
    for &(r, g, b) in hit_pixels.iter() {
        assert_eq!((r, g, b), (0, 0, 0));
    }
    let sky_pixels = camera.render(&HittableList::new());
    assert_eq!(sky_pixels.len(), 4);
    for &(r, g, b) in sky_pixels.iter() {
        assert!(r >= 128);
        assert!(g >= 128);
        assert!(b >= 128);
    }
}

#[test]
fn zero_depth_renders_black_regardless_of_scene() {
    let camera = test_camera(2, 0);
    for world in [single_sphere_scene(), HittableList::new()] {
        let pixels = camera.render(&world);
        assert_eq!(pixels.len(), 4);
        for &(r, g, b) in pixels.iter() {
            assert_eq!((r, g, b), (0, 0, 0));
        }
    }
}

#[test]
fn camera_rejects_degenerate_configurations() {
    // An aspect ratio that squeezes the height to zero pixels.
    let r = Camera::new(
        16 * SCALE,
        1,
        1,
        1,
        SCALE / 4,
        Vec3::zero(),
        Vec3::new(0, 0, -SCALE),
        Vec3::new(0, SCALE, 0),
        0,
        0,
        SCALE,
    );
    assert!(r.is_none());
    // An up vector parallel to the view axis: no camera basis exists.
    let r2 = Camera::new(
        SCALE,
        2,
        1,
        1,
        SCALE / 4,
        Vec3::zero(),
        Vec3::new(0, 0, -SCALE),
        Vec3::new(0, 0, SCALE),
        0,
        0,
        SCALE,
    );
    assert!(r2.is_none());
}

#[test]
fn camera_params_ok_checks_the_ranges() {
    assert!(Camera::params_ok(
        SCALE,
        2,
        1,
        SCALE / 4,
        Vec3::zero(),
        Vec3::new(0, 0, -SCALE),
        Vec3::new(0, SCALE, 0),
        0,
        0,
        SCALE,
    ));
    // Coincident look-from and look-to: no view direction.
    assert!(!Camera::params_ok(
        SCALE,
        2,
        1,
        SCALE / 4,
        Vec3::zero(),
        Vec3::zero(),
        Vec3::new(0, SCALE, 0),
        0,
        0,
        SCALE,
    ));
    // A zero sample count.
    assert!(!Camera::params_ok(
        SCALE,
        2,
        0,
        SCALE / 4,
        Vec3::zero(),
        Vec3::new(0, 0, -SCALE),
        Vec3::new(0, SCALE, 0),
        0,
        0,
        SCALE,
    ));
}

#[test]
fn defocus_camera_still_renders() {
    // With an open defocus cone the ray origins are sampled on the lens
    // disk; the image keeps its shape and stays within byte range.
    let camera = Camera::new(
        SCALE,
        2,
        2,
        2,
        SCALE / 4,
        Vec3::zero(),
        Vec3::new(0, 0, -SCALE),
        Vec3::new(0, SCALE, 0),
        SCALE / 2,
        4570,             // tan of a quarter degree, roughly
        SCALE,
    )
    .expect("camera configuration is valid");
    let pixels = camera.render(&single_sphere_scene());
    assert_eq!(pixels.len(), 4);
}
