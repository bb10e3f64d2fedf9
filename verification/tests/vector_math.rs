use raytracer::fixed::SCALE;
use raytracer::vec3::Vec3;

#[test]
fn constructors_and_getters() {
    let z = Vec3::zero();
    assert_eq!(z.x(), 0);
    assert_eq!(z.y(), 0);
    assert_eq!(z.z(), 0);
    let v = Vec3::new(1, -2, 3);
    assert_eq!(v.x(), 1);
    assert_eq!(v.y(), -2);
    assert_eq!(v.z(), 3);
}

#[test]
fn componentwise_arithmetic() {
    let a = Vec3::new(SCALE, 2 * SCALE, -SCALE);
    let b = Vec3::new(SCALE, SCALE, SCALE);
    let s = a.add(b);
    assert_eq!((s.x(), s.y(), s.z()), (2 * SCALE, 3 * SCALE, 0));
    let d = a.sub(b);
    assert_eq!((d.x(), d.y(), d.z()), (0, SCALE, -2 * SCALE));
    let n = a.neg();
    assert_eq!((n.x(), n.y(), n.z()), (-SCALE, -2 * SCALE, SCALE));
    let m = a.mul(b);
    assert_eq!((m.x(), m.y(), m.z()), (SCALE, 2 * SCALE, -SCALE));
    let h = a.scale(SCALE / 2);
    assert_eq!((h.x(), h.y(), h.z()), (SCALE / 2, SCALE, -SCALE / 2));
    let k = a.scale_int(3);
    assert_eq!((k.x(), k.y(), k.z()), (3 * SCALE, 6 * SCALE, -3 * SCALE));
    let q = a.div_int(2);
    assert_eq!((q.x(), q.y(), q.z()), (SCALE / 2, SCALE, -SCALE / 2));
}

#[test]
fn add_assign_accumulates() {
    let mut acc = Vec3::zero();
    acc.add_assign(Vec3::new(5, 6, 7));
    acc.add_assign(Vec3::new(1, 1, 1));
    assert_eq!((acc.x(), acc.y(), acc.z()), (6, 7, 8));
}

#[test]
fn dot_product_exact() {
    let a = Vec3::new(SCALE, 2 * SCALE, 3 * SCALE);
    let b = Vec3::new(4 * SCALE, 5 * SCALE, 6 * SCALE);
    assert_eq!(a.dot(b), 32 * SCALE);
}

#[test]
fn cross_product_basis() {
    let x = Vec3::new(SCALE, 0, 0);
    let y = Vec3::new(0, SCALE, 0);
    let c = x.cross(y);
    assert_eq!((c.x(), c.y(), c.z()), (0, 0, SCALE));
    let c2 = y.cross(x);
    assert_eq!((c2.x(), c2.y(), c2.z()), (0, 0, -SCALE));
}

#[test]
fn length_of_three_four_five() {
    let v = Vec3::new(3 * SCALE, 4 * SCALE, 0);
    assert_eq!(v.length_squared(), 25 * SCALE);
    assert_eq!(v.length(), 5 * SCALE);
}

#[test]
fn unit_vector_of_three_four() {
    let v = Vec3::new(3 * SCALE, 4 * SCALE, 0);
    let u = v.unit_vector();
    assert_eq!((u.x(), u.y(), u.z()), (629145, 838860, 0));
}

#[test]
fn near_zero_is_exact_zero() {
    assert!(Vec3::zero().near_zero());
    assert!(!Vec3::new(1, 0, 0).near_zero());
    assert!(!Vec3::new(0, 0, -1).near_zero());
}

#[test]
fn reflect_flips_the_normal_component() {
    let v = Vec3::new(SCALE, -SCALE, 0);
    let n = Vec3::new(0, SCALE, 0);
    let r = v.reflect(n);
    assert_eq!((r.x(), r.y(), r.z()), (SCALE, SCALE, 0));
}

#[test]
fn refract_matched_index_head_on() {
    let uv = Vec3::new(0, 0, -SCALE);
    let n = Vec3::new(0, 0, SCALE);
    let r = uv.refract(n, SCALE);
    assert_eq!((r.x(), r.y(), r.z()), (0, 0, -SCALE));
}

#[test]
fn refract_matched_index_slanted() {
    // At 45 degrees the rounding happens to cancel and the ray is exact.
    let uv = Vec3::new(SCALE, 0, -SCALE).unit_vector();
    let n = Vec3::new(0, 0, SCALE);
    let r = uv.refract(n, SCALE);
    assert_eq!((r.x(), r.y(), r.z()), (uv.x(), uv.y(), uv.z()));
    // A less symmetric direction picks up a few resolution steps of error
    // but no more.
    let uv2 = Vec3::new(2 * SCALE, SCALE, -SCALE).unit_vector();
    let r2 = uv2.refract(n, SCALE);
    assert!((r2.x() - uv2.x()).abs() <= 4);
    assert!((r2.y() - uv2.y()).abs() <= 4);
    assert!((r2.z() - uv2.z()).abs() <= 4);
}

#[test]
fn refract_bends_toward_normal_entering_glass() {
    // Entering a denser medium (ratio 1/1.5) steepens the ray: the
    // transverse component shrinks.
    let uv = Vec3::new(SCALE, 0, -SCALE).unit_vector();
    let n = Vec3::new(0, 0, SCALE);
    let ratio = (SCALE * SCALE) / (3 * SCALE / 2);
    let r = uv.refract(n, ratio);
    assert!(r.x() < uv.x());
    assert!(r.z() < 0);
}

#[test]
fn random_samplers_stay_in_range() {
    for _ in 0..200 {
        let v = Vec3::random();
        for c in [v.x(), v.y(), v.z()] {
            assert!(0 <= c && c < SCALE);
        }
        let w = Vec3::random_range(-SCALE, SCALE);
        for c in [w.x(), w.y(), w.z()] {
            assert!(-SCALE <= c && c < SCALE);
        }
        let e = Vec3::random_range(5, 5);
        assert_eq!((e.x(), e.y(), e.z()), (5, 5, 5));
        let p = Vec3::random_in_unit_sphere();
        let ls = p.length_squared();
        assert!(1 <= ls && ls < SCALE);
        let u = Vec3::random_unit_vector();
        let uls = u.length_squared();
        assert!(0 < uls && uls <= 12 * SCALE);
        let d = Vec3::random_in_unit_disk();
        assert_eq!(d.z(), 0);
        assert!(d.length_squared() < SCALE);
        let h = Vec3::random_on_hemisphere(Vec3::new(0, SCALE, 0));
        assert!(0 < h.length_squared());
    }
}
