use raytracer::fixed::{fdiv, fmul, fsqrt, isqrt, SCALE};
use raytracer::vec3::Vec3;

#[test]
fn multiplication_rescales() {
    assert_eq!(fmul(SCALE, SCALE), SCALE);
    assert_eq!(fmul(3 * SCALE / 2, SCALE / 2), 3 * SCALE / 4);
    assert_eq!(fmul(SCALE, 0), 0);
    assert_eq!(fmul(-SCALE, SCALE), -SCALE);
}

#[test]
fn multiplication_rounds_toward_zero() {
    // -3 * 0.5 at full precision is -1.5 of a resolution step; the product
    // truncates toward zero on both sides.
    assert_eq!(fmul(-3, SCALE / 2), -1);
    assert_eq!(fmul(3, SCALE / 2), 1);
}

#[test]
fn division_keeps_scale() {
    assert_eq!(fdiv(SCALE, SCALE), SCALE);
    assert_eq!(fdiv(SCALE, 2 * SCALE), SCALE / 2);
    assert_eq!(fdiv(-SCALE, 2 * SCALE), -SCALE / 2);
    assert_eq!(fdiv(SCALE, -2 * SCALE), -SCALE / 2);
    // One third rounds toward zero from either sign.
    assert_eq!(fdiv(SCALE, 3 * SCALE), 349525);
    assert_eq!(fdiv(-SCALE, 3 * SCALE), -349525);
}

#[test]
fn integer_square_root_is_the_floor() {
    assert_eq!(isqrt(0), 0);
    assert_eq!(isqrt(1), 1);
    assert_eq!(isqrt(10), 3);
    assert_eq!(isqrt(16), 4);
    assert_eq!(isqrt(24), 4);
    assert_eq!(isqrt(25), 5);
}

#[test]
fn fixed_square_root_exact_squares() {
    assert_eq!(fsqrt(0), 0);
    assert_eq!(fsqrt(SCALE), SCALE);
    assert_eq!(fsqrt(4 * SCALE), 2 * SCALE);
    assert_eq!(fsqrt(SCALE / 4), SCALE / 2);
}

#[test]
fn vector_division_by_a_negative_scalar_flips() {
    // Dividing by a negative radius is how a hollow shell flips its
    // outward normal.
    let v = Vec3::new(SCALE, -2 * SCALE, 0);
    let r = v.div_scale(-SCALE);
    assert_eq!((r.x(), r.y(), r.z()), (-SCALE, 2 * SCALE, 0));
}
