use rustrace::math::isqrt;
use rustrace::vector::{Vec3, UNIT};

#[test]
fn vector_new() {
    let vec = Vec3::new(1, 2, 3);
    assert_eq!(vec, Vec3 { x: 1, y: 2, z: 3 });
}

#[test]
fn add() {
    let vec1 = Vec3::new(1, 2, 3);
    let vec2 = Vec3::new(3, 2, 1);
    assert_eq!(vec1 + vec2, Vec3::new(4, 4, 4));
}

#[test]
fn sub() {
    let vec1 = Vec3::new(1, 2, 3);
    let vec2 = Vec3::new(3, 2, 1);
    assert_eq!(vec1 - vec2, Vec3::new(-2, 0, 2));
}

#[test]
fn hadamard() {
    let vec1 = Vec3::new(1, 2, 3);
    let vec2 = Vec3::new(3, 2, 1);
    assert_eq!(vec1 * vec2, Vec3::new(3, 4, 3));
}

#[test]
fn inverse_hadamard() {
    let vec1 = Vec3::new(1, 2, 3);
    let vec2 = Vec3::new(3, 2, 1);
    assert_eq!(vec1 / vec2, Vec3::new(0, 1, 3));
}

#[test]
fn dot() {
    let vec1 = Vec3::new(1, 2, 3);
    let vec2 = Vec3::new(3, 2, 1);
    assert_eq!(vec1.dot(&vec2), 10);
}

#[test]
fn cross() {
    let vec1 = Vec3::new(1, 2, 3);
    let vec2 = Vec3::new(3, 2, 1);
    assert_eq!(vec1.cross(&vec2), Vec3::new(-4, 8, -4));
}

#[test]
fn lengths() {
    let vec_i = Vec3::new(1, 2, 3);
    assert_eq!(vec_i.length_sq(), 14);

    let vec_f = Vec3::new(1, 2, 3);
    assert_eq!(vec_f.length(), isqrt(vec_f.length_sq() as u128) as i64);
}

#[test]
fn length_rounds_down() {
    assert_eq!(Vec3::new(1, 2, 3).length(), 3);
    assert_eq!(Vec3::new(3, 4, 0).length(), 5);
    assert_eq!(Vec3::new(0, 0, 0).length(), 0);
}

#[test]
fn negation_and_scalars() {
    let v = Vec3::new(1, -2, 3);
    assert_eq!(-v, Vec3::new(-1, 2, -3));
    assert_eq!(v * 4, Vec3::new(4, -8, 12));
    assert_eq!(Vec3::new(7, -7, 6) / 2, Vec3::new(3, -3, 3));
}

#[test]
fn normalize_scales_to_fixed_point_unit() {
    assert_eq!(UNIT, 1024);
    assert_eq!(Vec3::new(0, 5, 0).normalize(), Vec3::new(0, 1024, 0));
    assert_eq!(Vec3::new(-3, 0, 0).normalize(), Vec3::new(-1024, 0, 0));
    assert_eq!(Vec3::new(0, 0, 0).normalize(), Vec3::new(0, 0, 0));
    assert_eq!(Vec3::new(3, 4, 0).normalize(), Vec3::new(614, 819, 0));
    assert_eq!(Vec3::new(-3, 4, 0).normalize(), Vec3::new(-614, 819, 0));
}

#[test]
fn into_widens_components() {
    let v: Vec3<i32> = Vec3::new(1, -2, 3);
    let w: Vec3<i64> = v.into();
    assert_eq!(w, Vec3::new(1i64, -2, 3));
}

#[test]
fn integer_square_roots() {
    assert_eq!(isqrt(0), 0);
    assert_eq!(isqrt(1), 1);
    assert_eq!(isqrt(15), 3);
    assert_eq!(isqrt(16), 4);
    assert_eq!(isqrt(u128::MAX), u64::MAX);
    assert_eq!(isqrt(1u128 << 100), 1u64 << 50);
}
