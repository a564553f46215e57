use ray_tracer::vec3::Vec3;

/// A whole number as a raw fixed-point value.
fn fx(n: i64) -> i64 {
    n * 65536
}

#[test]
fn test_default() {
    let v = Vec3::default();
    assert_eq!(v, Vec3::new(0, 0, 0));
}

#[test]
fn test_new() {
    let v = Vec3::new(fx(1), fx(2), fx(3));
    assert_eq!(v, Vec3::new(fx(1), fx(2), fx(3)));
    assert_eq!(v.x(), fx(1));
    assert_eq!(v.y(), fx(2));
    assert_eq!(v.z(), fx(3));
}

#[test]
fn test_mul_number() {
    let v = Vec3::new(fx(1), fx(2), fx(3));
    let x: i64 = fx(3);
    assert_eq!(v.scale(x), Vec3::new(fx(3), fx(6), fx(9)));
}

#[test]
fn test_add_vec3() {
    let v1 = Vec3::new(fx(1), fx(2), fx(3));
    let v2 = Vec3::new(fx(4), fx(5), fx(3));
    assert_eq!(v1.add(&v2), Vec3::new(fx(5), fx(7), fx(6)));
}

#[test]
fn test_div_number() {
    let v = Vec3::new(fx(1), fx(2), fx(3));
    let x: i64 = fx(4);
    // 0.25, 0.5, 0.75 in fixed point.
    assert_eq!(v.div(x), Vec3::new(16384, 32768, 49152));
}

#[test]
fn test_div_negative_number() {
    let v = Vec3::new(fx(1), fx(2), fx(3));
    // Dividing by a negative scalar flips each component's sign.
    assert_eq!(v.div(-fx(4)), Vec3::new(-16384, -32768, -49152));
}

#[test]
fn test_mul_vec3() {
    let v1 = Vec3::new(fx(1), fx(2), fx(3));
    let v2 = Vec3::new(fx(4), fx(5), fx(3));
    assert_eq!(v1.mul(&v2), Vec3::new(fx(4), fx(10), fx(9)));
}

#[test]
fn test_mul_assign_number() {
    let mut v1 = Vec3::new(fx(1), fx(2), fx(3));
    let x = 4;
    v1.mul_assign(fx(x));
    assert_eq!(v1, Vec3::new(fx(4), fx(8), fx(12)));
}

#[test]
fn test_div_assign_number() {
    let mut v1 = Vec3::new(fx(1), fx(2), fx(3));
    let x = 4;
    v1.div_assign(fx(x));
    assert_eq!(v1, Vec3::new(16384, 32768, 49152));
}

#[test]
fn test_add_assign() {
    let mut v1 = Vec3::new(fx(1), fx(2), fx(3));
    let v2 = Vec3::new(fx(10), fx(20), fx(30));
    v1.add_assign(&v2);
    assert_eq!(v1, Vec3::new(fx(11), fx(22), fx(33)));
}

#[test]
fn test_length() {
    let v1 = Vec3::new(fx(3), fx(4), fx(0));
    assert_eq!(v1.length(), fx(5));
}

#[test]
fn test_dot() {
    let v1 = Vec3::new(fx(3), fx(4), fx(8));
    let v2 = Vec3::new(fx(2), fx(4), fx(0));
    assert_eq!(v1.dot(&v2), fx(22));
}

#[test]
fn test_cross_axes() {
    let x = Vec3::new(fx(1), 0, 0);
    let y = Vec3::new(0, fx(1), 0);
    assert_eq!(x.cross(&y), Vec3::new(0, 0, fx(1)));
    assert_eq!(y.cross(&x), Vec3::new(0, 0, -fx(1)));
}

#[test]
fn test_unit_vector_exact() {
    let v = Vec3::new(fx(3), fx(4), 0);
    let u = Vec3::unit_vector(&v);
    // 3/5 and 4/5 are exact in this fixed point: 0.6 * 65536 = 39321.6
    // truncates to 39321, 0.8 * 65536 = 52428.8 truncates to 52428.
    assert_eq!(u, Vec3::new(39321, 52428, 0));
}

#[test]
fn test_reflect_vertical() {
    let v = Vec3::new(0, 0, -fx(1));
    let n = Vec3::new(0, 0, fx(1));
    assert_eq!(Vec3::reflect(&v, &n), Vec3::new(0, 0, fx(1)));
}

#[test]
fn test_near_zero() {
    assert!(Vec3::new(0, 0, 0).near_zero());
    assert!(Vec3::new(3, -3, 1).near_zero());
    assert!(!Vec3::new(4, 0, 0).near_zero());
    assert!(!Vec3::new(0, fx(1), 0).near_zero());
}

#[test]
fn test_reverse() {
    let v = Vec3::new(fx(1), -fx(2), fx(3));
    assert_eq!(v.reverse(), Vec3::new(-fx(1), fx(2), -fx(3)));
}
