use ray_tracer::ray::Ray;
use ray_tracer::vec3::{Point3, Vec3};

/// A whole number as a raw fixed-point value.
fn fx(n: i64) -> i64 {
    n * 65536
}

#[test]
fn test_zero() {
    let ray = Ray { orig: Point3::default(), dir: Vec3::default() };
    assert_eq!(ray.at(fx(10)), Vec3::default());
}

#[test]
fn test_1() {
    let ray = Ray { orig: Point3::default(), dir: Vec3::new(fx(1), 0, 0) };
    assert_eq!(ray.at(fx(10)), Vec3::new(fx(10), 0, 0));
}

#[test]
fn test_123() {
    let ray = Ray { orig: Point3::default(), dir: Vec3::new(fx(1), fx(2), fx(3)) };
    assert_eq!(ray.at(fx(10)), Vec3::new(fx(10), fx(20), fx(30)));
}
