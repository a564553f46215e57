use ray_tracer::camera::Camera;
use ray_tracer::color::{linear_to_gamma, to_pixel, Color};
use ray_tracer::hittables::{HitRecord, Hittables};
use ray_tracer::interval::Interval;
use ray_tracer::material::{Dielectric, Lambertian, Material, Metal};
use ray_tracer::ray::{Ray, T_LIMIT};
use ray_tracer::rng::RandSrc;
use ray_tracer::sphere::Sphere;
use ray_tracer::utils::{degrees_to_radians, radians_to_degrees, PI_FX};
use ray_tracer::vec3::{Point3, Vec3};

/// A whole number as a raw fixed-point value.
fn fx(n: i64) -> i64 {
    n * 65536
}

/// The default search interval of the transport loop.
fn search_interval() -> Interval {
    Interval::new(66, T_LIMIT)
}

/// A scene with a single half-gray diffuse material registered.
fn gray_world() -> Hittables {
    let mut world = Hittables::default();
    let idx = world.add_material(Material::Lambertian(Lambertian::new(Color::new(
        32768, 32768, 32768,
    ))));
    assert_eq!(idx, 0);
    world
}

/// A hit record on an upward-facing surface at the origin.
fn upward_record() -> HitRecord {
    let mut rec = HitRecord::new();
    rec.point = Point3::new(0, 0, 0);
    rec.normal = Vec3::new(0, 0, fx(1));
    rec.t = fx(1);
    rec.front_face = true;
    rec
}

#[test]
fn interval_contains_and_surrounds() {
    let iv = Interval::new(fx(1), fx(3));
    assert!(iv.contains(fx(1)));
    assert!(iv.contains(fx(3)));
    assert!(iv.contains(fx(2)));
    assert!(!iv.contains(fx(1) - 1));
    assert!(!iv.contains(fx(3) + 1));
    assert!(!iv.surrounds(fx(1)));
    assert!(!iv.surrounds(fx(3)));
    assert!(iv.surrounds(fx(2)));
}

#[test]
fn interval_clamp() {
    let iv = Interval::new(0, 65529);
    assert_eq!(iv.clamp(-5), 0);
    assert_eq!(iv.clamp(70000), 65529);
    assert_eq!(iv.clamp(1234), 1234);
}

#[test]
fn interval_default_is_empty() {
    let iv = Interval::default();
    assert!(!iv.contains(0));
    assert!(!iv.contains(fx(1)));
    assert!(!iv.surrounds(0));
}

#[test]
fn sphere_hit_exact_parameter_and_normal() {
    // A ray down the negative z axis into a unit sphere two units away:
    // analytically t = 1, hit point (0, 0, -1), outward normal (0, 0, 1).
    let s = Sphere::new(Point3::new(0, 0, -fx(2)), fx(1), 0);
    let ray = Ray { orig: Point3::new(0, 0, 0), dir: Vec3::new(0, 0, -fx(1)) };
    let rec = s.hit(&ray, &search_interval()).expect("must hit");
    assert_eq!(rec.t, fx(1));
    assert_eq!(rec.point, Point3::new(0, 0, -fx(1)));
    assert_eq!(rec.normal, Vec3::new(0, 0, fx(1)));
    assert!(rec.front_face);
    assert_eq!(rec.material, 0);
}

#[test]
fn sphere_hit_from_inside_flips_normal() {
    let s = Sphere::new(Point3::new(0, 0, 0), fx(2), 0);
    let ray = Ray { orig: Point3::new(0, 0, 0), dir: Vec3::new(0, 0, -fx(1)) };
    let rec = s.hit(&ray, &search_interval()).expect("must hit");
    assert_eq!(rec.t, fx(2));
    assert!(!rec.front_face);
    // The stored normal faces the incoming ray, so it points up the z
    // axis even though the outward normal points down.
    assert_eq!(rec.normal, Vec3::new(0, 0, fx(1)));
}

#[test]
fn sphere_miss_beyond_radius() {
    // The ray passes three units above the center of a unit sphere.
    let s = Sphere::new(Point3::new(0, fx(3), -fx(5)), fx(1), 0);
    let ray = Ray { orig: Point3::new(0, 0, 0), dir: Vec3::new(0, 0, -fx(1)) };
    assert!(s.hit(&ray, &search_interval()).is_none());
    assert!(s.hit(&ray, &Interval::new(-T_LIMIT, T_LIMIT)).is_none());
    assert!(s.hit(&ray, &Interval::new(0, fx(100))).is_none());
}

#[test]
fn sphere_near_bound_rejects_close_roots() {
    // The same geometry, but the interval opens past the first root.
    let s = Sphere::new(Point3::new(0, 0, -fx(2)), fx(1), 0);
    let ray = Ray { orig: Point3::new(0, 0, 0), dir: Vec3::new(0, 0, -fx(1)) };
    // Only the far root t = 3 is inside (2, T_LIMIT).
    let rec = s.hit(&ray, &Interval::new(fx(2), T_LIMIT)).expect("far root");
    assert_eq!(rec.t, fx(3));
    // Neither root is inside (4, T_LIMIT).
    assert!(s.hit(&ray, &Interval::new(fx(4), T_LIMIT)).is_none());
}

#[test]
fn scene_nearest_hit_is_permutation_invariant() {
    let near = Sphere::new(Point3::new(0, 0, -fx(2)), fx(1), 0);
    let far = Sphere::new(Point3::new(0, 0, -fx(5)), fx(1), 1);
    let ray = Ray { orig: Point3::new(0, 0, 0), dir: Vec3::new(0, 0, -fx(1)) };

    let mut world_a = Hittables::default();
    world_a.add_material(Material::Lambertian(Lambertian::new(Color::new(0, 0, 0))));
    world_a.add_material(Material::Lambertian(Lambertian::new(Color::new(0, 0, 0))));
    world_a.add(near);
    world_a.add(far);

    let mut world_b = Hittables::default();
    world_b.add_material(Material::Lambertian(Lambertian::new(Color::new(0, 0, 0))));
    world_b.add_material(Material::Lambertian(Lambertian::new(Color::new(0, 0, 0))));
    world_b.add(far);
    world_b.add(near);

    let ra = world_a.hit(&ray, &search_interval()).expect("hit");
    let rb = world_b.hit(&ray, &search_interval()).expect("hit");
    assert_eq!(ra.t, fx(1));
    assert_eq!(rb.t, fx(1));
    assert_eq!(ra.material, 0);
    assert_eq!(rb.material, 0);
    assert_eq!(ra.point, rb.point);
}

#[test]
fn scene_empty_reports_miss() {
    let world = Hittables::default();
    let ray = Ray { orig: Point3::new(0, 0, 0), dir: Vec3::new(0, 0, -fx(1)) };
    assert!(world.hit(&ray, &search_interval()).is_none());
}

#[test]
fn set_face_normal_orients_against_ray() {
    let ray = Ray { orig: Point3::new(0, 0, 0), dir: Vec3::new(0, 0, -fx(1)) };
    let mut rec = HitRecord::new();
    rec.set_face_normal(&ray, &Vec3::new(0, 0, fx(1)));
    assert!(rec.front_face);
    assert_eq!(rec.normal, Vec3::new(0, 0, fx(1)));
    rec.set_face_normal(&ray, &Vec3::new(0, 0, -fx(1)));
    assert!(!rec.front_face);
    assert_eq!(rec.normal, Vec3::new(0, 0, fx(1)));
    // Either way the stored normal faces the incoming ray.
    assert!(rec.normal.dot(&ray.dir) < 0);
}

#[test]
fn lambertian_attenuation_is_albedo() {
    let albedo = Color::new(32768, 16384, 49152);
    let m = Lambertian::new(albedo);
    let mut rng = RandSrc::from_seed(7);
    let rec = upward_record();
    let ray_in = Ray { orig: Point3::new(0, 0, fx(2)), dir: Vec3::new(0, 0, -fx(1)) };
    let mut attenuation = Color::default();
    let mut scattered = Ray::default();
    let ok = m.scatter(&ray_in, &rec, &mut attenuation, &mut scattered, &mut rng);
    assert!(ok);
    assert_eq!(attenuation, albedo);
    assert!(attenuation.x() <= fx(1) && attenuation.y() <= fx(1) && attenuation.z() <= fx(1));
    assert_eq!(scattered.orig, rec.point);
    // The bounce leaves the surface: its direction is not degenerate.
    assert!(!scattered.dir.near_zero());
}

#[test]
fn metal_reflects_exactly_without_fuzz() {
    let albedo = Color::new(fx(1), 32768, 16384);
    let m = Metal::new(albedo, 0);
    let mut rng = RandSrc::from_seed(11);
    let rec = upward_record();
    let ray_in = Ray { orig: Point3::new(0, 0, fx(2)), dir: Vec3::new(0, 0, -fx(1)) };
    let mut attenuation = Color::default();
    let mut scattered = Ray::default();
    let ok = m.scatter(&ray_in, &rec, &mut attenuation, &mut scattered, &mut rng);
    assert!(ok);
    assert_eq!(attenuation, albedo);
    assert!(attenuation.x() <= fx(1) && attenuation.y() <= fx(1) && attenuation.z() <= fx(1));
    // With zero fuzz the reflection about the upward normal is exact.
    assert_eq!(scattered.dir, Vec3::new(0, 0, fx(1)));
}

#[test]
fn dielectric_matched_index_does_not_bend() {
    // With ior = 1 at normal incidence, the refracted direction equals
    // the incoming unit direction and nothing is attenuated.
    let m = Dielectric::new(fx(1));
    let mut rng = RandSrc::from_seed(3);
    let rec = upward_record();
    let ray_in = Ray { orig: Point3::new(0, 0, fx(2)), dir: Vec3::new(0, 0, -fx(1)) };
    let mut attenuation = Color::default();
    let mut scattered = Ray::default();
    let ok = m.scatter(&ray_in, &rec, &mut attenuation, &mut scattered, &mut rng);
    assert!(ok);
    assert_eq!(attenuation, Color::new(fx(1), fx(1), fx(1)));
    assert_eq!(scattered.dir, Vec3::new(0, 0, -fx(1)));
    assert_eq!(scattered.orig, rec.point);
}

#[test]
fn ray_color_zero_depth_is_black() {
    let mut world = gray_world();
    world.add(Sphere::new(Point3::new(0, 0, -fx(2)), fx(1), 0));
    let cam = Camera::new(fx(1), 100, 1, 8, fx(1));
    let mut rng = RandSrc::from_seed(5);
    let ray = Ray { orig: Point3::new(0, 0, 0), dir: Vec3::new(0, 0, -fx(1)) };
    let c = cam.ray_color(&ray, 0, &world, &mut rng);
    assert_eq!(c, Color::new(0, 0, 0));
}

#[test]
fn ray_color_sky_boundaries() {
    let world = Hittables::default();
    let cam = Camera::new(fx(1), 100, 1, 8, fx(1));
    let mut rng = RandSrc::from_seed(5);
    let up = Ray { orig: Point3::new(0, 0, 0), dir: Vec3::new(0, fx(1), 0) };
    let down = Ray { orig: Point3::new(0, 0, 0), dir: Vec3::new(0, -fx(1), 0) };
    // Straight up: exactly the horizon-to-zenith blue (0.5, 0.7, 1.0).
    assert_eq!(cam.ray_color(&up, 5, &world, &mut rng), Color::new(32768, 45875, fx(1)));
    // Straight down: exactly white.
    assert_eq!(cam.ray_color(&down, 5, &world, &mut rng), Color::new(fx(1), fx(1), fx(1)));
}

#[test]
fn ray_color_never_amplifies() {
    let mut world = gray_world();
    let shiny = world.add_material(Material::Metal(Metal::new(
        Color::new(fx(1), 52428, 32768),
        16384,
    )));
    let glass = world.add_material(Material::Dielectric(Dielectric::new(98304)));
    world.add(Sphere::new(Point3::new(0, 0, -fx(2)), fx(1), 0));
    world.add(Sphere::new(Point3::new(0, -fx(101), 0), fx(100), shiny));
    world.add(Sphere::new(Point3::new(fx(2), 0, -fx(2)), fx(1), glass));
    let cam = Camera::new(fx(1), 100, 1, 8, fx(1));
    let mut rng = RandSrc::from_seed(99);
    for k in 0..50i64 {
        let dir = Vec3::new((k - 25) * 2048, -1024 * (k % 7), -fx(1));
        let ray = Ray { orig: Point3::new(0, 0, 0), dir };
        let c = cam.ray_color(&ray, 8, &world, &mut rng);
        assert!(0 <= c.x() && c.x() <= fx(1));
        assert!(0 <= c.y() && c.y() <= fx(1));
        assert!(0 <= c.z() && c.z() <= fx(1));
    }
}

#[test]
fn schlick_reflectance_boundary_values() {
    // At grazing incidence (cosine zero) the approximation is exactly
    // one, whatever the index; at normal incidence only the base
    // reflectance remains: ((1 - 1.5) / (1 + 1.5))^2 = 0.04.
    let glass = fx(3) / 2;
    assert_eq!(Dielectric::reflectance(0, glass), fx(1));
    let r0 = Dielectric::reflectance(fx(1), glass);
    assert_eq!(r0, 2621); // 0.04 in fixed point, truncated
}

#[test]
fn random_unit_vectors_are_near_unit() {
    let mut rng = RandSrc::from_seed(31);
    for _ in 0..100 {
        let u = Vec3::random_unit_vec3(&mut rng);
        let len = u.length();
        assert!((len - fx(1)).abs() <= 4, "length {} not near one", len);
        let p = Vec3::random_in_unit_sphere(&mut rng);
        assert!(p.length_squared() < fx(1));
        assert!(p.length_squared() > 0 || (p.x() != 0 || p.y() != 0 || p.z() != 0));
    }
}

#[test]
fn hemisphere_draws_face_the_normal() {
    let mut rng = RandSrc::from_seed(77);
    let normal = Vec3::new(0, 0, fx(1));
    for _ in 0..100 {
        let u = Vec3::random_unit_on_hemisphere(&mut rng, &normal);
        // Up to one truncation unit, the draw points with the normal.
        assert!(u.dot(&normal) >= -1);
    }
}

#[test]
fn to_pixel_quantizes_exactly() {
    // Full red, quarter green (gamma 0.5), black blue over one sample.
    let c = Color::new(fx(1), 16384, 0);
    assert_eq!(to_pixel(&c, 1), (255, 128, 0));
    // Averaging over four samples of the same total darkens it: the
    // averages are 0.25 and 0.0625, whose gamma transforms are exactly
    // 0.5 and 0.25.
    let c4 = Color::new(fx(1), 16384, 0);
    assert_eq!(to_pixel(&c4, 4), (128, 64, 0));
}

#[test]
fn linear_to_gamma_is_square_root() {
    assert_eq!(linear_to_gamma(fx(1)), fx(1));
    assert_eq!(linear_to_gamma(16384), 32768);
    assert_eq!(linear_to_gamma(0), 0);
}

#[test]
fn angle_conversions_are_inverse_on_pi() {
    assert_eq!(degrees_to_radians(fx(180)), PI_FX);
    assert_eq!(radians_to_degrees(PI_FX), fx(180));
}

#[test]
fn rand_src_stays_in_range() {
    let mut rng = RandSrc::from_seed(42);
    for _ in 0..200 {
        let u = rng.next_unit();
        assert!(0 <= u && u < fx(1));
        let r = rng.next_range(-fx(5), fx(5));
        assert!(-fx(5) <= r && r < fx(5));
    }
}

#[test]
fn rand_src_is_reproducible() {
    let mut a = RandSrc::from_seed(1234);
    let mut b = RandSrc::from_seed(1234);
    for _ in 0..20 {
        assert_eq!(a.next_unit(), b.next_unit());
    }
}

#[test]
fn render_succeeds_on_valid_geometry() {
    // A small but fully valid configuration renders: success is owed, not
    // merely permitted.
    let mut world = gray_world();
    world.add(Sphere::new(Point3::new(0, 0, -fx(2)), fx(1), 0));
    let mut cam = Camera::new(fx(1), 10, 2, 2, fx(1));
    cam.tan_half_defocus = 0;
    cam.focus_dist = fx(1);
    let mut rng = RandSrc::from_seed(8);
    let pixels = cam.render(&world, &mut rng).expect("valid camera must render");
    assert_eq!(cam.image_height, 10);
    assert_eq!(pixels.len(), 100);
}

#[test]
fn render_rejects_invalid_geometry() {
    let world = gray_world();
    let mut rng = RandSrc::from_seed(0);
    // Zero view direction: look_from equals look_at.
    let mut cam = Camera::new(fx(1), 100, 1, 2, fx(1));
    cam.look_at = cam.look_from;
    assert!(cam.render(&world, &mut rng).is_none());
    // Up parallel to the view direction.
    let mut cam2 = Camera::new(fx(1), 100, 1, 2, fx(1));
    cam2.vup = Vec3::new(0, 0, fx(1));
    assert!(cam2.render(&world, &mut rng).is_none());
    // Nonpositive aspect ratio.
    let mut cam3 = Camera::new(0, 100, 1, 2, fx(1));
    cam3.tan_half_defocus = 0;
    assert!(cam3.render(&world, &mut rng).is_none());
}

#[test]
fn end_to_end_two_sphere_scene() {
    // Two spheres: a small diffuse one dead ahead and a huge ground
    // sphere below, rendered 400 pixels wide at 16:9 with one sample and
    // one bounce, from the origin looking down the negative z axis.
    let mut world = Hittables::default();
    let diffuse = world.add_material(Material::Lambertian(Lambertian::new(Color::new(
        32768, 32768, 32768,
    ))));
    let ground = world.add_material(Material::Lambertian(Lambertian::new(Color::new(
        32768, 52428, 0,
    ))));
    world.add(Sphere::new(Point3::new(0, 0, -fx(1)), 32768, diffuse));
    world.add(Sphere::new(Point3::new(0, -6586368, -fx(1)), fx(100), ground));

    let aspect_16_9: i64 = 116508; // 16/9 in fixed point, truncated
    let mut cam = Camera::new(aspect_16_9, 400, 1, 1, fx(1));
    cam.look_from = Point3::new(0, 0, 0);
    cam.look_at = Point3::new(0, 0, -fx(1));
    cam.vup = Vec3::new(0, fx(1), 0);
    cam.tan_half_defocus = 0;
    cam.focus_dist = 21845; // one third: the viewport sits a third away

    let mut rng = RandSrc::from_seed(2024);
    let pixels = cam.render(&world, &mut rng).expect("valid camera");
    assert_eq!(cam.image_height, 225);
    assert_eq!(pixels.len(), 400 * 225);

    // Before any color averaging, the ray through the image center must
    // strike the small sphere at t close to 1.5 (the viewport is a third
    // of a unit away and the sphere surface half a unit).
    let center_ray = cam.pixel_center_ray(200, 112);
    let rec = world.hit(&center_ray, &search_interval()).expect("center hit");
    assert_eq!(rec.material, diffuse);
    let t15 = 98304; // 1.5 in fixed point
    assert!((rec.t - t15).abs() < 1000, "t = {} not close to 1.5", rec.t);
}
