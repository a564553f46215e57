//! Spheres and the ray–sphere intersection.
//!
//! Intersection solves the quadratic `|R(t) - C|^2 = r^2`. Because every
//! product is computed exactly (wide integers, one truncation per result),
//! the sign of the discriminant — hit or miss — is exact, and the returned
//! record equals the mathematical model `sphere_hit_spec` verbatim. Roots
//! are tried nearest first and accepted only strictly inside the caller's
//! interval, which is what suppresses self-intersection just above a
//! surface. A root whose hit point or normal would leave the representable
//! coordinate range is reported as a miss; for scenes within
//! `COORD_LIMIT`, no such root arises in practice.

use vstd::prelude::*;

use crate::fixed;
use crate::fixed::{sqrt_floor, tdiv, SCALE};
use crate::hittables::{face_front, oriented_normal, HitData, HitRecord};
use crate::interval::Interval;
use crate::ray::{Ray, T_LIMIT};
use crate::vec3::{lemma_dot_raw_bound, Point3, V3, COORD_LIMIT};

verus! {

/// A sphere: center, radius, and the index of its shared material.
#[derive(Clone, Copy, PartialEq, Eq, Structural, Debug)]
pub struct Sphere {
    pub center: Point3,
    pub radius: i64,
    pub material: usize,
}

impl Sphere {
    /// A representable center and a positive, representable radius.
    pub open spec fn wf(self) -> bool {
        &&& self.center@.within(COORD_LIMIT as int)
        &&& 0 < self.radius <= COORD_LIMIT
    }

    pub fn new(center: Point3, radius: i64, material: usize) -> (r: Self)
        requires
            center@.within(COORD_LIMIT as int),
            0 < radius <= COORD_LIMIT,
        ensures
            r.center == center,
            r.radius == radius,
            r.material == material,
            r.wf(),
    {
        Sphere { center, radius, material }
    }

    /// The nearest intersection with parameter strictly inside `ray_t`,
    /// exactly as `sphere_hit_spec` states it.
    pub fn hit(&self, ray: &Ray, ray_t: &Interval) -> (r: Option<HitRecord>)
        requires
            self.wf(),
            ray.orig@.within(COORD_LIMIT as int),
            ray.dir@.within(COORD_LIMIT as int),
            ray.dir@.norm2_raw() > 0,
            -T_LIMIT <= ray_t.min,
            ray_t.max <= T_LIMIT,
        ensures
            match r {
                Some(h) => {
                    &&& sphere_hit_spec(*self, *ray, ray_t.min as int, ray_t.max as int) == Some(
                        h@,
                    )
                    &&& h.point@.within(COORD_LIMIT as int)
                    &&& h.normal@.within(2 * SCALE as int)
                    &&& !h.normal@.near_zero_spec()
                    &&& ray_t.min < h.t < ray_t.max
                    &&& h.material == self.material
                    &&& ray.dir@.dot_raw(h.normal@) <= 0
                },
                None => sphere_hit_spec(*self, *ray, ray_t.min as int, ray_t.max as int) is None,
            },
    {
        let oc = ray.orig.sub(&self.center);
        proof {
            lemma_dot_raw_bound(ray.dir@, ray.dir@, 0x2000_0000int, 0x2000_0000int);
            lemma_dot_raw_bound(oc@, ray.dir@, 0x4000_0000int, 0x2000_0000int);
            lemma_dot_raw_bound(oc@, oc@, 0x4000_0000int, 0x4000_0000int);
            fixed::lemma_i64_prod_in_i128(self.radius as int, self.radius as int);
            assert(0 <= (self.radius as int) * (self.radius as int) <= 0x400_0000_0000_0000)
                by (nonlinear_arith)
                requires
                    0 < self.radius <= 0x2000_0000,
            ;
        }
        let a: i128 = ray.dir.dot_raw_i128(&ray.dir);
        let half_b: i128 = oc.dot_raw_i128(&ray.dir);
        let rr: i128 = (self.radius as i128) * (self.radius as i128);
        let c: i128 = oc.dot_raw_i128(&oc) - rr;
        proof {
            assert(0 <= half_b * half_b <= 0x400_0000_0000_0000_0000_0000_0000_0000
                && -0x400_0000_0000_0000_0000_0000_0000_0000 <= a * c
                    <= 0x400_0000_0000_0000_0000_0000_0000_0000) by (nonlinear_arith)
                requires
                    -0x1800_0000_0000_0000 <= half_b <= 0x1800_0000_0000_0000,
                    0 <= a <= 0xc00_0000_0000_0000,
                    -0x3400_0000_0000_0000 <= c <= 0x3400_0000_0000_0000,
            ;
        }
        let discriminant: i128 = half_b * half_b - a * c;
        if discriminant < 0 {
            return None;
        }
        let sq_u: u128 = fixed::sqrt_u128(discriminant as u128);
        proof {
            fixed::lemma_sqrt_floor_is_sqrt(discriminant as int);
            assert(sq_u < 0x4000_0000_0000_0000) by (nonlinear_arith)
                requires
                    sq_u >= 0,
                    (sq_u as int) * (sq_u as int) <= discriminant as int,
                    discriminant <= 0x800_0000_0000_0000_0000_0000_0000_0000,
                    sq_u >= 0,
            ;
        }
        let sq: i128 = sq_u as i128;
        let root1: i128 = fixed::tdiv_i128((-half_b - sq) * (SCALE as i128), a);
        if (ray_t.min as i128) < root1 && root1 < (ray_t.max as i128) {
            return self.hit_at(ray, root1 as i64, ray_t);
        }
        let root2: i128 = fixed::tdiv_i128((-half_b + sq) * (SCALE as i128), a);
        if (ray_t.min as i128) < root2 && root2 < (ray_t.max as i128) {
            return self.hit_at(ray, root2 as i64, ray_t);
        }
        None
    }

    /// Build the record for an accepted root, or report a miss where its
    /// data would leave the representable range.
    fn hit_at(&self, ray: &Ray, t: i64, ray_t: &Interval) -> (r: Option<HitRecord>)
        requires
            self.wf(),
            ray.orig@.within(COORD_LIMIT as int),
            ray.dir@.within(COORD_LIMIT as int),
            -T_LIMIT <= ray_t.min < t < ray_t.max <= T_LIMIT,
        ensures
            match r {
                Some(h) => {
                    &&& sphere_hit_at(*self, *ray, t as int) == Some(h@)
                    &&& h.point@.within(COORD_LIMIT as int)
                    &&& h.normal@.within(2 * SCALE as int)
                    &&& !h.normal@.near_zero_spec()
                    &&& h.t == t
                    &&& h.material == self.material
                    &&& ray.dir@.dot_raw(h.normal@) <= 0
                },
                None => sphere_hit_at(*self, *ray, t as int) is None,
            },
    {
        let p = ray.at(t);
        proof {
            fixed::lemma_fxmul_mag(ray.dir@.x, t as int, COORD_LIMIT as int, T_LIMIT as int);
            fixed::lemma_fxmul_mag(ray.dir@.y, t as int, COORD_LIMIT as int, T_LIMIT as int);
            fixed::lemma_fxmul_mag(ray.dir@.z, t as int, COORD_LIMIT as int, T_LIMIT as int);
            assert((COORD_LIMIT as int) * (T_LIMIT as int) / (SCALE as int) == 0x20_0000_0000_0000)
                by (nonlinear_arith);
        }
        let pmc = p.sub(&self.center);
        let ox = fixed::div_checked(pmc.x(), self.radius);
        let oy = fixed::div_checked(pmc.y(), self.radius);
        let oz = fixed::div_checked(pmc.z(), self.radius);
        match (ox, oy, oz) {
            (Some(nx), Some(ny), Some(nz)) => {
                let outward = crate::vec3::Vec3::new(nx, ny, nz);
                let two: i64 = 2 * SCALE;
                let in_two = nx >= -two && nx <= two && ny >= -two && ny <= two && nz >= -two
                    && nz <= two;
                if p.in_range() && in_two && !outward.near_zero() {
                    let mut rec = HitRecord::new();
                    rec.t = t;
                    rec.point = p;
                    rec.material = self.material;
                    rec.set_face_normal(ray, &outward);
                    proof {
                        crate::hittables::lemma_dot_raw_neg(ray.dir@, outward@);
                    }
                    Some(rec)
                } else {
                    None
                }
            },
            _ => None,
        }
    }
}

/// An accepted hit's parameter lies strictly inside the query interval.
pub proof fn lemma_sphere_hit_t_in_range(s: Sphere, ray: Ray, lo: int, hi: int)
    ensures
        match sphere_hit_spec(s, ray, lo, hi) {
            Some(h) => lo < h.t < hi,
            None => true,
        },
{
}

/// Shrinking the far bound only filters: the record of the wider query
/// survives exactly when its parameter beats the new bound. This is what
/// lets the scene scan shrink its interval without changing any answer.
pub proof fn lemma_sphere_hit_shrink(s: Sphere, ray: Ray, lo: int, hi: int, hi2: int)
    requires
        hi2 <= hi,
        ray.dir@.norm2_raw() > 0,
    ensures
        sphere_hit_spec(s, ray, lo, hi2) == (match sphere_hit_spec(s, ray, lo, hi) {
            Some(h) => if h.t < hi2 {
                Some(h)
            } else {
                None::<HitData>
            },
            None => None::<HitData>,
        }),
{
    let oc = ray.orig@.minus(s.center@);
    let a = ray.dir@.norm2_raw();
    let hb = oc.dot_raw(ray.dir@);
    let c = oc.norm2_raw() - (s.radius as int) * (s.radius as int);
    let disc = hb * hb - a * c;
    if disc >= 0 {
        let sq = sqrt_floor(disc);
        fixed::lemma_sqrt_floor_is_sqrt(disc);
        assert((-hb - sq) * (SCALE as int) <= (-hb + sq) * (SCALE as int)) by (nonlinear_arith)
            requires
                sq >= 0,
                SCALE == 65536,
        ;
        fixed::lemma_tdiv_ordered((-hb - sq) * (SCALE as int), (-hb + sq) * (SCALE as int), a);
    }
}

/// Misses are exact: a ray whose squared distance to the center at its
/// closest approach exceeds the squared radius reports no hit, whatever
/// the interval. The distance condition is stated exactly over integers,
/// cross-multiplied by the direction's squared norm.
pub proof fn lemma_far_ray_misses(s: Sphere, ray: Ray, lo: int, hi: int)
    requires
        ({
            let oc = ray.orig@.minus(s.center@);
            let d = ray.dir@;
            oc.norm2_raw() * d.norm2_raw() - oc.dot_raw(d) * oc.dot_raw(d) > (s.radius as int) * (
            s.radius as int) * d.norm2_raw()
        }),
    ensures
        sphere_hit_spec(s, ray, lo, hi) is None,
{
    let oc = ray.orig@.minus(s.center@);
    let d = ray.dir@;
    let a = d.norm2_raw();
    let hb = oc.dot_raw(d);
    let rr = (s.radius as int) * (s.radius as int);
    let c = oc.norm2_raw() - rr;
    assert(hb * hb - a * c < 0) by (nonlinear_arith)
        requires
            oc.norm2_raw() * a - hb * hb > rr * a,
            c == oc.norm2_raw() - rr,
    ;
}

/// The orientation invariant for one accepted root.
proof fn lemma_hit_at_faces(s: Sphere, ray: Ray, t: int)
    ensures
        match sphere_hit_at(s, ray, t) {
            Some(h) => ray.dir@.dot_raw(h.normal) <= 0,
            None => true,
        },
{
    let p = ray.at_spec(t);
    let outward = p.minus(s.center@).div_fx(s.radius as int);
    crate::hittables::lemma_dot_raw_neg(ray.dir@, outward);
}

/// The orientation invariant: every record a sphere query returns has
/// its normal facing the incoming ray — their dot product is never
/// positive.
pub proof fn lemma_normal_faces_ray(s: Sphere, ray: Ray, lo: int, hi: int)
    ensures
        match sphere_hit_spec(s, ray, lo, hi) {
            Some(h) => ray.dir@.dot_raw(h.normal) <= 0,
            None => true,
        },
{
    let oc = ray.orig@.minus(s.center@);
    let a = ray.dir@.norm2_raw();
    let hb = oc.dot_raw(ray.dir@);
    let c = oc.norm2_raw() - (s.radius as int) * (s.radius as int);
    let disc = hb * hb - a * c;
    if disc >= 0 {
        let sq = sqrt_floor(disc);
        let r1 = tdiv((-hb - sq) * (SCALE as int), a);
        let r2 = tdiv((-hb + sq) * (SCALE as int), a);
        lemma_hit_at_faces(s, ray, r1);
        lemma_hit_at_faces(s, ray, r2);
    }
}

/// The hit data for an accepted root `t`: the point along the ray, the
/// outward normal `(p - center) / radius` oriented against the ray, and
/// the sphere's material — or a miss where point or normal leave the
/// representable range.
pub open spec fn sphere_hit_at(s: Sphere, ray: Ray, t: int) -> Option<HitData> {
    let p = ray.at_spec(t);
    let outward = p.minus(s.center@).div_fx(s.radius as int);
    if p.within(COORD_LIMIT as int) && outward.within(2 * SCALE as int)
        && !outward.near_zero_spec() {
        Some(
            HitData {
                t: t,
                point: p,
                normal: oriented_normal(ray.dir@, outward),
                front_face: face_front(ray.dir@, outward),
                material: s.material as int,
            },
        )
    } else {
        None
    }
}

/// The full intersection model: the exact discriminant decides hit or
/// miss; on a hit the two roots are tried nearest first, each accepted
/// only strictly inside `(lo, hi)`.
pub open spec fn sphere_hit_spec(s: Sphere, ray: Ray, lo: int, hi: int) -> Option<HitData> {
    let oc = ray.orig@.minus(s.center@);
    let a = ray.dir@.norm2_raw();
    let half_b = oc.dot_raw(ray.dir@);
    let c = oc.norm2_raw() - (s.radius as int) * (s.radius as int);
    let disc = half_b * half_b - a * c;
    if disc < 0 {
        None
    } else {
        let sq = sqrt_floor(disc);
        let r1 = tdiv((-half_b - sq) * (SCALE as int), a);
        let r2 = tdiv((-half_b + sq) * (SCALE as int), a);
        if lo < r1 < hi {
            sphere_hit_at(s, ray, r1)
        } else if lo < r2 < hi {
            sphere_hit_at(s, ray, r2)
        } else {
            None
        }
    }
}

} // verus!
