//! Hit records and the scene aggregate.
//!
//! `HitRecord` is what a successful intersection query yields; its ghost
//! image `HitData` carries the same fields over mathematical integers.
//! `Hittables` owns the scene: an ordered list of spheres and the registry
//! of materials they reference by index (one material instance may be
//! shared by many spheres). Its `hit` answers the nearest-intersection
//! query by a linear scan with a shrinking parameter interval, and its
//! result is pinned to the spec-level model `scene_hit_spec`, whose value
//! — proved elsewhere — is the minimum over all members' candidates and
//! therefore independent of the order of the scan.

use vstd::prelude::*;

use crate::interval::Interval;
use crate::material::Material;
use crate::ray::{Ray, T_LIMIT};
use crate::sphere::{sphere_hit_spec, Sphere};
use crate::vec3::{Point3, Vec3, V3, COORD_LIMIT};
use crate::fixed::SCALE;

verus! {

/// The mathematical image of a `HitRecord`.
pub struct HitData {
    pub point: V3,
    pub normal: V3,
    pub t: int,
    pub front_face: bool,
    pub material: int,
}

/// The result of a successful intersection query: the hit point, the unit
/// normal oriented against the incoming ray, the ray parameter, which side
/// was struck, and the index of the struck object's material.
#[derive(Clone, Copy, PartialEq, Eq, Structural, Debug)]
pub struct HitRecord {
    pub point: Point3,
    pub normal: Vec3,
    pub t: i64,
    pub front_face: bool,
    pub material: usize,
}

impl View for HitRecord {
    type V = HitData;

    open spec fn view(&self) -> HitData {
        HitData {
            point: self.point@,
            normal: self.normal@,
            t: self.t as int,
            front_face: self.front_face,
            material: self.material as int,
        }
    }
}

/// The normal faces the ray iff their exact raw dot product is negative.
pub open spec fn face_front(dir: V3, outward: V3) -> bool {
    dir.dot_raw(outward) < 0
}

/// The stored normal: the outward normal, flipped where the ray strikes
/// from inside, so that it always faces the incoming ray.
pub open spec fn oriented_normal(dir: V3, outward: V3) -> V3 {
    if face_front(dir, outward) {
        outward
    } else {
        outward.neg()
    }
}

impl HitRecord {
    /// An empty record: the origin, no normal, parameter zero, material 0.
    pub fn new() -> (r: Self)
        ensures
            r@ == (HitData {
                point: V3 { x: 0, y: 0, z: 0 },
                normal: V3 { x: 0, y: 0, z: 0 },
                t: 0,
                front_face: false,
                material: 0,
            }),
    {
        Self {
            point: Vec3::default(),
            normal: Vec3::default(),
            t: 0,
            front_face: false,
            material: 0,
        }
    }

    /// Store the outward normal oriented against the ray, and record which
    /// side was struck. The orientation invariant — the stored normal never
    /// points with the ray — is part of the contract.
    pub fn set_face_normal(&mut self, ray: &Ray, outward_normal: &Vec3)
        requires
            ray.dir@.within(COORD_LIMIT as int),
            outward_normal@.within(0x10_0000_0000),
        ensures
            final(self).front_face == face_front(ray.dir@, outward_normal@),
            final(self).normal@ == oriented_normal(ray.dir@, outward_normal@),
            final(self).point == old(self).point,
            final(self).t == old(self).t,
            final(self).material == old(self).material,
            ray.dir@.dot_raw(final(self).normal@) <= 0,
            ray.dir@.dot_raw(outward_normal@) != 0 ==> ray.dir@.dot_raw(final(self).normal@) < 0,
    {
        let d: i128 = ray.dir.dot_raw_i128(outward_normal);
        self.front_face = d < 0;
        self.normal = if self.front_face {
            *outward_normal
        } else {
            proof {
                lemma_dot_raw_neg(ray.dir@, outward_normal@);
            }
            outward_normal.reverse()
        };
    }
}

/// Negating the second argument negates the raw dot product.
pub proof fn lemma_dot_raw_neg(a: V3, b: V3)
    ensures
        a.dot_raw(b.neg()) == -a.dot_raw(b),
{
    assert(a.x * (-b.x) == -(a.x * b.x)) by (nonlinear_arith);
    assert(a.y * (-b.y) == -(a.y * b.y)) by (nonlinear_arith);
    assert(a.z * (-b.z) == -(a.z * b.z)) by (nonlinear_arith);
}

/// The nearest hit over a sequence of spheres: fold from the front,
/// querying each member with the interval shrunk to the best `t` so far.
pub open spec fn scene_hit_spec(objs: Seq<Sphere>, ray: Ray, lo: int, hi: int) -> Option<HitData>
    decreases objs.len(),
{
    if objs.len() == 0 {
        None
    } else {
        let prev = scene_hit_spec(objs.drop_last(), ray, lo, hi);
        let hi2 = match prev {
            Some(h) => h.t,
            None => hi,
        };
        match sphere_hit_spec(objs.last(), ray, lo, hi2) {
            Some(h) => Some(h),
            None => prev,
        }
    }
}

/// The scan's shrinking interval loses nothing: the scene's answer is
/// the least candidate among its members, each queried with the caller's
/// full interval — so the answer's parameter does not depend on the
/// order in which the members are scanned. A miss means every member
/// misses.
pub proof fn lemma_scene_hit_is_nearest(objs: Seq<Sphere>, ray: Ray, lo: int, hi: int)
    requires
        ray.dir@.norm2_raw() > 0,
    ensures
        match scene_hit_spec(objs, ray, lo, hi) {
            Some(h) => {
                &&& lo < h.t < hi
                &&& exists|i: int|
                    0 <= i < objs.len() && sphere_hit_spec(#[trigger] objs[i], ray, lo, hi)
                        == Some(h)
                &&& forall|j: int|
                    0 <= j < objs.len() ==> (match sphere_hit_spec(
                        #[trigger] objs[j],
                        ray,
                        lo,
                        hi,
                    ) {
                        Some(g) => h.t <= g.t,
                        None => true,
                    })
            },
            None => forall|j: int|
                0 <= j < objs.len() ==> sphere_hit_spec(#[trigger] objs[j], ray, lo, hi) is None,
        },
    decreases objs.len(),
{
    if objs.len() > 0 {
        let prefix = objs.drop_last();
        let n = objs.len() as int;
        lemma_scene_hit_is_nearest(prefix, ray, lo, hi);
        let prev = scene_hit_spec(prefix, ray, lo, hi);
        let hi2 = match prev {
            Some(h) => h.t,
            None => hi,
        };
        let last = objs.last();
        assert(forall|j: int| 0 <= j < n - 1 ==> #[trigger] objs[j] == prefix[j]);
        assert(objs[n - 1] == last);
        crate::sphere::lemma_sphere_hit_shrink(last, ray, lo, hi, hi2);
        crate::sphere::lemma_sphere_hit_t_in_range(last, ray, lo, hi);
        let sub = sphere_hit_spec(last, ray, lo, hi2);
        match sub {
            Some(g) => {
                assert(sphere_hit_spec(objs[n - 1], ray, lo, hi) == Some(g));
            },
            None => {
                match prev {
                    Some(h) => {
                        assert(match sphere_hit_spec(objs[n - 1], ray, lo, hi) {
                            Some(g2) => h.t <= g2.t,
                            None => true,
                        });
                    },
                    None => {
                        assert(sphere_hit_spec(objs[n - 1], ray, lo, hi) is None);
                    },
                }
            },
        }
    }
}

/// Nearest-hit is permutation-invariant: two scenes holding the same
/// spheres, in any order, report the same hit parameter — or both miss.
pub proof fn lemma_scene_hit_permutation_invariant(
    s1: Seq<Sphere>,
    s2: Seq<Sphere>,
    ray: Ray,
    lo: int,
    hi: int,
)
    requires
        ray.dir@.norm2_raw() > 0,
        s1.to_multiset() == s2.to_multiset(),
    ensures
        match (scene_hit_spec(s1, ray, lo, hi), scene_hit_spec(s2, ray, lo, hi)) {
            (Some(a), Some(b)) => a.t == b.t,
            (None, None) => true,
            _ => false,
        },
{
    vstd::seq_lib::to_multiset_len(s1);
    vstd::seq_lib::to_multiset_len(s2);
    lemma_scene_hit_is_nearest(s1, ray, lo, hi);
    lemma_scene_hit_is_nearest(s2, ray, lo, hi);
    let r1 = scene_hit_spec(s1, ray, lo, hi);
    let r2 = scene_hit_spec(s2, ray, lo, hi);
    if r1 is Some {
        let a = r1.unwrap();
        let i = choose|i: int|
            0 <= i < s1.len() && sphere_hit_spec(#[trigger] s1[i], ray, lo, hi) == Some(a);
        let x = s1[i];
        assert(s1.contains(x));
        vstd::seq_lib::to_multiset_contains(s1, x);
        vstd::seq_lib::to_multiset_contains(s2, x);
        assert(s2.contains(x));
        let j = choose|j: int| 0 <= j < s2.len() && s2[j] == x;
        assert(sphere_hit_spec(s2[j], ray, lo, hi) == Some(a));
        if r2 is Some {
            let b = r2.unwrap();
            let i2 = choose|i2: int|
                0 <= i2 < s2.len() && sphere_hit_spec(#[trigger] s2[i2], ray, lo, hi) == Some(b);
            let y = s2[i2];
            assert(s2.contains(y));
            vstd::seq_lib::to_multiset_contains(s2, y);
            vstd::seq_lib::to_multiset_contains(s1, y);
            assert(s1.contains(y));
            let j2 = choose|j2: int| 0 <= j2 < s1.len() && s1[j2] == y;
            assert(sphere_hit_spec(s1[j2], ray, lo, hi) == Some(b));
            assert(a.t <= b.t);
            assert(b.t <= a.t);
        }
    } else {
        if r2 is Some {
            let b = r2.unwrap();
            let i2 = choose|i2: int|
                0 <= i2 < s2.len() && sphere_hit_spec(#[trigger] s2[i2], ray, lo, hi) == Some(b);
            let y = s2[i2];
            assert(s2.contains(y));
            vstd::seq_lib::to_multiset_contains(s2, y);
            vstd::seq_lib::to_multiset_contains(s1, y);
            assert(s1.contains(y));
            let j2 = choose|j2: int| 0 <= j2 < s1.len() && s1[j2] == y;
            assert(sphere_hit_spec(s1[j2], ray, lo, hi) == Some(b));
            assert(false);
        }
    }
}

/// The orientation invariant lifted to the scene: every record the
/// aggregate returns has its normal facing the incoming ray.
pub proof fn lemma_scene_normal_faces_ray(objs: Seq<Sphere>, ray: Ray, lo: int, hi: int)
    ensures
        match scene_hit_spec(objs, ray, lo, hi) {
            Some(h) => ray.dir@.dot_raw(h.normal) <= 0,
            None => true,
        },
    decreases objs.len(),
{
    if objs.len() > 0 {
        let prefix = objs.drop_last();
        lemma_scene_normal_faces_ray(prefix, ray, lo, hi);
        let prev = scene_hit_spec(prefix, ray, lo, hi);
        let hi2 = match prev {
            Some(h) => h.t,
            None => hi,
        };
        crate::sphere::lemma_normal_faces_ray(objs.last(), ray, lo, hi2);
    }
}

/// The scene: an ordered list of spheres over a registry of shared
/// materials.
pub struct Hittables {
    pub objects: Vec<Sphere>,
    pub materials: Vec<Material>,
}

impl Default for Hittables {
    /// An empty scene.
    fn default() -> (r: Self)
        ensures
            r.objects@.len() == 0,
            r.materials@.len() == 0,
    {
        Hittables { objects: Vec::new(), materials: Vec::new() }
    }
}

impl Hittables {
    /// Every sphere is well-formed and points at a registered,
    /// well-formed material.
    pub open spec fn wf(self) -> bool {
        &&& forall|i: int|
            0 <= i < self.objects@.len() ==> (#[trigger] self.objects@[i]).wf()
        &&& forall|i: int|
            0 <= i < self.objects@.len() ==> (#[trigger] self.objects@[i]).material
                < self.materials@.len()
        &&& forall|i: int|
            0 <= i < self.materials@.len() ==> (#[trigger] self.materials@[i]).wf()
    }

    /// Register a material; spheres reference it by the returned index.
    pub fn add_material(&mut self, m: Material) -> (idx: usize)
        requires
            m.wf(),
        ensures
            final(self).materials@ == old(self).materials@.push(m),
            final(self).objects == old(self).objects,
            idx as int == old(self).materials@.len(),
            old(self).wf() ==> final(self).wf(),
    {
        let idx = self.materials.len();
        self.materials.push(m);
        idx
    }

    /// Add a sphere to the scene.
    pub fn add(&mut self, obj: Sphere)
        requires
            obj.wf(),
            obj.material < old(self).materials@.len(),
        ensures
            final(self).objects@ == old(self).objects@.push(obj),
            final(self).materials == old(self).materials,
            old(self).wf() ==> final(self).wf(),
    {
        self.objects.push(obj);
    }

    /// The nearest intersection of the ray with any member, with parameter
    /// strictly inside `ray_t`: a linear scan keeping the closest hit by
    /// shrinking the acceptable interval, exactly `scene_hit_spec`.
    pub fn hit(&self, ray: &Ray, ray_t: &Interval) -> (r: Option<HitRecord>)
        requires
            self.wf(),
            ray.orig@.within(COORD_LIMIT as int),
            ray.dir@.within(COORD_LIMIT as int),
            ray.dir@.norm2_raw() > 0,
            -T_LIMIT <= ray_t.min,
            ray_t.max <= T_LIMIT,
        ensures
            match r {
                Some(h) => {
                    &&& scene_hit_spec(self.objects@, *ray, ray_t.min as int, ray_t.max as int)
                        == Some(h@)
                    &&& h.point@.within(COORD_LIMIT as int)
                    &&& h.normal@.within(2 * SCALE as int)
                    &&& !h.normal@.near_zero_spec()
                    &&& ray_t.min < h.t < ray_t.max
                    &&& ray.dir@.dot_raw(h.normal@) <= 0
                    &&& exists|i: int|
                        0 <= i < self.objects@.len() && h.material == (
                        #[trigger] self.objects@[i]).material
                },
                None => scene_hit_spec(self.objects@, *ray, ray_t.min as int, ray_t.max as int)
                    is None,
            },
    {
        let mut best: Option<HitRecord> = None;
        let mut closest: i64 = ray_t.max;
        let mut i: usize = 0;
        while i < self.objects.len()
            invariant
                self.wf(),
                ray.orig@.within(COORD_LIMIT as int),
                ray.dir@.within(COORD_LIMIT as int),
                ray.dir@.norm2_raw() > 0,
                -T_LIMIT <= ray_t.min,
                ray_t.max <= T_LIMIT,
                0 <= i <= self.objects@.len(),
                match best {
                    Some(b) => {
                        &&& scene_hit_spec(
                            self.objects@.take(i as int),
                            *ray,
                            ray_t.min as int,
                            ray_t.max as int,
                        ) == Some(b@)
                        &&& closest == b.t
                        &&& b.point@.within(COORD_LIMIT as int)
                        &&& b.normal@.within(2 * SCALE as int)
                        &&& !b.normal@.near_zero_spec()
                        &&& ray_t.min < b.t < ray_t.max
                        &&& ray.dir@.dot_raw(b.normal@) <= 0
                        &&& exists|j: int|
                            0 <= j < i && b.material == (#[trigger] self.objects@[j]).material
                    },
                    None => {
                        &&& scene_hit_spec(
                            self.objects@.take(i as int),
                            *ray,
                            ray_t.min as int,
                            ray_t.max as int,
                        ) is None
                        &&& closest == ray_t.max
                    },
                },
            decreases self.objects@.len() - i,
        {
            let cur = Interval::new(ray_t.min, closest);
            let ghost prefix = self.objects@.take(i as int);
            let sub = self.objects[i].hit(ray, &cur);
            proof {
                assert(self.objects@.take(i as int + 1).drop_last() =~= prefix);
                assert(self.objects@.take(i as int + 1).last() == self.objects@[i as int]);
            }
            match sub {
                Some(rec) => {
                    closest = rec.t;
                    best = Some(rec);
                },
                None => {},
            }
            i = i + 1;
        }
        proof {
            assert(self.objects@.take(self.objects@.len() as int) =~= self.objects@);
        }
        best
    }
}

} // verus!
