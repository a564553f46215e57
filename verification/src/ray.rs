//! Rays: an origin and a (not necessarily unit) direction.

use vstd::prelude::*;

use crate::fixed;
use crate::fixed::SCALE;
use crate::vec3::{Point3, Vec3, V3, COORD_LIMIT};

verus! {

/// Ray parameters stay within this magnitude (raw; about 1.6e7 in real
/// units), the stand-in for an unbounded search along the ray.
pub const T_LIMIT: i64 = 0x100_0000_0000;

/// A ray `R(t) = orig + t * dir`.
#[derive(Clone, Copy, PartialEq, Eq, Structural, Debug)]
pub struct Ray {
    pub orig: Point3,
    pub dir: Vec3,
}

impl Default for Ray {
    /// The degenerate ray at the origin.
    fn default() -> (r: Self)
        ensures
            r.orig@ == (V3 { x: 0, y: 0, z: 0 }),
            r.dir@ == (V3 { x: 0, y: 0, z: 0 }),
    {
        Ray { orig: Vec3::default(), dir: Vec3::default() }
    }
}

impl Ray {
    /// The point the ray reaches at parameter `t`.
    pub open spec fn at_spec(self, t: int) -> V3 {
        self.orig@.plus(self.dir@.scale_fx(t))
    }

    /// The point the ray reaches at parameter `t`.
    pub fn at(&self, t: i64) -> (r: Point3)
        requires
            self.orig@.within(COORD_LIMIT as int),
            self.dir@.within(COORD_LIMIT as int),
            -T_LIMIT <= t <= T_LIMIT,
        ensures
            r@ == self.at_spec(t as int),
    {
        proof {
            fixed::lemma_fxmul_mag(self.dir@.x, t as int, COORD_LIMIT as int, T_LIMIT as int);
            fixed::lemma_fxmul_mag(self.dir@.y, t as int, COORD_LIMIT as int, T_LIMIT as int);
            fixed::lemma_fxmul_mag(self.dir@.z, t as int, COORD_LIMIT as int, T_LIMIT as int);
            assert((COORD_LIMIT as int) * (T_LIMIT as int) / (SCALE as int) == 0x20_0000_0000_0000)
                by (nonlinear_arith);
        }
        let step = self.dir.scale(t);
        self.orig.add(&step)
    }
}

} // verus!
