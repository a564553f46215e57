//! Three-component vectors over fixed-point scalars.
//!
//! `Vec3` is the executable value; its view `V3` is the same vector over
//! mathematical integers (still in raw fixed-point units), and the exact
//! vector algebra — sums, scalings, dot and cross products — is defined on
//! `V3` so contracts can state precisely what each operation returns.

use vstd::prelude::*;

use crate::fixed;
use crate::fixed::{fxmul, fxdiv, iabs, sqrt_floor, SCALE, HALF};
use crate::rng::RandSrc;

verus! {

/// Coordinates handed to the geometric routines stay within this magnitude
/// (raw; 8192.0 in real units), which keeps every intermediate of the
/// ray–sphere quadratic inside `i128`.
pub const COORD_LIMIT: i64 = 0x2000_0000;

/// The mathematical (ghost) image of a `Vec3`: raw components as `int`.
pub struct V3 {
    pub x: int,
    pub y: int,
    pub z: int,
}

impl V3 {
    /// Component-wise sum.
    pub open spec fn plus(self, o: V3) -> V3 {
        V3 { x: self.x + o.x, y: self.y + o.y, z: self.z + o.z }
    }

    /// Component-wise difference.
    pub open spec fn minus(self, o: V3) -> V3 {
        V3 { x: self.x - o.x, y: self.y - o.y, z: self.z - o.z }
    }

    /// Negation.
    pub open spec fn neg(self) -> V3 {
        V3 { x: -self.x, y: -self.y, z: -self.z }
    }

    /// Scaling by a fixed-point factor, rounding each component.
    pub open spec fn scale_fx(self, k: int) -> V3 {
        V3 { x: fxmul(self.x, k), y: fxmul(self.y, k), z: fxmul(self.z, k) }
    }

    /// Division by a positive fixed-point factor, rounding each component.
    pub open spec fn div_fx(self, k: int) -> V3 {
        V3 { x: fxdiv(self.x, k), y: fxdiv(self.y, k), z: fxdiv(self.z, k) }
    }

    /// The quotient by a nonzero fixed-point factor: division by the
    /// magnitude, with the sign reapplied, so each component truncates
    /// toward zero. Zero is the one fatal divisor and is excluded.
    pub open spec fn div_signed_fx(self, k: int) -> V3
        recommends
            k != 0,
    {
        if k > 0 {
            self.div_fx(k)
        } else {
            self.div_fx(-k).neg()
        }
    }

    /// Component-wise (Hadamard) fixed-point product.
    pub open spec fn mul_comp(self, o: V3) -> V3 {
        V3 { x: fxmul(self.x, o.x), y: fxmul(self.y, o.y), z: fxmul(self.z, o.z) }
    }

    /// The exact, unscaled sum of component products: `SCALE` times the
    /// fixed-point dot product.
    pub open spec fn dot_raw(self, o: V3) -> int {
        self.x * o.x + self.y * o.y + self.z * o.z
    }

    /// The fixed-point dot product (one truncation, after the exact sum).
    pub open spec fn dot_fx(self, o: V3) -> int {
        fixed::tdiv(self.dot_raw(o), SCALE as int)
    }

    /// The exact, unscaled squared norm: `SCALE^2` times the real one.
    pub open spec fn norm2_raw(self) -> int {
        self.dot_raw(self)
    }

    /// The fixed-point length: since `norm2_raw` carries scale `SCALE^2`,
    /// its integer square root is already in fixed point.
    pub open spec fn length_fx(self) -> int {
        sqrt_floor(self.norm2_raw())
    }

    /// The unit vector: each component divided by the fixed-point length.
    pub open spec fn unit(self) -> V3 {
        self.div_fx(self.length_fx())
    }

    /// The cross product, each component rounded once.
    pub open spec fn cross_fx(self, o: V3) -> V3 {
        V3 {
            x: fixed::tdiv(self.y * o.z - self.z * o.y, SCALE as int),
            y: fixed::tdiv(self.z * o.x - self.x * o.z, SCALE as int),
            z: fixed::tdiv(self.x * o.y - self.y * o.x, SCALE as int),
        }
    }

    /// Mirror reflection of `self` about `n`: `v - 2 (v . n) n`.
    pub open spec fn reflect_spec(self, n: V3) -> V3 {
        self.minus(n.scale_fx(2 * self.dot_fx(n)))
    }

    /// All components below four units of the last place in magnitude
    /// (about 6e-5): the degenerate-direction test.
    pub open spec fn near_zero_spec(self) -> bool {
        &&& -4 < self.x < 4
        &&& -4 < self.y < 4
        &&& -4 < self.z < 4
    }

    /// All components within `lim` in magnitude.
    pub open spec fn within(self, lim: int) -> bool {
        &&& -lim <= self.x <= lim
        &&& -lim <= self.y <= lim
        &&& -lim <= self.z <= lim
    }
}

/// Every component is representable as an `i64`.
pub open spec fn fits3(v: V3) -> bool {
    &&& crate::fixed::fits_i64(v.x)
    &&& crate::fixed::fits_i64(v.y)
    &&& crate::fixed::fits_i64(v.z)
}

/// A point in space; the same representation as a direction.
pub type Point3 = Vec3;

/// A 3-vector of fixed-point scalars.
#[derive(Clone, Copy, PartialEq, Eq, Structural, Debug)]
pub struct Vec3 {
    x: i64,
    y: i64,
    z: i64,
}

impl View for Vec3 {
    type V = V3;

    closed spec fn view(&self) -> V3 {
        V3 { x: self.x as int, y: self.y as int, z: self.z as int }
    }
}

impl Default for Vec3 {
    /// The zero vector.
    fn default() -> (r: Self)
        ensures
            r@ == (V3 { x: 0, y: 0, z: 0 }),
    {
        Vec3 { x: 0, y: 0, z: 0 }
    }
}

impl Vec3 {
    pub fn new(x: i64, y: i64, z: i64) -> (r: Self)
        ensures
            r@ == (V3 { x: x as int, y: y as int, z: z as int }),
    {
        Vec3 { x, y, z }
    }

    pub fn x(&self) -> (r: i64)
        ensures
            r == self@.x,
    {
        self.x
    }

    pub fn y(&self) -> (r: i64)
        ensures
            r == self@.y,
    {
        self.y
    }

    pub fn z(&self) -> (r: i64)
        ensures
            r == self@.z,
    {
        self.z
    }

    pub fn set(&mut self, x: i64, y: i64, z: i64)
        ensures
            final(self)@ == (V3 { x: x as int, y: y as int, z: z as int }),
    {
        self.x = x;
        self.y = y;
        self.z = z;
    }

    pub fn set_with_other(&mut self, other: &Self)
        ensures
            final(self)@ == other@,
    {
        self.x = other.x;
        self.y = other.y;
        self.z = other.z;
    }

    /// True when every component is within `lim` in magnitude.
    pub fn within_limit(&self, lim: i64) -> (r: bool)
        requires
            lim >= 0,
        ensures
            r == self@.within(lim as int),
    {
        self.x >= -lim && self.x <= lim && self.y >= -lim && self.y <= lim && self.z >= -lim
            && self.z <= lim
    }

    /// True when every component is within `COORD_LIMIT`.
    pub fn in_range(&self) -> (r: bool)
        ensures
            r == self@.within(COORD_LIMIT as int),
    {
        self.x >= -COORD_LIMIT && self.x <= COORD_LIMIT && self.y >= -COORD_LIMIT
            && self.y <= COORD_LIMIT && self.z >= -COORD_LIMIT && self.z <= COORD_LIMIT
    }

    pub fn add(&self, rhs: &Vec3) -> (r: Vec3)
        requires
            i64::MIN <= self@.x + rhs@.x <= i64::MAX,
            i64::MIN <= self@.y + rhs@.y <= i64::MAX,
            i64::MIN <= self@.z + rhs@.z <= i64::MAX,
        ensures
            r@ == self@.plus(rhs@),
    {
        Vec3 { x: self.x + rhs.x, y: self.y + rhs.y, z: self.z + rhs.z }
    }

    pub fn sub(&self, rhs: &Vec3) -> (r: Vec3)
        requires
            i64::MIN <= self@.x - rhs@.x <= i64::MAX,
            i64::MIN <= self@.y - rhs@.y <= i64::MAX,
            i64::MIN <= self@.z - rhs@.z <= i64::MAX,
        ensures
            r@ == self@.minus(rhs@),
    {
        Vec3 { x: self.x - rhs.x, y: self.y - rhs.y, z: self.z - rhs.z }
    }

    pub fn add_assign(&mut self, rhs: &Vec3)
        requires
            i64::MIN <= old(self)@.x + rhs@.x <= i64::MAX,
            i64::MIN <= old(self)@.y + rhs@.y <= i64::MAX,
            i64::MIN <= old(self)@.z + rhs@.z <= i64::MAX,
        ensures
            final(self)@ == old(self)@.plus(rhs@),
    {
        self.x = self.x + rhs.x;
        self.y = self.y + rhs.y;
        self.z = self.z + rhs.z;
    }

    pub fn sub_assign(&mut self, rhs: &Vec3)
        requires
            i64::MIN <= old(self)@.x - rhs@.x <= i64::MAX,
            i64::MIN <= old(self)@.y - rhs@.y <= i64::MAX,
            i64::MIN <= old(self)@.z - rhs@.z <= i64::MAX,
        ensures
            final(self)@ == old(self)@.minus(rhs@),
    {
        self.x = self.x - rhs.x;
        self.y = self.y - rhs.y;
        self.z = self.z - rhs.z;
    }

    /// Scaling by a fixed-point factor.
    pub fn scale(&self, k: i64) -> (r: Vec3)
        requires
            i64::MIN <= fxmul(self@.x, k as int) <= i64::MAX,
            i64::MIN <= fxmul(self@.y, k as int) <= i64::MAX,
            i64::MIN <= fxmul(self@.z, k as int) <= i64::MAX,
        ensures
            r@ == self@.scale_fx(k as int),
    {
        Vec3 { x: fixed::mul(self.x, k), y: fixed::mul(self.y, k), z: fixed::mul(self.z, k) }
    }

    pub fn mul_assign(&mut self, k: i64)
        requires
            i64::MIN <= fxmul(old(self)@.x, k as int) <= i64::MAX,
            i64::MIN <= fxmul(old(self)@.y, k as int) <= i64::MAX,
            i64::MIN <= fxmul(old(self)@.z, k as int) <= i64::MAX,
        ensures
            final(self)@ == old(self)@.scale_fx(k as int),
    {
        self.x = fixed::mul(self.x, k);
        self.y = fixed::mul(self.y, k);
        self.z = fixed::mul(self.z, k);
    }

    /// Division by a nonzero fixed-point factor.
    pub fn div(&self, k: i64) -> (r: Vec3)
        requires
            k != 0,
            k > i64::MIN,
            i64::MIN < fxdiv(self@.x, iabs(k as int)) <= i64::MAX,
            i64::MIN < fxdiv(self@.y, iabs(k as int)) <= i64::MAX,
            i64::MIN < fxdiv(self@.z, iabs(k as int)) <= i64::MAX,
        ensures
            r@ == self@.div_signed_fx(k as int),
    {
        if k > 0 {
            Vec3 { x: fixed::div(self.x, k), y: fixed::div(self.y, k), z: fixed::div(self.z, k) }
        } else {
            let m: i64 = -k;
            Vec3 {
                x: -fixed::div(self.x, m),
                y: -fixed::div(self.y, m),
                z: -fixed::div(self.z, m),
            }
        }
    }

    pub fn div_assign(&mut self, k: i64)
        requires
            k != 0,
            k > i64::MIN,
            i64::MIN < fxdiv(old(self)@.x, iabs(k as int)) <= i64::MAX,
            i64::MIN < fxdiv(old(self)@.y, iabs(k as int)) <= i64::MAX,
            i64::MIN < fxdiv(old(self)@.z, iabs(k as int)) <= i64::MAX,
        ensures
            final(self)@ == old(self)@.div_signed_fx(k as int),
    {
        let r = self.div(k);
        self.x = r.x;
        self.y = r.y;
        self.z = r.z;
    }

    /// Scaling by a fixed-point factor; fails where a component leaves
    /// `i64`.
    pub fn scale_checked(&self, k: i64) -> (r: Option<Vec3>)
        ensures
            match r {
                Some(v) => v@ == self@.scale_fx(k as int),
                None => !(i64::MIN <= fxmul(self@.x, k as int) <= i64::MAX && i64::MIN <= fxmul(
                    self@.y,
                    k as int,
                ) <= i64::MAX && i64::MIN <= fxmul(self@.z, k as int) <= i64::MAX),
            },
    {
        let x = fixed::mul_checked(self.x, k);
        let y = fixed::mul_checked(self.y, k);
        let z = fixed::mul_checked(self.z, k);
        match (x, y, z) {
            (Some(a), Some(b), Some(c)) => Some(Vec3 { x: a, y: b, z: c }),
            _ => None,
        }
    }

    /// Division by a positive fixed-point factor; fails where a component
    /// leaves `i64`.
    pub fn div_checked(&self, k: i64) -> (r: Option<Vec3>)
        requires
            k > 0,
        ensures
            match r {
                Some(v) => v@ == self@.div_fx(k as int),
                None => !(i64::MIN <= fxdiv(self@.x, k as int) <= i64::MAX && i64::MIN <= fxdiv(
                    self@.y,
                    k as int,
                ) <= i64::MAX && i64::MIN <= fxdiv(self@.z, k as int) <= i64::MAX),
            },
    {
        let x = fixed::div_checked(self.x, k);
        let y = fixed::div_checked(self.y, k);
        let z = fixed::div_checked(self.z, k);
        match (x, y, z) {
            (Some(a), Some(b), Some(c)) => Some(Vec3 { x: a, y: b, z: c }),
            _ => None,
        }
    }

    /// Component-wise (Hadamard) product, as colors multiply.
    pub fn mul(&self, rhs: &Vec3) -> (r: Vec3)
        requires
            i64::MIN <= fxmul(self@.x, rhs@.x) <= i64::MAX,
            i64::MIN <= fxmul(self@.y, rhs@.y) <= i64::MAX,
            i64::MIN <= fxmul(self@.z, rhs@.z) <= i64::MAX,
        ensures
            r@ == self@.mul_comp(rhs@),
    {
        Vec3 {
            x: fixed::mul(self.x, rhs.x),
            y: fixed::mul(self.y, rhs.y),
            z: fixed::mul(self.z, rhs.z),
        }
    }

    /// The fixed-point dot product, truncated once after the exact sum.
    pub fn dot(&self, rhs: &Self) -> (r: i64)
        requires
            self@.within(COORD_LIMIT as int),
            rhs@.within(COORD_LIMIT as int),
        ensures
            r == self@.dot_fx(rhs@),
    {
        proof {
            lemma_dot_raw_bound(self@, rhs@, COORD_LIMIT as int, COORD_LIMIT as int);
            fixed::lemma_tdiv_mag(self@.dot_raw(rhs@), SCALE as int);
        }
        let s: i128 = (self.x as i128) * (rhs.x as i128) + (self.y as i128) * (rhs.y as i128) + (
        self.z as i128) * (rhs.z as i128);
        let q: i128 = fixed::tdiv_i128(s, SCALE as i128);
        q as i64
    }

    /// The fixed-point squared length: the squared norm truncated once.
    pub fn length_squared(&self) -> (r: i64)
        requires
            self@.within(COORD_LIMIT as int),
        ensures
            r == self@.dot_fx(self@),
            r >= 0,
    {
        let r = self.dot(self);
        proof {
            lemma_norm2_raw_nonneg(self@);
            fixed::lemma_tdiv_mag(self@.norm2_raw(), SCALE as int);
        }
        r
    }

    /// The fixed-point length: the integer root of the exact squared norm.
    pub fn length(&self) -> (r: i64)
        requires
            self@.within(COORD_LIMIT as int),
        ensures
            r == self@.length_fx(),
            r >= 0,
    {
        proof {
            lemma_dot_raw_bound(self@, self@, COORD_LIMIT as int, COORD_LIMIT as int);
            lemma_norm2_raw_nonneg(self@);
        }
        let s: i128 = (self.x as i128) * (self.x as i128) + (self.y as i128) * (self.y as i128) + (
        self.z as i128) * (self.z as i128);
        let n: u128 = s as u128;
        let r: u128 = fixed::sqrt_u128(n);
        proof {
            fixed::lemma_sqrt_floor_is_sqrt(n as int);
            assert(r < 0x8000_0000) by (nonlinear_arith)
                requires
                    (r as int) * (r as int) <= n as int,
                    n as int <= 3 * 0x2000_0000 * 0x2000_0000,
                    r >= 0,
            ;
        }
        r as i64
    }

    /// The unit vector in the direction of `v`.
    pub fn unit_vector(v: &Vec3) -> (r: Self)
        requires
            v@.within(COORD_LIMIT as int),
            v@.norm2_raw() > 0,
        ensures
            r@ == v@.unit(),
            r@.within(SCALE as int),
    {
        let len = v.length();
        proof {
            lemma_length_bounds_components(v@);
        }
        v.div(len)
    }

    /// The unit vector in the direction of `self`.
    pub fn make_unit_vector(&self) -> (r: Self)
        requires
            self@.within(COORD_LIMIT as int),
            self@.norm2_raw() > 0,
        ensures
            r@ == self@.unit(),
            r@.within(SCALE as int),
    {
        Self::unit_vector(self)
    }

    /// The cross product.
    pub fn cross(&self, rhs: &Self) -> (r: Self)
        requires
            self@.within(COORD_LIMIT as int),
            rhs@.within(COORD_LIMIT as int),
        ensures
            r@ == self@.cross_fx(rhs@),
    {
        proof {
            lemma_cross_term_bound(self@, rhs@, COORD_LIMIT as int);
            fixed::lemma_tdiv_mag(self@.y * rhs@.z - self@.z * rhs@.y, SCALE as int);
            fixed::lemma_tdiv_mag(self@.z * rhs@.x - self@.x * rhs@.z, SCALE as int);
            fixed::lemma_tdiv_mag(self@.x * rhs@.y - self@.y * rhs@.x, SCALE as int);
        }
        let cx: i128 = (self.y as i128) * (rhs.z as i128) - (self.z as i128) * (rhs.y as i128);
        let cy: i128 = (self.z as i128) * (rhs.x as i128) - (self.x as i128) * (rhs.z as i128);
        let cz: i128 = (self.x as i128) * (rhs.y as i128) - (self.y as i128) * (rhs.x as i128);
        let qx: i128 = fixed::tdiv_i128(cx, SCALE as i128);
        let qy: i128 = fixed::tdiv_i128(cy, SCALE as i128);
        let qz: i128 = fixed::tdiv_i128(cz, SCALE as i128);
        Vec3 { x: qx as i64, y: qy as i64, z: qz as i64 }
    }

    /// The exact, unscaled dot product, kept wide.
    pub fn dot_raw_i128(&self, rhs: &Self) -> (r: i128)
        requires
            self@.within(0x10_0000_0000),
            rhs@.within(0x10_0000_0000),
        ensures
            r == self@.dot_raw(rhs@),
    {
        proof {
            lemma_dot_raw_bound(self@, rhs@, 0x10_0000_0000, 0x10_0000_0000);
        }
        (self.x as i128) * (rhs.x as i128) + (self.y as i128) * (rhs.y as i128) + (self.z as i128)
            * (rhs.z as i128)
    }

    /// True when every component is smaller than about 6e-5 in magnitude.
    pub fn near_zero(&self) -> (r: bool)
        ensures
            r == self@.near_zero_spec(),
    {
        self.x > -4 && self.x < 4 && self.y > -4 && self.y < 4 && self.z > -4 && self.z < 4
    }

    /// Mirror reflection of `v` about the near-unit normal `n`.
    pub fn reflect(v: &Vec3, n: &Vec3) -> (r: Self)
        requires
            v@.within(COORD_LIMIT as int),
            n@.within(2 * SCALE as int),
        ensures
            r@ == v@.reflect_spec(n@),
    {
        let d: i64 = v.dot(n);
        proof {
            lemma_dot_raw_bound(v@, n@, COORD_LIMIT as int, 2 * SCALE as int);
            assert(3 * ((COORD_LIMIT as int) * (2 * SCALE as int)) == 0xc000_0000_0000);
            fixed::lemma_tdiv_bound_by(v@.dot_raw(n@), SCALE as int, 0xc000_0000_0000);
            fixed::lemma_fxmul_mag(n@.x, 2 * d as int, 2 * SCALE as int, 0x10_0000_0000);
            fixed::lemma_fxmul_mag(n@.y, 2 * d as int, 2 * SCALE as int, 0x10_0000_0000);
            fixed::lemma_fxmul_mag(n@.z, 2 * d as int, 2 * SCALE as int, 0x10_0000_0000);
        }
        let scaled = n.scale(2 * d);
        v.sub(&scaled)
    }

    /// Refraction of the unit direction `uv` at a surface with near-unit
    /// normal `n`, by Snell's law split into perpendicular and parallel
    /// parts. The radicand of the parallel part is floored at zero, so the
    /// construction is total.
    pub fn refract(uv: &Vec3, n: &Vec3, etai_over_etat: i64) -> (r: Vec3)
        requires
            uv@.within(SCALE as int),
            n@.within(2 * SCALE as int),
            0 < etai_over_etat <= 0x1_0000_0000,
        ensures
            r@ == refract_spec(uv@, n@, etai_over_etat as int),
    {
        let rev = uv.reverse();
        let d: i64 = rev.dot(n);
        proof {
            lemma_dot_raw_bound(rev@, n@, SCALE as int, 2 * SCALE as int);
            fixed::lemma_tdiv_bound_by(rev@.dot_raw(n@), SCALE as int, 0x6_0000_0000int);
        }
        let cos: i64 = if d > SCALE {
            SCALE
        } else {
            d
        };
        proof {
            fixed::lemma_fxmul_mag(n@.x, cos as int, 2 * SCALE as int, 6 * SCALE as int);
            fixed::lemma_fxmul_mag(n@.y, cos as int, 2 * SCALE as int, 6 * SCALE as int);
            fixed::lemma_fxmul_mag(n@.z, cos as int, 2 * SCALE as int, 6 * SCALE as int);
        }
        let scaled_n = n.scale(cos);
        let base = uv.add(&scaled_n);
        proof {
            fixed::lemma_fxmul_mag(base@.x, etai_over_etat as int, 13 * SCALE as int, 0x1_0000_0000int);
            fixed::lemma_fxmul_mag(base@.y, etai_over_etat as int, 13 * SCALE as int, 0x1_0000_0000int);
            fixed::lemma_fxmul_mag(base@.z, etai_over_etat as int, 13 * SCALE as int, 0x1_0000_0000int);
            assert((13 * SCALE as int) * 0x1_0000_0000int / (SCALE as int) == 0xd_0000_0000int)
                by (nonlinear_arith);
        }
        let perp = base.scale(etai_over_etat);
        let n2: i128 = perp.dot_raw_i128(&perp);
        proof {
            lemma_dot_raw_bound(perp@, perp@, 0xd_0000_0000int, 0xd_0000_0000int);
            lemma_norm2_raw_nonneg(perp@);
            fixed::lemma_tdiv_mag(perp@.norm2_raw(), SCALE as int);
        }
        let ls: i64 = fixed::tdiv_i128(n2, SCALE as i128) as i64;
        let k: i64 = if SCALE - ls >= 0 {
            SCALE - ls
        } else {
            0
        };
        let sq: i64 = fixed::sqrt(k);
        proof {
            fixed::lemma_sqrt_floor_is_sqrt((k as int) * (SCALE as int));
            assert(sq <= 65536) by (nonlinear_arith)
                requires
                    sq >= 0,
                    (sq as int) * (sq as int) <= (k as int) * (SCALE as int),
                    0 <= k <= 65536,
            ;
            fixed::lemma_fxmul_mag(n@.x, -sq as int, 2 * SCALE as int, SCALE as int);
            fixed::lemma_fxmul_mag(n@.y, -sq as int, 2 * SCALE as int, SCALE as int);
            fixed::lemma_fxmul_mag(n@.z, -sq as int, 2 * SCALE as int, SCALE as int);
        }
        let parallel = n.scale(-sq);
        perp.add(&parallel)
    }

    /// The vector scaled by minus one.
    pub fn reverse(&self) -> (r: Self)
        requires
            self@.x > i64::MIN,
            self@.y > i64::MIN,
            self@.z > i64::MIN,
        ensures
            r@ == self@.neg(),
    {
        Vec3 { x: -self.x, y: -self.y, z: -self.z }
    }

    /// A vector with each component drawn uniformly from `[min, max)`.
    pub fn random(rng: &mut RandSrc, min: i64, max: i64) -> (r: Self)
        requires
            min < max,
        ensures
            min <= r@.x < max,
            min <= r@.y < max,
            min <= r@.z < max,
    {
        let x: i64 = rng.next_range(min, max);
        let y: i64 = rng.next_range(min, max);
        let z: i64 = rng.next_range(min, max);
        Vec3 { x, y, z }
    }

    /// A random vector strictly inside the unit sphere and usably far from
    /// zero. Candidates are drawn by rejection; after many misses (vanishing
    /// probability) the draw falls back to a fixed interior vector.
    pub fn random_in_unit_sphere(rng: &mut RandSrc) -> (r: Self)
        ensures
            0 < r@.norm2_raw() < (SCALE as int) * (SCALE as int),
            r@.within(SCALE as int),
    {
        let mut tries: u32 = 0;
        while tries < 64
            invariant
                tries <= 64,
            decreases 64 - tries,
        {
            let p = Self::random(rng, -SCALE + 1, SCALE);
            let n2: i64 = p.length_squared();
            if n2 > 0 && n2 < SCALE {
                proof {
                    lemma_norm2_raw_nonneg(p@);
                    fixed::lemma_tdiv_recover(p@.norm2_raw(), SCALE as int, SCALE as int);
                    vstd::arithmetic::div_mod::lemma_div_of0(SCALE as int);
                }
                return p;
            }
            tries = tries + 1;
        }
        let fallback = Vec3 { x: HALF, y: 0, z: 0 };
        proof {
            assert(0 < fallback@.norm2_raw() < (SCALE as int) * (SCALE as int)) by (nonlinear_arith)
                requires
                    fallback@.x == 32768 && fallback@.y == 0 && fallback@.z == 0,
                    fallback@.norm2_raw() == fallback@.x * fallback@.x + fallback@.y * fallback@.y
                        + fallback@.z * fallback@.z,
                    SCALE == 65536,
            ;
        }
        fallback
    }

    /// A random vector strictly inside the unit disk of the xy-plane,
    /// drawn by rejection; after many misses the draw falls back to the
    /// center.
    pub fn random_in_unit_disk(rng: &mut RandSrc) -> (r: Self)
        ensures
            r@.within(SCALE as int),
            r@.z == 0,
            r@.x * r@.x + r@.y * r@.y < (SCALE as int) * (SCALE as int),
    {
        let mut tries: u32 = 0;
        while tries < 64
            invariant
                tries <= 64,
            decreases 64 - tries,
        {
            let x: i64 = rng.next_range(-SCALE + 1, SCALE);
            let y: i64 = rng.next_range(-SCALE + 1, SCALE);
            let p = Vec3 { x, y, z: 0 };
            let n2: i64 = p.length_squared();
            if n2 < SCALE {
                proof {
                    lemma_norm2_raw_nonneg(p@);
                    fixed::lemma_tdiv_recover(p@.norm2_raw(), SCALE as int, SCALE as int);
                    assert(p@.norm2_raw() == p@.x * p@.x + p@.y * p@.y) by (nonlinear_arith)
                        requires
                            p@.z == 0,
                            p@.norm2_raw() == p@.x * p@.x + p@.y * p@.y + p@.z * p@.z,
                    ;
                }
                return p;
            }
            tries = tries + 1;
        }
        let center = Vec3 { x: 0, y: 0, z: 0 };
        proof {
            assert(center@.x * center@.x + center@.y * center@.y < (SCALE as int) * (
            SCALE as int)) by (nonlinear_arith)
                requires
                    center@.x == 0 && center@.y == 0,
                    SCALE == 65536,
            ;
        }
        center
    }

    /// A random near-unit vector: a rejection draw from the unit sphere,
    /// normalized.
    pub fn random_unit_vec3(rng: &mut RandSrc) -> (r: Self)
        ensures
            r@.within(SCALE as int),
            r@.norm2_raw() > 0,
    {
        let p = Self::random_in_unit_sphere(rng);
        proof {
            lemma_unit_nonzero(p@);
        }
        Self::unit_vector(&p)
    }

    /// A random near-unit vector in the hemisphere of `normal`, up to
    /// one truncation unit: its raw dot product with the normal exceeds
    /// minus one fixed-point unit.
    pub fn random_unit_on_hemisphere(rng: &mut RandSrc, normal: &Vec3) -> (r: Self)
        requires
            normal@.within(COORD_LIMIT as int),
        ensures
            r@.within(SCALE as int),
            r@.norm2_raw() > 0,
            r@.dot_raw(normal@) > -(SCALE as int),
    {
        let on_unit_sphere = Self::random_unit_vec3(rng);
        let d: i64 = on_unit_sphere.dot(normal);
        let ghost x = on_unit_sphere@.dot_raw(normal@);
        if d > 0 {
            proof {
                fixed::lemma_tdiv_mag(x, SCALE as int);
            }
            on_unit_sphere
        } else {
            proof {
                lemma_neg_norm2(on_unit_sphere@);
                let u = on_unit_sphere@;
                let n = normal@;
                assert((-u.x) * n.x == -(u.x * n.x)) by (nonlinear_arith);
                assert((-u.y) * n.y == -(u.y * n.y)) by (nonlinear_arith);
                assert((-u.z) * n.z == -(u.z * n.z)) by (nonlinear_arith);
                if x >= SCALE as int {
                    vstd::arithmetic::div_mod::lemma_div_is_ordered(SCALE as int, x, SCALE as int);
                    vstd::arithmetic::div_mod::lemma_div_by_self(SCALE as int);
                }
            }
            on_unit_sphere.reverse()
        }
    }
}

/// What `refract` builds: the perpendicular part `ratio * (uv + cos * n)`
/// with `cos` the clamped incidence cosine, and the parallel part
/// `-sqrt(1 - |perp|^2) * n` with the radicand floored at zero.
pub open spec fn refract_spec(uv: V3, n: V3, ratio: int) -> V3 {
    let d = uv.neg().dot_fx(n);
    let cos = if d > SCALE as int {
        SCALE as int
    } else {
        d
    };
    let perp = uv.plus(n.scale_fx(cos)).scale_fx(ratio);
    let ls = fixed::tdiv(perp.norm2_raw(), SCALE as int);
    let k = if SCALE as int - ls >= 0 {
        SCALE as int - ls
    } else {
        0
    };
    perp.plus(n.scale_fx(-sqrt_floor(k * (SCALE as int))))
}

/// With matched refraction indices (a ratio of one) at normal incidence
/// on an exactly unit normal, refraction bends nothing: the refracted
/// direction is the incoming unit direction itself.
pub proof fn lemma_refract_identity_at_normal_incidence(n: V3)
    requires
        n.norm2_raw() == (SCALE as int) * (SCALE as int),
    ensures
        refract_spec(n.neg(), n, SCALE as int) == n.neg(),
{
    let s = SCALE as int;
    let uv = n.neg();
    assert(uv.neg() == n);
    vstd::arithmetic::div_mod::lemma_div_multiples_vanish(s, s);
    assert(n.dot_raw(n) == s * s);
    assert(uv.neg().dot_fx(n) == s);
    let cos = s;
    fixed::lemma_fxmul_one(n.x);
    fixed::lemma_fxmul_one(n.y);
    fixed::lemma_fxmul_one(n.z);
    assert(n.x * s == s * n.x) by (nonlinear_arith);
    assert(n.y * s == s * n.y) by (nonlinear_arith);
    assert(n.z * s == s * n.z) by (nonlinear_arith);
    assert(n.scale_fx(cos) == n);
    let base = uv.plus(n.scale_fx(cos));
    assert(base == (V3 { x: 0, y: 0, z: 0 }));
    fixed::lemma_fxmul_one(0);
    assert((0int) * s == s * (0int)) by (nonlinear_arith);
    let perp = base.scale_fx(s);
    assert(perp == (V3 { x: 0, y: 0, z: 0 }));
    assert(perp.norm2_raw() == 0);
    vstd::arithmetic::div_mod::lemma_div_of0(s);
    let k = s;
    assert(fixed::is_sqrt(s * s, s)) by (nonlinear_arith)
        requires
            s == 65536,
    ;
    fixed::lemma_sqrt_unique(s * s, s);
    fixed::lemma_fxmul_one(-n.x);
    fixed::lemma_fxmul_one(-n.y);
    fixed::lemma_fxmul_one(-n.z);
    assert(n.x * (-s) == s * (-n.x)) by (nonlinear_arith);
    assert(n.y * (-s) == s * (-n.y)) by (nonlinear_arith);
    assert(n.z * (-s) == s * (-n.z)) by (nonlinear_arith);
    assert(n.scale_fx(-fixed::sqrt_floor(k * s)) == n.neg());
    assert(refract_spec(uv, n, s) == perp.plus(n.neg()));
}

/// The unscaled dot product of vectors bounded by `la` and `lb` is bounded
/// term by term, and in sum, by multiples of `la * lb`.
pub proof fn lemma_dot_raw_bound(a: V3, b: V3, la: int, lb: int)
    requires
        la >= 0,
        lb >= 0,
        a.within(la),
        b.within(lb),
    ensures
        -(la * lb) <= a.x * b.x <= la * lb,
        -(la * lb) <= a.y * b.y <= la * lb,
        -(la * lb) <= a.z * b.z <= la * lb,
        -(3 * (la * lb)) <= a.dot_raw(b) <= 3 * (la * lb),
{
    assert(-(la * lb) <= a.x * b.x <= la * lb) by (nonlinear_arith)
        requires
            -la <= a.x <= la,
            -lb <= b.x <= lb,
            la >= 0,
            lb >= 0,
    ;
    assert(-(la * lb) <= a.y * b.y <= la * lb) by (nonlinear_arith)
        requires
            -la <= a.y <= la,
            -lb <= b.y <= lb,
            la >= 0,
            lb >= 0,
    ;
    assert(-(la * lb) <= a.z * b.z <= la * lb) by (nonlinear_arith)
        requires
            -la <= a.z <= la,
            -lb <= b.z <= lb,
            la >= 0,
            lb >= 0,
    ;
}

/// A squared norm is never negative.
pub proof fn lemma_norm2_raw_nonneg(a: V3)
    ensures
        a.norm2_raw() >= 0,
{
    assert(a.x * a.x >= 0) by (nonlinear_arith);
    assert(a.y * a.y >= 0) by (nonlinear_arith);
    assert(a.z * a.z >= 0) by (nonlinear_arith);
}

/// A vector with some nonzero component has positive squared norm.
pub proof fn lemma_norm2_raw_pos(a: V3)
    requires
        a.x != 0 || a.y != 0 || a.z != 0,
    ensures
        a.norm2_raw() > 0,
{
    lemma_norm2_raw_nonneg(a);
    assert(a.x != 0 ==> a.x * a.x > 0) by (nonlinear_arith);
    assert(a.y != 0 ==> a.y * a.y > 0) by (nonlinear_arith);
    assert(a.z != 0 ==> a.z * a.z > 0) by (nonlinear_arith);
    assert(a.x * a.x >= 0) by (nonlinear_arith);
    assert(a.y * a.y >= 0) by (nonlinear_arith);
    assert(a.z * a.z >= 0) by (nonlinear_arith);
}

/// Negation keeps the squared norm.
pub proof fn lemma_neg_norm2(a: V3)
    ensures
        a.neg().norm2_raw() == a.norm2_raw(),
{
    assert((-a.x) * (-a.x) == a.x * a.x) by (nonlinear_arith);
    assert((-a.y) * (-a.y) == a.y * a.y) by (nonlinear_arith);
    assert((-a.z) * (-a.z) == a.z * a.z) by (nonlinear_arith);
}

/// Each cross-product numerator of vectors bounded by `l` is bounded by
/// `2 l^2`.
proof fn lemma_cross_term_bound(a: V3, b: V3, l: int)
    requires
        l >= 0,
        a.within(l),
        b.within(l),
    ensures
        -(l * l) <= a.y * b.z <= l * l,
        -(l * l) <= a.z * b.y <= l * l,
        -(l * l) <= a.z * b.x <= l * l,
        -(l * l) <= a.x * b.z <= l * l,
        -(l * l) <= a.x * b.y <= l * l,
        -(l * l) <= a.y * b.x <= l * l,
        -(2 * (l * l)) <= a.y * b.z - a.z * b.y <= 2 * (l * l),
        -(2 * (l * l)) <= a.z * b.x - a.x * b.z <= 2 * (l * l),
        -(2 * (l * l)) <= a.x * b.y - a.y * b.x <= 2 * (l * l),
{
    assert((-(l * l) <= a.y * b.z <= l * l) && (-(l * l) <= a.z * b.y <= l * l) && (-(l * l) <= a.z
        * b.x <= l * l) && (-(l * l) <= a.x * b.z <= l * l) && (-(l * l) <= a.x * b.y <= l * l) && (
    -(l * l) <= a.y * b.x <= l * l)) by (nonlinear_arith)
        requires
            l >= 0,
            a.within(l),
            b.within(l),
    ;
}

/// Each component of a vector is bounded by its fixed-point length, so the
/// unit vector's components are bounded by `SCALE` (one, in fixed point).
pub proof fn lemma_length_bounds_components(v: V3)
    requires
        v.norm2_raw() > 0,
    ensures
        v.length_fx() > 0,
        -v.length_fx() <= v.x <= v.length_fx(),
        -v.length_fx() <= v.y <= v.length_fx(),
        -v.length_fx() <= v.z <= v.length_fx(),
        -(SCALE as int) <= fxdiv(v.x, v.length_fx()) <= SCALE as int,
        -(SCALE as int) <= fxdiv(v.y, v.length_fx()) <= SCALE as int,
        -(SCALE as int) <= fxdiv(v.z, v.length_fx()) <= SCALE as int,
{
    let n = v.norm2_raw();
    let l = v.length_fx();
    fixed::lemma_sqrt_floor_is_sqrt(n);
    assert(l > 0) by (nonlinear_arith)
        requires
            n >= 1,
            l >= 0,
            n < (l + 1) * (l + 1),
    ;
    assert(v.x * v.x <= n && v.y * v.y <= n && v.z * v.z <= n) by (nonlinear_arith)
        requires
            n == v.x * v.x + v.y * v.y + v.z * v.z,
    ;
    assert(-l <= v.x <= l && -l <= v.y <= l && -l <= v.z <= l) by (nonlinear_arith)
        requires
            v.x * v.x <= n,
            v.y * v.y <= n,
            v.z * v.z <= n,
            n < (l + 1) * (l + 1),
            l >= 0,
    ;
    fixed::lemma_fxdiv_unit_mag(v.x, l);
    fixed::lemma_fxdiv_unit_mag(v.y, l);
    fixed::lemma_fxdiv_unit_mag(v.z, l);
}

/// Normalizing a nonzero vector shorter than one yields a nonzero vector.
proof fn lemma_unit_nonzero(p: V3)
    requires
        0 < p.norm2_raw() < (SCALE as int) * (SCALE as int),
    ensures
        p.unit().norm2_raw() > 0,
        p.unit().within(SCALE as int),
{
    let n = p.norm2_raw();
    let l = p.length_fx();
    lemma_length_bounds_components(p);
    fixed::lemma_sqrt_floor_is_sqrt(n);
    assert(l < 65536) by (nonlinear_arith)
        requires
            l >= 0,
            l * l <= n,
            n < 65536 * 65536,
    ;
    if p.x != 0 {
        fixed::lemma_fxdiv_nonzero(p.x, l);
    } else if p.y != 0 {
        fixed::lemma_fxdiv_nonzero(p.y, l);
    } else if p.z != 0 {
        fixed::lemma_fxdiv_nonzero(p.z, l);
    } else {
        assert(n == 0);
    }
    lemma_norm2_raw_pos(p.unit());
}

} // verus!
