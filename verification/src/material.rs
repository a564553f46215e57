//! Materials and their scattering behaviour.
//!
//! The three material models of the tracer, as a closed sum type with one
//! dispatch per capability. Each `scatter` either absorbs the ray or yields
//! an attenuation color and an outgoing ray; the contracts pin the
//! attenuation exactly, bound it by one wherever the albedo is bounded by
//! one (light is never amplified), and describe the outgoing direction up
//! to the random draw that perturbs it.
//!
//! Policy note: this `Metal` always scatters; a fuzzed reflection that
//! dips below the surface is not absorbed here (the transport loop guards
//! against degenerate directions instead).

use vstd::prelude::*;

use crate::color::Color;
use crate::fixed;
use crate::fixed::{fxdiv, fxmul, SCALE};
use crate::hittables::HitRecord;
use crate::ray::Ray;
use crate::rng::RandSrc;
use crate::vec3::{refract_spec, Vec3, V3, COORD_LIMIT};

verus! {

/// A diffuse (Lambertian) material.
#[derive(Clone, Copy, PartialEq, Eq, Structural, Debug)]
pub struct Lambertian {
    pub albedo: Color,
}

/// A reflective material with a fuzz radius.
#[derive(Clone, Copy, PartialEq, Eq, Structural, Debug)]
pub struct Metal {
    pub albedo: Color,
    pub fuzz: i64,
}

/// A refractive material with an index of refraction.
#[derive(Clone, Copy, PartialEq, Eq, Structural, Debug)]
pub struct Dielectric {
    pub ir: i64,
}

/// Any of the material models.
#[derive(Clone, Copy, PartialEq, Eq, Structural, Debug)]
pub enum Material {
    Lambertian(Lambertian),
    Metal(Metal),
    Dielectric(Dielectric),
}

/// A color whose components all lie in `[0, 1]`.
pub open spec fn unit_color(c: V3) -> bool {
    &&& 0 <= c.x <= SCALE as int
    &&& 0 <= c.y <= SCALE as int
    &&& 0 <= c.z <= SCALE as int
}

/// The record fields every scatter call reads: a representable point and a
/// near-unit, non-degenerate normal.
pub open spec fn scatterable(rec: HitRecord) -> bool {
    &&& rec.point@.within(COORD_LIMIT as int)
    &&& rec.normal@.within(2 * SCALE as int)
    &&& !rec.normal@.near_zero_spec()
}

/// The diffuse bounce direction: the normal offset by a random near-unit
/// vector, falling back to the bare normal when the sum nearly cancels.
pub open spec fn lambertian_dir(n: V3, u: V3) -> V3 {
    if n.plus(u).near_zero_spec() {
        n
    } else {
        n.plus(u)
    }
}

/// A random near-unit offset: what the stochastic draws are known to be.
pub open spec fn near_unit(u: V3) -> bool {
    &&& u.within(SCALE as int)
    &&& u.norm2_raw() > 0
}

impl Lambertian {
    pub open spec fn wf(self) -> bool {
        unit_color(self.albedo@)
    }

    pub fn new(color: Color) -> (r: Self)
        ensures
            r.albedo == color,
    {
        Self { albedo: color }
    }

    /// Diffuse scattering: always scatters; the attenuation is exactly the
    /// albedo, and the outgoing ray leaves the hit point along the normal
    /// perturbed by a random near-unit offset.
    pub fn scatter(
        &self,
        _ray_in: &Ray,
        rec: &HitRecord,
        attenuation: &mut Color,
        ray_scattered: &mut Ray,
        rng: &mut RandSrc,
    ) -> (b: bool)
        requires
            self.wf(),
            scatterable(*rec),
        ensures
            b == true,
            final(attenuation)@ == self.albedo@,
            unit_color(final(attenuation)@),
            final(ray_scattered).orig@ == rec.point@,
            final(ray_scattered).dir@.within(4 * SCALE as int),
            !final(ray_scattered).dir@.near_zero_spec(),
            exists|u: V3|
                near_unit(u) && final(ray_scattered).dir@ == lambertian_dir(rec.normal@, u),
    {
        let u = Vec3::random_unit_vec3(rng);
        let cand = rec.normal.add(&u);
        let scatter_direction = if cand.near_zero() {
            rec.normal
        } else {
            cand
        };
        proof {
            assert(near_unit(u@) && scatter_direction@ == lambertian_dir(rec.normal@, u@));
        }
        *ray_scattered = Ray { orig: rec.point, dir: scatter_direction };
        attenuation.set_with_other(&self.albedo);
        true
    }
}

impl Metal {
    pub open spec fn wf(self) -> bool {
        &&& unit_color(self.albedo@)
        &&& 0 <= self.fuzz <= SCALE
    }

    pub fn new(color: Color, fuzz: i64) -> (r: Self)
        ensures
            r.albedo == color,
            r.fuzz == fuzz,
    {
        Self { albedo: color, fuzz }
    }

    /// Specular scattering: always scatters; the attenuation is exactly
    /// the albedo, and the outgoing ray leaves the hit point along the
    /// mirror reflection blurred by `fuzz` times a random near-unit offset.
    pub fn scatter(
        &self,
        ray_in: &Ray,
        rec: &HitRecord,
        attenuation: &mut Color,
        ray_scattered: &mut Ray,
        rng: &mut RandSrc,
    ) -> (b: bool)
        requires
            self.wf(),
            scatterable(*rec),
            ray_in.dir@.within(COORD_LIMIT as int),
        ensures
            b == true,
            final(attenuation)@ == self.albedo@,
            unit_color(final(attenuation)@),
            final(ray_scattered).orig@ == rec.point@,
            exists|u: V3|
                near_unit(u) && final(ray_scattered).dir@ == ray_in.dir@.reflect_spec(
                    rec.normal@,
                ).plus(u.scale_fx(self.fuzz as int)),
    {
        let reflected = Vec3::reflect(&ray_in.dir, &rec.normal);
        let u = Vec3::random_unit_vec3(rng);
        proof {
            fixed::lemma_fxmul_mag(u@.x, self.fuzz as int, SCALE as int, SCALE as int);
            fixed::lemma_fxmul_mag(u@.y, self.fuzz as int, SCALE as int, SCALE as int);
            fixed::lemma_fxmul_mag(u@.z, self.fuzz as int, SCALE as int, SCALE as int);
            lemma_reflect_bounds(ray_in.dir@, rec.normal@);
        }
        let fz = u.scale(self.fuzz);
        let dir = reflected.add(&fz);
        proof {
            assert(near_unit(u@) && dir@ == ray_in.dir@.reflect_spec(rec.normal@).plus(
                u@.scale_fx(self.fuzz as int),
            ));
        }
        *ray_scattered = Ray { orig: rec.point, dir };
        attenuation.set_with_other(&self.albedo);
        true
    }
}

/// The components of a reflection of a representable direction about a
/// near-unit normal stay far inside `i64`.
proof fn lemma_reflect_bounds(v: V3, n: V3)
    requires
        v.within(COORD_LIMIT as int),
        n.within(2 * SCALE as int),
    ensures
        v.reflect_spec(n).within(0x40_0000_0000_0000int),
{
    crate::vec3::lemma_dot_raw_bound(v, n, COORD_LIMIT as int, 2 * SCALE as int);
    fixed::lemma_tdiv_bound_by(v.dot_raw(n), SCALE as int, 0xc000_0000_0000int);
    let d = v.dot_fx(n);
    fixed::lemma_fxmul_mag(n.x, 2 * d, 2 * SCALE as int, 0x2_0000_0000int);
    fixed::lemma_fxmul_mag(n.y, 2 * d, 2 * SCALE as int, 0x2_0000_0000int);
    fixed::lemma_fxmul_mag(n.z, 2 * d, 2 * SCALE as int, 0x2_0000_0000int);
    assert((2 * SCALE as int) * 0x2_0000_0000int / (SCALE as int) == 0x4_0000_0000int)
        by (nonlinear_arith);
}

/// The clamped incidence cosine the dielectric works with: the dot
/// product of the reversed unit direction with the normal, capped at one.
pub open spec fn incidence_cos(ud: V3, n: V3) -> int {
    let d = ud.neg().dot_fx(n);
    if d > SCALE as int {
        SCALE as int
    } else {
        d
    }
}

/// Whether Snell's law admits no refraction: the refraction ratio times
/// the incidence sine (computed exactly as the tracer computes it)
/// exceeds one.
pub open spec fn total_internal_reflection(ud: V3, n: V3, ratio: int) -> bool {
    let c = incidence_cos(ud, n);
    let c2 = fxmul(c, c);
    let k = if SCALE as int - c2 >= 0 {
        SCALE as int - c2
    } else {
        0
    };
    fxmul(ratio, crate::fixed::sqrt_floor(k * (SCALE as int))) > SCALE as int
}

impl Dielectric {
    pub open spec fn wf(self) -> bool {
        0 < self.ir <= 16 * SCALE
    }

    pub fn new(ir: i64) -> (r: Self)
        ensures
            r.ir == ir,
    {
        Self { ir }
    }

    /// Schlick's approximation of the Fresnel reflectance.
    pub open spec fn reflectance_spec(cosine: int, ref_idx: int) -> int {
        let q = fxdiv(SCALE as int - ref_idx, SCALE as int + ref_idx);
        let r0 = fxmul(q, q);
        let om = SCALE as int - cosine;
        let om2 = fxmul(om, om);
        let om4 = fxmul(om2, om2);
        let om5 = fxmul(om4, om);
        r0 + fxmul(SCALE as int - r0, om5)
    }

    /// Schlick's approximation of the Fresnel reflectance.
    pub fn reflectance(cosine: i64, ref_idx: i64) -> (r: i64)
        requires
            0 < ref_idx <= 0x1_0000_0000,
            -0x60000 <= cosine <= SCALE,
        ensures
            r == Self::reflectance_spec(cosine as int, ref_idx as int),
    {
        proof {
            let s = SCALE as int;
            let d1 = s - ref_idx;
            let d2 = s + ref_idx;
            assert(-(d2 * s) <= d1 * s <= d2 * s) by (nonlinear_arith)
                requires
                    -d2 <= d1 <= d2,
                    s > 0,
            ;
            fixed::lemma_tdiv_bound_by(d1 * s, d2, d2 * s);
            vstd::arithmetic::div_mod::lemma_div_multiples_vanish(s, d2);
        }
        let q: i64 = fixed::div(SCALE - ref_idx, SCALE + ref_idx);
        proof {
            fixed::lemma_fxmul_mag(q as int, q as int, SCALE as int, SCALE as int);
            assert((SCALE as int) * (SCALE as int) / (SCALE as int) == SCALE as int)
                by (nonlinear_arith)
                requires
                    SCALE == 65536,
            ;
            assert((q as int) * (q as int) >= 0) by (nonlinear_arith);
            fixed::lemma_tdiv_mag((q as int) * (q as int), SCALE as int);
        }
        let r0: i64 = fixed::mul(q, q);
        let om: i64 = SCALE - cosine;
        proof {
            fixed::lemma_fxmul_mag(om as int, om as int, 0x70000, 0x70000);
            assert(0x70000int * 0x70000 / (SCALE as int) == 0x31_0000) by (nonlinear_arith);
        }
        let om2: i64 = fixed::mul(om, om);
        proof {
            fixed::lemma_fxmul_mag(om2 as int, om2 as int, 0x31_0000, 0x31_0000);
            assert(0x31_0000int * 0x31_0000 / (SCALE as int) == 0x961_0000) by (nonlinear_arith);
        }
        let om4: i64 = fixed::mul(om2, om2);
        proof {
            fixed::lemma_fxmul_mag(om4 as int, om as int, 0x961_0000, 0x70000);
            assert(0x961_0000int * 0x70000 / (SCALE as int) == 0x41a7_0000) by (nonlinear_arith);
        }
        let om5: i64 = fixed::mul(om4, om);
        proof {
            fixed::lemma_fxmul_mag(SCALE as int - r0 as int, om5 as int, 0x10000, 0x41a7_0000);
            assert(0x10000int * 0x41a7_0000 / (SCALE as int) == 0x41a7_0000) by (nonlinear_arith);
        }
        let tail: i64 = fixed::mul(SCALE - r0, om5);
        r0 + tail
    }

    /// Dielectric scattering: always scatters with no attenuation (pure
    /// white); the outgoing ray leaves the hit point along the mirror
    /// reflection of the normalized incoming direction under total
    /// internal reflection, and otherwise along the reflection or the
    /// Snell refraction as Schlick's reflectance compares against a
    /// uniform coin from `[0, 1)` — so a reflectance of zero forces the
    /// refraction for every draw.
    pub fn scatter(
        &self,
        ray_in: &Ray,
        rec: &HitRecord,
        attenuation: &mut Color,
        ray_scattered: &mut Ray,
        rng: &mut RandSrc,
    ) -> (b: bool)
        requires
            self.wf(),
            scatterable(*rec),
            ray_in.dir@.within(COORD_LIMIT as int),
            ray_in.dir@.norm2_raw() > 0,
        ensures
            b == true,
            final(attenuation)@ == (V3 { x: SCALE as int, y: SCALE as int, z: SCALE as int }),
            final(ray_scattered).orig@ == rec.point@,
            dielectric_dir_ok(*self, ray_in.dir@, *rec, final(ray_scattered).dir@),
    {
        attenuation.set(SCALE, SCALE, SCALE);
        proof {
            fixed::lemma_tdiv_mag((SCALE as int) * (SCALE as int), self.ir as int);
            lemma_ratio_pos(self.ir as int);
        }
        let refraction_ratio: i64 = if rec.front_face {
            fixed::div(SCALE, self.ir)
        } else {
            self.ir
        };
        let unit_direction = ray_in.dir.make_unit_vector();
        let rev = unit_direction.reverse();
        let d0: i64 = rev.dot(&rec.normal);
        proof {
            crate::vec3::lemma_dot_raw_bound(rev@, rec.normal@, SCALE as int, 2 * SCALE as int);
            fixed::lemma_tdiv_bound_by(rev@.dot_raw(rec.normal@), SCALE as int, 0x6_0000_0000int);
        }
        let cos_theta: i64 = if d0 > SCALE {
            SCALE
        } else {
            d0
        };
        proof {
            fixed::lemma_fxmul_mag(cos_theta as int, cos_theta as int, 0x60000, 0x60000);
            assert(0x60000int * 0x60000 / (SCALE as int) == 0x24_0000) by (nonlinear_arith);
        }
        let c2: i64 = fixed::mul(cos_theta, cos_theta);
        proof {
            assert((cos_theta as int) * (cos_theta as int) >= 0) by (nonlinear_arith);
            fixed::lemma_tdiv_mag((cos_theta as int) * (cos_theta as int), SCALE as int);
        }
        let k: i64 = if SCALE - c2 >= 0 {
            SCALE - c2
        } else {
            0
        };
        let st: i64 = fixed::sqrt(k);
        proof {
            fixed::lemma_sqrt_floor_is_sqrt((k as int) * (SCALE as int));
            assert(st <= 65536) by (nonlinear_arith)
                requires
                    st >= 0,
                    (st as int) * (st as int) <= (k as int) * (SCALE as int),
                    0 <= k <= 65536,
            ;
            fixed::lemma_fxmul_mag(refraction_ratio as int, st as int, 0x1_0000_0000int, SCALE as int);
        }
        let rs: i64 = fixed::mul(refraction_ratio, st);
        let cannot_refract = rs > SCALE;
        let mut use_reflect: bool = true;
        let mut coin: i64 = 0;
        if !cannot_refract {
            let refl: i64 = Self::reflectance(cos_theta, refraction_ratio);
            coin = rng.next_unit();
            use_reflect = refl > coin;
        }
        let direction = if use_reflect {
            Vec3::reflect(&unit_direction, &rec.normal)
        } else {
            Vec3::refract(&unit_direction, &rec.normal, refraction_ratio)
        };
        proof {
            let ud = ray_in.dir@.unit();
            let n = rec.normal@;
            let ratio = refraction_ratio as int;
            assert(ratio == dielectric_ratio(*self, *rec));
            assert(cos_theta as int == incidence_cos(ud, n));
            assert(cannot_refract == total_internal_reflection(ud, n, ratio));
            if !cannot_refract {
                let ci = coin as int;
                assert(0 <= ci < SCALE as int && direction@ == fresnel_pick(ud, n, ratio, ci));
            }
            lemma_dielectric_dir_ok(*self, ray_in.dir@, *rec, direction@, coin as int);
        }
        *ray_scattered = Ray { orig: rec.point, dir: direction };
        true
    }
}

/// The refraction ratio `1 / ir` is positive for a well-formed index.
proof fn lemma_ratio_pos(ir: int)
    requires
        0 < ir <= 16 * SCALE as int,
    ensures
        1 <= fxdiv(SCALE as int, ir) <= (SCALE as int) * (SCALE as int),
{
    let s = SCALE as int;
    assert(s * s == 0x1_0000_0000int) by (nonlinear_arith)
        requires
            s == 65536,
    ;
    if ir < s {
        fixed::lemma_fxdiv_nonzero(s, ir);
    } else {
        vstd::arithmetic::div_mod::lemma_div_is_ordered(ir, s * s, ir);
        vstd::arithmetic::div_mod::lemma_div_by_self(ir);
    }
    fixed::lemma_tdiv_mag(s * s, ir);
}

/// The direction the Fresnel coin picks: the mirror reflection where
/// Schlick's reflectance exceeds the coin, the Snell refraction
/// otherwise — so a reflectance of zero refracts for every coin.
pub open spec fn fresnel_pick(ud: V3, n: V3, ratio: int, coin: int) -> V3 {
    if Dielectric::reflectance_spec(incidence_cos(ud, n), ratio) > coin {
        ud.reflect_spec(n)
    } else {
        refract_spec(ud, n, ratio)
    }
}

/// The attenuation a scattering material applies: its albedo for the
/// diffuse and reflective models, pure white for the dielectric.
pub open spec fn material_attenuation(m: Material) -> V3 {
    match m {
        Material::Lambertian(l) => l.albedo@,
        Material::Metal(mm) => mm.albedo@,
        Material::Dielectric(_) => V3 { x: SCALE as int, y: SCALE as int, z: SCALE as int },
    }
}

/// The refraction ratio a dielectric works with: the reciprocal of the
/// index where the ray strikes the front face, the index itself inside.
pub open spec fn dielectric_ratio(m: Dielectric, rec: HitRecord) -> int {
    if rec.front_face {
        fxdiv(SCALE as int, m.ir as int)
    } else {
        m.ir as int
    }
}

/// Assemble `dielectric_dir_ok` from the branch that was taken.
proof fn lemma_dielectric_dir_ok(m: Dielectric, dir_in: V3, rec: HitRecord, d: V3, coin: int)
    requires
        total_internal_reflection(dir_in.unit(), rec.normal@, dielectric_ratio(m, rec)) ==> d
            == dir_in.unit().reflect_spec(rec.normal@),
        !total_internal_reflection(dir_in.unit(), rec.normal@, dielectric_ratio(m, rec)) ==> 0
            <= coin < SCALE as int && d == fresnel_pick(
            dir_in.unit(),
            rec.normal@,
            dielectric_ratio(m, rec),
            coin,
        ),
    ensures
        dielectric_dir_ok(m, dir_in, rec, d),
{
    if !total_internal_reflection(dir_in.unit(), rec.normal@, dielectric_ratio(m, rec)) {
        assert(0 <= coin < SCALE as int && d == fresnel_pick(
            dir_in.unit(),
            rec.normal@,
            dielectric_ratio(m, rec),
            coin,
        ));
    }
}

/// What a dielectric's outgoing direction is, for every outcome of the
/// Fresnel coin: the mirror reflection under total internal reflection;
/// otherwise `fresnel_pick` for some coin from `[0, 1)`.
pub open spec fn dielectric_dir_ok(m: Dielectric, dir_in: V3, rec: HitRecord, d: V3) -> bool {
    &&& total_internal_reflection(dir_in.unit(), rec.normal@, dielectric_ratio(m, rec)) ==> d
        == dir_in.unit().reflect_spec(rec.normal@)
    &&& !total_internal_reflection(dir_in.unit(), rec.normal@, dielectric_ratio(m, rec))
        ==> exists|coin: int|
        0 <= coin < SCALE as int && d == #[trigger] fresnel_pick(
            dir_in.unit(),
            rec.normal@,
            dielectric_ratio(m, rec),
            coin,
        )
}

impl Material {
    /// The material's own well-formedness: bounded albedo and fuzz, a
    /// positive refraction index.
    pub open spec fn wf(self) -> bool {
        match self {
            Material::Lambertian(m) => m.wf(),
            Material::Metal(m) => m.wf(),
            Material::Dielectric(m) => m.wf(),
        }
    }

    /// Dispatch to the variant's scattering rule. Every material of this
    /// set scatters (none absorbs); the attenuation is the albedo for the
    /// diffuse and reflective models and pure white for the dielectric,
    /// so no well-formed material amplifies light, and the outgoing ray
    /// always leaves the hit point.
    pub fn scatter(
        &self,
        ray_in: &Ray,
        rec: &HitRecord,
        attenuation: &mut Color,
        ray_scattered: &mut Ray,
        rng: &mut RandSrc,
    ) -> (b: bool)
        requires
            self.wf(),
            scatterable(*rec),
            ray_in.dir@.within(COORD_LIMIT as int),
            ray_in.dir@.norm2_raw() > 0,
        ensures
            b == true,
            unit_color(final(attenuation)@),
            final(ray_scattered).orig@ == rec.point@,
            match *self {
                Material::Lambertian(m) => final(attenuation)@ == m.albedo@,
                Material::Metal(m) => final(attenuation)@ == m.albedo@,
                Material::Dielectric(_) => final(attenuation)@ == (V3 {
                    x: SCALE as int,
                    y: SCALE as int,
                    z: SCALE as int,
                }),
            },
            match *self {
                Material::Lambertian(_) => exists|u: V3|
                    near_unit(u) && final(ray_scattered).dir@ == lambertian_dir(rec.normal@, u),
                Material::Metal(m) => exists|u: V3|
                    near_unit(u) && final(ray_scattered).dir@ == ray_in.dir@.reflect_spec(
                        rec.normal@,
                    ).plus(u.scale_fx(m.fuzz as int)),
                Material::Dielectric(m) => dielectric_dir_ok(
                    m,
                    ray_in.dir@,
                    *rec,
                    final(ray_scattered).dir@,
                ),
            },
    {
        match self {
            Material::Lambertian(m) => m.scatter(ray_in, rec, attenuation, ray_scattered, rng),
            Material::Metal(m) => m.scatter(ray_in, rec, attenuation, ray_scattered, rng),
            Material::Dielectric(m) => m.scatter(ray_in, rec, attenuation, ray_scattered, rng),
        }
    }
}

} // verus!
