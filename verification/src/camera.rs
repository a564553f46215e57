//! The camera and the light-transport loop.
//!
//! The camera owns its viewport geometry, derived once by `initialize`
//! from the configuration fields: an orthonormal basis aimed from
//! `look_from` at `look_at`, per-pixel delta vectors, the world position
//! of the first pixel's center, and a defocus-disk basis for depth of
//! field. Angles enter as tangents of half-angles (`tan_half_vfov`,
//! `tan_half_defocus`), already in fixed point; `initialize` validates
//! every derived quantity at run time and reports an invalid geometry
//! instead of proceeding.
//!
//! `ray_color` is the transport recursion in its iterative form: it
//! carries the product of the attenuations and a remaining-bounce budget,
//! returns black when the budget is exhausted and the sky gradient on a
//! miss, and never brightens light: with well-formed materials every
//! returned component lies in `[0, 1]`.

use vstd::prelude::*;

use crate::color;
use crate::color::Color;
use crate::fixed;
use crate::fixed::{fits_i64, fxdiv, fxmul, iabs, tdiv, HALF, SCALE};
use crate::hittables::{scene_hit_spec, Hittables};
use crate::interval::Interval;
use crate::material::{material_attenuation, unit_color};
use crate::ray::{Ray, T_LIMIT};
use crate::rng::RandSrc;
use crate::vec3::{fits3, lemma_norm2_raw_pos, Point3, Vec3, V3, COORD_LIMIT};

verus! {

/// The near bound of every scatter query (about 0.001): rays re-emitted
/// from a surface ignore hits closer than this, suppressing shadow acne.
pub const SHADOW_EPS: i64 = 66;

/// Derived camera vectors stay within this magnitude (raw; 64.0 in real
/// units times 16: 2^26), an eighth of `COORD_LIMIT`.
pub const VIEW_LIMIT: i64 = 0x400_0000;

/// The green channel of the sky's horizon color (0.7, truncated).
pub const SKY_GREEN: i64 = 45875;

/// The image height derived from width and aspect ratio, at least one.
pub open spec fn height_spec(width: int, aspect: int) -> int
    recommends
        aspect > 0,
{
    let h = tdiv(fxdiv(width * (SCALE as int), aspect), SCALE as int);
    if h < 1 {
        1
    } else {
        h
    }
}

/// The background: a vertical gradient from white at the bottom to light
/// blue at the top, evaluated on the normalized ray direction.
pub open spec fn sky_spec(ray: Ray) -> V3 {
    let u = ray.dir@.unit();
    let a = fxmul(HALF as int, u.y + SCALE as int);
    let white = V3 { x: SCALE as int, y: SCALE as int, z: SCALE as int };
    let horizon = V3 { x: HALF as int, y: SKY_GREEN as int, z: SCALE as int };
    white.scale_fx(SCALE as int - a).plus(horizon.scale_fx(a))
}

/// A stochastic path tracer's camera: configuration plus derived
/// viewport state.
pub struct Camera {
    pub aspect_ratio: i64,
    pub image_width: u32,
    pub samples_per_pixel: u32,
    pub max_depth: u32,
    pub tan_half_vfov: i64,
    pub look_from: Point3,
    pub look_at: Point3,
    pub vup: Vec3,
    pub tan_half_defocus: i64,
    pub focus_dist: i64,
    pub image_height: u32,
    pub center: Point3,
    pub pixel00_loc: Point3,
    pub pixel_delta_u: Vec3,
    pub pixel_delta_v: Vec3,
    pub u: Vec3,
    pub v: Vec3,
    pub w: Vec3,
    pub defocus_disk_u: Vec3,
    pub defocus_disk_v: Vec3,
}

impl Camera {
    /// The derived state is in range: every vector within `VIEW_LIMIT`,
    /// and a whole row or column of pixel steps stays within it too, so
    /// every generated ray is representable.
    pub open spec fn derived_ok(self) -> bool {
        let q = VIEW_LIMIT as int;
        &&& 1 <= self.image_width <= 0x4000
        &&& 1 <= self.image_height <= 0x4000
        &&& 1 <= self.samples_per_pixel <= 0x10000
        &&& self.center@.within(q)
        &&& self.pixel00_loc@.within(q)
        &&& self.pixel_delta_u@.within(q)
        &&& self.pixel_delta_v@.within(q)
        &&& self.defocus_disk_u@.within(q)
        &&& self.defocus_disk_v@.within(q)
        &&& (self.image_width as int) * iabs(self.pixel_delta_u@.x) <= q
        &&& (self.image_width as int) * iabs(self.pixel_delta_u@.y) <= q
        &&& (self.image_width as int) * iabs(self.pixel_delta_u@.z) <= q
        &&& (self.image_height as int) * iabs(self.pixel_delta_v@.x) <= q
        &&& (self.image_height as int) * iabs(self.pixel_delta_v@.y) <= q
        &&& (self.image_height as int) * iabs(self.pixel_delta_v@.z) <= q
    }

    /// The world position of pixel `(i, j)`'s center: the first pixel's
    /// center advanced `i` steps right and `j` steps down.
    pub open spec fn pixel_at_spec(self, i: int, j: int) -> V3 {
        self.pixel00_loc@.plus(
            V3 {
                x: self.pixel_delta_u@.x * i,
                y: self.pixel_delta_u@.y * i,
                z: self.pixel_delta_u@.z * i,
            },
        ).plus(
            V3 {
                x: self.pixel_delta_v@.x * j,
                y: self.pixel_delta_v@.y * j,
                z: self.pixel_delta_v@.z * j,
            },
        )
    }

    /// The image width in fixed point.
    pub open spec fn wfx_spec(self) -> int {
        (self.image_width as int) * (SCALE as int)
    }

    /// The fixed-point image height before truncation to whole pixels.
    pub open spec fn hfx_spec(self) -> int {
        fxdiv(self.wfx_spec(), self.aspect_ratio as int)
    }

    /// The derived image height in whole pixels, at least one.
    pub open spec fn height_val(self) -> int {
        height_spec(self.image_width as int, self.aspect_ratio as int)
    }

    /// The un-normalized view direction, from the target to the eye.
    pub open spec fn dirw_spec(self) -> V3 {
        self.look_from@.minus(self.look_at@)
    }

    /// The basis vector pointing against the view: `unit(look_from - look_at)`.
    pub open spec fn w_spec(self) -> V3 {
        self.dirw_spec().unit()
    }

    /// The un-normalized right vector: `cross(vup, w)`.
    pub open spec fn cu_spec(self) -> V3 {
        self.vup@.cross_fx(self.w_spec())
    }

    /// The basis vector pointing right: `unit(cross(vup, w))`.
    pub open spec fn u_spec(self) -> V3 {
        self.cu_spec().unit()
    }

    /// The basis vector pointing up: `cross(w, u)`.
    pub open spec fn v_spec(self) -> V3 {
        self.w_spec().cross_fx(self.u_spec())
    }

    /// Half the viewport height: `tan(vfov / 2) * focus_dist`.
    pub open spec fn vh_half_spec(self) -> int {
        fxmul(self.tan_half_vfov as int, self.focus_dist as int)
    }

    /// The viewport height at the focus distance.
    pub open spec fn viewport_height_spec(self) -> int {
        2 * self.vh_half_spec()
    }

    /// The image height in fixed point.
    pub open spec fn hfx2_spec(self) -> int {
        self.height_val() * (SCALE as int)
    }

    /// The width-to-height ratio in whole pixels.
    pub open spec fn ratio_wh_spec(self) -> int {
        fxdiv(self.wfx_spec(), self.hfx2_spec())
    }

    /// The viewport width: the height scaled by the pixel aspect.
    pub open spec fn viewport_width_spec(self) -> int {
        fxmul(self.viewport_height_spec(), self.ratio_wh_spec())
    }

    /// The vector across the horizontal viewport edge.
    pub open spec fn viewport_u_spec(self) -> V3 {
        self.u_spec().scale_fx(self.viewport_width_spec())
    }

    /// The vector down the vertical viewport edge.
    pub open spec fn viewport_v_spec(self) -> V3 {
        self.v_spec().scale_fx(-self.viewport_height_spec())
    }

    /// The horizontal pixel-to-pixel delta: the edge over the width.
    pub open spec fn pixel_delta_u_spec(self) -> V3 {
        self.viewport_u_spec().div_fx(self.wfx_spec())
    }

    /// The vertical pixel-to-pixel delta: the edge over the height.
    pub open spec fn pixel_delta_v_spec(self) -> V3 {
        self.viewport_v_spec().div_fx(self.hfx2_spec())
    }

    /// The view vector scaled out to the focus plane.
    pub open spec fn foc_w_spec(self) -> V3 {
        self.w_spec().scale_fx(self.focus_dist as int)
    }

    /// Half the horizontal viewport edge.
    pub open spec fn vu_half_spec(self) -> V3 {
        self.viewport_u_spec().div_fx(2 * SCALE as int)
    }

    /// Half the vertical viewport edge.
    pub open spec fn vv_half_spec(self) -> V3 {
        self.viewport_v_spec().div_fx(2 * SCALE as int)
    }

    /// The upper-left corner of the viewport.
    pub open spec fn upper_left_spec(self) -> V3 {
        self.look_from@.minus(self.foc_w_spec()).minus(self.vu_half_spec()).minus(
            self.vv_half_spec(),
        )
    }

    /// Half a pixel step in both grid directions.
    pub open spec fn pd_half_spec(self) -> V3 {
        self.pixel_delta_u_spec().plus(self.pixel_delta_v_spec()).scale_fx(HALF as int)
    }

    /// The world position of pixel (0, 0)'s center.
    pub open spec fn pixel00_spec(self) -> V3 {
        self.upper_left_spec().plus(self.pd_half_spec())
    }

    /// The defocus-disk radius: `focus_dist * tan(defocus_angle / 2)`.
    pub open spec fn defocus_radius_spec(self) -> int {
        fxmul(self.focus_dist as int, self.tan_half_defocus as int)
    }

    /// The horizontal defocus-disk basis vector.
    pub open spec fn defocus_disk_u_spec(self) -> V3 {
        self.u_spec().scale_fx(self.defocus_radius_spec())
    }

    /// The vertical defocus-disk basis vector.
    pub open spec fn defocus_disk_v_spec(self) -> V3 {
        self.v_spec().scale_fx(self.defocus_radius_spec())
    }

    /// The deterministic validity of a configuration: exactly the checks
    /// `initialize` performs, as a predicate on the configuration fields
    /// alone — bounds on the inputs, a nonzero view direction, an up
    /// vector not parallel to it, and every derived quantity
    /// representable and within `VIEW_LIMIT`. `initialize` succeeds on
    /// precisely these cameras.
    pub open spec fn init_ok(self) -> bool {
        let q = VIEW_LIMIT as int;
        &&& 1 <= self.image_width <= 0x4000
        &&& 1 <= self.samples_per_pixel <= 0x10000
        &&& self.aspect_ratio > 0
        &&& 1 <= self.focus_dist <= VIEW_LIMIT
        &&& 1 <= self.tan_half_vfov <= VIEW_LIMIT
        &&& -VIEW_LIMIT <= self.tan_half_defocus <= VIEW_LIMIT
        &&& self.look_from@.within(q)
        &&& self.look_at@.within(q)
        &&& self.vup@.within(q)
        &&& fits_i64(self.hfx_spec())
        &&& tdiv(self.hfx_spec(), SCALE as int) <= 0x4000
        &&& !(self.dirw_spec().x == 0 && self.dirw_spec().y == 0 && self.dirw_spec().z == 0)
        &&& !(self.cu_spec().x == 0 && self.cu_spec().y == 0 && self.cu_spec().z == 0)
        &&& self.cu_spec().within(COORD_LIMIT as int)
        &&& self.v_spec().within(2 * SCALE as int)
        &&& fits_i64(self.vh_half_spec())
        &&& 1 <= self.vh_half_spec() <= 0x200_0000
        &&& fits_i64(self.ratio_wh_spec())
        &&& fits_i64(self.viewport_width_spec())
        &&& 1 <= self.viewport_width_spec() <= VIEW_LIMIT
        &&& fits3(self.viewport_u_spec())
        &&& self.viewport_u_spec().within(q)
        &&& fits3(self.viewport_v_spec())
        &&& self.viewport_v_spec().within(q)
        &&& fits3(self.pixel_delta_u_spec())
        &&& self.pixel_delta_u_spec().within(q)
        &&& fits3(self.pixel_delta_v_spec())
        &&& self.pixel_delta_v_spec().within(q)
        &&& (self.image_width as int) * iabs(self.pixel_delta_u_spec().x) <= q
        &&& (self.image_width as int) * iabs(self.pixel_delta_u_spec().y) <= q
        &&& (self.image_width as int) * iabs(self.pixel_delta_u_spec().z) <= q
        &&& self.height_val() * iabs(self.pixel_delta_v_spec().x) <= q
        &&& self.height_val() * iabs(self.pixel_delta_v_spec().y) <= q
        &&& self.height_val() * iabs(self.pixel_delta_v_spec().z) <= q
        &&& fits3(self.foc_w_spec())
        &&& self.foc_w_spec().within(q)
        &&& fits3(self.vu_half_spec())
        &&& fits3(self.vv_half_spec())
        &&& self.vu_half_spec().within(q)
        &&& self.vv_half_spec().within(q)
        &&& fits3(self.pd_half_spec())
        &&& self.pd_half_spec().within(q)
        &&& self.pixel00_spec().within(q)
        &&& fits_i64(self.defocus_radius_spec())
        &&& fits3(self.defocus_disk_u_spec())
        &&& fits3(self.defocus_disk_v_spec())
        &&& self.defocus_disk_u_spec().within(q)
        &&& self.defocus_disk_v_spec().within(q)
    }

    /// A camera with the given projection parameters, aimed down the
    /// negative z axis from the origin, with a mild defocus (the tangent
    /// of five degrees) and a focus distance of 3.4 — each overridable
    /// through the public fields before rendering.
    pub fn new(
        aspect_ratio: i64,
        image_width: u32,
        samples_per_pixel: u32,
        max_depth: u32,
        tan_half_vfov: i64,
    ) -> (r: Self)
        ensures
            r.aspect_ratio == aspect_ratio,
            r.image_width == image_width,
            r.samples_per_pixel == samples_per_pixel,
            r.max_depth == max_depth,
            r.tan_half_vfov == tan_half_vfov,
            r.look_from@ == (V3 { x: 0, y: 0, z: 0 }),
            r.look_at@ == (V3 { x: 0, y: 0, z: -(SCALE as int) }),
            r.vup@ == (V3 { x: 0, y: SCALE as int, z: 0 }),
            r.tan_half_defocus == 5734,
            r.focus_dist == 222822,
    {
        Camera {
            aspect_ratio,
            image_width,
            samples_per_pixel,
            max_depth,
            tan_half_vfov,
            look_from: Vec3::new(0, 0, 0),
            look_at: Vec3::new(0, 0, -SCALE),
            vup: Vec3::new(0, SCALE, 0),
            tan_half_defocus: 5734,
            focus_dist: 222822,
            image_height: 0,
            center: Vec3::default(),
            pixel00_loc: Vec3::default(),
            pixel_delta_u: Vec3::default(),
            pixel_delta_v: Vec3::default(),
            u: Vec3::default(),
            v: Vec3::default(),
            w: Vec3::default(),
            defocus_disk_u: Vec3::default(),
            defocus_disk_v: Vec3::default(),
        }
    }

    /// Derive the viewport state from the configuration. Succeeds on
    /// exactly the configurations `init_ok` admits — a zero view
    /// direction, an up vector parallel to it, or an out-of-range extent
    /// is reported as false and leaves the camera unusable. On success
    /// every derived field holds its `*_spec` value: the orthonormal
    /// basis, the pixel deltas, the first pixel's center and the
    /// defocus-disk basis, all fixed-point functions of the configuration.
    #[verifier::rlimit(100)]
    pub fn initialize(&mut self) -> (ok: bool)
        ensures
            final(self).aspect_ratio == old(self).aspect_ratio,
            final(self).image_width == old(self).image_width,
            final(self).samples_per_pixel == old(self).samples_per_pixel,
            final(self).max_depth == old(self).max_depth,
            final(self).tan_half_vfov == old(self).tan_half_vfov,
            final(self).look_from == old(self).look_from,
            final(self).look_at == old(self).look_at,
            final(self).vup == old(self).vup,
            final(self).tan_half_defocus == old(self).tan_half_defocus,
            final(self).focus_dist == old(self).focus_dist,
            ok == old(self).init_ok(),
            ok ==> final(self).derived_ok(),
            ok ==> final(self).center == old(self).look_from,
            ok ==> final(self).image_height as int == height_spec(
                old(self).image_width as int,
                old(self).aspect_ratio as int,
            ),
            ok ==> final(self).w@ == old(self).w_spec(),
            ok ==> final(self).u@ == old(self).u_spec(),
            ok ==> final(self).v@ == old(self).v_spec(),
            ok ==> final(self).pixel_delta_u@ == old(self).pixel_delta_u_spec(),
            ok ==> final(self).pixel_delta_v@ == old(self).pixel_delta_v_spec(),
            ok ==> final(self).pixel00_loc@ == old(self).pixel00_spec(),
            ok ==> final(self).defocus_disk_u@ == old(self).defocus_disk_u_spec(),
            ok ==> final(self).defocus_disk_v@ == old(self).defocus_disk_v_spec(),
    {
        if self.image_width < 1 || self.image_width > 0x4000 {
            return false;
        }
        if self.samples_per_pixel < 1 || self.samples_per_pixel > 0x10000 {
            return false;
        }
        if self.aspect_ratio <= 0 {
            return false;
        }
        if self.focus_dist < 1 || self.focus_dist > VIEW_LIMIT {
            return false;
        }
        if self.tan_half_vfov < 1 || self.tan_half_vfov > VIEW_LIMIT {
            return false;
        }
        if self.tan_half_defocus < -VIEW_LIMIT || self.tan_half_defocus > VIEW_LIMIT {
            return false;
        }
        if !self.look_from.within_limit(VIEW_LIMIT) || !self.look_at.within_limit(VIEW_LIMIT)
            || !self.vup.within_limit(VIEW_LIMIT) {
            return false;
        }
        // Image height from width and aspect ratio.
        let wfx: i64 = (self.image_width as i64) * SCALE;
        let hfx: i64 = match fixed::div_checked(wfx, self.aspect_ratio) {
            Some(v) => v,
            None => { return false; },
        };
        proof {
            fixed::lemma_tdiv_mag((wfx as int) * (SCALE as int), self.aspect_ratio as int);
            assert((wfx as int) * (SCALE as int) >= 0) by (nonlinear_arith)
                requires
                    wfx >= 0,
            ;
        }
        let h_wide: u64 = (hfx as u64) / (SCALE as u64);
        if h_wide > 0x4000 {
            return false;
        }
        let mut height: u32 = h_wide as u32;
        if height == 0 {
            height = 1;
        }
        self.image_height = height;
        self.center = self.look_from;
        // Orthonormal basis aimed from look_from at look_at.
        let dirw = self.look_from.sub(&self.look_at);
        if dirw.x() == 0 && dirw.y() == 0 && dirw.z() == 0 {
            return false;
        }
        proof {
            lemma_norm2_raw_pos(dirw@);
        }
        self.w = Vec3::unit_vector(&dirw);
        let cu = self.vup.cross(&self.w);
        if cu.x() == 0 && cu.y() == 0 && cu.z() == 0 {
            return false;
        }
        if !cu.in_range() {
            return false;
        }
        proof {
            lemma_norm2_raw_pos(cu@);
        }
        self.u = Vec3::unit_vector(&cu);
        self.v = self.w.cross(&self.u);
        if !self.v.within_limit(2 * SCALE) {
            return false;
        }
        // Viewport extents at the focus distance.
        let vh_half: i64 = match fixed::mul_checked(self.tan_half_vfov, self.focus_dist) {
            Some(v) => v,
            None => { return false; },
        };
        if vh_half < 1 || vh_half > 0x200_0000 {
            return false;
        }
        let viewport_height: i64 = 2 * vh_half;
        let hfx2: i64 = (self.image_height as i64) * SCALE;
        let ratio_wh: i64 = match fixed::div_checked(wfx, hfx2) {
            Some(v) => v,
            None => { return false; },
        };
        let viewport_width: i64 = match fixed::mul_checked(viewport_height, ratio_wh) {
            Some(v) => v,
            None => { return false; },
        };
        if viewport_width < 1 || viewport_width > VIEW_LIMIT {
            return false;
        }
        // Viewport edge vectors and per-pixel deltas.
        let viewport_u = match self.u.scale_checked(viewport_width) {
            Some(v) => v,
            None => { return false; },
        };
        if !viewport_u.within_limit(VIEW_LIMIT) {
            return false;
        }
        let viewport_v = match self.v.scale_checked(-viewport_height) {
            Some(v) => v,
            None => { return false; },
        };
        if !viewport_v.within_limit(VIEW_LIMIT) {
            return false;
        }
        let pdu = match viewport_u.div_checked(wfx) {
            Some(v) => v,
            None => { return false; },
        };
        if !pdu.within_limit(VIEW_LIMIT) {
            return false;
        }
        let pdv = match viewport_v.div_checked(hfx2) {
            Some(v) => v,
            None => { return false; },
        };
        if !pdv.within_limit(VIEW_LIMIT) {
            return false;
        }
        if !span_ok(self.image_width as i64, &pdu, VIEW_LIMIT) {
            return false;
        }
        if !span_ok(self.image_height as i64, &pdv, VIEW_LIMIT) {
            return false;
        }
        self.pixel_delta_u = pdu;
        self.pixel_delta_v = pdv;
        // The world position of pixel (0, 0)'s center.
        let foc_w = match self.w.scale_checked(self.focus_dist) {
            Some(v) => v,
            None => { return false; },
        };
        if !foc_w.within_limit(VIEW_LIMIT) {
            return false;
        }
        let two_fx: i64 = 2 * SCALE;
        let vu_half = match viewport_u.div_checked(two_fx) {
            Some(v) => v,
            None => { return false; },
        };
        let vv_half = match viewport_v.div_checked(two_fx) {
            Some(v) => v,
            None => { return false; },
        };
        if !vu_half.within_limit(VIEW_LIMIT) || !vv_half.within_limit(VIEW_LIMIT) {
            return false;
        }
        let upper_left = self.center.sub(&foc_w).sub(&vu_half).sub(&vv_half);
        let pd_sum = pdu.add(&pdv);
        let pd_half = match pd_sum.scale_checked(HALF) {
            Some(v) => v,
            None => { return false; },
        };
        if !pd_half.within_limit(VIEW_LIMIT) {
            return false;
        }
        let pixel00 = upper_left.add(&pd_half);
        if !pixel00.within_limit(VIEW_LIMIT) {
            return false;
        }
        self.pixel00_loc = pixel00;
        // Defocus-disk basis.
        let defocus_radius: i64 = match fixed::mul_checked(self.focus_dist, self.tan_half_defocus)
            {
            Some(v) => v,
            None => { return false; },
        };
        let ddu = match self.u.scale_checked(defocus_radius) {
            Some(v) => v,
            None => { return false; },
        };
        let ddv = match self.v.scale_checked(defocus_radius) {
            Some(v) => v,
            None => { return false; },
        };
        if !ddu.within_limit(VIEW_LIMIT) || !ddv.within_limit(VIEW_LIMIT) {
            return false;
        }
        self.defocus_disk_u = ddu;
        self.defocus_disk_v = ddv;
        true
    }

    /// A point drawn uniformly from the camera's defocus disk: the center
    /// offset along the disk basis by a coordinate pair strictly inside
    /// the unit disk.
    fn defocus_disk_sample(&self, rng: &mut RandSrc) -> (r: Point3)
        requires
            self.derived_ok(),
        ensures
            r@.within(3 * VIEW_LIMIT as int),
            exists|dx: int, dy: int|
                dx * dx + dy * dy < (SCALE as int) * (SCALE as int) && r@ == self.center@.plus(
                    self.defocus_disk_u@.scale_fx(dx),
                ).plus(self.defocus_disk_v@.scale_fx(dy)),
    {
        let p = Vec3::random_in_unit_disk(rng);
        proof {
            lemma_scale_by_unit(self.defocus_disk_u@, p@.x);
            lemma_scale_by_unit(self.defocus_disk_v@, p@.y);
        }
        let a = self.defocus_disk_u.scale(p.x());
        let b = self.defocus_disk_v.scale(p.y());
        let r = self.center.add(&a).add(&b);
        proof {
            assert(p@.x * p@.x + p@.y * p@.y < (SCALE as int) * (SCALE as int) && r@
                == self.center@.plus(self.defocus_disk_u@.scale_fx(p@.x)).plus(
                self.defocus_disk_v@.scale_fx(p@.y),
            ));
        }
        r
    }

    /// The antialiasing jitter: an offset of at most half a pixel in each
    /// of the two pixel-delta directions.
    fn pixel_sample_square(&self, rng: &mut RandSrc) -> (r: Vec3)
        requires
            self.derived_ok(),
        ensures
            r@.within(2 * VIEW_LIMIT as int),
            exists|px: int, py: int|
                -(HALF as int) <= px < HALF as int && -(HALF as int) <= py < HALF as int && r@
                    == self.pixel_delta_u@.scale_fx(px).plus(self.pixel_delta_v@.scale_fx(py)),
    {
        let px: i64 = -HALF + rng.next_unit();
        let py: i64 = -HALF + rng.next_unit();
        proof {
            lemma_scale_by_unit(self.pixel_delta_u@, px as int);
            lemma_scale_by_unit(self.pixel_delta_v@, py as int);
        }
        let a = self.pixel_delta_u.scale(px);
        let b = self.pixel_delta_v.scale(py);
        let r = a.add(&b);
        proof {
            let pxi = px as int;
            let pyi = py as int;
            assert(-(HALF as int) <= pxi < HALF as int && -(HALF as int) <= pyi < HALF as int
                && r@ == self.pixel_delta_u@.scale_fx(pxi).plus(
                self.pixel_delta_v@.scale_fx(pyi),
            ));
        }
        r
    }

    /// The deterministic ray through the center of pixel `(i, j)` from
    /// the camera center: what `get_ray` perturbs by jitter and defocus.
    pub fn pixel_center_ray(&self, i: u32, j: u32) -> (r: Ray)
        requires
            self.derived_ok(),
            i < self.image_width,
            j < self.image_height,
        ensures
            r.orig == self.center,
            r.dir@ == self.pixel_at_spec(i as int, j as int).minus(self.center@),
            r.orig@.within(COORD_LIMIT as int),
            r.dir@.within(COORD_LIMIT as int),
    {
        let pixel_center = self.pixel_at(i, j);
        let ray_direction = pixel_center.sub(&self.center);
        Ray { orig: self.center, dir: ray_direction }
    }

    /// The world position of pixel `(i, j)`'s center.
    fn pixel_at(&self, i: u32, j: u32) -> (r: Point3)
        requires
            self.derived_ok(),
            i < self.image_width,
            j < self.image_height,
        ensures
            r@ == self.pixel_at_spec(i as int, j as int),
            r@.within(3 * VIEW_LIMIT as int),
    {
        proof {
            lemma_pixel_step(self.pixel_delta_u@.x, i as int, self.image_width as int);
            lemma_pixel_step(self.pixel_delta_u@.y, i as int, self.image_width as int);
            lemma_pixel_step(self.pixel_delta_u@.z, i as int, self.image_width as int);
            lemma_pixel_step(self.pixel_delta_v@.x, j as int, self.image_height as int);
            lemma_pixel_step(self.pixel_delta_v@.y, j as int, self.image_height as int);
            lemma_pixel_step(self.pixel_delta_v@.z, j as int, self.image_height as int);
        }
        let ifx: i64 = (i as i64) * SCALE;
        let jfx: i64 = (j as i64) * SCALE;
        let step_u = self.pixel_delta_u.scale(ifx);
        let step_v = self.pixel_delta_v.scale(jfx);
        self.pixel00_loc.add(&step_u).add(&step_v)
    }

    /// A randomly sampled camera ray for pixel `(i, j)`: the pixel center
    /// jittered by at most half a pixel in each grid direction, shot from
    /// the camera center or, with defocus enabled, from a point of the
    /// defocus disk. The direction is the jittered sample minus the chosen
    /// origin, not normalized.
    pub fn get_ray(&self, i: u32, j: u32, rng: &mut RandSrc) -> (r: Ray)
        requires
            self.derived_ok(),
            i < self.image_width,
            j < self.image_height,
        ensures
            r.orig@.within(COORD_LIMIT as int),
            r.dir@.within(COORD_LIMIT as int),
            self.tan_half_defocus <= 0 ==> r.orig == self.center,
            self.tan_half_defocus > 0 ==> exists|dx: int, dy: int|
                dx * dx + dy * dy < (SCALE as int) * (SCALE as int) && r.orig@
                    == self.center@.plus(self.defocus_disk_u@.scale_fx(dx)).plus(
                    self.defocus_disk_v@.scale_fx(dy),
                ),
            exists|px: int, py: int|
                -(HALF as int) <= px < HALF as int && -(HALF as int) <= py < HALF as int && r.dir@
                    == self.pixel_at_spec(i as int, j as int).plus(
                    self.pixel_delta_u@.scale_fx(px),
                ).plus(self.pixel_delta_v@.scale_fx(py)).minus(r.orig@),
    {
        let pixel_center = self.pixel_at(i, j);
        let jitter = self.pixel_sample_square(rng);
        let pixel_sample = pixel_center.add(&jitter);
        let ray_origin = if self.tan_half_defocus <= 0 {
            self.center
        } else {
            self.defocus_disk_sample(rng)
        };
        let ray_direction = pixel_sample.sub(&ray_origin);
        proof {
            let (px, py) = choose|px: int, py: int|
                -(HALF as int) <= px < HALF as int && -(HALF as int) <= py < HALF as int
                    && jitter@ == self.pixel_delta_u@.scale_fx(px).plus(
                    self.pixel_delta_v@.scale_fx(py),
                );
            assert(-(HALF as int) <= px < HALF as int && -(HALF as int) <= py < HALF as int
                && ray_direction@ == self.pixel_at_spec(i as int, j as int).plus(
                self.pixel_delta_u@.scale_fx(px),
            ).plus(self.pixel_delta_v@.scale_fx(py)).minus(ray_origin@));
        }
        Ray { orig: ray_origin, dir: ray_direction }
    }

    /// The light transported back along `ray`, as an iterative loop over
    /// the bounce budget carrying the product of the attenuations.
    ///
    /// Exhausting the budget, absorption, and a degenerate or
    /// unrepresentable scattered direction all contribute black (a
    /// zero-length incoming direction is degenerate geometry and maps to
    /// black rather than aborting); a miss ends the walk with the sky
    /// gradient, so with a single bounce budget any hit comes back black.
    /// With a well-formed world every component of the result lies in
    /// `[0, 1]`, and on a hit the first bounce's attenuation caps it:
    /// nothing comes back brighter than the struck material's attenuation.
    pub fn ray_color(&self, ray: &Ray, depth: u32, world: &Hittables, rng: &mut RandSrc) -> (c:
        Color)
        requires
            world.wf(),
            ray.orig@.within(COORD_LIMIT as int),
            ray.dir@.within(COORD_LIMIT as int),
        ensures
            unit_color(c@),
            depth == 0 ==> c@ == (V3 { x: 0, y: 0, z: 0 }),
            ray.dir@.norm2_raw() == 0 ==> c@ == (V3 { x: 0, y: 0, z: 0 }),
            depth > 0 && ray.dir@.norm2_raw() > 0 && scene_hit_spec(
                world.objects@,
                *ray,
                SHADOW_EPS as int,
                T_LIMIT as int,
            ) is None ==> c@ == sky_spec(*ray),
            depth == 1 && scene_hit_spec(
                world.objects@,
                *ray,
                SHADOW_EPS as int,
                T_LIMIT as int,
            ) is Some ==> c@ == (V3 { x: 0, y: 0, z: 0 }),
            ({
                let sh = scene_hit_spec(world.objects@, *ray, SHADOW_EPS as int, T_LIMIT as int);
                depth > 0 && sh is Some && 0 <= sh.unwrap().material < world.materials@.len()
                    ==> c@.x <= material_attenuation(world.materials@[sh.unwrap().material]).x
                    && c@.y <= material_attenuation(world.materials@[sh.unwrap().material]).y
                    && c@.z <= material_attenuation(world.materials@[sh.unwrap().material]).z
            }),
    {
        let ghost pristine = depth > 0 && ray.dir@.norm2_raw() > 0 && scene_hit_spec(
            world.objects@,
            *ray,
            SHADOW_EPS as int,
            T_LIMIT as int,
        ) is None;
        let ghost one_hit = depth == 1 && scene_hit_spec(
            world.objects@,
            *ray,
            SHADOW_EPS as int,
            T_LIMIT as int,
        ) is Some;
        let ghost spec_hit = scene_hit_spec(world.objects@, *ray, SHADOW_EPS as int, T_LIMIT as int);
        let ghost hit_case = depth > 0 && spec_hit is Some && 0 <= spec_hit.unwrap().material
            < world.materials@.len();
        let ghost first_atten = if hit_case {
            material_attenuation(world.materials@[spec_hit.unwrap().material])
        } else {
            V3 { x: SCALE as int, y: SCALE as int, z: SCALE as int }
        };
        proof {
            if hit_case {
                assert(world.materials@[spec_hit.unwrap().material].wf());
            }
        }
        let mut attenuation_total = Color::new(SCALE, SCALE, SCALE);
        let mut cur: Ray = *ray;
        let mut remaining: u32 = depth;
        loop
            invariant
                world.wf(),
                cur.orig@.within(COORD_LIMIT as int),
                cur.dir@.within(COORD_LIMIT as int),
                unit_color(attenuation_total@),
                pristine == (depth > 0 && ray.dir@.norm2_raw() > 0 && scene_hit_spec(
                    world.objects@,
                    *ray,
                    SHADOW_EPS as int,
                    T_LIMIT as int,
                ) is None),
                pristine ==> remaining == depth && cur == *ray && attenuation_total@ == (V3 {
                    x: SCALE as int,
                    y: SCALE as int,
                    z: SCALE as int,
                }),
                depth == 0 ==> remaining == 0,
                one_hit == (depth == 1 && scene_hit_spec(
                    world.objects@,
                    *ray,
                    SHADOW_EPS as int,
                    T_LIMIT as int,
                ) is Some),
                one_hit ==> remaining <= 1 && (remaining == 1 ==> cur == *ray),
                ray.dir@.norm2_raw() == 0 ==> cur == *ray && remaining == depth,
                spec_hit == scene_hit_spec(
                    world.objects@,
                    *ray,
                    SHADOW_EPS as int,
                    T_LIMIT as int,
                ),
                hit_case == (depth > 0 && spec_hit is Some && 0 <= spec_hit.unwrap().material
                    < world.materials@.len()),
                hit_case ==> first_atten == material_attenuation(
                    world.materials@[spec_hit.unwrap().material],
                ) && unit_color(first_atten),
                hit_case ==> (remaining == depth && cur == *ray && attenuation_total@ == (V3 {
                    x: SCALE as int,
                    y: SCALE as int,
                    z: SCALE as int,
                })) || (attenuation_total@.x <= first_atten.x && attenuation_total@.y
                    <= first_atten.y && attenuation_total@.z <= first_atten.z),
            decreases remaining,
        {
            if remaining == 0 {
                proof {
                    assert(!pristine);
                }
                return Color::default();
            }
            if cur.dir.x() == 0 && cur.dir.y() == 0 && cur.dir.z() == 0 {
                proof {
                    assert(cur.dir@.norm2_raw() == 0) by (nonlinear_arith)
                        requires
                            cur.dir@.x == 0 && cur.dir@.y == 0 && cur.dir@.z == 0,
                            cur.dir@.norm2_raw() == cur.dir@.x * cur.dir@.x + cur.dir@.y
                                * cur.dir@.y + cur.dir@.z * cur.dir@.z,
                    ;
                    assert(!pristine);
                }
                return Color::default();
            }
            proof {
                lemma_norm2_raw_pos(cur.dir@);
                if ray.dir@.norm2_raw() == 0 {
                    assert(cur == *ray);
                    assert(false);
                }
            }
            let bounds = Interval::new(SHADOW_EPS, T_LIMIT);
            match world.hit(&cur, &bounds) {
                None => {
                    proof {
                        if one_hit {
                            assert(remaining == 1 && cur == *ray);
                            assert(false);
                        }
                        if hit_case && cur == *ray {
                            assert(false);
                        }
                    }
                    let unit = Vec3::unit_vector(&cur.dir);
                    proof {
                        lemma_sky_bounds(unit@.y);
                    }
                    let a: i64 = fixed::mul(HALF, unit.y() + SCALE);
                    let white = Color::new(SCALE, SCALE, SCALE);
                    let horizon = Color::new(HALF, SKY_GREEN, SCALE);
                    proof {
                        fixed::lemma_fxmul_one(SCALE as int - a);
                        fixed::lemma_fxmul_le(HALF as int, a as int);
                        fixed::lemma_fxmul_le(SKY_GREEN as int, a as int);
                        fixed::lemma_fxmul_one(a as int);
                    }
                    let sky = white.scale(SCALE - a).add(&horizon.scale(a));
                    proof {
                        fixed::lemma_fxmul_one(sky@.x);
                        fixed::lemma_fxmul_one(sky@.y);
                        fixed::lemma_fxmul_one(sky@.z);
                        fixed::lemma_fxmul_le(attenuation_total@.x, sky@.x);
                        fixed::lemma_fxmul_le(attenuation_total@.y, sky@.y);
                        fixed::lemma_fxmul_le(attenuation_total@.z, sky@.z);
                        fixed::lemma_fxmul_le(sky@.x, attenuation_total@.x);
                        fixed::lemma_fxmul_le(sky@.y, attenuation_total@.y);
                        fixed::lemma_fxmul_le(sky@.z, attenuation_total@.z);
                    }
                    return attenuation_total.mul(&sky);
                },
                Some(rec) => {
                    proof {
                        assert(!pristine);
                        let i = choose|i: int|
                            0 <= i < world.objects@.len() && rec.material == (
                            #[trigger] world.objects@[i]).material;
                        assert(world.objects@[i].material < world.materials@.len());
                        assert(world.materials@[rec.material as int].wf());
                    }
                    let m = world.materials[rec.material];
                    let mut att = Color::default();
                    let mut scat = Ray::default();
                    let scattered = m.scatter(&cur, &rec, &mut att, &mut scat, rng);
                    if !scattered {
                        return Color::default();
                    }
                    if !scat.dir.in_range() {
                        return Color::default();
                    }
                    proof {
                        fixed::lemma_fxmul_le(attenuation_total@.x, att@.x);
                        fixed::lemma_fxmul_le(attenuation_total@.y, att@.y);
                        fixed::lemma_fxmul_le(attenuation_total@.z, att@.z);
                        fixed::lemma_fxmul_le(att@.x, attenuation_total@.x);
                        fixed::lemma_fxmul_le(att@.y, attenuation_total@.y);
                        fixed::lemma_fxmul_le(att@.z, attenuation_total@.z);
                        assert(att@ == material_attenuation(m));
                        if hit_case && cur == *ray && attenuation_total@ == (V3 {
                            x: SCALE as int,
                            y: SCALE as int,
                            z: SCALE as int,
                        }) {
                            assert(rec@ == spec_hit.unwrap());
                            assert(att@ == first_atten);
                            fixed::lemma_fxmul_one(att@.x);
                            fixed::lemma_fxmul_one(att@.y);
                            fixed::lemma_fxmul_one(att@.z);
                        }
                    }
                    attenuation_total = attenuation_total.mul(&att);
                    cur = scat;
                    remaining = remaining - 1;
                },
            }
        }
    }

    /// Render the scene into a raster of quantized pixels, in row-major
    /// order (top row first, left to right: entry `j * width + i` is
    /// pixel `(i, j)`), or report an invalid camera geometry. Succeeds on
    /// exactly the configurations `init_ok` admits; every emitted pixel
    /// is the quantization (`to_pixel`) of a sum of `samples_per_pixel`
    /// unit colors — which is all that holds of every outcome of the
    /// random sampling.
    pub fn render(&mut self, world: &Hittables, rng: &mut RandSrc) -> (r: Option<
        Vec<(u8, u8, u8)>,
    >)
        requires
            world.wf(),
        ensures
            final(self).image_width == old(self).image_width,
            r is Some <==> old(self).init_ok(),
            match r {
                Some(pixels) => {
                    &&& pixels@.len() == (final(self).image_height as int) * (
                    final(self).image_width as int)
                    &&& final(self).image_height as int == height_spec(
                        old(self).image_width as int,
                        old(self).aspect_ratio as int,
                    )
                    &&& forall|p: int|
                        0 <= p < pixels@.len() ==> pixel_entry_ok(
                            #[trigger] pixels@[p],
                            old(self).samples_per_pixel as int,
                        )
                },
                None => true,
            },
    {
        if !self.initialize() {
            return None;
        }
        let width = self.image_width;
        let height = self.image_height;
        let samples = self.samples_per_pixel;
        let mut pixels: Vec<(u8, u8, u8)> = Vec::new();
        let mut j: u32 = 0;
        while j < height
            invariant
                self.derived_ok(),
                world.wf(),
                width == self.image_width,
                height == self.image_height,
                samples == self.samples_per_pixel,
                j <= height,
                pixels@.len() == (j as int) * (width as int),
                forall|p: int|
                    0 <= p < pixels@.len() ==> pixel_entry_ok(
                        #[trigger] pixels@[p],
                        samples as int,
                    ),
            decreases height - j,
        {
            let mut i: u32 = 0;
            while i < width
                invariant
                    self.derived_ok(),
                    world.wf(),
                    width == self.image_width,
                    height == self.image_height,
                    samples == self.samples_per_pixel,
                    j < height,
                    i <= width,
                    pixels@.len() == (j as int) * (width as int) + i as int,
                    forall|p: int|
                        0 <= p < pixels@.len() ==> pixel_entry_ok(
                            #[trigger] pixels@[p],
                            samples as int,
                        ),
                decreases width - i,
            {
                let mut pixel_color = Color::default();
                let mut s: u32 = 0;
                while s < samples
                    invariant
                        self.derived_ok(),
                        world.wf(),
                        width == self.image_width,
                        height == self.image_height,
                        samples == self.samples_per_pixel,
                        j < height,
                        i < width,
                        s <= samples,
                        0 <= pixel_color@.x <= (s as int) * (SCALE as int),
                        0 <= pixel_color@.y <= (s as int) * (SCALE as int),
                        0 <= pixel_color@.z <= (s as int) * (SCALE as int),
                    decreases samples - s,
                {
                    let sample_ray = self.get_ray(i, j, rng);
                    let c = self.ray_color(&sample_ray, self.max_depth, world, rng);
                    proof {
                        lemma_accumulate_bound(pixel_color@, c@, s as int);
                    }
                    pixel_color.add_assign(&c);
                    s = s + 1;
                }
                let entry = color::to_pixel(&pixel_color, samples);
                proof {
                    assert(pixel_entry_ok(entry, samples as int)) by {
                        assert(sample_sum_ok(pixel_color@, entry, samples as int));
                    }
                }
                pixels.push(entry);
                i = i + 1;
            }
            j = j + 1;
            proof {
                assert((j as int) * (width as int) == (j as int - 1) * (width as int) + (
                width as int)) by (nonlinear_arith);
            }
        }
        Some(pixels)
    }
}

/// `acc` is a sum of `samples` colors with components in `[0, 1]`, and
/// `e` is its quantization.
pub open spec fn sample_sum_ok(acc: V3, e: (u8, u8, u8), samples: int) -> bool {
    &&& 0 <= acc.x <= samples * (SCALE as int)
    &&& 0 <= acc.y <= samples * (SCALE as int)
    &&& 0 <= acc.z <= samples * (SCALE as int)
    &&& e.0 == color::channel_spec(acc.x, samples)
    &&& e.1 == color::channel_spec(acc.y, samples)
    &&& e.2 == color::channel_spec(acc.z, samples)
}

/// An emitted pixel is the quantization of some accumulated sum of
/// `samples` unit colors.
pub open spec fn pixel_entry_ok(e: (u8, u8, u8), samples: int) -> bool {
    exists|acc: V3| #[trigger] sample_sum_ok(acc, e, samples)
}

/// One pixel step times an in-range index is exact and bounded.
proof fn lemma_pixel_step(c: int, i: int, w: int)
    requires
        0 <= i < w,
        w * iabs(c) <= VIEW_LIMIT as int,
    ensures
        fxmul(c, i * (SCALE as int)) == c * i,
        -(VIEW_LIMIT as int) <= c * i <= VIEW_LIMIT as int,
{
    let s = SCALE as int;
    assert(c * (i * s) == s * (c * i)) by (nonlinear_arith);
    fixed::lemma_fxmul_one(c * i);
    assert(-(w * iabs(c)) <= c * i <= w * iabs(c)) by (nonlinear_arith)
        requires
            0 <= i < w,
    ;
}

/// Scaling a `VIEW_LIMIT`-bounded vector component by a factor of at most
/// one keeps it within `VIEW_LIMIT`.
proof fn lemma_scale_by_unit(v: V3, k: int)
    requires
        v.within(VIEW_LIMIT as int),
        -(SCALE as int) <= k <= SCALE as int,
    ensures
        v.scale_fx(k).within(VIEW_LIMIT as int),
{
    fixed::lemma_fxmul_mag(v.x, k, VIEW_LIMIT as int, SCALE as int);
    fixed::lemma_fxmul_mag(v.y, k, VIEW_LIMIT as int, SCALE as int);
    fixed::lemma_fxmul_mag(v.z, k, VIEW_LIMIT as int, SCALE as int);
    assert((VIEW_LIMIT as int) * (SCALE as int) / (SCALE as int) == VIEW_LIMIT as int)
        by (nonlinear_arith)
        requires
            VIEW_LIMIT == 0x400_0000,
            SCALE == 65536,
    ;
}

/// The sky interpolation parameter lies in `[0, 1]` and the blend fits.
proof fn lemma_sky_bounds(y: int)
    requires
        -(SCALE as int) <= y <= SCALE as int,
    ensures
        0 <= fxmul(HALF as int, y + SCALE as int) <= SCALE as int,
{
    let s = SCALE as int;
    fixed::lemma_fxmul_le(HALF as int, y + s);
    assert((HALF as int) * (y + s) <= s * s) by (nonlinear_arith)
        requires
            HALF == 32768,
            SCALE == 65536,
            -s <= y <= s,
            s == 65536,
    ;
    fixed::lemma_tdiv_bound_by((HALF as int) * (y + s), s, s * s);
    vstd::arithmetic::div_mod::lemma_div_multiples_vanish(s, s);
}

/// Accumulating one more bounded sample keeps the running sum bounded.
proof fn lemma_accumulate_bound(acc: V3, c: V3, s: int)
    requires
        0 <= s <= 0x10000,
        0 <= acc.x <= s * (SCALE as int),
        0 <= acc.y <= s * (SCALE as int),
        0 <= acc.z <= s * (SCALE as int),
        unit_color(c),
    ensures
        0 <= acc.x + c.x <= (s + 1) * (SCALE as int),
        0 <= acc.y + c.y <= (s + 1) * (SCALE as int),
        0 <= acc.z + c.z <= (s + 1) * (SCALE as int),
        acc.x + c.x <= i64::MAX,
        acc.y + c.y <= i64::MAX,
        acc.z + c.z <= i64::MAX,
{
    let sc = SCALE as int;
    assert((s + 1) * sc == s * sc + sc) by (nonlinear_arith);
    assert(s * sc <= 0x10000 * 65536) by (nonlinear_arith)
        requires
            0 <= s <= 0x10000,
            sc == 65536,
    ;
}

/// Whether `count` steps of every component of `v` stay within `lim`.
fn span_ok(count: i64, v: &Vec3, lim: i64) -> (r: bool)
    requires
        0 <= count <= 0x4000,
        lim >= 0,
        v@.within(VIEW_LIMIT as int),
    ensures
        r == (count * iabs(v@.x) <= lim && count * iabs(v@.y) <= lim && count * iabs(v@.z) <= lim),
{
    let ax: i64 = if v.x() >= 0 {
        v.x()
    } else {
        -v.x()
    };
    let ay: i64 = if v.y() >= 0 {
        v.y()
    } else {
        -v.y()
    };
    let az: i64 = if v.z() >= 0 {
        v.z()
    } else {
        -v.z()
    };
    proof {
        assert(count * ax <= 0x4000 * 0x400_0000 && count * ay <= 0x4000 * 0x400_0000 && count
            * az <= 0x4000 * 0x400_0000 && count * ax >= 0 && count * ay >= 0 && count * az >= 0)
            by (nonlinear_arith)
            requires
                0 <= count <= 0x4000,
                0 <= ax <= 0x400_0000,
                0 <= ay <= 0x400_0000,
                0 <= az <= 0x400_0000,
        ;
    }
    count * ax <= lim && count * ay <= lim && count * az <= lim
}

} // verus!
