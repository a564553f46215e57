//! Angle conversions over fixed-point values.

use vstd::prelude::*;

use crate::fixed;
use crate::fixed::{fxdiv, fxmul};

verus! {

/// Pi in fixed point, truncated.
pub const PI_FX: i64 = 205887;

/// One hundred eighty degrees, in fixed point.
pub const DEG_180: i64 = 11796480;

/// Degrees to radians: multiply by pi, divide by 180.
pub fn degrees_to_radians(d: i64) -> (r: i64)
    requires
        -0x2000_0000_0000 <= d <= 0x2000_0000_0000,
    ensures
        r == fxdiv(fxmul(d as int, PI_FX as int), DEG_180 as int),
{
    proof {
        fixed::lemma_fxmul_mag(d as int, PI_FX as int, 0x2000_0000_0000, 205887);
        fixed::lemma_tdiv_bound_by(
            fxmul(d as int, PI_FX as int) * 65536,
            DEG_180 as int,
            0x2000_0000_0000_0000_0000,
        );
        assert(-0x2000_0000_0000_0000_0000 <= fxmul(d as int, PI_FX as int) * 65536
            <= 0x2000_0000_0000_0000_0000) by (nonlinear_arith)
            requires
                -0x1_0000_0000_0000 <= fxmul(d as int, PI_FX as int) <= 0x1_0000_0000_0000,
        ;
    }
    let p: i64 = fixed::mul(d, PI_FX);
    fixed::div(p, DEG_180)
}

/// Radians to degrees: multiply by 180, divide by pi.
pub fn radians_to_degrees(rad: i64) -> (r: i64)
    requires
        -0x2000_0000_0000 <= rad <= 0x2000_0000_0000,
    ensures
        r == fxdiv(fxmul(rad as int, DEG_180 as int), PI_FX as int),
{
    proof {
        fixed::lemma_fxmul_mag(rad as int, DEG_180 as int, 0x2000_0000_0000, 11796480);
        fixed::lemma_tdiv_bound_by(
            fxmul(rad as int, DEG_180 as int) * 65536,
            PI_FX as int,
            0x2000_0000_0000_0000_0000_0000,
        );
        assert(-0x2000_0000_0000_0000_0000_0000 <= fxmul(rad as int, DEG_180 as int) * 65536
            <= 0x2000_0000_0000_0000_0000_0000) by (nonlinear_arith)
            requires
                -0x200_0000_0000_0000 <= fxmul(rad as int, DEG_180 as int) <= 0x200_0000_0000_0000,
        ;
    }
    let p: i64 = fixed::mul(rad, DEG_180);
    fixed::div(p, PI_FX)
}

} // verus!
