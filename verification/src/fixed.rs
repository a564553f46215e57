//! Scalar fixed-point arithmetic: the numeric foundation of the tracer.
//!
//! A fixed-point number stores a real value `v` as the integer `v * SCALE`,
//! truncated toward zero. `SCALE` is 2^16, so one unit of the last place is
//! about 1.5e-5. Multiplication and division round toward zero; the spec
//! functions `fxmul`, `fxdiv` and `sqrt_floor` say exactly which integer each
//! executable operation returns.

use vstd::prelude::*;
use vstd::arithmetic::div_mod::*;

verus! {

/// The fixed-point scale: raw value = real value * SCALE.
pub const SCALE: i64 = 65536;

/// One half, in fixed point.
pub const HALF: i64 = 32768;

/// Truncating (toward zero) division, for a positive divisor.
///
/// Spec-level `/` on `int` is Euclidean division, while the executable
/// operations here truncate toward zero; this function bridges the two.
pub open spec fn tdiv(a: int, b: int) -> int
    recommends
        b > 0,
{
    if a >= 0 {
        a / b
    } else {
        -((-a) / b)
    }
}

/// The fixed-point product of two raw values.
pub open spec fn fxmul(a: int, b: int) -> int {
    tdiv(a * b, SCALE as int)
}

/// The fixed-point quotient of two raw values.
pub open spec fn fxdiv(a: int, b: int) -> int
    recommends
        b > 0,
{
    tdiv(a * (SCALE as int), b)
}

/// `r` is the integer square root of `n`, rounded down.
pub open spec fn is_sqrt(n: int, r: int) -> bool {
    &&& 0 <= r
    &&& r * r <= n
    &&& n < (r + 1) * (r + 1)
}

/// The integer square root of `n`, rounded down.
pub open spec fn sqrt_floor(n: int) -> int
    recommends
        n >= 0,
    decreases n,
{
    if n < 1 {
        0
    } else {
        let p = sqrt_floor(n - 1);
        if (p + 1) * (p + 1) <= n {
            p + 1
        } else {
            p
        }
    }
}

/// `sqrt_floor` meets the square-root characterization.
pub proof fn lemma_sqrt_floor_is_sqrt(n: int)
    requires
        n >= 0,
    ensures
        is_sqrt(n, sqrt_floor(n)),
    decreases n,
{
    if n < 1 {
        assert(sqrt_floor(n) == 0);
    } else {
        lemma_sqrt_floor_is_sqrt(n - 1);
        let p = sqrt_floor(n - 1);
        if (p + 1) * (p + 1) <= n {
            assert(n < (p + 2) * (p + 2)) by (nonlinear_arith)
                requires
                    n - 1 < (p + 1) * (p + 1),
                    0 <= p,
            ;
        }
    }
}

/// Any integer meeting the square-root characterization is `sqrt_floor`.
pub proof fn lemma_sqrt_unique(n: int, r: int)
    requires
        n >= 0,
        is_sqrt(n, r),
    ensures
        r == sqrt_floor(n),
{
    lemma_sqrt_floor_is_sqrt(n);
    let s = sqrt_floor(n);
    assert(r == s) by (nonlinear_arith)
        requires
            0 <= r,
            0 <= s,
            r * r <= n,
            n < (r + 1) * (r + 1),
            s * s <= n,
            n < (s + 1) * (s + 1),
    ;
}

/// Truncating division never grows a value's magnitude (positive divisor).
pub proof fn lemma_tdiv_mag(a: int, b: int)
    requires
        b > 0,
    ensures
        a >= 0 ==> 0 <= tdiv(a, b) <= a,
        a < 0 ==> a <= tdiv(a, b) <= 0,
{
    if a >= 0 {
        lemma_div_pos_is_pos(a, b);
        lemma_div_nonincreasing(a, b);
    } else {
        lemma_div_pos_is_pos(-a, b);
        lemma_div_nonincreasing(-a, b);
    }
}

/// Truncating division is bounded by the quotient of a magnitude bound.
pub proof fn lemma_tdiv_bound_by(a: int, b: int, m: int)
    requires
        b > 0,
        -m <= a <= m,
        m >= 0,
    ensures
        -(m / b) <= tdiv(a, b) <= m / b,
{
    if a >= 0 {
        lemma_div_pos_is_pos(a, b);
        lemma_div_is_ordered(a, m, b);
    } else {
        lemma_div_pos_is_pos(-a, b);
        lemma_div_is_ordered(-a, m, b);
    }
}

/// The magnitude of a fixed-point product, from bounds on the factors.
pub proof fn lemma_fxmul_mag(a: int, k: int, la: int, lk: int)
    requires
        -la <= a <= la,
        -lk <= k <= lk,
        la >= 0,
        lk >= 0,
    ensures
        -((la * lk) / (SCALE as int)) <= fxmul(a, k) <= (la * lk) / (SCALE as int),
{
    assert(-(la * lk) <= a * k <= la * lk) by (nonlinear_arith)
        requires
            -la <= a <= la,
            -lk <= k <= lk,
            la >= 0,
            lk >= 0,
    ;
    assert(la * lk >= 0) by (nonlinear_arith)
        requires
            la >= 0,
            lk >= 0,
    ;
    lemma_tdiv_bound_by(a * k, SCALE as int, la * lk);
}

/// Dividing a value by a length that bounds it yields at most one.
pub proof fn lemma_fxdiv_unit_mag(c: int, l: int)
    requires
        -l <= c <= l,
        l > 0,
    ensures
        -(SCALE as int) <= fxdiv(c, l) <= SCALE as int,
{
    let s = SCALE as int;
    assert(-(l * s) <= c * s <= l * s) by (nonlinear_arith)
        requires
            -l <= c <= l,
            s > 0,
    ;
    lemma_tdiv_bound_by(c * s, l, l * s);
    lemma_div_multiples_vanish(s, l);
    assert(l * s == s * l) by (nonlinear_arith);
}

/// A truncated quotient below `c` bounds the dividend below `b * c`.
pub proof fn lemma_tdiv_recover(a: int, b: int, c: int)
    requires
        a >= 0,
        b > 0,
        tdiv(a, b) < c,
    ensures
        a < b * c,
{
    lemma_fundamental_div_mod(a, b);
    lemma_mod_division_less_than_divisor(a, b);
    assert(a < b * c) by (nonlinear_arith)
        requires
            a == b * (a / b) + a % b,
            0 <= a % b < b,
            a / b < c,
            b > 0,
    ;
}

/// Dividing a nonzero value by a length below one leaves it nonzero.
pub proof fn lemma_fxdiv_nonzero(c: int, l: int)
    requires
        c != 0,
        0 < l < SCALE as int,
    ensures
        c > 0 ==> fxdiv(c, l) >= 1,
        c < 0 ==> fxdiv(c, l) <= -1,
{
    let s = SCALE as int;
    if c > 0 {
        assert(c * s >= s) by (nonlinear_arith)
            requires
                c >= 1,
                s > 0,
        ;
        lemma_div_is_ordered(l, c * s, l);
        lemma_div_by_self(l);
    } else {
        assert((-c) * s >= s) by (nonlinear_arith)
            requires
                c <= -1,
                s > 0,
        ;
        lemma_div_is_ordered(l, (-c) * s, l);
        lemma_div_by_self(l);
        assert(-(c * s) == (-c) * s) by (nonlinear_arith);
    }
}

/// Truncating division is monotone in the dividend (positive divisor).
pub proof fn lemma_tdiv_ordered(x: int, y: int, b: int)
    requires
        b > 0,
        x <= y,
    ensures
        tdiv(x, b) <= tdiv(y, b),
{
    if x >= 0 {
        lemma_div_is_ordered(x, y, b);
    } else if y >= 0 {
        lemma_div_pos_is_pos(-x, b);
        lemma_div_pos_is_pos(y, b);
    } else {
        lemma_div_is_ordered(-y, -x, b);
    }
}

/// `x` is representable as an `i64`.
pub open spec fn fits_i64(x: int) -> bool {
    i64::MIN <= x <= i64::MAX
}

/// The magnitude of an integer.
pub open spec fn iabs(x: int) -> int {
    if x >= 0 {
        x
    } else {
        -x
    }
}

/// Multiplying by one (in fixed point) is exact.
pub proof fn lemma_fxmul_one(k: int)
    ensures
        fxmul(SCALE as int, k) == k,
{
    let s = SCALE as int;
    if k >= 0 {
        lemma_div_multiples_vanish(k, s);
    } else {
        lemma_div_multiples_vanish(-k, s);
        assert(-(s * k) == s * (-k)) by (nonlinear_arith);
    }
}

/// A product with a factor of at most one never exceeds the other factor.
pub proof fn lemma_fxmul_le(x: int, y: int)
    requires
        0 <= x <= SCALE as int,
        0 <= y,
    ensures
        0 <= fxmul(x, y) <= y,
{
    let s = SCALE as int;
    assert(0 <= x * y <= s * y) by (nonlinear_arith)
        requires
            0 <= x <= s,
            0 <= y,
    ;
    lemma_tdiv_bound_by(x * y, s, s * y);
    lemma_div_multiples_vanish(y, s);
    lemma_div_pos_is_pos(x * y, s);
}

/// The product of two `i64` values stays well inside `i128`.
pub proof fn lemma_i64_prod_in_i128(a: int, b: int)
    requires
        i64::MIN <= a <= i64::MAX,
        i64::MIN <= b <= i64::MAX,
    ensures
        i128::MIN < a * b < i128::MAX,
{
    assert(i128::MIN < a * b < i128::MAX) by (nonlinear_arith)
        requires
            -0x8000_0000_0000_0000 <= a <= 0x7fff_ffff_ffff_ffff,
            -0x8000_0000_0000_0000 <= b <= 0x7fff_ffff_ffff_ffff,
    ;
}

/// Truncating division of an `i128` by a positive divisor, computed on
/// magnitudes so that only unsigned machine division is needed.
pub fn tdiv_i128(a: i128, b: i128) -> (r: i128)
    requires
        b > 0,
        a > i128::MIN,
    ensures
        r == tdiv(a as int, b as int),
{
    if a >= 0 {
        let ua: u128 = a as u128;
        let ub: u128 = b as u128;
        let q: u128 = ua / ub;
        proof {
            lemma_div_pos_is_pos(ua as int, ub as int);
            lemma_div_nonincreasing(ua as int, ub as int);
        }
        q as i128
    } else {
        let ua: u128 = (-a) as u128;
        let ub: u128 = b as u128;
        let q: u128 = ua / ub;
        proof {
            lemma_div_pos_is_pos(ua as int, ub as int);
            lemma_div_nonincreasing(ua as int, ub as int);
        }
        let qi: i128 = q as i128;
        -qi
    }
}

/// Fixed-point multiplication; fails where the result leaves `i64`.
pub fn mul_checked(a: i64, b: i64) -> (r: Option<i64>)
    ensures
        match r {
            Some(v) => v == fxmul(a as int, b as int),
            None => !(i64::MIN <= fxmul(a as int, b as int) <= i64::MAX),
        },
{
    proof {
        lemma_i64_prod_in_i128(a as int, b as int);
    }
    let p: i128 = (a as i128) * (b as i128);
    let q: i128 = tdiv_i128(p, SCALE as i128);
    if q >= i64::MIN as i128 && q <= i64::MAX as i128 {
        Some(q as i64)
    } else {
        None
    }
}

/// Fixed-point multiplication, for operands already known small enough.
pub fn mul(a: i64, b: i64) -> (r: i64)
    requires
        i64::MIN <= fxmul(a as int, b as int) <= i64::MAX,
    ensures
        r == fxmul(a as int, b as int),
{
    proof {
        lemma_i64_prod_in_i128(a as int, b as int);
    }
    let p: i128 = (a as i128) * (b as i128);
    let q: i128 = tdiv_i128(p, SCALE as i128);
    q as i64
}

/// Fixed-point division by a positive divisor; fails where the result
/// leaves `i64`.
pub fn div_checked(a: i64, b: i64) -> (r: Option<i64>)
    requires
        b > 0,
    ensures
        match r {
            Some(v) => v == fxdiv(a as int, b as int),
            None => !(i64::MIN <= fxdiv(a as int, b as int) <= i64::MAX),
        },
{
    proof {
        lemma_i64_prod_in_i128(a as int, SCALE as int);
    }
    let p: i128 = (a as i128) * (SCALE as i128);
    let q: i128 = tdiv_i128(p, b as i128);
    if q >= i64::MIN as i128 && q <= i64::MAX as i128 {
        Some(q as i64)
    } else {
        None
    }
}

/// Fixed-point division, for operands already known small enough.
pub fn div(a: i64, b: i64) -> (r: i64)
    requires
        b > 0,
        i64::MIN <= fxdiv(a as int, b as int) <= i64::MAX,
    ensures
        r == fxdiv(a as int, b as int),
{
    proof {
        lemma_i64_prod_in_i128(a as int, SCALE as int);
    }
    let p: i128 = (a as i128) * (SCALE as i128);
    let q: i128 = tdiv_i128(p, b as i128);
    q as i64
}

/// A whole number as a fixed-point value.
pub fn from_int(n: i64) -> (r: i64)
    requires
        (n as int) * (SCALE as int) <= i64::MAX,
        i64::MIN <= (n as int) * (SCALE as int),
    ensures
        r == (n as int) * (SCALE as int),
{
    n * SCALE
}

/// The integer square root of a `u128`, rounded down, by binary search.
pub fn sqrt_u128(n: u128) -> (r: u128)
    ensures
        r == sqrt_floor(n as int),
        r < 0x1_0000_0000_0000_0000,
{
    let mut lo: u128 = 0;
    let mut hi: u128 = 0x1_0000_0000_0000_0000;
    proof {
        assert(hi * hi > n) by (nonlinear_arith)
            requires
                hi == 0x1_0000_0000_0000_0000,
                n <= u128::MAX,
        ;
    }
    while hi - lo > 1
        invariant
            lo < hi,
            hi <= 0x1_0000_0000_0000_0000,
            (lo as int) * (lo as int) <= n as int,
            (hi as int) * (hi as int) > n as int,
        decreases hi - lo,
    {
        let mid: u128 = lo + (hi - lo) / 2;
        proof {
            assert(mid * mid <= u128::MAX) by (nonlinear_arith)
                requires
                    mid < 0x1_0000_0000_0000_0000,
            ;
        }
        if mid * mid <= n {
            lo = mid;
        } else {
            hi = mid;
        }
    }
    proof {
        assert(is_sqrt(n as int, lo as int));
        lemma_sqrt_unique(n as int, lo as int);
    }
    lo
}

/// The fixed-point square root: `sqrt` of the represented value, truncated
/// to fixed point. On raw values this is the integer root of `a * SCALE`.
pub fn sqrt(a: i64) -> (r: i64)
    requires
        a >= 0,
    ensures
        r == sqrt_floor((a as int) * (SCALE as int)),
        r >= 0,
{
    proof {
        assert((a as int) * (SCALE as int) < 0x1_0000_0000_0000_0000_0000) by (nonlinear_arith)
            requires
                0 <= a <= i64::MAX,
                SCALE == 65536,
        ;
    }
    let n: u128 = (a as u128) * (SCALE as u128);
    let s: u128 = sqrt_u128(n);
    proof {
        lemma_sqrt_floor_is_sqrt(n as int);
        assert(s < 0x1_0000_0000_0000) by (nonlinear_arith)
            requires
                (s as int) * (s as int) <= n as int,
                n < 0x1_0000_0000_0000_0000_0000,
                s >= 0,
        ;
    }
    s as i64
}

} // verus!
