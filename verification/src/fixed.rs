//! 16.16 fixed-point scalars.
//!
//! A scalar is an `i64` holding `value * 65536`. Every operation saturates
//! at `FX_MAX`, the largest magnitude the library treats as finite, so the
//! finite range is closed under all operations and intermediate products
//! always fit in 128 bits. A result whose magnitude reaches `FX_MAX` plays
//! the role a non-finite float plays elsewhere: downstream consumers may
//! discard it.

use vstd::prelude::*;

verus! {

/// One fixed-point unit: the representation of 1.
pub const FX_ONE: i64 = 65536;

/// The denominator of the representation (2^16).
pub const FX_SCALE: i64 = 65536;

/// Largest finite magnitude (2^47 - 1).
pub const FX_MAX: i64 = 140737488355327;

/// Two.
pub const FX_TWO: i64 = 131072;

/// Pi, rounded toward zero.
pub const FX_PI: i64 = 205887;

/// Two pi, rounded toward zero.
pub const FX_TWO_PI: i64 = 411774;

/// Four pi, rounded toward zero.
pub const FX_FOUR_PI: i64 = 823549;

/// A scalar is in the finite range.
pub open spec fn fx_ok(a: i64) -> bool {
    -FX_MAX <= a && a <= FX_MAX
}

/// Saturation to the finite range.
pub open spec fn fx_sat(v: int) -> int {
    if v > FX_MAX as int {
        FX_MAX as int
    } else if v < -(FX_MAX as int) {
        -(FX_MAX as int)
    } else {
        v
    }
}

/// Division rounded toward zero, for a positive divisor.
pub open spec fn div_trunc(n: int, d: int) -> int {
    if n >= 0 {
        n / d
    } else {
        -((-n) / d)
    }
}

/// What addition returns.
pub open spec fn fx_add_spec(a: int, b: int) -> int {
    fx_sat(a + b)
}

/// What subtraction returns.
pub open spec fn fx_sub_spec(a: int, b: int) -> int {
    fx_sat(a - b)
}

/// What multiplication returns: the exact product, rescaled with
/// truncation, then saturated.
pub open spec fn fx_mul_spec(a: int, b: int) -> int {
    fx_sat(div_trunc(a * b, FX_SCALE as int))
}

/// What division returns. A zero divisor saturates in the direction of the
/// dividend, standing in for the non-finite quotient of real division.
pub open spec fn fx_div_spec(a: int, b: int) -> int {
    if b == 0 {
        if a > 0 {
            FX_MAX as int
        } else if a < 0 {
            -(FX_MAX as int)
        } else {
            0
        }
    } else if b > 0 {
        fx_sat(div_trunc(a * FX_SCALE, b))
    } else {
        fx_sat(div_trunc(-(a * FX_SCALE), -b))
    }
}

/// Clamping to the unit interval.
pub open spec fn fx_clamp01_spec(a: int) -> int {
    if a < 0 {
        0
    } else if a > FX_ONE as int {
        FX_ONE as int
    } else {
        a
    }
}

/// Core of all rescaling operations: `a * b / d` rounded toward zero and
/// saturated. The factors may be up to 2^62 in magnitude so that a scalar
/// times the scale still fits.
pub(crate) fn mul_div_trunc(a: i64, b: i64, d: i64) -> (r: i64)
    requires
        -0x4000_0000_0000_0000 <= a <= 0x4000_0000_0000_0000,
        -0x4000_0000_0000_0000 <= b <= 0x4000_0000_0000_0000,
        0 < d,
    ensures
        r == fx_sat(div_trunc(a * b, d as int)),
        fx_ok(r),
{
    let negative: bool = (a < 0) != (b < 0);
    let ma: u128 = if a >= 0 {
        a as u128
    } else {
        (-a) as u128
    };
    let mb: u128 = if b >= 0 {
        b as u128
    } else {
        (-b) as u128
    };
    assert(ma * mb <= 0x4000_0000_0000_0000u128 * 0x4000_0000_0000_0000u128) by (nonlinear_arith)
        requires
            ma <= 0x4000_0000_0000_0000u128,
            mb <= 0x4000_0000_0000_0000u128,
    ;
    let p: u128 = ma * mb;
    assert(p == (if a * b >= 0 { a * b } else { -(a * b) })) by (nonlinear_arith)
        requires
            ma == (if a >= 0 { a as int } else { -(a as int) }),
            mb == (if b >= 0 { b as int } else { -(b as int) }),
            p == ma * mb,
    ;
    let q: u128 = p / (d as u128);
    assert(q == (if a * b >= 0 { a * b } else { -(a * b) }) / (d as int));
    let m: u64 = if q > FX_MAX as u128 {
        FX_MAX as u64
    } else {
        q as u64
    };
    let r: i64 = if negative && q > 0 {
        -(m as i64)
    } else {
        m as i64
    };
    proof {
        let prod = (a as int) * (b as int);
        if prod >= 0 {
            assert(!negative || p == 0) by (nonlinear_arith)
                requires
                    prod == a * b,
                    prod >= 0,
                    negative == ((a < 0) != (b < 0)),
                    p == (if a * b >= 0 { a * b } else { -(a * b) }),
            ;
            assert(div_trunc(prod, d as int) == q);
            if q == 0 {
                assert(r == 0);
            }
        } else {
            assert(negative) by (nonlinear_arith)
                requires
                    prod == a * b,
                    prod < 0,
                    negative == ((a < 0) != (b < 0)),
            ;
            assert(div_trunc(prod, d as int) == -(q as int));
        }
    }
    r
}

/// Saturating addition.
pub fn fx_add(a: i64, b: i64) -> (r: i64)
    requires
        fx_ok(a),
        fx_ok(b),
    ensures
        r == fx_add_spec(a as int, b as int),
        fx_ok(r),
{
    let s: i64 = a + b;
    if s > FX_MAX {
        FX_MAX
    } else if s < -FX_MAX {
        -FX_MAX
    } else {
        s
    }
}

/// Saturating subtraction.
pub fn fx_sub(a: i64, b: i64) -> (r: i64)
    requires
        fx_ok(a),
        fx_ok(b),
    ensures
        r == fx_sub_spec(a as int, b as int),
        fx_ok(r),
{
    let s: i64 = a - b;
    if s > FX_MAX {
        FX_MAX
    } else if s < -FX_MAX {
        -FX_MAX
    } else {
        s
    }
}

/// Negation.
pub fn fx_neg(a: i64) -> (r: i64)
    requires
        fx_ok(a),
    ensures
        r == -(a as int),
        fx_ok(r),
{
    -a
}

/// Saturating multiplication with truncation toward zero.
pub fn fx_mul(a: i64, b: i64) -> (r: i64)
    requires
        fx_ok(a),
        fx_ok(b),
    ensures
        r == fx_mul_spec(a as int, b as int),
        fx_ok(r),
{
    mul_div_trunc(a, b, FX_SCALE)
}

/// Saturating division with truncation toward zero; a zero divisor
/// saturates in the direction of the dividend.
pub fn fx_div(a: i64, b: i64) -> (r: i64)
    requires
        fx_ok(a),
        fx_ok(b),
    ensures
        r == fx_div_spec(a as int, b as int),
        fx_ok(r),
{
    if b == 0 {
        if a > 0 {
            FX_MAX
        } else if a < 0 {
            -FX_MAX
        } else {
            0
        }
    } else if b > 0 {
        mul_div_trunc(a, FX_SCALE, b)
    } else {
        mul_div_trunc(-a, FX_SCALE, -b)
    }
}

/// Clamp to the unit interval.
pub fn fx_clamp01(a: i64) -> (r: i64)
    requires
        fx_ok(a),
    ensures
        r == fx_clamp01_spec(a as int),
        fx_ok(r),
{
    if a < 0 {
        0
    } else if a > FX_ONE {
        FX_ONE
    } else {
        a
    }
}

/// The magnitude of a finite scalar.
pub fn fx_abs(a: i64) -> (r: i64)
    requires
        fx_ok(a),
    ensures
        r == (if a >= 0 { a as int } else { -(a as int) }),
        fx_ok(r),
{
    if a >= 0 {
        a
    } else {
        -a
    }
}

/// A product of a scalar with itself never rescales below zero.
pub proof fn lemma_square_nonneg(a: int)
    ensures
        fx_mul_spec(a, a) >= 0,
{
    assert(a * a >= 0) by (nonlinear_arith);
    assert((a * a) / (FX_SCALE as int) >= 0) by (nonlinear_arith)
        requires
            a * a >= 0,
    ;
}

/// The square-root floor of a nonnegative integer: the unique `r` with
/// `r * r <= n < (r + 1) * (r + 1)`.
pub open spec fn sqrt_floor(n: int) -> int {
    choose|r: int| 0 <= r && #[trigger] (r * r) <= n && n < (r + 1) * (r + 1)
}

/// There is exactly one square-root floor, so any witness equals
/// `sqrt_floor`.
pub proof fn lemma_sqrt_floor_is(n: int, r: int)
    requires
        0 <= r,
        r * r <= n,
        n < (r + 1) * (r + 1),
    ensures
        sqrt_floor(n) == r,
{
    assert(0 <= r && r * r <= n && n < (r + 1) * (r + 1));
    let w = sqrt_floor(n);
    assert(0 <= w && w * w <= n && n < (w + 1) * (w + 1));
    assert(w == r) by (nonlinear_arith)
        requires
            0 <= r,
            r * r <= n,
            n < (r + 1) * (r + 1),
            0 <= w,
            w * w <= n,
            n < (w + 1) * (w + 1),
    ;
}

/// Integer square root by bisection.
fn isqrt_u64(n: u64) -> (r: u64)
    ensures
        r * r <= n < (r + 1) * (r + 1),
        r == sqrt_floor(n as int),
{
    let mut lo: u64 = 0;
    let mut hi: u64 = 4294967296;
    assert((hi as int) * (hi as int) > n as int) by (nonlinear_arith)
        requires
            hi == 4294967296u64,
            n <= 0xffff_ffff_ffff_ffffu64,
    ;
    while lo + 1 < hi
        invariant
            lo < hi,
            hi <= 4294967296,
            (lo as int) * (lo as int) <= n as int,
            (hi as int) * (hi as int) > n as int,
        decreases hi - lo,
    {
        let mid: u64 = lo + (hi - lo) / 2;
        assert((mid as u128) * (mid as u128) <= 0x1_0000_0000u128 * 0x1_0000_0000u128)
            by (nonlinear_arith)
            requires
                mid <= 0x1_0000_0000u64,
        ;
        let sq: u128 = (mid as u128) * (mid as u128);
        if sq <= n as u128 {
            lo = mid;
        } else {
            hi = mid;
        }
    }
    proof {
        lemma_sqrt_floor_is(n as int, lo as int);
    }
    lo
}

/// The square root of a scalar: `sqrt_floor` of the value rescaled so the
/// result is again 16.16 fixed point.
pub open spec fn fx_sqrt_spec(a: int) -> int {
    sqrt_floor(a * FX_SCALE)
}

/// Fixed-point square root of a nonnegative scalar.
pub fn fx_sqrt(a: i64) -> (r: i64)
    requires
        fx_ok(a),
        a >= 0,
    ensures
        r == fx_sqrt_spec(a as int),
        fx_ok(r),
        r >= 0,
{
    let n: u64 = (a as u64) * (FX_SCALE as u64);
    let s: u64 = isqrt_u64(n);
    assert((s as int) * (s as int) <= n as int);
    assert(s <= 0x1_0000_0000u64) by (nonlinear_arith)
        requires
            (s as int) * (s as int) <= n as int,
            n <= 0x8000_0000_0000_0000u64,
    ;
    s as i64
}

} // verus!
