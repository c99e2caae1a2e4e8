//! Saturating fixed-point scalars: an `i64` value `v` stands for the real
//! number `v / FX_SCALE`. Sums and products clamp to the representable range
//! instead of overflowing.

use vstd::prelude::*;

verus! {

/// Scale of the fixed-point representation.
pub const FX_SCALE: i64 = 65536;

/// Clamp an unbounded integer into the range of `i64`.
pub open spec fn sat64(x: int) -> int {
    if x > i64::MAX as int {
        i64::MAX as int
    } else if x < i64::MIN as int {
        i64::MIN as int
    } else {
        x
    }
}

/// Quotient by the scale, truncated toward zero.
pub open spec fn scale_down(p: int) -> int {
    if p >= 0 {
        p / (FX_SCALE as int)
    } else {
        -((-p) / (FX_SCALE as int))
    }
}

/// Saturating fixed-point sum.
pub open spec fn fx_add_spec(a: int, b: int) -> int {
    sat64(a + b)
}

/// Saturating fixed-point difference.
pub open spec fn fx_sub_spec(a: int, b: int) -> int {
    sat64(a - b)
}

/// Saturating fixed-point product: `(a * b) / FX_SCALE`, truncated toward
/// zero and clamped.
pub open spec fn fx_mul_spec(a: int, b: int) -> int {
    sat64(scale_down(a * b))
}

/// Saturating addition.
pub fn fx_add(a: i64, b: i64) -> (r: i64)
    ensures
        r as int == fx_add_spec(a as int, b as int),
{
    if b >= 0 {
        if a > i64::MAX - b {
            i64::MAX
        } else {
            a + b
        }
    } else {
        if a < i64::MIN - b {
            i64::MIN
        } else {
            a + b
        }
    }
}

/// Saturating subtraction.
pub fn fx_sub(a: i64, b: i64) -> (r: i64)
    ensures
        r as int == fx_sub_spec(a as int, b as int),
{
    if b >= 0 {
        if a < i64::MIN + b {
            i64::MIN
        } else {
            a - b
        }
    } else {
        if a > i64::MAX + b {
            i64::MAX
        } else {
            a - b
        }
    }
}

/// Magnitude of an `i64`, as a `u64`.
fn mag64(a: i64) -> (r: u64)
    ensures
        r as int == if a >= 0 { a as int } else { -(a as int) },
{
    if a >= 0 {
        a as u64
    } else {
        (-(a as i128)) as u64
    }
}

/// Saturating fixed-point multiplication.
pub fn fx_mul(a: i64, b: i64) -> (r: i64)
    ensures
        r as int == fx_mul_spec(a as int, b as int),
{
    let ua: u128 = mag64(a) as u128;
    let ub: u128 = mag64(b) as u128;
    assert(ua * ub <= 0x8000_0000_0000_0000u128 * 0x8000_0000_0000_0000u128)
        by (nonlinear_arith)
        requires
            ua <= 0x8000_0000_0000_0000u128,
            ub <= 0x8000_0000_0000_0000u128,
    ;
    let p: u128 = ua * ub;
    let q: u128 = p / (FX_SCALE as u128);
    proof {
        let ia: int = a as int;
        let ib: int = b as int;
        if (a < 0) == (b < 0) {
            assert(ia * ib == ua * ub) by (nonlinear_arith)
                requires
                    ua == if ia >= 0 { ia } else { -ia },
                    ub == if ib >= 0 { ib } else { -ib },
                    (ia < 0) == (ib < 0),
            ;
        } else {
            assert(ia * ib == -(ua * ub)) by (nonlinear_arith)
                requires
                    ua == if ia >= 0 { ia } else { -ia },
                    ub == if ib >= 0 { ib } else { -ib },
                    (ia < 0) != (ib < 0),
            ;
        }
    }
    if (a < 0) == (b < 0) {
        if q > i64::MAX as u128 {
            i64::MAX
        } else {
            q as i64
        }
    } else {
        if q >= 0x8000_0000_0000_0000u128 {
            i64::MIN
        } else {
            -(q as i64)
        }
    }
}

} // verus!
