//! Exact rounding arithmetic for the affine geotransform.
//!
//! Geographic values are fixed-point integers (see [`crate::Coordinate`]),
//! so the pixel/coordinate conversions are exact integer arithmetic. The
//! rounding convention is round-half-away-from-zero on the real quotient.

use vstd::prelude::*;

verus! {

/// Largest magnitude accepted for a stored geographic value (an origin,
/// pixel scale or matrix entry).
pub const GEO_LIMIT: i128 = 1_000_000_000_000_000_000_000_000_000;

/// Largest coordinate magnitude the conversions accept; roomy enough for
/// any product of a 32-bit pixel index with a bounded pixel scale.
pub const COORD_LIMIT: i128 = 10_000_000_000_000_000_000_000_000_000_000_000_000;

/// Bound under which the rounding division cannot overflow `i128`.
pub const ROUND_LIMIT: i128 = 40_000_000_000_000_000_000_000_000_000_000_000_000;

/// `round(a / b)` for `b > 0`, rounding half away from zero.
pub open spec fn spec_round_half_away(a: int, b: int) -> int {
    if a >= 0 {
        (2 * a + b) / (2 * b)
    } else {
        -((2 * (-a) + b) / (2 * b))
    }
}

/// `round(a / b)` for any `b != 0`, rounding half away from zero.
pub open spec fn spec_round_ratio(a: int, b: int) -> int {
    if b > 0 {
        spec_round_half_away(a, b)
    } else {
        spec_round_half_away(-a, -b)
    }
}

/// Round the quotient `a / b` to the nearest integer, half away from zero.
pub fn div_round(a: i128, b: i128) -> (r: i128)
    requires
        b != 0,
        -ROUND_LIMIT <= a <= ROUND_LIMIT,
        -ROUND_LIMIT <= b <= ROUND_LIMIT,
    ensures
        r == spec_round_ratio(a as int, b as int),
{
    let neg = (a < 0) != (b < 0);
    let ua: u128 = if a < 0 {
        (-a) as u128
    } else {
        a as u128
    };
    let ub: u128 = if b < 0 {
        (-b) as u128
    } else {
        b as u128
    };
    let q: u128 = (2 * ua + ub) / (2 * ub);
    proof {
        vstd::arithmetic::div_mod::lemma_div_nonincreasing(2 * ua + ub, 2 * ub);
        vstd::arithmetic::div_mod::lemma_div_pos_is_pos(2 * ua + ub, 2 * ub);
        if a == 0 {
            vstd::arithmetic::div_mod::lemma_basic_div(ub as int, 2 * (ub as int));
        }
    }
    if neg {
        -(q as i128)
    } else {
        q as i128
    }
}

/// Rounding a quotient whose numerator is an exact multiple of the divisor
/// recovers the multiplier: `round((x * s) / s) == x` whenever `s != 0`.
pub proof fn lemma_round_ratio_exact(x: int, s: int)
    requires
        s != 0,
    ensures
        spec_round_ratio(x * s, s) == x,
{
    if s > 0 {
        lemma_round_half_away_exact(x, s);
    } else {
        assert(-(x * s) == x * (-s)) by (nonlinear_arith);
        lemma_round_half_away_exact(x, -s);
    }
}

proof fn lemma_round_half_away_exact(x: int, s: int)
    requires
        s > 0,
    ensures
        spec_round_half_away(x * s, s) == x,
{
    if x >= 0 {
        assert(x * s >= 0) by (nonlinear_arith)
            requires
                x >= 0,
                s > 0,
        ;
        assert(2 * (x * s) + s == x * (2 * s) + s) by (nonlinear_arith);
        vstd::arithmetic::div_mod::lemma_fundamental_div_mod_converse_div(
            2 * (x * s) + s,
            2 * s,
            x,
            s,
        );
    } else {
        assert(x * s < 0) by (nonlinear_arith)
            requires
                x < 0,
                s > 0,
        ;
        assert(2 * (-(x * s)) + s == (-x) * (2 * s) + s) by (nonlinear_arith);
        vstd::arithmetic::div_mod::lemma_fundamental_div_mod_converse_div(
            2 * (-(x * s)) + s,
            2 * s,
            -x,
            s,
        );
    }
}

/// A 32-bit pixel index scaled by a bounded pixel size stays well inside
/// the coordinate range.
pub proof fn lemma_scaled_pixel_bound(x: int, s: int) by (nonlinear_arith)
    requires
        0 <= x <= u32::MAX,
        -GEO_LIMIT <= s <= GEO_LIMIT,
    ensures
        -COORD_LIMIT < x * s < COORD_LIMIT,
        -COORD_LIMIT < x * s + GEO_LIMIT <= COORD_LIMIT,
        -COORD_LIMIT <= x * s - GEO_LIMIT < COORD_LIMIT,
{
}

/// The pixel index that one axis of a coordinate resolves to: the rounded
/// quotient of the distance from the origin by the pixel size, saturated
/// into the `u32` range. A zero pixel size saturates in the direction of
/// the distance's sign.
pub open spec fn spec_pixel_from_axis(d: int, s: int) -> u32 {
    if s == 0 {
        if d > 0 {
            u32::MAX
        } else {
            0
        }
    } else {
        let q = spec_round_ratio(d, s);
        if q < 0 {
            0u32
        } else if q > u32::MAX {
            u32::MAX
        } else {
            q as u32
        }
    }
}

/// Resolve one axis of a coordinate to a pixel index.
pub fn pixel_from_axis(d: i128, s: i128) -> (r: u32)
    requires
        -ROUND_LIMIT <= d <= ROUND_LIMIT,
        -ROUND_LIMIT <= s <= ROUND_LIMIT,
    ensures
        r == spec_pixel_from_axis(d as int, s as int),
{
    if s == 0 {
        if d > 0 {
            u32::MAX
        } else {
            0
        }
    } else {
        let q = div_round(d, s);
        if q < 0 {
            0
        } else if q > u32::MAX as i128 {
            u32::MAX
        } else {
            q as u32
        }
    }
}

} // verus!
