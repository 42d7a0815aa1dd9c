//! Decibel/coefficient conversion and the general power helper.

use vstd::prelude::*;

verus! {

use crate::fixed::{sp_exp2, sp_log2, Fixed};
use crate::num::Real;

/// Raw value of `0.05 * log2(10)`: turns decibels into a base-two exponent,
/// since `10^(db/20) = 2^(db * 0.05 * log2(10))`.
pub const DB_TO_EXP_RAW: i64 = 713378626;

/// Raw value of `20 / log2(10)`: turns a base-two logarithm into decibels.
pub const LOG_TO_DB_RAW: i64 = 25858279730;

/// Raw value of `-90`, the silence floor in decibels.
pub const DB_FLOOR_RAW: i64 = -386547056640;

/// Raw value of the linear coefficient at the `-90` decibel floor,
/// about `0.00003162277`.
pub const COEFF_FLOOR_RAW: i64 = 135819;

/// What [`db_to_coeff`] returns: gains below the `-90` decibel floor
/// collapse to exact silence, anything else becomes `10^(db/20)`.
pub open spec fn sp_db_to_coeff(db: Fixed) -> Fixed {
    if db.raw < DB_FLOOR_RAW {
        Fixed { raw: 0 }
    } else {
        sp_exp2(db.sp_mul(Fixed { raw: DB_TO_EXP_RAW }))
    }
}

/// What [`coeff_to_db`] returns: coefficients at or below the floor are
/// pinned to exactly `-90` decibels, anything else becomes `20 * log10(c)`.
pub open spec fn sp_coeff_to_db(coeff: Fixed) -> Fixed {
    if coeff.raw <= COEFF_FLOOR_RAW {
        Fixed { raw: DB_FLOOR_RAW }
    } else {
        sp_log2(coeff).sp_mul(Fixed { raw: LOG_TO_DB_RAW })
    }
}

/// Converts a decibel amount into a linear gain coefficient. Values below
/// the `-90` decibel floor yield exactly zero, so a fully pulled-down
/// fader means true silence.
pub fn db_to_coeff(db: Fixed) -> (r: Fixed)
    ensures
        r == sp_db_to_coeff(db),
        db.raw < DB_FLOOR_RAW ==> r == (Fixed { raw: 0 }),
{
    if db.raw < DB_FLOOR_RAW {
        Fixed { raw: 0 }
    } else {
        db.times(Fixed { raw: DB_TO_EXP_RAW }).exp2()
    }
}

/// Converts a linear gain coefficient into decibels. Coefficients at or
/// below the silence floor yield exactly `-90` decibels.
pub fn coeff_to_db(coeff: Fixed) -> (r: Fixed)
    ensures
        r == sp_coeff_to_db(coeff),
        coeff.raw <= COEFF_FLOOR_RAW ==> r == (Fixed { raw: DB_FLOOR_RAW }),
{
    if coeff.raw <= COEFF_FLOOR_RAW {
        Fixed { raw: DB_FLOOR_RAW }
    } else {
        coeff.log2().times(Fixed { raw: LOG_TO_DB_RAW })
    }
}

/// What [`powf`] returns: `x^e` computed as `2^(e * log2(x))`; a zero or
/// negative base saturates the logarithm, which drives a positive exponent
/// to zero.
pub open spec fn sp_powf(x: Fixed, e: Fixed) -> Fixed {
    sp_exp2(e.sp_mul(sp_log2(x)))
}

/// Raises `x` to the power `e` through the base-two exponential and
/// logarithm.
pub fn powf(x: Fixed, e: Fixed) -> (r: Fixed)
    ensures
        r == sp_powf(x, e),
{
    e.times(x.log2()).exp2()
}

} // verus!
