//! Parameter descriptors and the translation between the three numeric
//! spaces a parameter lives in.
//!
//! A host automates parameters in *normalized* form (`[0, 1]`). Each
//! parameter maps that range onto its *unit* range (say `-90..3` decibels)
//! through a response curve ([`Gradient`]), and the unit value in turn maps
//! onto the *DSP* value the signal path consumes (a linear coefficient for
//! decibel-united parameters, the unit value itself otherwise).

use vstd::prelude::*;

verus! {

use crate::fixed::{sp_exp2, sp_log2, Fixed, FIXED_ONE};
use crate::model::{slot_set, slot_value, slot_wf, SlotValue, SlotView, SmoothedModel};
use crate::num::Real;
use crate::util::{
    db_to_coeff, coeff_to_db, powf, sp_coeff_to_db, sp_db_to_coeff, sp_powf,
};

/// The response curve mapping normalized onto unit values.
#[derive(Debug, Copy, Clone)]
pub enum Gradient {
    Linear,
    Power(Fixed),
    Exponential,
}

/// A parameter's numeric range together with its response curve.
#[derive(Debug, Copy, Clone)]
pub enum Type {
    Numeric { min: Fixed, max: Fixed, gradient: Gradient },
}

/// What a parameter's unit value means, and with it the unit-to-DSP
/// conversion.
#[derive(Debug, Clone, Copy, PartialEq, Eq, Structural)]
pub enum Unit {
    Generic,
    Decibels,
}

/// A normalized value pinned into `[0, 1]`: first capped at one, then
/// raised to zero.
pub open spec fn sp_clamp01(v: Fixed) -> Fixed {
    if Fixed::sp_one().sp_lt(v) {
        Fixed::sp_one()
    } else if v.sp_lt(Fixed::sp_zero()) {
        Fixed::sp_zero()
    } else {
        v
    }
}

/// Pins a normalized value into `[0, 1]`.
pub fn clamp01(v: Fixed) -> (r: Fixed)
    ensures
        r == sp_clamp01(v),
{
    let one = Fixed::one();
    let zero = Fixed::zero();
    if one.lt(v) {
        one
    } else if v.lt(zero) {
        zero
    } else {
        v
    }
}

/// The affine map placing a curve position `x` in `[0, 1]` into the range
/// `min..max`.
pub open spec fn sp_range_map(min: Fixed, max: Fixed, x: Fixed) -> Fixed {
    x.sp_mul(max.sp_sub(min)).sp_add(min)
}

/// Its inverse: the curve position of a unit value within `min..max`.
pub open spec fn sp_range_unmap(min: Fixed, max: Fixed, x: Fixed) -> Fixed {
    x.sp_sub(min).sp_div(max.sp_sub(min))
}

/// What [`normal_to_unit_value`] returns, branch by branch: the normalized
/// value is clamped into `[0, 1]`, sent through the response curve, and
/// placed into the parameter's range. The exponential curve returns the
/// exact endpoints at 0 and 1.
pub open spec fn sp_normal_to_unit_value(param_type: Type, normalized: Fixed) -> Fixed {
    let c = sp_clamp01(normalized);
    match param_type {
        Type::Numeric { min, max, gradient } => match gradient {
            Gradient::Linear => sp_range_map(min, max, c),
            Gradient::Power(exponent) => sp_range_map(min, max, sp_powf(c, exponent)),
            Gradient::Exponential => if c == Fixed::sp_zero() {
                min
            } else if c == Fixed::sp_one() {
                max
            } else {
                let minl = sp_log2(min);
                let range = sp_log2(max).sp_sub(minl);
                sp_exp2(c.sp_mul(range).sp_add(minl))
            },
        },
    }
}

/// Maps a normalized host value onto the parameter's unit range.
pub fn normal_to_unit_value(param_type: &Type, normalized: Fixed) -> (r: Fixed)
    ensures
        r == sp_normal_to_unit_value(*param_type, normalized),
{
    let c = clamp01(normalized);
    match param_type {
        Type::Numeric { min, max, gradient } => match gradient {
            Gradient::Linear => c.times(max.minus(*min)).plus(*min),
            Gradient::Power(exponent) => powf(c, *exponent).times(max.minus(*min)).plus(*min),
            Gradient::Exponential => {
                if c.raw == 0 {
                    *min
                } else if c.raw == FIXED_ONE {
                    *max
                } else {
                    let minl = min.log2();
                    let range = max.log2().minus(minl);
                    c.times(range).plus(minl).exp2()
                }
            },
        },
    }
}

/// What [`unit_value_to_normal`] returns: values at or below the minimum
/// saturate to 0, at or above the maximum to 1; in between, the exact
/// algebraic inverse of the response curve applies.
pub open spec fn sp_unit_value_to_normal(param_type: Type, unit_value: Fixed) -> Fixed {
    match param_type {
        Type::Numeric { min, max, gradient } => if unit_value.raw <= min.raw {
            Fixed::sp_zero()
        } else if unit_value.raw >= max.raw {
            Fixed::sp_one()
        } else {
            match gradient {
                Gradient::Linear => sp_range_unmap(min, max, unit_value),
                Gradient::Power(exponent) => sp_powf(
                    sp_range_unmap(min, max, unit_value),
                    Fixed::sp_one().sp_div(exponent),
                ),
                Gradient::Exponential => {
                    let minl = sp_log2(min);
                    let range = sp_log2(max).sp_sub(minl);
                    sp_log2(unit_value).sp_sub(minl).sp_div(range)
                },
            }
        },
    }
}

/// Maps a unit value back onto the normalized range, saturating outside
/// the parameter's bounds.
pub fn unit_value_to_normal(param_type: &Type, unit_value: Fixed) -> (r: Fixed)
    ensures
        r == sp_unit_value_to_normal(*param_type, unit_value),
{
    match param_type {
        Type::Numeric { min, max, gradient } => {
            if unit_value.raw <= min.raw {
                return Fixed::zero();
            }
            if unit_value.raw >= max.raw {
                return Fixed::one();
            }
            match gradient {
                Gradient::Linear => unit_value.minus(*min).div(max.minus(*min)),
                Gradient::Power(exponent) => {
                    let unmapped = unit_value.minus(*min).div(max.minus(*min));
                    powf(unmapped, Fixed::one().div(*exponent))
                },
                Gradient::Exponential => {
                    let minl = min.log2();
                    let range = max.log2().minus(minl);
                    unit_value.log2().minus(minl).div(range)
                },
            }
        },
    }
}

/// What [`unit_val_to_dsp_val`] returns: decibels become a linear
/// coefficient, any other unit passes through.
pub open spec fn sp_unit_val_to_dsp_val(unit: Unit, unit_value: Fixed) -> Fixed {
    match unit {
        Unit::Decibels => sp_db_to_coeff(unit_value),
        Unit::Generic => unit_value,
    }
}

/// Converts a unit value into the value the signal path consumes.
pub fn unit_val_to_dsp_val(unit: Unit, unit_value: Fixed) -> (r: Fixed)
    ensures
        r == sp_unit_val_to_dsp_val(unit, unit_value),
{
    match unit {
        Unit::Decibels => db_to_coeff(unit_value),
        Unit::Generic => unit_value,
    }
}

/// What [`dsp_val_to_unit_val`] returns: the inverse of the unit-to-DSP
/// conversion, with the decibel floor pinned at `-90`.
pub open spec fn sp_dsp_val_to_unit_val(unit: Unit, dsp_value: Fixed) -> Fixed {
    match unit {
        Unit::Decibels => sp_coeff_to_db(dsp_value),
        Unit::Generic => dsp_value,
    }
}

/// Converts a DSP value back into the parameter's unit range.
pub fn dsp_val_to_unit_val(unit: Unit, dsp_value: Fixed) -> (r: Fixed)
    ensures
        r == sp_dsp_val_to_unit_val(unit, dsp_value),
{
    match unit {
        Unit::Decibels => coeff_to_db(dsp_value),
        Unit::Generic => dsp_value,
    }
}

/// The full normalized-to-DSP chain.
pub open spec fn sp_normal_to_dsp_val(unit: Unit, param_type: Type, normalized: Fixed) -> Fixed {
    sp_unit_val_to_dsp_val(unit, sp_normal_to_unit_value(param_type, normalized))
}

/// Translates a normalized host value all the way to the DSP value.
pub fn normal_to_dsp_val(unit: Unit, param_type: &Type, normalized: Fixed) -> (r: Fixed)
    ensures
        r == sp_normal_to_dsp_val(unit, *param_type, normalized),
{
    let unit_val = normal_to_unit_value(param_type, normalized);
    unit_val_to_dsp_val(unit, unit_val)
}

/// The full DSP-to-normalized chain.
pub open spec fn sp_dsp_val_to_normal(unit: Unit, param_type: Type, dsp_value: Fixed) -> Fixed {
    sp_unit_value_to_normal(param_type, sp_dsp_val_to_unit_val(unit, dsp_value))
}

/// Translates a DSP value all the way back to the normalized range.
pub fn dsp_val_to_normal(unit: Unit, param_type: &Type, dsp_value: Fixed) -> (r: Fixed)
    ensures
        r == sp_dsp_val_to_normal(unit, *param_type, dsp_value),
{
    let unit_val = dsp_val_to_unit_val(unit, dsp_value);
    unit_value_to_normal(param_type, unit_val)
}

/// Static description of one parameter: its names, unit, range and place
/// in the parameter table.
pub struct ParamInfo {
    pub name: String,
    pub short_name: Option<String>,
    pub label: String,
    pub unit: Unit,
    pub param_type: Type,
    pub idx: usize,
}

impl ParamInfo {
    /// The short name when one is given, the full name otherwise.
    pub fn get_name(&self) -> (r: &String)
        ensures
            r@ == (if self.short_name is Some {
                self.short_name.unwrap()@
            } else {
                self.name@
            }),
    {
        match &self.short_name {
            Some(s) => s,
            None => &self.name,
        }
    }
}

/// A parameter bound to one continuous slot of the smoothed model: the
/// descriptor, the slot it drives, and whether the signal path wants to be
/// told when the value changes.
pub struct Param {
    pub info: ParamInfo,
    pub slot: usize,
    pub dsp_notify: bool,
}

impl Param {
    /// The parameter names a continuous slot of `model`.
    pub open spec fn fits(self, model: Seq<SlotView>) -> bool {
        &&& self.slot < model.len()
        &&& !(model[self.slot as int] is Declicked)
    }

    /// The DSP value that applying normalized `val` through this parameter
    /// writes into its slot.
    pub open spec fn sp_dsp_of(self, val: Fixed) -> Fixed {
        sp_normal_to_dsp_val(self.info.unit, self.info.param_type, val)
    }

    /// Applies a normalized host value: it is translated to the DSP space
    /// and smoothed into the parameter's slot.
    pub fn set(&self, model: &mut SmoothedModel, val: Fixed)
        requires
            self.fits(old(model)@),
            slot_wf(old(model)@[self.slot as int]),
        ensures
            final(model)@ == old(model)@.update(
                self.slot as int,
                slot_set(old(model)@[self.slot as int], SlotValue::Num(self.sp_dsp_of(val))),
            ),
    {
        let dsp = normal_to_dsp_val(self.info.unit, &self.info.param_type, val);
        model.set_value(self.slot, SlotValue::Num(dsp));
    }

    /// Reads the parameter back in normalized form, working the slot's
    /// current destination value backward through the two mappings.
    pub fn get(&self, model: &SmoothedModel) -> (r: Fixed)
        ensures
            self.fits(model@) ==> r == sp_dsp_val_to_normal(
                self.info.unit,
                self.info.param_type,
                slot_value(model@[self.slot as int])->Num_0,
            ),
    {
        if self.slot >= model.len() {
            return Fixed::zero();
        }
        let v = model.get_value(self.slot);
        let x = match v {
            SlotValue::Num(x) => x,
            SlotValue::Disc(_) => Fixed::zero(),
        };
        dsp_val_to_normal(self.info.unit, &self.info.param_type, x)
    }

    /// The short name when one is given, the full name otherwise.
    pub fn get_name(&self) -> (r: &String)
        ensures
            r@ == (if self.info.short_name is Some {
                self.info.short_name.unwrap()@
            } else {
                self.info.name@
            }),
    {
        self.info.get_name()
    }

    /// The display label for the parameter's unit.
    pub fn get_label(&self) -> (r: &String)
        ensures
            r@ == self.info.label@,
    {
        &self.info.label
    }
}

/// Marker for discrete model values that map to and from the normalized
/// range by equal-width buckets, as [`enum_variant_of_normal`] and
/// [`enum_normal_of_variant`] pin down.
pub trait EnumModel: Sized {

}

/// What [`enum_variant_of_normal`] returns: the normalized value is
/// clamped into `[0, 1]` and bucket `i` of `n` covers
/// `[i/n, (i+1)/n)`, with the top value `1` folded into the last bucket.
pub open spec fn sp_variant_of_normal(normalized: Fixed, n: int) -> int {
    let c = sp_clamp01(normalized);
    let q = (c.raw as int * n) / (FIXED_ONE as int);
    if q >= n {
        n - 1
    } else {
        q
    }
}

/// The bucket a normalized value selects among `n` equally wide ones.
/// The bound on the table size keeps the scaled products inside 64 bits
/// (a clamped raw value times the count stays below `2^62`).
pub fn enum_variant_of_normal(normalized: Fixed, n_variants: usize) -> (r: usize)
    requires
        1 <= n_variants <= 0x4000_0000,
    ensures
        r as int == sp_variant_of_normal(normalized, n_variants as int),
        r < n_variants,
{
    let c = clamp01(normalized);
    proof {
        assert(0 <= c.raw as int * n_variants as int <= FIXED_ONE as int * 0x4000_0000)
            by (nonlinear_arith)
            requires
                0 <= c.raw as int <= FIXED_ONE as int,
                1 <= n_variants as int <= 0x4000_0000,
        ;
    }
    let scaled: u64 = (c.raw as u64) * (n_variants as u64);
    let q: u64 = scaled / (FIXED_ONE as u64);
    if q >= n_variants as u64 {
        n_variants - 1
    } else {
        proof {
            vstd::arithmetic::div_mod::lemma_div_is_ordered(
                0,
                c.raw as int * n_variants as int,
                FIXED_ONE as int,
            );
        }
        q as usize
    }
}

/// What [`enum_normal_of_variant`] returns: `variant / n`, rounded up to
/// the scalar's resolution so that decoding recovers the variant exactly.
pub open spec fn sp_normal_of_variant(variant: int, n: int) -> Fixed {
    Fixed { raw: ((variant * FIXED_ONE as int + n - 1) / n) as i64 }
}

/// The normalized value standing for bucket `variant` of `n`. The bound
/// on the table size keeps the scaled products inside 64 bits.
pub fn enum_normal_of_variant(variant: usize, n_variants: usize) -> (r: Fixed)
    requires
        variant < n_variants <= 0x4000_0000,
    ensures
        r == sp_normal_of_variant(variant as int, n_variants as int),
        0 <= r.raw < FIXED_ONE,
{
    proof {
        assert(0 <= variant as int * FIXED_ONE as int <= 0x4000_0000 * (FIXED_ONE as int))
            by (nonlinear_arith)
            requires
                0 <= variant as int <= 0x4000_0000,
        ;
    }
    let num: u64 = (variant as u64) * (FIXED_ONE as u64) + (n_variants as u64) - 1;
    let e: u64 = num / (n_variants as u64);
    proof {
        let v = variant as int;
        let n = n_variants as int;
        let o = FIXED_ONE as int;
        assert(v * o + n - 1 <= (n - 1) * o + n - 1) by (nonlinear_arith)
            requires
                v <= n - 1,
                o > 0,
        ;
        assert((n - 1) * o + n - 1 < n * o) by (nonlinear_arith)
            requires
                1 <= n <= 0x4000_0000,
                o == FIXED_ONE as int,
        ;
        vstd::arithmetic::div_mod::lemma_div_is_ordered(v * o + n - 1, n * o - 1, n);
        assert((n * o - 1) / n < o) by (nonlinear_arith)
            requires
                1 <= n,
                o > 0,
        ;
        vstd::arithmetic::div_mod::lemma_div_is_ordered(0, v * o + n - 1, n);
    }
    Fixed { raw: e as i64 }
}

/// Encoding a bucket as its normalized value and decoding it again yields
/// the same bucket, for every bucket of every table size: the enum
/// round-trip is exact.
pub proof fn lemma_enum_round_trip(variant: int, n: int)
    requires
        0 <= variant < n <= 0x4000_0000,
    ensures
        sp_variant_of_normal(sp_normal_of_variant(variant, n), n) == variant,
{
    let o = FIXED_ONE as int;
    let e = (variant * o + n - 1) / n;
    // e stays inside [0, o): no clamping happens on decode
    assert(variant * o + n - 1 <= (n - 1) * o + n - 1) by (nonlinear_arith)
        requires
            variant <= n - 1,
            o > 0,
    ;
    assert((n - 1) * o + n - 1 < n * o) by (nonlinear_arith)
        requires
            1 <= n <= 0x4000_0000,
            o == FIXED_ONE as int,
    ;
    vstd::arithmetic::div_mod::lemma_div_is_ordered(variant * o + n - 1, n * o - 1, n);
    assert((n * o - 1) / n < o) by (nonlinear_arith)
        requires
            1 <= n,
            o > 0,
    ;
    vstd::arithmetic::div_mod::lemma_div_is_ordered(0, variant * o + n - 1, n);
    let c = sp_clamp01(Fixed { raw: e as i64 });
    assert(c.raw as int == e);
    // lower bound: e * n >= variant * o, so the decoded bucket is at least
    // the variant
    vstd::arithmetic::div_mod::lemma_fundamental_div_mod(variant * o + n - 1, n);
    let rem = (variant * o + n - 1) % n;
    assert(e * n == variant * o + n - 1 - rem) by (nonlinear_arith)
        requires
            variant * o + n - 1 == n * e + rem,
    ;
    assert(e * n >= variant * o);
    assert(e * n <= variant * o + n - 1);
    // and therefore floor(e * n / o) == variant
    assert(variant * o + n - 1 < (variant + 1) * o) by (nonlinear_arith)
        requires
            n <= o,
            o > 0,
    ;
    vstd::arithmetic::div_mod::lemma_div_is_ordered(variant * o, e * n, o);
    vstd::arithmetic::div_mod::lemma_div_is_ordered(e * n, (variant + 1) * o - 1, o);
    assert((variant * o) / o == variant) by (nonlinear_arith)
        requires
            o > 0,
    ;
    assert(((variant + 1) * o - 1) / o == variant) by (nonlinear_arith)
        requires
            o > 0,
    ;
}

} // verus!
