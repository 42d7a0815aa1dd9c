//! Numeric traits connecting the smoothing machinery to concrete scalars.

use vstd::prelude::*;

verus! {

/// A continuous scalar: the value type the smoothing filter runs on.
///
/// Every executable operation is tied to a specification-level counterpart
/// (`sp_*`), so code generic over `Real` can state exactly what it computes.
/// The operations are total: an implementation settles overflow and division
/// by zero itself (for example by saturating) and says so in its `sp_*`
/// definitions.
pub trait Real: Sized + Copy {
    /// The additive identity.
    spec fn sp_zero() -> Self;

    /// The multiplicative identity.
    spec fn sp_one() -> Self;

    /// The scalar standing for the integer `x`.
    spec fn sp_from_uint(x: u32) -> Self;

    spec fn sp_add(self, rhs: Self) -> Self;

    spec fn sp_sub(self, rhs: Self) -> Self;

    spec fn sp_mul(self, rhs: Self) -> Self;

    spec fn sp_div(self, rhs: Self) -> Self;

    spec fn sp_neg(self) -> Self;

    spec fn sp_abs(self) -> Self;

    /// The implementation's natural exponential.
    spec fn sp_exp(self) -> Self;

    /// The implementation's base-two logarithm.
    spec fn sp_log2(self) -> Self;

    /// Strict order on scalars.
    spec fn sp_lt(self, rhs: Self) -> bool;

    fn zero() -> (r: Self)
        ensures
            r == Self::sp_zero(),
    ;

    fn one() -> (r: Self)
        ensures
            r == Self::sp_one(),
    ;

    fn from_uint(x: u32) -> (r: Self)
        ensures
            r == Self::sp_from_uint(x),
    ;

    fn plus(self, rhs: Self) -> (r: Self)
        ensures
            r == self.sp_add(rhs),
    ;

    fn minus(self, rhs: Self) -> (r: Self)
        ensures
            r == self.sp_sub(rhs),
    ;

    fn times(self, rhs: Self) -> (r: Self)
        ensures
            r == self.sp_mul(rhs),
    ;

    fn div(self, rhs: Self) -> (r: Self)
        ensures
            r == self.sp_div(rhs),
    ;

    fn neg(self) -> (r: Self)
        ensures
            r == self.sp_neg(),
    ;

    fn abs(self) -> (r: Self)
        ensures
            r == self.sp_abs(),
    ;

    fn exp(self) -> (r: Self)
        ensures
            r == self.sp_exp(),
    ;

    fn log2(self) -> (r: Self)
        ensures
            r == self.sp_log2(),
    ;

    fn lt(self, rhs: Self) -> (r: bool)
        ensures
            r == self.sp_lt(rhs),
    ;
}

/// A discrete value that can be crossfaded by [`crate::Declick`]: anything
/// with a decidable equality.
pub trait Discrete: Sized {
    /// Decides specification-level equality.
    fn eq_value(&self, other: &Self) -> (r: bool)
        ensures
            r <==> (self == other),
    ;
}

impl Discrete for isize {
    fn eq_value(&self, other: &Self) -> (r: bool)
        ensures
            r <==> (self == other),
    {
        *self == *other
    }
}

impl Discrete for usize {
    fn eq_value(&self, other: &Self) -> (r: bool)
        ensures
            r <==> (self == other),
    {
        *self == *other
    }
}

impl Discrete for i32 {
    fn eq_value(&self, other: &Self) -> (r: bool)
        ensures
            r <==> (self == other),
    {
        *self == *other
    }
}

impl Discrete for u32 {
    fn eq_value(&self, other: &Self) -> (r: bool)
        ensures
            r <==> (self == other),
    {
        *self == *other
    }
}

impl Discrete for i64 {
    fn eq_value(&self, other: &Self) -> (r: bool)
        ensures
            r <==> (self == other),
    {
        *self == *other
    }
}

impl Discrete for u64 {
    fn eq_value(&self, other: &Self) -> (r: bool)
        ensures
            r <==> (self == other),
    {
        *self == *other
    }
}

/// Lossless or explicitly truncating conversion between the crate's scalar
/// types, with its exact meaning carried in `sp_as`.
pub trait AsPrimitive<T: Copy>: Copy {
    /// The value the conversion produces.
    spec fn sp_as(self) -> T;

    fn as_(self) -> (r: T)
        ensures
            r == self.sp_as(),
    ;
}

} // verus!
