//! A saturating 32.32 fixed-point scalar.
//!
//! [`Fixed`] carries continuous values (gain coefficients, fade positions,
//! decibel amounts) as `raw / 2^32`. All arithmetic is total: results out of
//! range saturate at the representation's limits, and division by zero
//! saturates in the direction of the dividend. Each executable operation is
//! specified exactly by an integer-level `raw_*` spec function.

use vstd::prelude::*;

verus! {

use crate::num::Real;
use vstd::math::abs;
use vstd::arithmetic::power2::pow2;
use vstd::arithmetic::power2::lemma_pow2_unfold;
use vstd::arithmetic::power2::lemma_pow2_strictly_increases;
use vstd::arithmetic::power2::lemma2_to64;
use vstd::arithmetic::power2::lemma2_to64_rest;
use vstd::arithmetic::div_mod::lemma_basic_div;
use vstd::arithmetic::div_mod::lemma_fundamental_div_mod;
use vstd::arithmetic::div_mod::lemma_fundamental_div_mod_converse;
use vstd::arithmetic::div_mod::lemma_div_is_ordered;
use vstd::arithmetic::div_mod::lemma_div_nonincreasing;
use vstd::arithmetic::mul::lemma_mul_inequality;

/// Raw representation of 1.0: the value of a [`Fixed`] is `raw / FIXED_ONE`.
pub const FIXED_ONE: i64 = 0x1_0000_0000;

/// A 32.32 fixed-point scalar with saturating arithmetic.
#[derive(Clone, Copy, Debug, PartialEq, Eq, Structural)]
pub struct Fixed {
    pub raw: i64,
}

/// Clamps an unbounded integer to the `i64` range.
pub open spec fn clamp_raw(x: int) -> int {
    if x > i64::MAX as int {
        i64::MAX as int
    } else if x < i64::MIN as int {
        i64::MIN as int
    } else {
        x
    }
}

/// Division truncating toward zero, for a positive divisor.
pub open spec fn tdiv(x: int, d: int) -> int
    recommends
        d > 0,
{
    if x >= 0 {
        x / d
    } else {
        -((-x) / d)
    }
}

/// The raw result of a fixed-point quotient: `a / b` rescaled by
/// `FIXED_ONE`, truncated toward zero and saturated. A zero divisor
/// saturates in the direction of `a` (and `0 / 0` is `0`).
pub open spec fn raw_div(a: int, b: int) -> int {
    if b == 0 {
        if a == 0 {
            0
        } else if a > 0 {
            i64::MAX as int
        } else {
            i64::MIN as int
        }
    } else {
        let q = (abs(a) * FIXED_ONE as int) / abs(b) as int;
        clamp_raw(if (a < 0) != (b < 0) { -q } else { q })
    }
}

/// Clamps an `i128` intermediate into the `i64` range.
fn clamp_i128(x: i128) -> (r: i64)
    ensures
        r as int == clamp_raw(x as int),
{
    if x > i64::MAX as i128 {
        i64::MAX
    } else if x < i64::MIN as i128 {
        i64::MIN
    } else {
        x as i64
    }
}

/// The magnitude of an `i64`, exact even for `i64::MIN`.
fn mag_of(a: i64) -> (r: u64)
    ensures
        r as int == abs(a as int),
{
    if a >= 0 {
        a as u64
    } else {
        let w: i128 = a as i128;
        (-w) as u64
    }
}

/// Reassembles a sign and a magnitude into a saturated `i64`.
fn signed_clamp(neg: bool, m: u128) -> (r: i64)
    ensures
        r as int == clamp_raw(if neg { -(m as int) } else { m as int }),
{
    if neg {
        if m >= 9223372036854775808u128 {
            i64::MIN
        } else {
            -(m as i64)
        }
    } else {
        if m > 9223372036854775807u128 {
            i64::MAX
        } else {
            m as i64
        }
    }
}

/// Builds the scalar whose raw representation is `x`, saturated.
pub open spec fn fx(x: int) -> Fixed {
    Fixed { raw: clamp_raw(x) as i64 }
}

/// Raw value of `log2(e)`: the factor turning a natural exponent into a
/// base-two one.
pub const LOG2_E_RAW: i64 = 6196328019;

/// Raw polynomial coefficients approximating `2^f` for `f` in `[0, 1)`,
/// constant term first; the approximation error stays below `4e-6`.
pub const POW2_C0: i64 = 4294982746;
pub const POW2_C1: i64 = 2976281558;
pub const POW2_C2: i64 = 1037755679;
pub const POW2_C3: i64 = 222125983;
pub const POW2_C4: i64 = 58772259;

/// Raw polynomial coefficients approximating `log2(1 + u)` for `u` in
/// `[0, 1)`, constant term first; the approximation error stays below
/// `2e-5`.
pub const LOG2_C0: i64 = 61809;
pub const LOG2_C1: i64 = 6191590826;
pub const LOG2_C2: i64 = -3037630368;
pub const LOG2_C3: i64 = 1767643110;
pub const LOG2_C4: i64 = -815324153;
pub const LOG2_C5: i64 = 188672021;

impl Fixed {
    /// Builds a scalar directly from its raw representation.
    pub fn from_raw(raw: i64) -> (r: Fixed)
        ensures
            r.raw == raw,
    {
        Fixed { raw }
    }

    /// The scalar standing for the signed integer `k`, saturated.
    pub fn from_int_units(k: i64) -> (r: Fixed)
        ensures
            r.raw as int == clamp_raw(k * FIXED_ONE),
    {
        proof {
            assert((i64::MIN as int) * (FIXED_ONE as int) <= (k as int) * (FIXED_ONE as int)
                <= (i64::MAX as int) * (FIXED_ONE as int)) by (nonlinear_arith)
                requires
                    i64::MIN as int <= k as int <= i64::MAX as int,
            ;
        }
        let w: i128 = (k as i128) * (FIXED_ONE as i128);
        Fixed { raw: clamp_i128(w) }
    }
}

/// The `2^f` polynomial on a fractional argument, evaluated with the
/// scalar's own saturating operations.
pub open spec fn sp_poly_pow2(f: Fixed) -> Fixed {
    Fixed { raw: POW2_C0 }.sp_add(f.sp_mul(Fixed { raw: POW2_C1 }.sp_add(f.sp_mul(
        Fixed { raw: POW2_C2 }.sp_add(f.sp_mul(Fixed { raw: POW2_C3 }.sp_add(f.sp_mul(
            Fixed { raw: POW2_C4 },
        ))))))))
}

/// The `log2(1 + u)` polynomial on a fractional argument, evaluated with
/// the scalar's own saturating operations.
pub open spec fn sp_poly_log2(u: Fixed) -> Fixed {
    Fixed { raw: LOG2_C0 }.sp_add(u.sp_mul(Fixed { raw: LOG2_C1 }.sp_add(u.sp_mul(
        Fixed { raw: LOG2_C2 }.sp_add(u.sp_mul(Fixed { raw: LOG2_C3 }.sp_add(u.sp_mul(
            Fixed { raw: LOG2_C4 }.sp_add(u.sp_mul(Fixed { raw: LOG2_C5 })),
        ))))))))
}

/// Rescaling by a power of two: multiplication for `n >= 0` (saturated),
/// flooring division for `n < 0`.
pub open spec fn sp_scale_pow2(p: Fixed, n: int) -> Fixed {
    if n >= 0 {
        fx(p.raw as int * pow2(n as nat) as int)
    } else {
        fx(p.raw as int / pow2((-n) as nat) as int)
    }
}

/// Repeated halving of `m` until it falls below twice `FIXED_ONE`;
/// returns the reduced value and the number of halvings.
pub open spec fn norm_down(m: int) -> (int, int)
    decreases m when m >= 0
{
    if m >= 2 * (FIXED_ONE as int) {
        let r = norm_down(m / 2);
        (r.0, r.1 + 1)
    } else {
        (m, 0)
    }
}

/// Repeated doubling of a positive `m` until it reaches `FIXED_ONE`;
/// returns the raised value and the number of doublings.
pub open spec fn norm_up(m: int) -> (int, int)
    decreases 2 * (FIXED_ONE as int) - m when m >= 1
{
    if 1 <= m < FIXED_ONE as int {
        let r = norm_up(2 * m);
        (r.0, r.1 + 1)
    } else {
        (m, 0)
    }
}

/// The base-two exponential: the fractional part goes through the
/// polynomial, the integral part becomes a power-of-two rescaling.
pub open spec fn sp_exp2(y: Fixed) -> Fixed {
    let n = y.raw as int / FIXED_ONE as int;
    let f = Fixed { raw: (y.raw as int % FIXED_ONE as int) as i64 };
    sp_scale_pow2(sp_poly_pow2(f), n)
}

/// The base-two logarithm: the argument is normalized into
/// `[FIXED_ONE, 2 * FIXED_ONE)` by counting halvings and doublings, and the
/// remaining mantissa goes through the polynomial. Zero or negative
/// arguments saturate to the most negative scalar.
pub open spec fn sp_log2(x: Fixed) -> Fixed {
    if x.raw <= 0 {
        Fixed { raw: i64::MIN }
    } else {
        let d = norm_down(x.raw as int);
        let u = norm_up(d.0);
        let k = d.1 - u.1;
        fx(k * FIXED_ONE as int).sp_add(sp_poly_log2(Fixed { raw: (u.0 - FIXED_ONE as int) as i64 }))
    }
}

/// Computes `2^n` exactly for exponents within a `u64`.
fn pow2_u64(n: u64) -> (r: u64)
    requires
        n <= 63,
    ensures
        r as int == pow2(n as nat) as int,
{
    let mut r: u64 = 1;
    let mut i: u64 = 0;
    proof {
        lemma2_to64();
    }
    while i < n
        invariant
            i <= n <= 63,
            r as int == pow2(i as nat) as int,
        decreases n - i,
    {
        proof {
            lemma_pow2_unfold((i + 1) as nat);
            if (i as nat) < 63 {
                lemma_pow2_strictly_increases(i as nat, 63);
            }
            lemma2_to64();
            lemma2_to64_rest();
        }
        r = r * 2;
        i = i + 1;
    }
    r
}

/// Rescales a nonnegative scalar by `2^n`, saturating upward and flooring
/// downward.
fn scale_pow2(p: Fixed, n: i64) -> (r: Fixed)
    requires
        0 <= p.raw,
    ensures
        r == sp_scale_pow2(p, n as int),
{
    if n >= 63 {
        proof {
            lemma2_to64();
            lemma2_to64_rest();
            if n > 63 {
                lemma_pow2_strictly_increases(63, n as nat);
            }
            if p.raw >= 1 {
                lemma_mul_inequality(1, p.raw as int, pow2(n as nat) as int);
                assert(1 * pow2(n as nat) as int == pow2(n as nat) as int);
            }
            assert(p.raw == 0 ==> p.raw as int * pow2(n as nat) as int == 0) by (nonlinear_arith);
        }
        if p.raw == 0 {
            Fixed { raw: 0 }
        } else {
            Fixed { raw: i64::MAX }
        }
    } else if n >= 0 {
        let f = pow2_u64(n as u64);
        proof {
            lemma2_to64();
            lemma2_to64_rest();
            if (n as nat) < 63 {
                lemma_pow2_strictly_increases(n as nat, 63);
            }
            assert((p.raw as int) * (f as int) <= 0x8000_0000_0000_0000i128 as int
                * 0x8000_0000_0000_0000i128 as int) by (nonlinear_arith)
                requires
                    0 <= p.raw as int <= 0x8000_0000_0000_0000i128 as int,
                    0 <= f as int <= 0x8000_0000_0000_0000i128 as int,
            ;
            assert((p.raw as int) * (f as int) >= 0) by (nonlinear_arith)
                requires
                    0 <= p.raw as int,
                    0 <= f as int,
            ;
        }
        let m: u128 = (p.raw as u128) * (f as u128);
        Fixed { raw: signed_clamp(false, m) }
    } else if n <= -64 {
        proof {
            lemma2_to64();
            lemma2_to64_rest();
            if (-n) as nat > 64 {
                lemma_pow2_strictly_increases(64, (-n) as nat);
            }
            lemma_basic_div(p.raw as int, pow2((-n) as nat) as int);
        }
        Fixed { raw: 0 }
    } else {
        let d = pow2_u64((-n) as u64);
        proof {
            vstd::arithmetic::power2::lemma_pow2_pos((-n) as nat);
            lemma_div_nonincreasing(p.raw as int, d as int);
            lemma_div_is_ordered(0, p.raw as int, d as int);
        }
        Fixed { raw: ((p.raw as u64) / d) as i64 }
    }
}

/// Splits a scalar into its integral floor `n` and fractional part `f`,
/// so that `y = n + f` with `0 <= f < 1`.
fn floor_units(y: Fixed) -> (r: (i64, Fixed))
    ensures
        r.0 as int == y.raw as int / FIXED_ONE as int,
        r.1.raw as int == y.raw as int % FIXED_ONE as int,
{
    if y.raw >= 0 {
        let nu: u64 = (y.raw as u64) / (FIXED_ONE as u64);
        let fu: u64 = (y.raw as u64) % (FIXED_ONE as u64);
        (nu as i64, Fixed { raw: fu as i64 })
    } else {
        let mag: u64 = mag_of(y.raw);
        let q: u64 = (mag + (FIXED_ONE as u64) - 1) / (FIXED_ONE as u64);
        let rem: u64 = q * (FIXED_ONE as u64) - mag;
        proof {
            let mi = mag as int;
            let d = FIXED_ONE as int;
            lemma_fundamental_div_mod(mi + d - 1, d);
            let qi = (mi + d - 1) / d;
            // q * FIXED_ONE stays within u64: the quotient is bounded by the
            // dividend scaled down, and mag itself is at most 2^63.
            lemma_div_nonincreasing(mi + d - 1, d);
            assert(qi * d == mi + d - 1 - ((mi + d - 1) % d));
            assert(qi * d <= mi + d - 1);
            assert(qi * d >= mi) by {
                assert((mi + d - 1) % d < d);
            };
            // the euclidean quotient and remainder of the negative dividend
            lemma_fundamental_div_mod_converse(-mi, d, -qi, qi * d - mi);
        }
        (-(q as i64), Fixed { raw: rem as i64 })
    }
}

/// Evaluates the `2^f` polynomial; the result is nonnegative.
fn poly_pow2(f: Fixed) -> (r: Fixed)
    requires
        0 <= f.raw,
    ensures
        r == sp_poly_pow2(f),
        0 <= r.raw,
{
    let c4 = Fixed { raw: POW2_C4 };
    let c3 = Fixed { raw: POW2_C3 };
    let c2 = Fixed { raw: POW2_C2 };
    let c1 = Fixed { raw: POW2_C1 };
    let c0 = Fixed { raw: POW2_C0 };
    let t3 = c3.plus(f.times(c4));
    let t2 = c2.plus(f.times(t3));
    let t1 = c1.plus(f.times(t2));
    let r = c0.plus(f.times(t1));
    proof {
        lemma_times_nonneg(f, c4);
        lemma_plus_nonneg(c3, f.sp_mul(c4));
        lemma_times_nonneg(f, t3);
        lemma_plus_nonneg(c2, f.sp_mul(t3));
        lemma_times_nonneg(f, t2);
        lemma_plus_nonneg(c1, f.sp_mul(t2));
        lemma_times_nonneg(f, t1);
        lemma_plus_nonneg(c0, f.sp_mul(t1));
    }
    r
}

/// A product of scalars with nonnegative raw parts is nonnegative.
proof fn lemma_times_nonneg(a: Fixed, b: Fixed)
    requires
        0 <= a.raw,
        0 <= b.raw,
    ensures
        0 <= a.sp_mul(b).raw,
{
    assert(0 <= a.raw as int * b.raw as int) by (nonlinear_arith)
        requires
            0 <= a.raw as int,
            0 <= b.raw as int,
    ;
    lemma_div_is_ordered(0, a.raw as int * b.raw as int, FIXED_ONE as int);
}

/// A sum of scalars with nonnegative raw parts is nonnegative.
proof fn lemma_plus_nonneg(a: Fixed, b: Fixed)
    requires
        0 <= a.raw,
        0 <= b.raw,
    ensures
        0 <= a.sp_add(b).raw,
{
}

/// Evaluates the `log2(1 + u)` polynomial.
fn poly_log2(u: Fixed) -> (r: Fixed)
    ensures
        r == sp_poly_log2(u),
{
    let c5 = Fixed { raw: LOG2_C5 };
    let c4 = Fixed { raw: LOG2_C4 };
    let c3 = Fixed { raw: LOG2_C3 };
    let c2 = Fixed { raw: LOG2_C2 };
    let c1 = Fixed { raw: LOG2_C1 };
    let c0 = Fixed { raw: LOG2_C0 };
    let t4 = c4.plus(u.times(c5));
    let t3 = c3.plus(u.times(t4));
    let t2 = c2.plus(u.times(t3));
    let t1 = c1.plus(u.times(t2));
    c0.plus(u.times(t1))
}

impl Fixed {
    /// The base-two exponential `2^self`, as [`sp_exp2`] specifies.
    pub fn exp2(self) -> (r: Fixed)
        ensures
            r == sp_exp2(self),
    {
        let nf = floor_units(self);
        let p = poly_pow2(nf.1);
        scale_pow2(p, nf.0)
    }
}

impl Real for Fixed {
    open spec fn sp_zero() -> Fixed {
        Fixed { raw: 0 }
    }

    open spec fn sp_one() -> Fixed {
        Fixed { raw: FIXED_ONE }
    }

    open spec fn sp_from_uint(x: u32) -> Fixed {
        fx(x as int * FIXED_ONE as int)
    }

    open spec fn sp_add(self, rhs: Fixed) -> Fixed {
        fx(self.raw as int + rhs.raw as int)
    }

    open spec fn sp_sub(self, rhs: Fixed) -> Fixed {
        fx(self.raw as int - rhs.raw as int)
    }

    open spec fn sp_mul(self, rhs: Fixed) -> Fixed {
        fx(tdiv(self.raw as int * rhs.raw as int, FIXED_ONE as int))
    }

    open spec fn sp_div(self, rhs: Fixed) -> Fixed {
        Fixed { raw: raw_div(self.raw as int, rhs.raw as int) as i64 }
    }

    open spec fn sp_neg(self) -> Fixed {
        fx(-(self.raw as int))
    }

    open spec fn sp_abs(self) -> Fixed {
        fx(abs(self.raw as int) as int)
    }

    open spec fn sp_exp(self) -> Fixed {
        sp_exp2(self.sp_mul(Fixed { raw: LOG2_E_RAW }))
    }

    open spec fn sp_log2(self) -> Fixed {
        sp_log2(self)
    }

    open spec fn sp_lt(self, rhs: Fixed) -> bool {
        self.raw < rhs.raw
    }

    fn zero() -> (r: Fixed) {
        Fixed { raw: 0 }
    }

    fn one() -> (r: Fixed) {
        Fixed { raw: FIXED_ONE }
    }

    fn from_uint(x: u32) -> (r: Fixed) {
        proof {
            assert(0 <= (x as int) * (FIXED_ONE as int) <= 0xFFFF_FFFFi128 as int * (
            FIXED_ONE as int)) by (nonlinear_arith)
                requires
                    0 <= x as int <= 0xFFFF_FFFFi128 as int,
            ;
        }
        let m: u128 = (x as u128) * (FIXED_ONE as u128);
        Fixed { raw: signed_clamp(false, m) }
    }

    fn plus(self, rhs: Fixed) -> (r: Fixed) {
        let s: i128 = (self.raw as i128) + (rhs.raw as i128);
        Fixed { raw: clamp_i128(s) }
    }

    fn minus(self, rhs: Fixed) -> (r: Fixed) {
        let s: i128 = (self.raw as i128) - (rhs.raw as i128);
        Fixed { raw: clamp_i128(s) }
    }

    fn times(self, rhs: Fixed) -> (r: Fixed) {
        let neg: bool = (self.raw < 0) != (rhs.raw < 0);
        let ua: u64 = mag_of(self.raw);
        let ub: u64 = mag_of(rhs.raw);
        proof {
            lemma_mag_product(self.raw as int, rhs.raw as int);
            assert((ua as int) * (ub as int) <= 0x8000_0000_0000_0000i128 as int
                * 0x8000_0000_0000_0000i128 as int) by (nonlinear_arith)
                requires
                    0 <= ua as int <= 0x8000_0000_0000_0000i128 as int,
                    0 <= ub as int <= 0x8000_0000_0000_0000i128 as int,
            ;
            assert((ua as int) * (ub as int) >= 0) by (nonlinear_arith)
                requires
                    0 <= ua as int,
                    0 <= ub as int,
            ;
        }
        let m: u128 = ((ua as u128) * (ub as u128)) / (FIXED_ONE as u128);
        Fixed { raw: signed_clamp(neg, m) }
    }

    fn div(self, rhs: Fixed) -> (r: Fixed) {
        if rhs.raw == 0 {
            if self.raw == 0 {
                Fixed { raw: 0 }
            } else if self.raw > 0 {
                Fixed { raw: i64::MAX }
            } else {
                Fixed { raw: i64::MIN }
            }
        } else {
            let neg: bool = (self.raw < 0) != (rhs.raw < 0);
            let ua: u64 = mag_of(self.raw);
            let ub: u64 = mag_of(rhs.raw);
            proof {
                assert((ua as int) * (FIXED_ONE as int) <= 0x8000_0000_0000_0000i128 as int
                    * (FIXED_ONE as int)) by (nonlinear_arith)
                    requires
                        0 <= ua as int <= 0x8000_0000_0000_0000i128 as int,
                ;
                assert((ua as int) * (FIXED_ONE as int) >= 0) by (nonlinear_arith)
                    requires
                        0 <= ua as int,
                ;
            }
            let m: u128 = ((ua as u128) * (FIXED_ONE as u128)) / (ub as u128);
            Fixed { raw: signed_clamp(neg, m) }
        }
    }

    fn neg(self) -> (r: Fixed) {
        let s: i128 = -(self.raw as i128);
        Fixed { raw: clamp_i128(s) }
    }

    fn abs(self) -> (r: Fixed) {
        if self.raw >= 0 {
            self
        } else {
            let s: i128 = -(self.raw as i128);
            Fixed { raw: clamp_i128(s) }
        }
    }

    fn exp(self) -> (r: Fixed) {
        self.times(Fixed { raw: LOG2_E_RAW }).exp2()
    }

    fn log2(self) -> (r: Fixed) {
        if self.raw <= 0 {
            return Fixed { raw: i64::MIN };
        }
        let mut m: u64 = self.raw as u64;
        let mut k: i64 = 0;
        let two_one: u64 = 2 * (FIXED_ONE as u64);
        proof {
            lemma2_to64();
            lemma2_to64_rest();
            assert(m as int * pow2(0) as int == m as int) by (nonlinear_arith)
                requires
                    pow2(0) as int == 1,
            ;
        }
        while m >= two_one
            invariant
                two_one == 2 * (FIXED_ONE as u64),
                1 <= m as int,
                0 <= k <= 31,
                norm_down(self.raw as int).0 == norm_down(m as int).0,
                norm_down(self.raw as int).1 == norm_down(m as int).1 + k,
                m as int * pow2(k as nat) as int <= 2 * (self.raw as int),
                self.raw > 0,
            decreases m,
        {
            proof {
                lemma2_to64();
                lemma2_to64_rest();
                vstd::arithmetic::power2::lemma_pow2_pos(k as nat);
                // while the mantissa is still large, k stays small:
                // 2^(k + 33) <= m * 2^k <= 2 * raw < 2^64
                lemma_mul_inequality(two_one as int, m as int, pow2(k as nat) as int);
                vstd::arithmetic::power2::lemma_pow2_adds(k as nat, 33);
                if k + 33 >= 64 {
                    if k + 33 > 64 {
                        lemma_pow2_strictly_increases(64, (k + 33) as nat);
                    }
                    assert(false);
                }
                // halving keeps the budget: (m / 2) * 2 <= m
                lemma_fundamental_div_mod(m as int, 2);
                lemma_pow2_unfold((k + 1) as nat);
                assert((m as int / 2) * pow2((k + 1) as nat) as int <= m as int * pow2(
                    k as nat,
                ) as int) by (nonlinear_arith)
                    requires
                        (m as int / 2) * 2 <= m as int,
                        pow2((k + 1) as nat) as int == 2 * pow2(k as nat) as int,
                        pow2(k as nat) as int > 0,
                ;
            }
            m = m / 2;
            k = k + 1;
        }
        let ghost m1 = m;
        let ghost k1 = k;
        proof {
            lemma2_to64();
            assert(m1 as int * pow2(0) as int == m1 as int) by (nonlinear_arith)
                requires
                    pow2(0) as int == 1,
            ;
        }
        while m < FIXED_ONE as u64
            invariant
                1 <= m as int,
                m as int <= 2 * (FIXED_ONE as int),
                0 <= k1,
                k <= k1 <= 31,
                k1 - 33 <= k,
                norm_up(m1 as int).0 == norm_up(m as int).0,
                norm_up(m1 as int).1 == norm_up(m as int).1 + (k1 - k),
                m as int == m1 as int * pow2((k1 - k) as nat) as int,
                1 <= m1 as int,
            decreases 2 * (FIXED_ONE as int) - m as int,
        {
            proof {
                lemma2_to64();
                lemma2_to64_rest();
                vstd::arithmetic::power2::lemma_pow2_pos((k1 - k) as nat);
                // doubling is exact and bounds the number of steps
                lemma_pow2_unfold((k1 - k + 1) as nat);
                assert(2 * (m as int) == m1 as int * pow2((k1 - k + 1) as nat) as int)
                    by (nonlinear_arith)
                    requires
                        m as int == m1 as int * pow2((k1 - k) as nat) as int,
                        pow2((k1 - k + 1) as nat) as int == 2 * pow2((k1 - k) as nat) as int,
                ;
                assert(pow2((k1 - k) as nat) as int <= m as int) by (nonlinear_arith)
                    requires
                        m as int == m1 as int * pow2((k1 - k) as nat) as int,
                        1 <= m1 as int,
                        pow2((k1 - k) as nat) as int > 0,
                ;
                if k1 - k >= 33 {
                    if k1 - k > 33 {
                        lemma_pow2_strictly_increases(33, (k1 - k) as nat);
                    }
                    assert(pow2((k1 - k) as nat) as int >= pow2(33) as int);
                    assert(false);
                }
            }
            m = m * 2;
            k = k - 1;
        }
        let t = Fixed { raw: (m - FIXED_ONE as u64) as i64 };
        let base = Fixed::from_int_units(k);
        base.plus(poly_log2(t))
    }

    fn lt(self, rhs: Fixed) -> (r: bool) {
        self.raw < rhs.raw
    }
}

impl crate::num::AsPrimitive<i64> for Fixed {
    /// The integer part, truncated toward zero — the counterpart of a
    /// float-to-integer cast.
    open spec fn sp_as(self) -> i64 {
        tdiv(self.raw as int, FIXED_ONE as int) as i64
    }

    fn as_(self) -> (r: i64) {
        if self.raw >= 0 {
            ((self.raw as u64) / (FIXED_ONE as u64)) as i64
        } else {
            let mag: u64 = mag_of(self.raw);
            let q: u64 = mag / (FIXED_ONE as u64);
            proof {
                lemma_div_is_ordered(mag as int, 0x8000_0000_0000_0000i128 as int, FIXED_ONE as int);
                lemma_div_is_ordered(0, mag as int, FIXED_ONE as int);
            }
            -(q as i64)
        }
    }
}

impl crate::num::AsPrimitive<Fixed> for u32 {
    /// The scalar standing for this integer.
    open spec fn sp_as(self) -> Fixed {
        Fixed::sp_from_uint(self)
    }

    fn as_(self) -> (r: Fixed) {
        Fixed::from_uint(self)
    }
}

/// The product of two integers splits into the product of their magnitudes
/// with the expected sign.
proof fn lemma_mag_product(a: int, b: int)
    ensures
        a * b == if (a < 0) != (b < 0) {
            -(abs(a) as int * abs(b) as int)
        } else {
            abs(a) as int * abs(b) as int
        },
{
    assert(a * b == if (a < 0) != (b < 0) {
        -(abs(a) as int * abs(b) as int)
    } else {
        abs(a) as int * abs(b) as int
    }) by (nonlinear_arith);
}

} // verus!
