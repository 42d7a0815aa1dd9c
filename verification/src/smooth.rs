//! One-pole exponential smoothing over a fixed-size block buffer.
//!
//! [`Smooth`] ramps a value toward a target with the recurrence
//! `output[i] = input * a + output[i - 1] * b`, filling a buffer of
//! [`MAX_BLOCKSIZE`] per-sample values each processing call. The
//! coefficients come from a time constant via [`Smooth::set_speed_ms`], and
//! a small hysteresis ([`SmoothStatus`]) collapses the ramp exactly onto the
//! target once it is close enough, so no residual drift is left behind.

use vstd::prelude::*;

verus! {

use crate::MAX_BLOCKSIZE;
use crate::num::Real;
use vstd::math::min;

/// Lifecycle of a smoothing filter: `Active` while a ramp is in flight,
/// `Deactivating` for one settling block after the ramp collapses onto its
/// target, then `Inactive`.
#[derive(Debug, Clone, Copy, PartialEq, Eq, Structural)]
pub enum SmoothStatus {
    Inactive,
    Active,
    Deactivating,
}

impl SmoothStatus {
    /// True unless the filter has fully settled.
    pub fn is_active(&self) -> (r: bool)
        ensures
            r <==> (*self != SmoothStatus::Inactive),
    {
        *self != SmoothStatus::Inactive
    }
}

/// Mathematical image of a [`Smooth`] filter: the per-sample buffer as a
/// sequence together with the filter's scalar state.
pub struct SmoothView<T> {
    pub output: Seq<T>,
    pub input: T,
    pub status: SmoothStatus,
    pub a: T,
    pub b: T,
    pub last_output: T,
}

/// Sample `i` of the ramp that a filter with coefficients `a`, `b` produces
/// from carry-over value `prev` toward target `input`.
pub open spec fn sv_ramp<T: Real>(input: T, a: T, b: T, prev: T, i: int) -> T
    decreases i,
{
    if i <= 0 {
        input.sp_mul(a).sp_add(prev.sp_mul(b))
    } else {
        input.sp_mul(a).sp_add(sv_ramp(input, a, b, prev, i - 1).sp_mul(b))
    }
}

impl<T: Real> SmoothView<T> {
    /// The buffer always holds exactly [`MAX_BLOCKSIZE`] samples.
    pub open spec fn wf(self) -> bool {
        self.output.len() == MAX_BLOCKSIZE
    }

    /// The settled filter holding `v` everywhere, with neutral coefficients.
    pub open spec fn constant(v: T) -> SmoothView<T> {
        SmoothView {
            output: Seq::new(MAX_BLOCKSIZE as nat, |i: int| v),
            input: v,
            status: SmoothStatus::Inactive,
            a: T::sp_one(),
            b: T::sp_zero(),
            last_output: v,
        }
    }

    /// Hard reset onto `v`: every trace of the ramp is replaced by `v`,
    /// only the speed coefficients survive.
    pub open spec fn resetted(self, v: T) -> SmoothView<T> {
        SmoothView { a: self.a, b: self.b, ..SmoothView::constant(v) }
    }

    /// A new target is armed; nothing is produced yet.
    pub open spec fn armed(self, v: T) -> SmoothView<T> {
        SmoothView { input: v, status: SmoothStatus::Active, ..self }
    }

    /// True when the ramp's most recent first sample is within `eps` of the
    /// target.
    pub open spec fn settles(self, eps: T) -> bool {
        self.input.sp_sub(self.output[0]).sp_abs().sp_lt(eps)
    }

    /// One status update: an active filter close enough to its target
    /// collapses exactly onto it and starts deactivating; a deactivating
    /// filter retires.
    pub open spec fn updated(self, eps: T) -> SmoothView<T> {
        match self.status {
            SmoothStatus::Active => if self.settles(eps) {
                SmoothView { status: SmoothStatus::Deactivating, ..self.resetted(self.input) }
            } else {
                self
            },
            SmoothStatus::Deactivating => SmoothView { status: SmoothStatus::Inactive, ..self },
            SmoothStatus::Inactive => self,
        }
    }

    /// One processing call over `nframes` samples (clamped to the buffer
    /// size): an active filter writes the ramp into the first `n` samples
    /// and carries the last of them over; any other filter is untouched.
    pub open spec fn processed(self, nframes: int) -> SmoothView<T> {
        if self.status != SmoothStatus::Active {
            self
        } else {
            let n = min(nframes, MAX_BLOCKSIZE as int);
            let out = Seq::new(
                MAX_BLOCKSIZE as nat,
                |i: int|
                    if i < n {
                        sv_ramp(self.input, self.a, self.b, self.last_output, i)
                    } else {
                        self.output[i]
                    },
            );
            SmoothView { output: out, last_output: out[n - 1], ..self }
        }
    }

    /// New coefficients from a sample rate and a time constant in
    /// milliseconds: `b = exp(-1 / (ms * (sample_rate / 1000)))`, `a = 1 - b`.
    pub open spec fn with_speed(self, sample_rate: T, ms: T) -> SmoothView<T> {
        let bb = T::sp_one().sp_neg().sp_div(
            ms.sp_mul(sample_rate.sp_div(T::sp_from_uint(1000))),
        ).sp_exp();
        SmoothView { b: bb, a: T::sp_one().sp_sub(bb), ..self }
    }
}

/// A borrowed per-block view of a filter's output: the sample values
/// produced by the latest processing call, plus the filter's status so a
/// caller can cheaply test whether smoothing is still in progress.
pub struct SmoothOutput<'a, T> {
    pub values: &'a [T],
    pub status: SmoothStatus,
}

impl<'a, T> SmoothOutput<'a, T> {
    /// True unless the originating filter has fully settled.
    pub fn is_smoothing(&self) -> (r: bool)
        ensures
            r <==> (self.status != SmoothStatus::Inactive),
    {
        self.status.is_active()
    }
}

/// Relies on `core::slice::from_ref`: a slice of length one containing the
/// referenced value, without copying it.
#[verifier::external_body]
fn singleton_slice<'a, T>(v: &'a T) -> (r: &'a [T])
    ensures
        r@ == seq![*v],
{
    core::slice::from_ref(v)
}

/// A one-pole smoothing filter over the scalar `T`, with a fixed-capacity
/// per-sample output buffer.
pub struct Smooth<T: Real> {
    output: Vec<T>,
    input: T,
    status: SmoothStatus,
    a: T,
    b: T,
    last_output: T,
}

impl<T: Real> View for Smooth<T> {
    type V = SmoothView<T>;

    closed spec fn view(&self) -> SmoothView<T> {
        SmoothView {
            output: self.output@,
            input: self.input,
            status: self.status,
            a: self.a,
            b: self.b,
            last_output: self.last_output,
        }
    }
}

impl<T: Real> Smooth<T> {
    /// A settled filter whose every output sample is `input`.
    pub fn new(input: T) -> (r: Smooth<T>)
        ensures
            r@ == SmoothView::constant(input),
            r@.wf(),
    {
        let mut output: Vec<T> = Vec::new();
        let mut i: usize = 0;
        while i < MAX_BLOCKSIZE
            invariant
                i == output.len() <= MAX_BLOCKSIZE,
                forall|j: int| 0 <= j < i ==> output@[j] == input,
            decreases MAX_BLOCKSIZE - i,
        {
            output.push(input);
            i = i + 1;
        }
        let r = Smooth {
            output,
            input,
            status: SmoothStatus::Inactive,
            a: T::one(),
            b: T::zero(),
            last_output: input,
        };
        proof {
            assert(r@.output =~= SmoothView::constant(input).output);
        }
        r
    }

    /// Hard reset onto `val`, keeping only the speed coefficients; used both
    /// at initialization and to quantize a settled ramp to its target.
    pub fn reset(&mut self, val: T)
        requires
            old(self)@.wf(),
        ensures
            final(self)@ == old(self)@.resetted(val),
    {
        let mut i: usize = 0;
        while i < MAX_BLOCKSIZE
            invariant
                old(self)@.wf(),
                i <= MAX_BLOCKSIZE,
                self.output.len() == MAX_BLOCKSIZE,
                forall|j: int| 0 <= j < i ==> self.output@[j] == val,
                self.input == old(self).input,
                self.status == old(self).status,
                self.a == old(self).a,
                self.b == old(self).b,
                self.last_output == old(self).last_output,
            decreases MAX_BLOCKSIZE - i,
        {
            self.output.set(i, val);
            i = i + 1;
        }
        self.input = val;
        self.status = SmoothStatus::Inactive;
        self.last_output = val;
        proof {
            assert(self@.output =~= old(self)@.resetted(val).output);
        }
    }

    /// Arms a new target value; samples are produced by later processing
    /// calls, not by this one.
    pub fn set(&mut self, val: T)
        ensures
            final(self)@ == old(self)@.armed(val),
    {
        self.input = val;
        self.status = SmoothStatus::Active;
    }

    /// The destination the ramp is heading to.
    pub fn dest(&self) -> (r: T)
        ensures
            r == self@.input,
    {
        self.input
    }

    /// The whole per-sample buffer of the latest processing call.
    pub fn output(&self) -> (r: SmoothOutput<T>)
        ensures
            r.values@ == self@.output,
            r.status == self@.status,
    {
        SmoothOutput { values: self.output.as_slice(), status: self.status }
    }

    /// The single carry-over value, for control-rate readers.
    pub fn current_value(&self) -> (r: SmoothOutput<T>)
        ensures
            r.values@ == seq![self@.last_output],
            r.status == self@.status,
    {
        SmoothOutput { values: singleton_slice(&self.last_output), status: self.status }
    }

    /// One status update with the default settling threshold `1 / 100000`.
    pub fn update_status(&mut self) -> (r: SmoothStatus)
        requires
            old(self)@.wf(),
        ensures
            final(self)@ == old(self)@.updated(
                T::sp_one().sp_div(T::sp_from_uint(100000)),
            ),
            r == final(self)@.status,
    {
        let eps = T::one().div(T::from_uint(100000));
        self.update_status_with_epsilon(eps)
    }

    /// One status update: while `Active`, a ramp within `epsilon` of its
    /// target collapses exactly onto the target and begins deactivating;
    /// `Deactivating` retires to `Inactive` one call later.
    pub fn update_status_with_epsilon(&mut self, epsilon: T) -> (r: SmoothStatus)
        requires
            old(self)@.wf(),
        ensures
            final(self)@ == old(self)@.updated(epsilon),
            r == final(self)@.status,
    {
        let st = self.status;
        match st {
            SmoothStatus::Active => {
                let d = self.input.minus(self.output[0]).abs();
                if d.lt(epsilon) {
                    let inp = self.input;
                    self.reset(inp);
                    self.status = SmoothStatus::Deactivating;
                }
            },
            SmoothStatus::Deactivating => {
                self.status = SmoothStatus::Inactive;
            },
            SmoothStatus::Inactive => {},
        }
        self.status
    }

    /// Advances an active ramp by `nframes` samples (clamped to the buffer
    /// capacity), filling the output buffer with the filter recurrence and
    /// carrying the last produced sample over to the next block. A filter
    /// that is not `Active` is left untouched.
    pub fn process(&mut self, nframes: usize)
        requires
            old(self)@.wf(),
            nframes >= 1,
        ensures
            final(self)@ == old(self)@.processed(nframes as int),
    {
        let st = self.status;
        if st != SmoothStatus::Active {
            return ;
        }
        let n = if nframes < MAX_BLOCKSIZE {
            nframes
        } else {
            MAX_BLOCKSIZE
        };
        let input_a = self.input.times(self.a);
        let v0 = input_a.plus(self.last_output.times(self.b));
        self.output.set(0, v0);
        let mut i: usize = 1;
        while i < n
            invariant
                old(self)@.wf(),
                1 <= i <= n <= MAX_BLOCKSIZE,
                self.output.len() == MAX_BLOCKSIZE,
                input_a == old(self).input.sp_mul(old(self).a),
                forall|j: int|
                    0 <= j < i ==> self.output@[j] == sv_ramp(
                        old(self).input,
                        old(self).a,
                        old(self).b,
                        old(self).last_output,
                        j,
                    ),
                forall|j: int| i <= j < MAX_BLOCKSIZE ==> self.output@[j] == old(self).output@[j],
                self.input == old(self).input,
                self.status == old(self).status,
                self.a == old(self).a,
                self.b == old(self).b,
                self.last_output == old(self).last_output,
            decreases n - i,
        {
            let prev = self.output[i - 1];
            let v = input_a.plus(prev.times(self.b));
            self.output.set(i, v);
            i = i + 1;
        }
        self.last_output = self.output[n - 1];
        proof {
            assert(self@.output =~= old(self)@.processed(nframes as int).output);
        }
    }

    /// True unless the filter has fully settled.
    pub fn is_active(&self) -> (r: bool)
        ensures
            r <==> (self@.status != SmoothStatus::Inactive),
    {
        self.status.is_active()
    }

    /// Derives the filter coefficients from a sample rate and a smoothing
    /// time constant in milliseconds (time to cover about 63% of a step).
    pub fn set_speed_ms(&mut self, sample_rate: T, ms: T)
        ensures
            final(self)@ == old(self)@.with_speed(sample_rate, ms),
    {
        let bb = T::one().neg().div(ms.times(sample_rate.div(T::from_uint(1000)))).exp();
        self.b = bb;
        self.a = T::one().minus(bb);
    }
}

/// Once an active ramp is within `eps` of its target, one status update
/// collapses the whole buffer exactly onto the target value and a second
/// update retires the filter: the settled output is the target, exactly.
pub proof fn lemma_settle_exact<T: Real>(v: SmoothView<T>, eps: T)
    requires
        v.wf(),
        v.status == SmoothStatus::Active,
        v.settles(eps),
    ensures
        v.updated(eps).status == SmoothStatus::Deactivating,
        v.updated(eps).updated(eps).status == SmoothStatus::Inactive,
        forall|i: int|
            0 <= i < MAX_BLOCKSIZE ==> v.updated(eps).updated(eps).output[i] == v.input,
        v.updated(eps).updated(eps).last_output == v.input,
        v.updated(eps).updated(eps).input == v.input,
{
}

} // verus!
