//! Crossfading for discrete values.
//!
//! A [`Declick`] switches between values that cannot be interpolated (an
//! enum choice, an integer selector) by fading a mix ratio from 0 to 1 with
//! a [`Smooth`] envelope. At most one crossfade is in flight; a further
//! change while fading is staged and begins automatically when the running
//! fade completes, so no intermediate value is ever skipped and no
//! unbounded queue can build up.

use vstd::prelude::*;

verus! {

use crate::fixed::Fixed;
use crate::num::{Discrete, Real};
use crate::smooth::{Smooth, SmoothOutput, SmoothStatus, SmoothView};

/// Mathematical image of a [`Declick`]: the settled value, the in-flight
/// and staged targets, and the fade envelope's image.
pub struct DeclickView<T> {
    pub current: T,
    pub next: Option<T>,
    pub staged: Option<T>,
    pub fade: SmoothView<Fixed>,
}

/// The fade envelope's settling threshold: a mix ratio within `1/1000` of
/// its target counts as arrived. Deliberately coarser than the numeric
/// smoothing default, since it governs a `[0, 1]` mix ratio rather than a
/// signal level.
pub open spec fn fade_epsilon() -> Fixed {
    Fixed::sp_one().sp_div(Fixed::sp_from_uint(1000))
}

impl<T> DeclickView<T> {
    /// The fade buffer always holds its full capacity.
    pub open spec fn wf(self) -> bool {
        self.fade.wf()
    }

    /// The most future value: what the declick will eventually settle on.
    pub open spec fn spec_dest(self) -> T {
        if self.staged is Some {
            self.staged.unwrap()
        } else if self.next is Some {
            self.next.unwrap()
        } else {
            self.current
        }
    }

    /// The fresh view settled on `v`.
    pub open spec fn settled(v: T) -> DeclickView<T> {
        DeclickView {
            current: v,
            next: None,
            staged: None,
            fade: SmoothView::constant(Fixed::sp_zero()),
        }
    }

    /// Hard reset onto `to`: both pending targets are dropped and the fade
    /// envelope collapses to zero (its speed is kept).
    pub open spec fn spec_reset(self, to: T) -> DeclickView<T> {
        DeclickView {
            current: to,
            next: None,
            staged: None,
            fade: self.fade.resetted(Fixed::sp_zero()),
        }
    }

    /// Requesting `to`: a request for the present destination changes
    /// nothing; otherwise it either starts a fade (none in flight) or
    /// replaces the staged target (one in flight).
    pub open spec fn spec_set(self, to: T) -> DeclickView<T> {
        if to == self.spec_dest() {
            self
        } else if self.next is None {
            DeclickView {
                next: Some(to),
                fade: self.fade.resetted(Fixed::sp_zero()).armed(Fixed::sp_one()),
                ..self
            }
        } else {
            DeclickView { staged: Some(to), ..self }
        }
    }

    /// One completion check: with a fade in flight, the envelope's status
    /// is updated; if that retires it, the in-flight target becomes
    /// current, the staged target (if any) moves up, and a promoted staged
    /// target immediately starts its own crossfade — the envelope restarts
    /// from 0 toward 1, so no value ever takes effect without a ramp.
    pub open spec fn spec_update(self) -> DeclickView<T> {
        if self.next is None {
            self
        } else {
            let f1 = self.fade.updated(fade_epsilon());
            if f1.status != SmoothStatus::Inactive {
                DeclickView { fade: f1, ..self }
            } else if self.staged is Some {
                DeclickView {
                    current: self.next.unwrap(),
                    next: self.staged,
                    staged: None,
                    fade: f1.resetted(Fixed::sp_zero()).armed(Fixed::sp_one()),
                }
            } else {
                DeclickView { current: self.next.unwrap(), next: None, staged: None, fade: f1 }
            }
        }
    }

    /// One processing call: completion is detected first, then the fade
    /// envelope advances by `nframes` samples.
    pub open spec fn spec_process(self, nframes: int) -> DeclickView<T> {
        let u = self.spec_update();
        DeclickView { fade: u.fade.processed(nframes), ..u }
    }
}

/// A borrowed view of a crossfade in progress: the value faded from, the
/// value faded to, and the per-sample mix ratio with its status.
pub struct DeclickOutput<'a, T> {
    pub from: &'a T,
    pub to: &'a T,
    pub fade: &'a [Fixed],
    pub status: SmoothStatus,
}

/// A crossfade stage for a discrete value of type `T`.
pub struct Declick<T: Discrete> {
    current: T,
    next: Option<T>,
    staged: Option<T>,
    fade: Smooth<Fixed>,
}

impl<T: Discrete> View for Declick<T> {
    type V = DeclickView<T>;

    closed spec fn view(&self) -> DeclickView<T> {
        DeclickView { current: self.current, next: self.next, staged: self.staged, fade: self.fade@ }
    }
}

impl<T: Discrete> Declick<T> {
    /// A declick settled on `initial`, with no fade in flight.
    pub fn new(initial: T) -> (r: Declick<T>)
        ensures
            r@ == DeclickView::settled(initial),
            r@.wf(),
    {
        Declick { current: initial, next: None, staged: None, fade: Smooth::new(Fixed::zero()) }
    }

    /// Hard reset onto `to`: pending targets are dropped, the fade
    /// collapses to zero.
    pub fn reset(&mut self, to: T)
        requires
            old(self)@.wf(),
        ensures
            final(self)@ == old(self)@.spec_reset(to),
    {
        self.current = to;
        self.next = None;
        self.staged = None;
        self.fade.reset(Fixed::zero());
    }

    /// Requests a change to `to`. Asking for the present destination is a
    /// no-op; otherwise the change starts fading at once or is staged
    /// behind the fade already in flight.
    pub fn set(&mut self, to: T)
        requires
            old(self)@.wf(),
        ensures
            final(self)@ == old(self)@.spec_set(to),
    {
        if self.dest().eq_value(&to) {
            return ;
        }
        if self.next.is_none() {
            self.next = Some(to);
            self.fade.reset(Fixed::zero());
            self.fade.set(Fixed::one());
        } else {
            self.staged = Some(to);
        }
    }

    /// Derives the fade envelope's speed from a sample rate and a time
    /// constant in milliseconds.
    pub fn set_speed_ms(&mut self, sample_rate: Fixed, ms: Fixed)
        ensures
            final(self)@ == (DeclickView {
                fade: old(self)@.fade.with_speed(sample_rate, ms),
                ..old(self)@
            }),
    {
        self.fade.set_speed_ms(sample_rate, ms);
    }

    /// The block-rate view of the crossfade: source value, target value and
    /// the fade buffer written by the latest processing call.
    pub fn output(&self) -> (r: DeclickOutput<T>)
        ensures
            *r.from == self@.current,
            *r.to == (if self@.next is Some {
                self@.next.unwrap()
            } else {
                self@.current
            }),
            r.fade@ == self@.fade.output,
            r.status == self@.fade.status,
    {
        let fade = self.fade.output();
        DeclickOutput {
            from: &self.current,
            to: match &self.next {
                Some(v) => v,
                None => &self.current,
            },
            fade: fade.values,
            status: fade.status,
        }
    }

    /// The control-rate view: same values, but only the fade's carry-over
    /// sample.
    pub fn current_value(&self) -> (r: DeclickOutput<T>)
        ensures
            *r.from == self@.current,
            *r.to == (if self@.next is Some {
                self@.next.unwrap()
            } else {
                self@.current
            }),
            r.fade@ == seq![self@.fade.last_output],
            r.status == self@.fade.status,
    {
        let fade = self.fade.current_value();
        DeclickOutput {
            from: &self.current,
            to: match &self.next {
                Some(v) => v,
                None => &self.current,
            },
            fade: fade.values,
            status: fade.status,
        }
    }

    /// The most future value: staged if present, else in-flight, else
    /// current.
    pub fn dest(&self) -> (r: &T)
        ensures
            *r == self@.spec_dest(),
    {
        match &self.staged {
            Some(v) => v,
            None => match &self.next {
                Some(v) => v,
                None => &self.current,
            },
        }
    }

    /// True while a crossfade is in flight.
    pub fn is_active(&self) -> (r: bool)
        ensures
            r <==> (self@.next is Some),
    {
        self.next.is_some()
    }

    /// One processing call: completion is detected before any samples are
    /// generated, so a staged value can begin fading within the same block.
    pub fn process(&mut self, nframes: usize)
        requires
            old(self)@.wf(),
            nframes >= 1,
        ensures
            final(self)@ == old(self)@.spec_process(nframes as int),
    {
        self.update_status();
        self.fade.process(nframes);
    }

    /// Detects fade completion: when the envelope retires, the in-flight
    /// value becomes current and the staged value (if any) moves up and
    /// begins its own crossfade at once.
    pub fn update_status(&mut self)
        requires
            old(self)@.wf(),
        ensures
            final(self)@ == old(self)@.spec_update(),
    {
        if self.next.is_none() {
            return ;
        }
        let eps = Fixed::one().div(Fixed::from_uint(1000));
        self.fade.update_status_with_epsilon(eps);
        if self.fade.is_active() {
            return ;
        }
        self.current = self.next.take().unwrap();
        self.next = self.staged.take();
        if self.next.is_some() {
            self.fade.reset(Fixed::zero());
            self.fade.set(Fixed::one());
        }
    }
}

/// Two changes requested while the first is still fading never skip the
/// intermediate value: the second is staged, the running fade completes to
/// the first target, and only then does the staged one move up — and it
/// begins its own crossfade at once, with the envelope restarted from 0
/// toward 1.
pub proof fn lemma_staged_promotion<T>(d: DeclickView<T>, a: T, b: T)
    requires
        d.wf(),
        d.next is None,
        d.staged is None,
        a != d.current,
        b != a,
    ensures
        ({
            let d1 = d.spec_set(a);
            let d2 = d1.spec_set(b);
            &&& d1.current == d.current && d1.next == Some(a) && d1.staged is None
            &&& d2.current == d.current && d2.next == Some(a) && d2.staged == Some(b)
            &&& (d2.fade.updated(fade_epsilon()).status == SmoothStatus::Inactive ==> {
                let d3 = d2.spec_update();
                &&& d3.current == a
                &&& d3.next == Some(b)
                &&& d3.staged is None
                &&& d3.fade.status == SmoothStatus::Active
                &&& d3.fade.input == Fixed::sp_one()
                &&& d3.fade.last_output == Fixed::sp_zero()
                &&& forall|i: int|
                    0 <= i < d3.fade.output.len() ==> d3.fade.output[i] == Fixed::sp_zero()
            })
        }),
{
}

} // verus!
