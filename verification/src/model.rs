//! The smoothed counterpart of a plugin's parameter model.
//!
//! A plugin's canonical model is a list of plain values, one per parameter
//! or internal field. [`SmoothedModel`] mirrors that list slot by slot:
//! continuous slots become [`Smooth`] filters, discrete slots become
//! [`Declick`] crossfades, and untagged slots pass through unchanged. The
//! table is built once by ordinary code (no code generation) and the
//! wrapper owns and drives it.

use vstd::prelude::*;

verus! {

use crate::declick::{Declick, DeclickOutput, DeclickView};
use crate::fixed::Fixed;
use crate::smooth::{Smooth, SmoothOutput, SmoothView};

/// A plain snapshot of one slot: a continuous number or a discrete choice.
#[derive(Debug, Clone, Copy, PartialEq, Eq, Structural)]
pub enum SlotValue {
    Num(Fixed),
    Disc(u32),
}

/// One slot of the smoothed model.
pub enum Slot {
    Smoothed { smooth: Smooth<Fixed>, ms: Fixed },
    Declicked { declick: Declick<u32>, ms: Fixed },
    Raw { value: Fixed },
}

/// Mathematical image of a [`Slot`].
pub enum SlotView {
    Smoothed { smooth: SmoothView<Fixed>, ms: Fixed },
    Declicked { declick: DeclickView<u32>, ms: Fixed },
    Raw { value: Fixed },
}

impl View for Slot {
    type V = SlotView;

    closed spec fn view(&self) -> SlotView {
        match self {
            Slot::Smoothed { smooth, ms } => SlotView::Smoothed { smooth: smooth@, ms: *ms },
            Slot::Declicked { declick, ms } => SlotView::Declicked { declick: declick@, ms: *ms },
            Slot::Raw { value } => SlotView::Raw { value: *value },
        }
    }
}

/// A slot's buffers hold their full capacity.
pub open spec fn slot_wf(s: SlotView) -> bool {
    match s {
        SlotView::Smoothed { smooth, .. } => smooth.wf(),
        SlotView::Declicked { declick, .. } => declick.wf(),
        SlotView::Raw { .. } => true,
    }
}

/// The plain value a slot is heading to: the filter target, the declick
/// destination, or the raw value itself.
pub open spec fn slot_value(s: SlotView) -> SlotValue {
    match s {
        SlotView::Smoothed { smooth, .. } => SlotValue::Num(smooth.input),
        SlotView::Declicked { declick, .. } => SlotValue::Disc(declick.spec_dest()),
        SlotView::Raw { value } => SlotValue::Num(value),
    }
}

/// Whether a plain value fits a slot's kind.
pub open spec fn slot_compat(s: SlotView, v: SlotValue) -> bool {
    match s {
        SlotView::Smoothed { .. } => v is Num,
        SlotView::Declicked { .. } => v is Disc,
        SlotView::Raw { .. } => v is Num,
    }
}

/// Applying a value with smoothing: continuous slots arm a ramp, discrete
/// slots request a crossfade, raw slots change at once.
pub open spec fn slot_set(s: SlotView, v: SlotValue) -> SlotView {
    match s {
        SlotView::Smoothed { smooth, ms } => SlotView::Smoothed {
            smooth: smooth.armed(v->Num_0),
            ms,
        },
        SlotView::Declicked { declick, ms } => SlotView::Declicked {
            declick: declick.spec_set(v->Disc_0),
            ms,
        },
        SlotView::Raw { .. } => SlotView::Raw { value: v->Num_0 },
    }
}

/// Applying a value without smoothing: every trace of a ramp or fade is
/// dropped.
pub open spec fn slot_reset(s: SlotView, v: SlotValue) -> SlotView {
    match s {
        SlotView::Smoothed { smooth, ms } => SlotView::Smoothed {
            smooth: smooth.resetted(v->Num_0),
            ms,
        },
        SlotView::Declicked { declick, ms } => SlotView::Declicked {
            declick: declick.spec_reset(v->Disc_0),
            ms,
        },
        SlotView::Raw { .. } => SlotView::Raw { value: v->Num_0 },
    }
}

/// One processing call of `nframes` samples over a slot.
pub open spec fn slot_processed(s: SlotView, nframes: int) -> SlotView {
    match s {
        SlotView::Smoothed { smooth, ms } => SlotView::Smoothed {
            smooth: smooth.processed(nframes),
            ms,
        },
        SlotView::Declicked { declick, ms } => SlotView::Declicked {
            declick: declick.spec_process(nframes),
            ms,
        },
        SlotView::Raw { value } => SlotView::Raw { value },
    }
}

/// Smoothing a new value into a slot keeps its buffers well formed.
pub proof fn lemma_slot_set_wf(s: SlotView, v: SlotValue)
    requires
        slot_wf(s),
    ensures
        slot_wf(slot_set(s, v)),
{
}

/// Resetting a slot keeps its buffers well formed.
pub proof fn lemma_slot_reset_wf(s: SlotView, v: SlotValue)
    requires
        slot_wf(s),
    ensures
        slot_wf(slot_reset(s, v)),
{
}

/// Processing a slot keeps its buffers well formed.
pub proof fn lemma_slot_processed_wf(s: SlotView, nframes: int)
    requires
        slot_wf(s),
    ensures
        slot_wf(slot_processed(s, nframes)),
{
}

/// A sample-rate change keeps a slot's buffers well formed.
pub proof fn lemma_slot_with_rate_wf(s: SlotView, sample_rate: Fixed)
    requires
        slot_wf(s),
    ensures
        slot_wf(slot_with_rate(s, sample_rate)),
{
}

/// A sample-rate change re-derives each slot's filter coefficients from
/// its own smoothing time constant.
pub open spec fn slot_with_rate(s: SlotView, sample_rate: Fixed) -> SlotView {
    match s {
        SlotView::Smoothed { smooth, ms } => SlotView::Smoothed {
            smooth: smooth.with_speed(sample_rate, ms),
            ms,
        },
        SlotView::Declicked { declick, ms } => SlotView::Declicked {
            declick: DeclickView { fade: declick.fade.with_speed(sample_rate, ms), ..declick },
            ms,
        },
        SlotView::Raw { value } => SlotView::Raw { value },
    }
}

/// The smoothed model: one slot per model field, in field order.
pub struct SmoothedModel {
    slots: Vec<Slot>,
}

impl View for SmoothedModel {
    type V = Seq<SlotView>;

    closed spec fn view(&self) -> Seq<SlotView> {
        Seq::new(self.slots@.len(), |i: int| self.slots@[i]@)
    }
}

impl SmoothedModel {
    /// All slots hold well-formed buffers.
    pub open spec fn wf(self) -> bool {
        forall|i: int| 0 <= i < self@.len() ==> slot_wf(#[trigger] self@[i])
    }

    /// Whether a list of plain values matches this model slot for slot.
    pub open spec fn compat(self, vals: Seq<SlotValue>) -> bool {
        vals.len() == self@.len() && forall|i: int|
            0 <= i < self@.len() ==> slot_compat(#[trigger] self@[i], vals[i])
    }

    /// An empty model, to be filled by the `push_*` builder calls.
    pub fn new() -> (r: SmoothedModel)
        ensures
            r@.len() == 0,
            r.wf(),
    {
        SmoothedModel { slots: Vec::new() }
    }

    /// The number of slots.
    pub fn len(&self) -> (r: usize)
        ensures
            r == self@.len(),
    {
        self.slots.len()
    }

    /// Appends a smoothed continuous slot settled on `initial`, with its
    /// smoothing time constant in milliseconds.
    pub fn push_smoothed(&mut self, initial: Fixed, ms: Fixed)
        ensures
            final(self)@ == old(self)@.push(
                SlotView::Smoothed { smooth: SmoothView::constant(initial), ms },
            ),
    {
        self.slots.push(Slot::Smoothed { smooth: Smooth::new(initial), ms });
        proof {
            assert(self@ =~= old(self)@.push(
                SlotView::Smoothed { smooth: SmoothView::constant(initial), ms },
            ));
        }
    }

    /// Appends a declicked discrete slot settled on `initial`, with its
    /// fade time constant in milliseconds.
    pub fn push_declicked(&mut self, initial: u32, ms: Fixed)
        ensures
            final(self)@ == old(self)@.push(
                SlotView::Declicked { declick: DeclickView::settled(initial), ms },
            ),
    {
        self.slots.push(Slot::Declicked { declick: Declick::new(initial), ms });
        proof {
            assert(self@ =~= old(self)@.push(
                SlotView::Declicked { declick: DeclickView::settled(initial), ms },
            ));
        }
    }

    /// Appends an unsmoothed slot.
    pub fn push_raw(&mut self, initial: Fixed)
        ensures
            final(self)@ == old(self)@.push(SlotView::Raw { value: initial }),
    {
        self.slots.push(Slot::Raw { value: initial });
        proof {
            assert(self@ =~= old(self)@.push(SlotView::Raw { value: initial }));
        }
    }

    /// Snapshots the canonical model: the destination value of every slot.
    pub fn as_model(&self) -> (r: Vec<SlotValue>)
        ensures
            r@.len() == self@.len(),
            forall|i: int| 0 <= i < self@.len() ==> r@[i] == slot_value(#[trigger] self@[i]),
    {
        let mut out: Vec<SlotValue> = Vec::new();
        let mut i: usize = 0;
        while i < self.slots.len()
            invariant
                i == out.len() <= self@.len(),
                self@.len() == self.slots@.len(),
                forall|j: int| 0 <= j < i ==> out@[j] == slot_value(#[trigger] self@[j]),
            decreases self@.len() - i,
        {
            let v = match &self.slots[i] {
                Slot::Smoothed { smooth, .. } => SlotValue::Num(smooth.dest()),
                Slot::Declicked { declick, .. } => SlotValue::Disc(*declick.dest()),
                Slot::Raw { value } => SlotValue::Num(*value),
            };
            out.push(v);
            i = i + 1;
        }
        out
    }

    /// The destination value of one slot.
    pub fn get_value(&self, idx: usize) -> (r: SlotValue)
        requires
            idx < self@.len(),
        ensures
            r == slot_value(self@[idx as int]),
    {
        match &self.slots[idx] {
            Slot::Smoothed { smooth, .. } => SlotValue::Num(smooth.dest()),
            Slot::Declicked { declick, .. } => SlotValue::Disc(*declick.dest()),
            Slot::Raw { value } => SlotValue::Num(*value),
        }
    }

    /// Applies one value with smoothing: a continuous slot ramps toward it,
    /// a discrete slot crossfades to it.
    pub fn set_value(&mut self, idx: usize, v: SlotValue)
        requires
            idx < old(self)@.len(),
            slot_wf(old(self)@[idx as int]),
            slot_compat(old(self)@[idx as int], v),
        ensures
            final(self)@ == old(self)@.update(idx as int, slot_set(old(self)@[idx as int], v)),
    {
        match &mut self.slots[idx] {
            Slot::Smoothed { smooth, .. } => {
                let x = match v {
                    SlotValue::Num(x) => x,
                    SlotValue::Disc(_) => Fixed::from_raw(0),
                };
                smooth.set(x);
            },
            Slot::Declicked { declick, .. } => {
                let x = match v {
                    SlotValue::Disc(x) => x,
                    SlotValue::Num(_) => 0,
                };
                declick.set(x);
            },
            Slot::Raw { value } => {
                let x = match v {
                    SlotValue::Num(x) => x,
                    SlotValue::Disc(_) => Fixed::from_raw(0),
                };
                *value = x;
            },
        }
        proof {
            assert(self@ =~= old(self)@.update(idx as int, slot_set(old(self)@[idx as int], v)));
        }
    }

    /// Applies a whole model with smoothing, slot for slot.
    pub fn set(&mut self, from: &Vec<SlotValue>)
        requires
            old(self).wf(),
            old(self).compat(from@),
        ensures
            final(self)@.len() == old(self)@.len(),
            forall|i: int|
                0 <= i < old(self)@.len() ==> final(self)@[i] == slot_set(
                    #[trigger] old(self)@[i],
                    from@[i],
                ),
            final(self).wf(),
    {
        let mut i: usize = 0;
        while i < from.len()
            invariant
                old(self).wf(),
                old(self).compat(from@),
                i <= from@.len() == self@.len() == old(self)@.len(),
                forall|j: int|
                    0 <= j < i ==> self@[j] == slot_set(#[trigger] old(self)@[j], from@[j]),
                forall|j: int| i <= j < self@.len() ==> self@[j] == old(self)@[j],
            decreases from@.len() - i,
        {
            proof {
                assert(self@[i as int] == old(self)@[i as int]);
                assert(slot_wf(old(self)@[i as int]));
            }
            self.set_value(i, from[i]);
            i = i + 1;
        }
        proof {
            assert forall|i: int| 0 <= i < self@.len() implies slot_wf(#[trigger] self@[i]) by {
                lemma_slot_set_wf(old(self)@[i], from@[i]);
            };
        }
    }

    /// Applies a whole model without smoothing: every slot collapses onto
    /// its new value.
    pub fn reset(&mut self, from: &Vec<SlotValue>)
        requires
            old(self).wf(),
            old(self).compat(from@),
        ensures
            final(self)@.len() == old(self)@.len(),
            forall|i: int|
                0 <= i < old(self)@.len() ==> final(self)@[i] == slot_reset(
                    #[trigger] old(self)@[i],
                    from@[i],
                ),
            final(self).wf(),
    {
        let mut i: usize = 0;
        while i < from.len()
            invariant
                old(self).wf(),
                old(self).compat(from@),
                i <= from@.len() == self@.len() == old(self)@.len(),
                forall|j: int|
                    0 <= j < i ==> self@[j] == slot_reset(#[trigger] old(self)@[j], from@[j]),
                forall|j: int| i <= j < self@.len() ==> self@[j] == old(self)@[j],
            decreases from@.len() - i,
        {
            proof {
                assert(self@[i as int] == old(self)@[i as int]);
                assert(slot_wf(old(self)@[i as int]));
            }
            match &mut self.slots[i] {
                Slot::Smoothed { smooth, .. } => {
                    let x = match from[i] {
                        SlotValue::Num(x) => x,
                        SlotValue::Disc(_) => Fixed::from_raw(0),
                    };
                    smooth.reset(x);
                },
                Slot::Declicked { declick, .. } => {
                    let x = match from[i] {
                        SlotValue::Disc(x) => x,
                        SlotValue::Num(_) => 0,
                    };
                    declick.reset(x);
                },
                Slot::Raw { value } => {
                    let x = match from[i] {
                        SlotValue::Num(x) => x,
                        SlotValue::Disc(_) => Fixed::from_raw(0),
                    };
                    *value = x;
                },
            }
            i = i + 1;
        }
        proof {
            assert forall|i: int| 0 <= i < self@.len() implies slot_wf(#[trigger] self@[i]) by {
                lemma_slot_reset_wf(old(self)@[i], from@[i]);
            };
        }
    }

    /// Re-derives every slot's filter coefficients for a new sample rate.
    pub fn set_sample_rate(&mut self, sample_rate: Fixed)
        requires
            old(self).wf(),
        ensures
            final(self)@.len() == old(self)@.len(),
            forall|i: int|
                0 <= i < old(self)@.len() ==> final(self)@[i] == slot_with_rate(
                    #[trigger] old(self)@[i],
                    sample_rate,
                ),
            final(self).wf(),
    {
        let mut i: usize = 0;
        let n = self.slots.len();
        while i < n
            invariant
                old(self).wf(),
                n == self@.len() == old(self)@.len(),
                i <= n,
                forall|j: int|
                    0 <= j < i ==> self@[j] == slot_with_rate(#[trigger] old(self)@[j], sample_rate),
                forall|j: int| i <= j < self@.len() ==> self@[j] == old(self)@[j],
            decreases n - i,
        {
            proof {
                assert(self@[i as int] == old(self)@[i as int]);
                assert(slot_wf(old(self)@[i as int]));
            }
            match &mut self.slots[i] {
                Slot::Smoothed { smooth, ms } => {
                    let m = *ms;
                    smooth.set_speed_ms(sample_rate, m);
                },
                Slot::Declicked { declick, ms } => {
                    let m = *ms;
                    declick.set_speed_ms(sample_rate, m);
                },
                Slot::Raw { .. } => {},
            }
            i = i + 1;
        }
        proof {
            assert forall|i: int| 0 <= i < self@.len() implies slot_wf(#[trigger] self@[i]) by {
                lemma_slot_with_rate_wf(old(self)@[i], sample_rate);
            };
        }
    }

    /// Advances every slot's filter by `nframes` samples, producing the
    /// per-sample views the plugin reads during the subblock.
    pub fn process(&mut self, nframes: usize)
        requires
            old(self).wf(),
            nframes >= 1,
        ensures
            final(self)@.len() == old(self)@.len(),
            forall|i: int|
                0 <= i < old(self)@.len() ==> final(self)@[i] == slot_processed(
                    #[trigger] old(self)@[i],
                    nframes as int,
                ),
            final(self).wf(),
    {
        let mut i: usize = 0;
        let n = self.slots.len();
        while i < n
            invariant
                old(self).wf(),
                n == self@.len() == old(self)@.len(),
                i <= n,
                nframes >= 1,
                forall|j: int|
                    0 <= j < i ==> self@[j] == slot_processed(
                        #[trigger] old(self)@[j],
                        nframes as int,
                    ),
                forall|j: int| i <= j < self@.len() ==> self@[j] == old(self)@[j],
            decreases n - i,
        {
            proof {
                assert(self@[i as int] == old(self)@[i as int]);
                assert(slot_wf(old(self)@[i as int]));
            }
            match &mut self.slots[i] {
                Slot::Smoothed { smooth, .. } => {
                    smooth.process(nframes);
                },
                Slot::Declicked { declick, .. } => {
                    declick.process(nframes);
                },
                Slot::Raw { .. } => {},
            }
            i = i + 1;
        }
        proof {
            assert forall|i: int| 0 <= i < self@.len() implies slot_wf(#[trigger] self@[i]) by {
                lemma_slot_processed_wf(old(self)@[i], nframes as int);
            };
        }
    }

    /// The per-sample output of a smoothed slot, if `idx` names one.
    pub fn smooth_output(&self, idx: usize) -> (r: Option<SmoothOutput<Fixed>>)
        requires
            idx < self@.len(),
        ensures
            (self@[idx as int] is Smoothed) <==> r is Some,
            r is Some ==> {
                let s = self@[idx as int]->Smoothed_smooth;
                r.unwrap().values@ == s.output && r.unwrap().status == s.status
            },
    {
        match &self.slots[idx] {
            Slot::Smoothed { smooth, .. } => Some(smooth.output()),
            Slot::Declicked { .. } => None,
            Slot::Raw { .. } => None,
        }
    }

    /// The crossfade output of a declicked slot, if `idx` names one.
    pub fn declick_output(&self, idx: usize) -> (r: Option<DeclickOutput<u32>>)
        requires
            idx < self@.len(),
        ensures
            (self@[idx as int] is Declicked) <==> r is Some,
            r is Some ==> {
                let d = self@[idx as int]->Declicked_declick;
                &&& *r.unwrap().from == d.current
                &&& r.unwrap().fade@ == d.fade.output
                &&& r.unwrap().status == d.fade.status
            },
    {
        match &self.slots[idx] {
            Slot::Smoothed { .. } => None,
            Slot::Declicked { declick, .. } => Some(declick.output()),
            Slot::Raw { .. } => None,
        }
    }
}

} // verus!
