//! The plugin wrapper: parameter application, the frame-sorted event
//! queue, and the scheduler that subdivides an audio block at every event
//! boundary.
//!
//! The wrapper owns the smoothed model and the pending event queue. A
//! processing call runs as a session: [`WrappedPlugin::begin_process`]
//! opens it, and each [`WrappedPlugin::next_subblock`] dispatches every
//! event due at the current frame, advances the smoothed model by one
//! contiguous subblock, and reports the subblock bounds together with the
//! MIDI bytes and notification hooks that fell on its boundary. The caller
//! runs the plugin's own audio processing between those calls;
//! [`WrappedPlugin::process`] drives the whole session at once and returns
//! the schedule.

use vstd::prelude::*;

verus! {

use crate::event::{sorted_by_frame, Data, Event};
use crate::fixed::Fixed;
use crate::message::{MsgQueue, PlugToUIMsg, UIToPlugMsg};
use crate::model::{
    slot_processed, slot_reset, slot_set, slot_value, slot_wf, slot_with_rate, SlotValue,
    SlotView, SmoothedModel,
};
use crate::num::Real;
use crate::parameter::Param;
use crate::time::{sp_beat_step, MusicalTime};
use crate::MAX_BLOCKSIZE;
use vstd::math::min;
use vstd::bytes::{spec_u64_from_le_bytes, spec_u64_to_le_bytes, u64_from_le_bytes, u64_to_le_bytes};
use vstd::bytes::lemma_auto_spec_u64_to_from_le_bytes;
use vstd::slice::slice_subrange;

/// One contiguous run of samples processed with constant event state:
/// where it starts inside the block, how many frames it covers, the MIDI
/// events dispatched on its boundary (in queue order), and the parameters
/// whose change asked for a DSP-side notification.
pub struct Subblock {
    pub start: usize,
    pub frames: usize,
    pub midi: Vec<[u8; 3]>,
    pub dsp_notifies: Vec<usize>,
}

/// Mathematical image of the wrapper.
#[verifier::ext_equal]
pub struct WrapperView {
    pub events: Seq<Event>,
    pub output_events: Seq<Event>,
    pub params: Seq<Param>,
    pub model: Seq<SlotView>,
    pub slot_names: Seq<Seq<u8>>,
    pub sample_rate: Fixed,
    pub to_ui_items: Seq<PlugToUIMsg>,
    pub to_ui_cap: nat,
    pub ui_connected: bool,
    pub dropped_to_ui: nat,
    pub musical_time: MusicalTime,
    pub proc_start: nat,
    pub proc_total: nat,
    pub proc_ev_idx: nat,
    pub in_process: bool,
}

/// An event the queue may hold: MIDI is always fine, a parameter change
/// must name a parameter of the table.
pub open spec fn event_ok(params: Seq<Param>, e: Event) -> bool {
    match e.data {
        Data::Midi(_) => true,
        Data::Parameter { param_idx, .. } => param_idx < params.len(),
    }
}

/// The model change one dispatched event makes: a MIDI event leaves the
/// model alone, a parameter change smooths the translated value into the
/// parameter's slot.
pub open spec fn apply_event(params: Seq<Param>, model: Seq<SlotView>, e: Event) -> Seq<
    SlotView,
> {
    match e.data {
        Data::Midi(_) => model,
        Data::Parameter { param_idx, val, .. } => {
            let p = params[param_idx as int];
            model.update(
                p.slot as int,
                slot_set(model[p.slot as int], SlotValue::Num(p.sp_dsp_of(val))),
            )
        },
    }
}

/// The model change a run of dispatched events makes, first to last.
pub open spec fn apply_events(params: Seq<Param>, model: Seq<SlotView>, evs: Seq<Event>) -> Seq<
    SlotView,
>
    decreases evs.len(),
{
    if evs.len() == 0 {
        model
    } else {
        apply_events(params, apply_event(params, model, evs[0]), evs.drop_first())
    }
}

/// Dispatching one more event folds onto the end of the run.
pub proof fn lemma_apply_events_push(
    params: Seq<Param>,
    model: Seq<SlotView>,
    evs: Seq<Event>,
    e: Event,
)
    ensures
        apply_events(params, model, evs.push(e)) == apply_event(
            params,
            apply_events(params, model, evs),
            e,
        ),
    decreases evs.len(),
{
    if evs.len() == 0 {
        assert(evs.push(e)[0] == e);
        assert(evs.push(e).drop_first() =~= Seq::<Event>::empty());
        assert(apply_events(params, apply_event(params, model, e), Seq::<Event>::empty())
            == apply_event(params, model, e));
    } else {
        assert(evs.push(e)[0] == evs[0]);
        assert(evs.push(e).drop_first() =~= evs.drop_first().push(e));
        lemma_apply_events_push(params, apply_event(params, model, evs[0]), evs.drop_first(), e);
    }
}

/// The MIDI payloads of a run of events, in order.
pub open spec fn midi_of(evs: Seq<Event>) -> Seq<[u8; 3]>
    decreases evs.len(),
{
    if evs.len() == 0 {
        Seq::empty()
    } else {
        let rest = midi_of(evs.drop_first());
        match evs[0].data {
            Data::Midi(m) => seq![m] + rest,
            Data::Parameter { .. } => rest,
        }
    }
}

/// One more event appends its payload, if it is MIDI.
pub proof fn lemma_midi_of_push(evs: Seq<Event>, e: Event)
    ensures
        midi_of(evs.push(e)) == (match e.data {
            Data::Midi(m) => midi_of(evs).push(m),
            Data::Parameter { .. } => midi_of(evs),
        }),
    decreases evs.len(),
{
    if evs.len() == 0 {
        assert(evs.push(e)[0] == e);
        assert(evs.push(e).drop_first() =~= Seq::<Event>::empty());
        assert(midi_of(Seq::<Event>::empty()) == Seq::<[u8; 3]>::empty());
        match e.data {
            Data::Midi(m) => {
                assert(midi_of(evs.push(e)) =~= midi_of(evs).push(m));
            },
            Data::Parameter { .. } => {
                assert(midi_of(evs.push(e)) =~= midi_of(evs));
            },
        }
    } else {
        assert(evs.push(e)[0] == evs[0]);
        assert(evs.push(e).drop_first() =~= evs.drop_first().push(e));
        lemma_midi_of_push(evs.drop_first(), e);
        match evs[0].data {
            Data::Midi(m0) => {
                match e.data {
                    Data::Midi(m) => {
                        assert(midi_of(evs.push(e)) =~= midi_of(evs).push(m));
                    },
                    Data::Parameter { .. } => {
                        assert(midi_of(evs.push(e)) =~= midi_of(evs));
                    },
                }
            },
            Data::Parameter { .. } => {},
        }
    }
}

/// The indices of the parameters in a run of events that asked for a
/// DSP-side notification, in dispatch order.
pub open spec fn notifies_of(params: Seq<Param>, evs: Seq<Event>) -> Seq<usize>
    decreases evs.len(),
{
    if evs.len() == 0 {
        Seq::empty()
    } else {
        let rest = notifies_of(params, evs.drop_first());
        match evs[0].data {
            Data::Midi(_) => rest,
            Data::Parameter { param_idx, .. } => if params[param_idx as int].dsp_notify {
                seq![param_idx] + rest
            } else {
                rest
            },
        }
    }
}

/// One more event appends its notification, if it carries one.
pub proof fn lemma_notifies_of_push(params: Seq<Param>, evs: Seq<Event>, e: Event)
    ensures
        notifies_of(params, evs.push(e)) == (match e.data {
            Data::Midi(_) => notifies_of(params, evs),
            Data::Parameter { param_idx, .. } => if params[param_idx as int].dsp_notify {
                notifies_of(params, evs).push(param_idx)
            } else {
                notifies_of(params, evs)
            },
        }),
    decreases evs.len(),
{
    if evs.len() == 0 {
        assert(evs.push(e)[0] == e);
        assert(evs.push(e).drop_first() =~= Seq::<Event>::empty());
        assert(notifies_of(params, Seq::<Event>::empty()) == Seq::<usize>::empty());
        match e.data {
            Data::Midi(_) => {
                assert(notifies_of(params, evs.push(e)) =~= notifies_of(params, evs));
            },
            Data::Parameter { param_idx, .. } => {
                if params[param_idx as int].dsp_notify {
                    assert(notifies_of(params, evs.push(e)) =~= notifies_of(
                        params,
                        evs,
                    ).push(param_idx));
                } else {
                    assert(notifies_of(params, evs.push(e)) =~= notifies_of(params, evs));
                }
            },
        }
    } else {
        assert(evs.push(e)[0] == evs[0]);
        assert(evs.push(e).drop_first() =~= evs.drop_first().push(e));
        lemma_notifies_of_push(params, evs.drop_first(), e);
        match evs[0].data {
            Data::Midi(_) => {},
            Data::Parameter { param_idx, .. } => {
                if params[param_idx as int].dsp_notify {
                    match e.data {
                        Data::Midi(_) => {
                            assert(notifies_of(params, evs.push(e)) =~= notifies_of(params, evs));
                        },
                        Data::Parameter { param_idx: p2, .. } => {
                            if params[p2 as int].dsp_notify {
                                assert(notifies_of(params, evs.push(e)) =~= notifies_of(
                                    params,
                                    evs,
                                ).push(p2));
                            } else {
                                assert(notifies_of(params, evs.push(e)) =~= notifies_of(
                                    params,
                                    evs,
                                ));
                            }
                        },
                    }
                }
            },
        }
    }
}

/// One non-blocking push toward the interface: disconnected leaves the
/// queue alone, a queue with room appends, a full queue drops the message
/// and counts the loss.
pub open spec fn ui_push(
    items: Seq<PlugToUIMsg>,
    dropped: nat,
    cap: nat,
    connected: bool,
    msg: PlugToUIMsg,
) -> (Seq<PlugToUIMsg>, nat) {
    if !connected {
        (items, dropped)
    } else if items.len() < cap {
        (items.push(msg), dropped)
    } else {
        (
            items,
            if dropped < usize::MAX as nat {
                (dropped + 1) as nat
            } else {
                dropped
            },
        )
    }
}

/// The interface queue and loss counter after dispatching a run of
/// events: every parameter change that still owes the interface a
/// notification pushes one.
pub open spec fn ui_after(
    items: Seq<PlugToUIMsg>,
    dropped: nat,
    cap: nat,
    connected: bool,
    evs: Seq<Event>,
) -> (Seq<PlugToUIMsg>, nat)
    decreases evs.len(),
{
    if evs.len() == 0 {
        (items, dropped)
    } else {
        let first = match evs[0].data {
            Data::Midi(_) => (items, dropped),
            Data::Parameter { param_idx, val, notify_ui } => if notify_ui {
                ui_push(
                    items,
                    dropped,
                    cap,
                    connected,
                    PlugToUIMsg::ParamChanged { param_idx, normalized: val },
                )
            } else {
                (items, dropped)
            },
        };
        ui_after(first.0, first.1, cap, connected, evs.drop_first())
    }
}

/// One more dispatched event folds onto the end of the run.
pub proof fn lemma_ui_after_push(
    items: Seq<PlugToUIMsg>,
    dropped: nat,
    cap: nat,
    connected: bool,
    evs: Seq<Event>,
    e: Event,
)
    ensures
        ui_after(items, dropped, cap, connected, evs.push(e)) == (match e.data {
            Data::Midi(_) => ui_after(items, dropped, cap, connected, evs),
            Data::Parameter { param_idx, val, notify_ui } => if notify_ui {
                ui_push(
                    ui_after(items, dropped, cap, connected, evs).0,
                    ui_after(items, dropped, cap, connected, evs).1,
                    cap,
                    connected,
                    PlugToUIMsg::ParamChanged { param_idx, normalized: val },
                )
            } else {
                ui_after(items, dropped, cap, connected, evs)
            },
        }),
    decreases evs.len(),
{
    if evs.len() == 0 {
        assert(evs.push(e)[0] == e);
        assert(evs.push(e).drop_first() =~= Seq::<Event>::empty());
        let first = match e.data {
            Data::Midi(_) => (items, dropped),
            Data::Parameter { param_idx, val, notify_ui } => if notify_ui {
                ui_push(
                    items,
                    dropped,
                    cap,
                    connected,
                    PlugToUIMsg::ParamChanged { param_idx, normalized: val },
                )
            } else {
                (items, dropped)
            },
        };
        assert(ui_after(first.0, first.1, cap, connected, Seq::<Event>::empty()) == first);
        assert(ui_after(items, dropped, cap, connected, evs) == (items, dropped));
    } else {
        assert(evs.push(e)[0] == evs[0]);
        assert(evs.push(e).drop_first() =~= evs.drop_first().push(e));
        let first = match evs[0].data {
            Data::Midi(_) => (items, dropped),
            Data::Parameter { param_idx, val, notify_ui } => if notify_ui {
                ui_push(
                    items,
                    dropped,
                    cap,
                    connected,
                    PlugToUIMsg::ParamChanged { param_idx, normalized: val },
                )
            } else {
                (items, dropped)
            },
        };
        lemma_ui_after_push(first.0, first.1, cap, connected, evs.drop_first(), e);
    }
}

/// Every slot processed by the same frame count.
pub open spec fn processed_all(model: Seq<SlotView>, nframes: int) -> Seq<SlotView> {
    Seq::new(model.len(), |i: int| slot_processed(model[i], nframes))
}

/// The length of the leading run of events due at or before frame `f`;
/// on a frame-sorted queue this is the index of the first event beyond
/// `f`.
pub open spec fn events_through(evs: Seq<Event>, f: int) -> int
    decreases evs.len(),
{
    if evs.len() == 0 {
        0
    } else if evs[0].frame <= f {
        1 + events_through(evs.drop_first(), f)
    } else {
        0
    }
}

/// On a sorted queue, `events_through` is pinned by any split position
/// whose left side is due and whose right side is not.
pub proof fn lemma_events_through_split(evs: Seq<Event>, f: int, k: int)
    requires
        sorted_by_frame(evs),
        0 <= k <= evs.len(),
        forall|j: int| 0 <= j < k ==> (#[trigger] evs[j]).frame <= f,
        k == evs.len() || evs[k].frame > f,
    ensures
        events_through(evs, f) == k,
    decreases evs.len(),
{
    if evs.len() == 0 {
    } else if k == 0 {
        assert(evs[0].frame > f);
    } else {
        assert(evs[0].frame <= f);
        let rest = evs.drop_first();
        assert forall|j: int| 0 <= j < k - 1 implies (#[trigger] rest[j]).frame <= f by {
            assert(rest[j] == evs[j + 1]);
        };
        assert forall|i: int, j: int| 0 <= i < j < rest.len() implies (
        #[trigger] rest[i]).frame <= (#[trigger] rest[j]).frame by {
            assert(rest[i] == evs[i + 1] && rest[j] == evs[j + 1]);
        };
        if k - 1 < rest.len() {
            assert(rest[k - 1] == evs[k]);
        }
        lemma_events_through_split(rest, f, k - 1);
    }
}

/// The length a subblock starting at `start` must take: the remaining
/// frames of the block, cut at the first event still ahead of `start` and
/// at the fixed buffer capacity.
pub open spec fn sub_size(evs: Seq<Event>, total: int, start: int) -> int {
    let k = events_through(evs, start);
    if k < evs.len() {
        min(min(total - start, evs[k].frame - start), MAX_BLOCKSIZE as int)
    } else {
        min(total - start, MAX_BLOCKSIZE as int)
    }
}

/// `events_through` lands inside the queue, and the event at the landing
/// index (if any) is still ahead of `f`.
pub proof fn lemma_events_through_range(evs: Seq<Event>, f: int)
    ensures
        0 <= events_through(evs, f) <= evs.len(),
        events_through(evs, f) < evs.len() ==> evs[events_through(evs, f)].frame > f,
    decreases evs.len(),
{
    if evs.len() == 0 {
    } else if evs[0].frame <= f {
        lemma_events_through_range(evs.drop_first(), f);
        let k = events_through(evs, f);
        if k < evs.len() {
            assert(evs.drop_first()[k - 1] == evs[k]);
        }
    }
}

/// One open subblock of the session, as a function of the wrapper's
/// state: the events due at the cursor are dispatched into the model and
/// the interface queue, the model then advances by the subblock's exact
/// size, and musical time steps forward by the same amount.
pub open spec fn step_view(a: WrapperView) -> WrapperView {
    let w1 = events_through(a.events, a.proc_start as int);
    let window = a.events.subrange(a.proc_ev_idx as int, w1);
    let frames = sub_size(a.events, a.proc_total as int, a.proc_start as int);
    let ui = ui_after(a.to_ui_items, a.dropped_to_ui, a.to_ui_cap, a.ui_connected, window);
    WrapperView {
        model: processed_all(apply_events(a.params, a.model, window), frames),
        to_ui_items: ui.0,
        dropped_to_ui: ui.1,
        musical_time: MusicalTime {
            beat: a.musical_time.beat.sp_add(
                sp_beat_step(a.musical_time.bpm, a.sample_rate, frames),
            ),
            ..a.musical_time
        },
        proc_start: (a.proc_start + frames) as nat,
        proc_ev_idx: w1 as nat,
        ..a
    }
}

/// The whole session as a function of the state it starts from: one
/// subblock step after another until the block is exhausted.
pub open spec fn session_run(a: WrapperView) -> WrapperView
    decreases a.proc_total - a.proc_start,
    via session_run_decreases
{
    if a.proc_start >= a.proc_total {
        a
    } else {
        session_run(step_view(a))
    }
}

#[via_fn]
proof fn session_run_decreases(a: WrapperView) {
    if a.proc_start < a.proc_total {
        lemma_events_through_range(a.events, a.proc_start as int);
    }
}

/// The wrapper around a plugin's model: the canonical state every host
/// adapter talks to.
pub struct WrappedPlugin {
    events: Vec<Event>,
    output_events: Vec<Event>,
    params: Vec<Param>,
    smoothed_model: SmoothedModel,
    slot_names: Vec<Vec<u8>>,
    sample_rate: Fixed,
    to_ui: MsgQueue<PlugToUIMsg>,
    ui_connected: bool,
    dropped_to_ui: usize,
    musical_time: MusicalTime,
    proc_start: usize,
    proc_total: usize,
    proc_ev_idx: usize,
    in_process: bool,
}

impl View for WrappedPlugin {
    type V = WrapperView;

    closed spec fn view(&self) -> WrapperView {
        WrapperView {
            events: self.events@,
            output_events: self.output_events@,
            params: self.params@,
            model: self.smoothed_model@,
            slot_names: names_view(self.slot_names@),
            sample_rate: self.sample_rate,
            to_ui_items: self.to_ui@.items,
            to_ui_cap: self.to_ui@.cap,
            ui_connected: self.ui_connected,
            dropped_to_ui: self.dropped_to_ui as nat,
            musical_time: self.musical_time,
            proc_start: self.proc_start as nat,
            proc_total: self.proc_total as nat,
            proc_ev_idx: self.proc_ev_idx as nat,
            in_process: self.in_process,
        }
    }
}

impl WrapperView {
    /// The wrapper's standing invariant: well-formed slots, a parameter
    /// table whose entries name themselves and continuous slots, sorted
    /// event queues holding only valid events, and a consistent session
    /// cursor.
    pub open spec fn wf(self) -> bool {
        &&& (forall|i: int| 0 <= i < self.model.len() ==> slot_wf(#[trigger] self.model[i]))
        &&& (forall|i: int|
            0 <= i < self.params.len() ==> (#[trigger] self.params[i]).info.idx == i
                && self.params[i].fits(self.model))
        &&& sorted_by_frame(self.events)
        &&& sorted_by_frame(self.output_events)
        &&& (forall|j: int|
            0 <= j < self.events.len() ==> event_ok(self.params, #[trigger] self.events[j]))
        &&& self.slot_names.len() == self.model.len()
        &&& self.proc_ev_idx <= self.events.len()
        &&& (self.in_process ==> {
            &&& self.proc_start <= self.proc_total
            &&& (forall|j: int|
                self.proc_ev_idx <= j < self.events.len() ==> (#[trigger] self.events[j]).frame
                    >= self.proc_start)
            &&& (forall|j: int|
                0 <= j < self.events.len() ==> (#[trigger] self.events[j]).frame
                    < self.proc_total)
        })
    }
}

/// Dispatching a valid event keeps the model's length, each slot's kind,
/// and each slot's well-formedness.
pub proof fn lemma_apply_event_shape(params: Seq<Param>, model: Seq<SlotView>, e: Event)
    requires
        event_ok(params, e),
        forall|i: int| 0 <= i < params.len() ==> (#[trigger] params[i]).fits(model),
        forall|i: int| 0 <= i < model.len() ==> slot_wf(#[trigger] model[i]),
    ensures
        apply_event(params, model, e).len() == model.len(),
        forall|i: int| 0 <= i < model.len() ==> slot_wf(#[trigger] apply_event(params, model, e)[i]),
        forall|i: int|
            0 <= i < model.len() ==> ((#[trigger] apply_event(params, model, e)[i] is Declicked)
                <==> (model[i] is Declicked)),
{
    match e.data {
        Data::Midi(_) => {},
        Data::Parameter { param_idx, val, .. } => {
            let p = params[param_idx as int];
            crate::model::lemma_slot_set_wf(
                model[p.slot as int],
                SlotValue::Num(p.sp_dsp_of(val)),
            );
        },
    }
}

/// Inserts `ev` into a frame-sorted queue, after every event with the same
/// or an earlier frame: the queue stays sorted and events sharing a frame
/// keep their insertion order.
pub fn enqueue_event_in(ev: Event, buffer: &mut Vec<Event>)
    requires
        sorted_by_frame(old(buffer)@),
    ensures
        sorted_by_frame(final(buffer)@),
        exists|k: int|
            {
                &&& 0 <= k <= old(buffer)@.len()
                &&& final(buffer)@ == old(buffer)@.insert(k, ev)
                &&& (forall|j: int| 0 <= j < k ==> (#[trigger] old(buffer)@[j]).frame <= ev.frame)
                &&& (forall|j: int|
                    k <= j < old(buffer)@.len() ==> (#[trigger] old(buffer)@[j]).frame > ev.frame)
            },
{
    let n = buffer.len();
    let latest_frame: usize = if n == 0 {
        0
    } else {
        buffer[n - 1].frame
    };
    if n == 0 || latest_frame <= ev.frame {
        buffer.push(ev);
        proof {
            let k = old(buffer)@.len() as int;
            assert(buffer@ =~= old(buffer)@.insert(k, ev));
            assert forall|j: int| 0 <= j < k implies (#[trigger] old(buffer)@[j]).frame
                <= ev.frame by {
                assert(old(buffer)@[j].frame <= old(buffer)@[k - 1].frame);
            };
            assert forall|i: int, j: int| 0 <= i < j < buffer@.len() implies (
            #[trigger] buffer@[i]).frame <= (#[trigger] buffer@[j]).frame by {
                if j < k {
                    assert(old(buffer)@[i].frame <= old(buffer)@[j].frame);
                }
            };
        }
        return ;
    }
    let mut idx: usize = 0;
    while idx < n && buffer[idx].frame <= ev.frame
        invariant
            n == buffer@.len(),
            idx <= n,
            sorted_by_frame(buffer@),
            buffer@ == old(buffer)@,
            forall|j: int| 0 <= j < idx ==> (#[trigger] buffer@[j]).frame <= ev.frame,
            buffer@[n - 1].frame > ev.frame,
        decreases n - idx,
    {
        idx = idx + 1;
    }
    proof {
        if idx == n {
            assert(buffer@[n - 1].frame <= ev.frame);
            assert(false);
        }
    }
    buffer.insert(idx, ev);
    proof {
        let k = idx as int;
        old(buffer)@.insert_ensures(k, ev);
        assert forall|j: int| k <= j < old(buffer)@.len() implies (
        #[trigger] old(buffer)@[j]).frame > ev.frame by {
            assert(old(buffer)@[k].frame <= old(buffer)@[j].frame);
        };
        assert forall|i: int, j: int| 0 <= i < j < buffer@.len() implies (
        #[trigger] buffer@[i]).frame <= (#[trigger] buffer@[j]).frame by {
            let s = old(buffer)@;
            if i < k && j < k {
                assert(s[i].frame <= s[j].frame);
            } else if i < k && j == k {
                assert(s[i].frame <= ev.frame);
            } else if i < k && j > k {
                assert(s[i].frame <= s[j - 1].frame);
            } else if i == k && j > k {
                assert(s[j - 1].frame > ev.frame);
            } else if i > k && j > k {
                assert(s[i - 1].frame <= s[j - 1].frame);
            }
        };
    }
}

impl WrappedPlugin {
    /// A wrapper over the given parameter table, slot names and smoothed
    /// model. Each parameter must name its own index and a continuous slot;
    /// each slot needs a name for state save and restore.
    pub fn new(params: Vec<Param>, slot_names: Vec<Vec<u8>>, model: SmoothedModel) -> (r:
        WrappedPlugin)
        requires
            model.wf(),
            slot_names@.len() == model@.len(),
            forall|i: int|
                0 <= i < params@.len() ==> (#[trigger] params@[i]).info.idx == i
                    && params@[i].fits(model@),
        ensures
            r@.wf(),
            r@.params == params@,
            r@.model == model@,
            r@.events.len() == 0,
            r@.output_events.len() == 0,
            r@.ui_connected == false,
            r@.in_process == false,
            r@.sample_rate == Fixed::sp_zero(),
    {
        WrappedPlugin {
            events: Vec::new(),
            output_events: Vec::new(),
            params,
            smoothed_model: model,
            slot_names,
            sample_rate: Fixed::zero(),
            to_ui: MsgQueue::with_capacity(0),
            ui_connected: false,
            dropped_to_ui: 0,
            musical_time: MusicalTime {
                bpm: Fixed::zero(),
                beat: Fixed::zero(),
                is_playing: false,
            },
            proc_start: 0,
            proc_total: 0,
            proc_ev_idx: 0,
            in_process: false,
        }
    }

    /// Read access to the smoothed model, for the caller's per-subblock
    /// audio work.
    pub fn model(&self) -> (r: &SmoothedModel)
        ensures
            r@ == self@.model,
    {
        &self.smoothed_model
    }

    /// The musical-time snapshot as of the latest subblock.
    pub fn musical_time(&self) -> (r: MusicalTime)
        ensures
            r == self@.musical_time,
    {
        self.musical_time
    }

    /// How many interface notifications were dropped because the queue was
    /// full.
    pub fn dropped_ui_messages(&self) -> (r: usize)
        ensures
            r == self@.dropped_to_ui,
    {
        self.dropped_to_ui
    }

    /// Attaches an interface: notifications go into a fresh bounded queue.
    pub fn connect_ui(&mut self, capacity: usize)
        ensures
            final(self)@ == (WrapperView {
                ui_connected: true,
                to_ui_items: Seq::empty(),
                to_ui_cap: capacity as nat,
                ..old(self)@
            }),
    {
        self.to_ui = MsgQueue::with_capacity(capacity);
        self.ui_connected = true;
        proof {
            assert(self@.to_ui_items =~= Seq::<PlugToUIMsg>::empty());
        }
    }

    /// Detaches the interface: no further notifications are queued.
    pub fn disconnect_ui(&mut self)
        ensures
            final(self)@ == (WrapperView { ui_connected: false, ..old(self)@ }),
    {
        self.ui_connected = false;
    }

    /// The interface side pulls its oldest pending notification.
    pub fn pop_ui_msg(&mut self) -> (r: Option<PlugToUIMsg>)
        ensures
            old(self)@.to_ui_items.len() == 0 ==> r is None && final(self)@ == old(self)@,
            old(self)@.to_ui_items.len() > 0 ==> r == Some(old(self)@.to_ui_items[0])
                && final(self)@ == (WrapperView {
                to_ui_items: old(self)@.to_ui_items.drop_first(),
                ..old(self)@
            }),
    {
        self.to_ui.pop()
    }

    /// Queues an input event for the next processing call, keeping the
    /// queue frame-sorted and stable.
    pub fn enqueue_event(&mut self, ev: Event)
        requires
            old(self)@.wf(),
            !old(self)@.in_process,
            event_ok(old(self)@.params, ev),
        ensures
            final(self)@.wf(),
            final(self)@ == (WrapperView { events: final(self)@.events, ..old(self)@ }),
            exists|k: int|
                {
                    &&& 0 <= k <= old(self)@.events.len()
                    &&& final(self)@.events == #[trigger] old(self)@.events.insert(k, ev)
                    &&& (forall|j: int|
                        0 <= j < k ==> (#[trigger] old(self)@.events[j]).frame <= ev.frame)
                    &&& (forall|j: int|
                        k <= j < old(self)@.events.len() ==> (#[trigger] old(
                            self,
                        )@.events[j]).frame > ev.frame)
                },
    {
        enqueue_event_in(ev, &mut self.events);
        proof {
            let k = choose|k: int|
                {
                    &&& 0 <= k <= old(self)@.events.len()
                    &&& self.events@ == #[trigger] old(self)@.events.insert(k, ev)
                    &&& (forall|j: int|
                        0 <= j < k ==> (#[trigger] old(self)@.events[j]).frame <= ev.frame)
                    &&& (forall|j: int|
                        k <= j < old(self)@.events.len() ==> (#[trigger] old(
                            self,
                        )@.events[j]).frame > ev.frame)
                };
            old(self)@.events.insert_ensures(k, ev);
        }
    }

    /// Queues a MIDI message for the next processing call, due at the given
    /// frame offset.
    pub fn midi_input(&mut self, frame: usize, data: [u8; 3])
        requires
            old(self)@.wf(),
            !old(self)@.in_process,
        ensures
            final(self)@.wf(),
            final(self)@ == (WrapperView { events: final(self)@.events, ..old(self)@ }),
            exists|k: int|
                {
                    &&& 0 <= k <= old(self)@.events.len()
                    &&& final(self)@.events == #[trigger] old(self)@.events.insert(
                        k,
                        Event { frame, data: Data::Midi(data) },
                    )
                },
    {
        self.enqueue_event(Event { frame, data: Data::Midi(data) });
    }

    /// Reads a parameter in normalized form.
    pub fn get_parameter(&self, param_idx: usize) -> (r: Fixed)
        requires
            self@.wf(),
            param_idx < self@.params.len(),
        ensures
            r == crate::parameter::sp_dsp_val_to_normal(
                self@.params[param_idx as int].info.unit,
                self@.params[param_idx as int].info.param_type,
                slot_value(self@.model[self@.params[param_idx as int].slot as int])->Num_0,
            ),
    {
        self.params[param_idx].get(&self.smoothed_model)
    }

    /// Pushes a parameter-change notification toward the interface; a full
    /// queue drops the message and counts the loss instead of blocking.
    fn notify_ui_of_param_change(&mut self, param_idx: usize, val: Fixed)
        ensures
            final(self)@ == (WrapperView {
                to_ui_items: final(self)@.to_ui_items,
                dropped_to_ui: final(self)@.dropped_to_ui,
                ..old(self)@
            }),
            notify_outcome(
                old(self)@,
                final(self)@,
                PlugToUIMsg::ParamChanged { param_idx, normalized: val },
            ),
    {
        if !self.ui_connected {
            return ;
        }
        let msg = PlugToUIMsg::ParamChanged { param_idx, normalized: val };
        match self.to_ui.push(msg) {
            Ok(_) => {},
            Err(_) => {
                if self.dropped_to_ui < usize::MAX {
                    self.dropped_to_ui = self.dropped_to_ui + 1;
                }
            },
        }
    }
}

impl WrappedPlugin {
    /// Applies one due event: a parameter change is translated and
    /// smoothed into its slot, noting the DSP hook if the parameter asks
    /// for one and telling the interface unless the change came from
    /// there; MIDI bytes are collected for the caller to forward.
    fn dispatch_event(&mut self, ev: Event, midi: &mut Vec<[u8; 3]>, notifies: &mut Vec<usize>)
        requires
            event_ok(old(self)@.params, ev),
            forall|i: int|
                0 <= i < old(self)@.params.len() ==> (#[trigger] old(self)@.params[i]).fits(
                    old(self)@.model,
                ),
            forall|i: int| 0 <= i < old(self)@.model.len() ==> slot_wf(#[trigger] old(self)@.model[i]),
        ensures
            final(self)@ == (WrapperView {
                model: apply_event(old(self)@.params, old(self)@.model, ev),
                to_ui_items: final(self)@.to_ui_items,
                dropped_to_ui: final(self)@.dropped_to_ui,
                ..old(self)@
            }),
            match ev.data {
                Data::Midi(m) => {
                    &&& final(midi)@ == old(midi)@.push(m)
                    &&& final(notifies)@ == old(notifies)@
                    &&& final(self)@.to_ui_items == old(self)@.to_ui_items
                    &&& final(self)@.dropped_to_ui == old(self)@.dropped_to_ui
                },
                Data::Parameter { param_idx, val, notify_ui } => {
                    &&& final(midi)@ == old(midi)@
                    &&& final(notifies)@ == (if old(self)@.params[param_idx as int].dsp_notify {
                        old(notifies)@.push(param_idx)
                    } else {
                        old(notifies)@
                    })
                    &&& (if notify_ui {
                        notify_outcome(
                            old(self)@,
                            final(self)@,
                            PlugToUIMsg::ParamChanged { param_idx, normalized: val },
                        )
                    } else {
                        &&& final(self)@.to_ui_items == old(self)@.to_ui_items
                        &&& final(self)@.dropped_to_ui == old(self)@.dropped_to_ui
                    })
                },
            },
    {
        match ev.data {
            Data::Midi(m) => {
                midi.push(m);
            },
            Data::Parameter { param_idx, val, notify_ui } => {
                let unit = self.params[param_idx].info.unit;
                let ptype = self.params[param_idx].info.param_type;
                let slot = self.params[param_idx].slot;
                let dsp_notify = self.params[param_idx].dsp_notify;
                let dsp = crate::parameter::normal_to_dsp_val(unit, &ptype, val);
                self.smoothed_model.set_value(slot, SlotValue::Num(dsp));
                if dsp_notify {
                    notifies.push(param_idx);
                }
                if notify_ui {
                    self.notify_ui_of_param_change(param_idx, val);
                }
            },
        }
    }

    /// A host-driven parameter change. A parameter with a DSP-side hook is
    /// deferred as a frame-0 event, so the hook fires inside the next
    /// processing call; any other parameter is applied immediately and the
    /// interface is told.
    pub fn set_parameter(&mut self, param_idx: usize, val: Fixed)
        requires
            old(self)@.wf(),
            !old(self)@.in_process,
            param_idx < old(self)@.params.len(),
        ensures
            final(self)@.wf(),
            old(self)@.params[param_idx as int].dsp_notify ==> exists|k: int|
                {
                    &&& 0 <= k <= old(self)@.events.len()
                    &&& final(self)@.events == #[trigger] old(self)@.events.insert(
                        k,
                        Event {
                            frame: 0,
                            data: Data::Parameter { param_idx, val, notify_ui: true },
                        },
                    )
                    &&& final(self)@ == (WrapperView {
                        events: final(self)@.events,
                        ..old(self)@
                    })
                },
            !old(self)@.params[param_idx as int].dsp_notify ==> {
                &&& final(self)@ == (WrapperView {
                    model: apply_event(
                        old(self)@.params,
                        old(self)@.model,
                        Event {
                            frame: 0,
                            data: Data::Parameter { param_idx, val, notify_ui: true },
                        },
                    ),
                    to_ui_items: final(self)@.to_ui_items,
                    dropped_to_ui: final(self)@.dropped_to_ui,
                    ..old(self)@
                })
                &&& notify_outcome(
                    old(self)@,
                    final(self)@,
                    PlugToUIMsg::ParamChanged { param_idx, normalized: val },
                )
            },
    {
        if self.params[param_idx].dsp_notify {
            self.enqueue_event(
                Event { frame: 0, data: Data::Parameter { param_idx, val, notify_ui: true } },
            );
        } else {
            let ghost e = Event {
                frame: 0,
                data: Data::Parameter { param_idx, val, notify_ui: true },
            };
            let mut midi: Vec<[u8; 3]> = Vec::new();
            let mut notifies: Vec<usize> = Vec::new();
            self.dispatch_event(
                Event { frame: 0, data: Data::Parameter { param_idx, val, notify_ui: true } },
                &mut midi,
                &mut notifies,
            );
            proof {
                lemma_apply_event_shape(old(self)@.params, old(self)@.model, e);
            }
        }
    }

    /// Applies one message from the interface: a parameter move becomes a
    /// frame-0 event (not echoed back), a direct value edit is smoothed
    /// straight into its slot, and a close notice detaches the interface.
    pub fn apply_ui_msg(&mut self, msg: UIToPlugMsg)
        requires
            old(self)@.wf(),
            !old(self)@.in_process,
        ensures
            final(self)@.wf(),
            match msg {
                UIToPlugMsg::ParamChanged { param_idx, normalized } => if param_idx < old(
                    self,
                )@.params.len() {
                    exists|k: int|
                        {
                            &&& 0 <= k <= old(self)@.events.len()
                            &&& final(self)@.events == #[trigger] old(self)@.events.insert(
                                k,
                                Event {
                                    frame: 0,
                                    data: Data::Parameter {
                                        param_idx,
                                        val: normalized,
                                        notify_ui: false,
                                    },
                                },
                            )
                            &&& final(self)@ == (WrapperView {
                                events: final(self)@.events,
                                ..old(self)@
                            })
                        }
                } else {
                    final(self)@ == old(self)@
                },
                UIToPlugMsg::ValueChanged { slot_idx, value } => if slot_idx < old(
                    self,
                )@.model.len() && crate::model::slot_compat(
                    old(self)@.model[slot_idx as int],
                    value,
                ) {
                    final(self)@ == (WrapperView {
                        model: old(self)@.model.update(
                            slot_idx as int,
                            slot_set(old(self)@.model[slot_idx as int], value),
                        ),
                        ..old(self)@
                    })
                } else {
                    final(self)@ == old(self)@
                },
                UIToPlugMsg::Closed => final(self)@ == (WrapperView {
                    ui_connected: false,
                    ..old(self)@
                }),
            },
    {
        match msg {
            UIToPlugMsg::ParamChanged { param_idx, normalized } => {
                if param_idx < self.params.len() {
                    self.enqueue_event(
                        Event {
                            frame: 0,
                            data: Data::Parameter { param_idx, val: normalized, notify_ui: false },
                        },
                    );
                }
            },
            UIToPlugMsg::ValueChanged { slot_idx, value } => {
                if slot_idx < self.smoothed_model.len() {
                    let compatible = match (self.smoothed_model.get_value(slot_idx), value) {
                        (SlotValue::Num(_), SlotValue::Num(_)) => true,
                        (SlotValue::Disc(_), SlotValue::Disc(_)) => true,
                        _ => false,
                    };
                    if compatible {
                        proof {
                            crate::model::lemma_slot_set_wf(
                                old(self)@.model[slot_idx as int],
                                value,
                            );
                        }
                        self.smoothed_model.set_value(slot_idx, value);
                    }
                }
            },
            UIToPlugMsg::Closed => {
                self.ui_connected = false;
            },
        }
    }
}

impl WrappedPlugin {
    /// Opens a processing session over `nframes` frames, with a fresh
    /// musical-time snapshot. Every queued event must fall inside the
    /// block: the session dispatches all of them before it closes.
    pub fn begin_process(&mut self, musical_time: MusicalTime, nframes: usize)
        requires
            old(self)@.wf(),
            !old(self)@.in_process,
            forall|j: int|
                0 <= j < old(self)@.events.len() ==> (#[trigger] old(self)@.events[j]).frame
                    < nframes,
        ensures
            final(self)@.wf(),
            final(self)@ == (WrapperView {
                musical_time,
                proc_start: 0,
                proc_total: nframes as nat,
                proc_ev_idx: 0,
                in_process: true,
                ..old(self)@
            }),
    {
        self.musical_time = musical_time;
        self.proc_start = 0;
        self.proc_total = nframes;
        self.proc_ev_idx = 0;
        self.in_process = true;
    }

    /// Closes the session once the block is exhausted (clearing the event
    /// queue: every event has been dispatched by then). Otherwise:
    /// dispatches, in queue order, every event due at the current frame;
    /// advances the smoothed model by one contiguous subblock; steps
    /// musical time; and returns the subblock. The subblock never crosses
    /// the next pending event's frame, the end of the block, or the fixed
    /// buffer capacity, so the plugin sees one constant event state per
    /// subblock.
    pub fn next_subblock(&mut self) -> (r: Option<Subblock>)
        requires
            old(self)@.wf(),
            old(self)@.in_process,
        ensures
            final(self)@.wf(),
            old(self)@.proc_start == old(self)@.proc_total ==> {
                &&& r is None
                &&& final(self)@ == (WrapperView {
                    events: Seq::empty(),
                    proc_ev_idx: 0,
                    in_process: false,
                    ..old(self)@
                })
            },
            old(self)@.proc_start < old(self)@.proc_total ==> r is Some && subblock_step(
                old(self)@,
                final(self)@,
                r.unwrap(),
            ),
    {
        if self.proc_start == self.proc_total {
            self.events.clear();
            self.proc_ev_idx = 0;
            self.in_process = false;
            proof {
                assert(self@.events =~= Seq::<Event>::empty());
            }
            return None;
        }
        let mut midi: Vec<[u8; 3]> = Vec::new();
        let mut notifies: Vec<usize> = Vec::new();
        while self.proc_ev_idx < self.events.len() && self.events[self.proc_ev_idx].frame
            == self.proc_start
            invariant
                old(self)@.wf(),
                old(self)@.in_process,
                old(self)@.proc_start < old(self)@.proc_total,
                self@ == (WrapperView {
                    model: self@.model,
                    proc_ev_idx: self@.proc_ev_idx,
                    to_ui_items: self@.to_ui_items,
                    dropped_to_ui: self@.dropped_to_ui,
                    ..old(self)@
                }),
                old(self)@.proc_ev_idx <= self@.proc_ev_idx <= self@.events.len(),
                forall|j: int|
                    old(self)@.proc_ev_idx <= j < self@.proc_ev_idx ==> (#[trigger] old(
                        self,
                    )@.events[j]).frame == old(self)@.proc_start,
                self@.model == apply_events(
                    old(self)@.params,
                    old(self)@.model,
                    old(self)@.events.subrange(
                        old(self)@.proc_ev_idx as int,
                        self@.proc_ev_idx as int,
                    ),
                ),
                midi@ == midi_of(
                    old(self)@.events.subrange(
                        old(self)@.proc_ev_idx as int,
                        self@.proc_ev_idx as int,
                    ),
                ),
                notifies@ == notifies_of(
                    old(self)@.params,
                    old(self)@.events.subrange(
                        old(self)@.proc_ev_idx as int,
                        self@.proc_ev_idx as int,
                    ),
                ),
                forall|i: int|
                    0 <= i < self@.params.len() ==> (#[trigger] self@.params[i]).fits(self@.model),
                forall|i: int| 0 <= i < self@.model.len() ==> slot_wf(#[trigger] self@.model[i]),
                self@.model.len() == old(self)@.model.len(),
                (self@.to_ui_items, self@.dropped_to_ui) == ui_after(
                    old(self)@.to_ui_items,
                    old(self)@.dropped_to_ui,
                    old(self)@.to_ui_cap,
                    old(self)@.ui_connected,
                    old(self)@.events.subrange(
                        old(self)@.proc_ev_idx as int,
                        self@.proc_ev_idx as int,
                    ),
                ),
            decreases self@.events.len() - self@.proc_ev_idx,
        {
            let ev = self.events[self.proc_ev_idx];
            let ghost pre = self@;
            proof {
                assert(event_ok(self@.params, ev));
            }
            self.dispatch_event(ev, &mut midi, &mut notifies);
            self.proc_ev_idx = self.proc_ev_idx + 1;
            proof {
                let a0 = old(self)@.proc_ev_idx as int;
                let i = pre.proc_ev_idx as int;
                assert(old(self)@.events.subrange(a0, i + 1) =~= old(self)@.events.subrange(
                    a0,
                    i,
                ).push(old(self)@.events[i]));
                lemma_apply_events_push(
                    old(self)@.params,
                    old(self)@.model,
                    old(self)@.events.subrange(a0, i),
                    old(self)@.events[i],
                );
                lemma_midi_of_push(
                    old(self)@.events.subrange(a0, i),
                    old(self)@.events[i],
                );
                lemma_notifies_of_push(
                    old(self)@.params,
                    old(self)@.events.subrange(a0, i),
                    old(self)@.events[i],
                );
                lemma_ui_after_push(
                    old(self)@.to_ui_items,
                    old(self)@.dropped_to_ui,
                    old(self)@.to_ui_cap,
                    old(self)@.ui_connected,
                    old(self)@.events.subrange(a0, i),
                    old(self)@.events[i],
                );
                lemma_apply_event_shape(pre.params, pre.model, ev);
            }
        }
        let ghost mid_view = self@;
        let remaining = self.proc_total - self.proc_start;
        let mut block_frames = remaining;
        if self.proc_ev_idx < self.events.len() {
            let next_frame = self.events[self.proc_ev_idx].frame;
            let dist = next_frame - self.proc_start;
            if dist < block_frames {
                block_frames = dist;
            }
        }
        if block_frames > MAX_BLOCKSIZE {
            block_frames = MAX_BLOCKSIZE;
        }
        self.smoothed_model.process(block_frames);
        self.musical_time.step_by_samples(self.sample_rate, block_frames);
        let sb_start = self.proc_start;
        self.proc_start = self.proc_start + block_frames;
        proof {
            assert(self@.model =~= processed_all(
                apply_events(
                    old(self)@.params,
                    old(self)@.model,
                    old(self)@.events.subrange(
                        old(self)@.proc_ev_idx as int,
                        self@.proc_ev_idx as int,
                    ),
                ),
                block_frames as int,
            ));
            assert forall|i: int| 0 <= i < self@.model.len() implies slot_wf(
                #[trigger] self@.model[i],
            ) by {
                crate::model::lemma_slot_processed_wf(
                    apply_events(
                        old(self)@.params,
                        old(self)@.model,
                        old(self)@.events.subrange(
                            old(self)@.proc_ev_idx as int,
                            self@.proc_ev_idx as int,
                        ),
                    )[i],
                    block_frames as int,
                );
            };
            let mprev = apply_events(
                old(self)@.params,
                old(self)@.model,
                old(self)@.events.subrange(
                    old(self)@.proc_ev_idx as int,
                    self@.proc_ev_idx as int,
                ),
            );
            assert forall|i: int| 0 <= i < self@.params.len() implies (
            #[trigger] self@.params[i]).fits(self@.model) by {
                let s = self@.params[i].slot as int;
                assert(mid_view.params[i].fits(mid_view.model));
                assert(mid_view.model == mprev);
                assert(self@.model[s] == slot_processed(mprev[s], block_frames as int));
            };
            assert forall|j: int|
                self@.proc_ev_idx <= j < self@.events.len() implies (
            #[trigger] self@.events[j]).frame >= self@.proc_start by {
                assert(self@.events[self@.proc_ev_idx as int].frame <= self@.events[j].frame);
            };
        }
        Some(Subblock { start: sb_start, frames: block_frames, midi, dsp_notifies: notifies })
    }
}

/// What one open subblock step does, relating the wrapper before (`a`)
/// and after (`b`) and the subblock it returned: the dispatch window, the
/// exact subblock sizing, the model transition, the MIDI hand-off, and the
/// musical-time step.
pub open spec fn subblock_step(a: WrapperView, b: WrapperView, sb: Subblock) -> bool {
    &&& sb.start == a.proc_start
    &&& 1 <= sb.frames <= MAX_BLOCKSIZE
    &&& b.proc_start == a.proc_start + sb.frames
    &&& a.proc_ev_idx <= b.proc_ev_idx <= a.events.len()
    &&& (forall|j: int|
        a.proc_ev_idx <= j < b.proc_ev_idx ==> (#[trigger] a.events[j]).frame == a.proc_start)
    &&& (b.proc_ev_idx < a.events.len() ==> a.events[b.proc_ev_idx as int].frame > a.proc_start)
    &&& sb.frames == (if b.proc_ev_idx < a.events.len() {
        min(
            min(
                a.proc_total - a.proc_start,
                a.events[b.proc_ev_idx as int].frame - a.proc_start,
            ),
            MAX_BLOCKSIZE as int,
        )
    } else {
        min(a.proc_total - a.proc_start, MAX_BLOCKSIZE as int)
    })
    &&& b.model == processed_all(
        apply_events(
            a.params,
            a.model,
            a.events.subrange(a.proc_ev_idx as int, b.proc_ev_idx as int),
        ),
        sb.frames as int,
    )
    &&& sb.midi@ == midi_of(a.events.subrange(a.proc_ev_idx as int, b.proc_ev_idx as int))
    &&& sb.dsp_notifies@ == notifies_of(
        a.params,
        a.events.subrange(a.proc_ev_idx as int, b.proc_ev_idx as int),
    )
    &&& b.musical_time.bpm == a.musical_time.bpm
    &&& b.musical_time.is_playing == a.musical_time.is_playing
    &&& b.musical_time.beat == a.musical_time.beat.sp_add(
        sp_beat_step(a.musical_time.bpm, a.sample_rate, sb.frames as int),
    )
    &&& b.events == a.events
    &&& b.output_events == a.output_events
    &&& b.params == a.params
    &&& b.slot_names == a.slot_names
    &&& b.sample_rate == a.sample_rate
    &&& b.to_ui_cap == a.to_ui_cap
    &&& (b.to_ui_items, b.dropped_to_ui) == ui_after(
        a.to_ui_items,
        a.dropped_to_ui,
        a.to_ui_cap,
        a.ui_connected,
        a.events.subrange(a.proc_ev_idx as int, b.proc_ev_idx as int),
    )
    &&& b.ui_connected == a.ui_connected
    &&& b.proc_total == a.proc_total
    &&& b.in_process
}

impl WrappedPlugin {
    /// Runs a whole processing call: opens the session and takes subblock
    /// after subblock until the block is exhausted, returning the
    /// schedule. The schedule covers `[0, nframes)` without gaps or
    /// overlaps, each subblock's length is exactly [`sub_size`], and every
    /// queued event's frame is the start of some subblock — a subblock
    /// never straddles an event. Each returned subblock carries precisely
    /// the MIDI payloads and notification hooks of the events due at its
    /// start, in queue order, so every event is dispatched exactly once;
    /// the final model, interface queue and musical time are the session
    /// fold [`session_run`] of those per-subblock steps. The event queue
    /// is fully consumed; a zero-frame call produces no subblock. A caller
    /// that interleaves its own audio work drives the session with
    /// [`Self::begin_process`] and [`Self::next_subblock`] directly.
    pub fn process(&mut self, musical_time: MusicalTime, nframes: usize) -> (r: Vec<Subblock>)
        requires
            old(self)@.wf(),
            !old(self)@.in_process,
            forall|j: int|
                0 <= j < old(self)@.events.len() ==> (#[trigger] old(self)@.events[j]).frame
                    < nframes,
        ensures
            final(self)@.wf(),
            !final(self)@.in_process,
            final(self)@.events.len() == 0,
            final(self)@.model.len() == old(self)@.model.len(),
            final(self)@.params == old(self)@.params,
            nframes >= 1 ==> r@.len() >= 1,
            nframes == 0 ==> r@.len() == 0,
            r@.len() > 0 ==> r@[0].start == 0,
            forall|i: int|
                0 < i < r@.len() ==> (#[trigger] r@[i]).start == r@[i - 1].start + r@[i
                    - 1].frames,
            r@.len() > 0 ==> r@[r@.len() - 1].start + r@[r@.len() - 1].frames == nframes,
            forall|i: int| 0 <= i < r@.len() ==> 1 <= (#[trigger] r@[i]).frames <= MAX_BLOCKSIZE,
            forall|i: int|
                0 <= i < r@.len() ==> (#[trigger] r@[i]).frames == sub_size(
                    old(self)@.events,
                    nframes as int,
                    r@[i].start as int,
                ),
            forall|i: int|
                0 <= i < r@.len() ==> {
                    let w0 = events_through(old(self)@.events, r@[i].start as int - 1);
                    let w1 = events_through(old(self)@.events, r@[i].start as int);
                    &&& (#[trigger] r@[i]).midi@ == midi_of(old(self)@.events.subrange(w0, w1))
                    &&& r@[i].dsp_notifies@ == notifies_of(
                        old(self)@.params,
                        old(self)@.events.subrange(w0, w1),
                    )
                },
            final(self)@ == (WrapperView {
                events: Seq::empty(),
                proc_ev_idx: 0,
                in_process: false,
                ..session_run(
                    WrapperView {
                        musical_time,
                        proc_start: 0,
                        proc_total: nframes as nat,
                        proc_ev_idx: 0,
                        in_process: true,
                        ..old(self)@
                    },
                )
            }),
            forall|j: int|
                0 <= j < old(self)@.events.len() ==> ((#[trigger] old(self)@.events[j]).frame
                    == old(self)@.events[j].frame && exists|i: int|
                    0 <= i < r@.len() && (#[trigger] r@[i]).start == old(self)@.events[j].frame),
    {
        self.begin_process(musical_time, nframes);
        let ghost v0 = self@;
        let mut r: Vec<Subblock> = Vec::new();
        let mut done = false;
        while !done
            invariant
                self@.wf(),
                self@.params == old(self)@.params,
                self@.model.len() == old(self)@.model.len(),
                r@.len() > 0 ==> r@[0].start == 0,
                forall|i: int|
                    0 < i < r@.len() ==> (#[trigger] r@[i]).start == r@[i - 1].start + r@[i
                        - 1].frames,
                forall|i: int|
                    0 <= i < r@.len() ==> 1 <= (#[trigger] r@[i]).frames <= MAX_BLOCKSIZE,
                forall|i: int|
                    0 <= i < r@.len() ==> (#[trigger] r@[i]).frames == sub_size(
                        old(self)@.events,
                        nframes as int,
                        r@[i].start as int,
                    ),
                forall|i: int|
                    0 <= i < r@.len() ==> {
                        let w0 = events_through(old(self)@.events, r@[i].start as int - 1);
                        let w1 = events_through(old(self)@.events, r@[i].start as int);
                        &&& (#[trigger] r@[i]).midi@ == midi_of(
                            old(self)@.events.subrange(w0, w1),
                        )
                        &&& r@[i].dsp_notifies@ == notifies_of(
                            old(self)@.params,
                            old(self)@.events.subrange(w0, w1),
                        )
                    },
                v0 == (WrapperView {
                    musical_time,
                    proc_start: 0,
                    proc_total: nframes as nat,
                    proc_ev_idx: 0,
                    in_process: true,
                    ..old(self)@
                }),
                !done ==> session_run(v0) == session_run(self@),
                done ==> self@ == (WrapperView {
                    events: Seq::empty(),
                    proc_ev_idx: 0,
                    in_process: false,
                    ..session_run(v0)
                }),
                !done ==> {
                    &&& self@.in_process
                    &&& self@.proc_total == nframes
                    &&& self@.events == old(self)@.events
                    &&& (forall|j: int|
                        0 <= j < self@.proc_ev_idx ==> (#[trigger] self@.events[j]).frame
                            <= self@.proc_start - 1)
                    &&& (r@.len() == 0 ==> self@.proc_start == 0)
                    &&& (r@.len() > 0 ==> self@.proc_start == r@[r@.len() - 1].start + r@[r@.len()
                        - 1].frames)
                    &&& (forall|j: int|
                        0 <= j < self@.proc_ev_idx ==> ((#[trigger] self@.events[j]).frame
                            == self@.events[j].frame && exists|i: int|
                            0 <= i < r@.len() && (#[trigger] r@[i]).start
                                == self@.events[j].frame))
                },
                done ==> {
                    &&& !self@.in_process
                    &&& self@.events.len() == 0
                    &&& (nframes >= 1 ==> r@.len() >= 1)
                    &&& (nframes == 0 ==> r@.len() == 0)
                    &&& (r@.len() > 0 ==> r@[r@.len() - 1].start + r@[r@.len() - 1].frames
                        == nframes)
                    &&& (forall|j: int|
                        0 <= j < old(self)@.events.len() ==> ((#[trigger] old(
                            self,
                        )@.events[j]).frame == old(self)@.events[j].frame && exists|i: int|
                            0 <= i < r@.len() && (#[trigger] r@[i]).start == old(
                                self,
                            )@.events[j].frame))
                },
            decreases (if done {
                0int
            } else {
                self@.proc_total - self@.proc_start + 1
            }),
        {
            let ghost pre = self@;
            let ghost r_pre = r@;
            match self.next_subblock() {
                Some(sb) => {
                    r.push(sb);
                    proof {
                        // the dispatch cursor now sits exactly past every
                        // event due at or before the subblock's start
                        assert forall|j: int|
                            0 <= j < self@.proc_ev_idx implies (
                        #[trigger] self@.events[j]).frame <= self@.proc_start - 1 by {
                            if j < pre.proc_ev_idx {
                                assert(pre.events[j].frame <= pre.proc_start - 1);
                            } else {
                                assert(pre.events[j].frame == pre.proc_start);
                            }
                        };
                        assert forall|j: int|
                            0 <= j < self@.proc_ev_idx implies (
                        #[trigger] self@.events[j]).frame <= pre.proc_start by {
                            if j < pre.proc_ev_idx {
                                assert(pre.events[j].frame <= pre.proc_start - 1);
                            } else {
                                assert(pre.events[j].frame == pre.proc_start);
                            }
                        };
                        lemma_events_through_split(
                            old(self)@.events,
                            pre.proc_start as int,
                            self@.proc_ev_idx as int,
                        );
                        assert(sb.frames == sub_size(
                            old(self)@.events,
                            nframes as int,
                            sb.start as int,
                        ));
                        assert forall|i: int|
                            0 <= i < r@.len() implies (#[trigger] r@[i]).frames == sub_size(
                            old(self)@.events,
                            nframes as int,
                            r@[i].start as int,
                        ) by {
                            if i < r_pre.len() {
                                assert(r@[i] == r_pre[i]);
                            }
                        };
                        assert forall|j: int| 0 <= j < self@.proc_ev_idx implies ((
                        #[trigger] self@.events[j]).frame == self@.events[j].frame
                            && exists|i: int|
                            0 <= i < r@.len() && (#[trigger] r@[i]).start
                                == self@.events[j].frame) by {
                            if j < pre.proc_ev_idx {
                                let i0 = choose|i: int|
                                    0 <= i < r_pre.len() && (#[trigger] r_pre[i]).start
                                        == pre.events[j].frame;
                                assert(r@[i0].start == self@.events[j].frame);
                            } else {
                                assert(self@.events[j].frame == pre.proc_start);
                                assert(r@[r@.len() - 1].start == pre.proc_start);
                            }
                        };
                        // the cursor before this subblock counted exactly
                        // the events due strictly before its start
                        lemma_events_through_split(
                            old(self)@.events,
                            pre.proc_start as int - 1,
                            pre.proc_ev_idx as int,
                        );
                        // the step taken is the session step function
                        assert(pre.proc_start < pre.proc_total);
                        assert(self@ =~= step_view(pre));
                        assert(session_run(pre) == session_run(step_view(pre)));
                        // the new entry's dispatch window, in terms of the
                        // original event queue alone
                        assert forall|i: int| 0 <= i < r@.len() implies {
                            let w0 = events_through(old(self)@.events, r@[i].start as int - 1);
                            let w1 = events_through(old(self)@.events, r@[i].start as int);
                            &&& (#[trigger] r@[i]).midi@ == midi_of(
                                old(self)@.events.subrange(w0, w1),
                            )
                            &&& r@[i].dsp_notifies@ == notifies_of(
                                old(self)@.params,
                                old(self)@.events.subrange(w0, w1),
                            )
                        } by {
                            if i < r_pre.len() {
                                assert(r@[i] == r_pre[i]);
                            } else {
                                assert(r@[i] == sb);
                            }
                        };
                    }
                },
                None => {
                    done = true;
                    proof {
                        // the block was exhausted, so every event (all of
                        // which lie inside the block) has been dispatched
                        assert forall|j: int|
                            0 <= j < old(self)@.events.len() implies ((#[trigger] old(
                        self,
                        )@.events[j]).frame == old(self)@.events[j].frame && exists|i: int|
                            0 <= i < r@.len() && (#[trigger] r@[i]).start == old(
                            self,
                        )@.events[j].frame) by {
                            if j >= pre.proc_ev_idx {
                                assert(pre.events[j].frame >= pre.proc_start);
                                assert(pre.events[j].frame < pre.proc_total);
                                assert(false);
                            }
                            let i0 = choose|i: int|
                                0 <= i < r_pre.len() && (#[trigger] r_pre[i]).start
                                    == pre.events[j].frame;
                            assert(r@[i0].start == old(self)@.events[j].frame);
                        };
                        if r@.len() == 0 {
                            assert(pre.proc_start == 0 && nframes == 0);
                        }
                        if nframes == 0 && r@.len() > 0 {
                            assert(r@[r@.len() - 1].frames >= 1);
                            assert(false);
                        }
                        // the session has nothing left to do: its fold is
                        // the state the None step started from
                        assert(session_run(pre) == pre);
                        assert(self@ =~= (WrapperView {
                            events: Seq::empty(),
                            proc_ev_idx: 0,
                            in_process: false,
                            ..session_run(v0)
                        }));
                    }
                },
            }
        }
        r
    }

    /// Re-derives the canonical model from each slot's destination and
    /// collapses every slot onto it, dropping all ramp and fade state; the
    /// interface is told that a whole program changed.
    pub fn reset(&mut self)
        requires
            old(self)@.wf(),
            !old(self)@.in_process,
        ensures
            final(self)@.wf(),
            final(self)@ == (WrapperView {
                model: final(self)@.model,
                to_ui_items: final(self)@.to_ui_items,
                dropped_to_ui: final(self)@.dropped_to_ui,
                ..old(self)@
            }),
            final(self)@.model.len() == old(self)@.model.len(),
            forall|i: int|
                0 <= i < old(self)@.model.len() ==> final(self)@.model[i] == slot_reset(
                    #[trigger] old(self)@.model[i],
                    slot_value(old(self)@.model[i]),
                ),
            program_notify_outcome(old(self)@, final(self)@),
    {
        let m = self.smoothed_model.as_model();
        proof {
            assert forall|i: int| 0 <= i < self@.model.len() implies crate::model::slot_compat(
                #[trigger] self@.model[i],
                m@[i],
            ) by {
                assert(slot_wf(self@.model[i]));
            };
        }
        self.smoothed_model.reset(&m);
        if self.ui_connected {
            let ghost mid = self@;
            match self.to_ui.push(PlugToUIMsg::ProgramChanged(m)) {
                Ok(_) => {
                    proof {
                        assert(self@.to_ui_items.subrange(0, mid.to_ui_items.len() as int)
                            =~= mid.to_ui_items);
                    }
                },
                Err(_) => {
                    if self.dropped_to_ui < usize::MAX {
                        self.dropped_to_ui = self.dropped_to_ui + 1;
                    }
                },
            }
        }
        proof {
            assert forall|i: int| 0 <= i < self@.model.len() implies slot_wf(
                #[trigger] self@.model[i],
            ) by {
                crate::model::lemma_slot_reset_wf(
                    old(self)@.model[i],
                    slot_value(old(self)@.model[i]),
                );
            };
            assert forall|i: int| 0 <= i < self@.params.len() implies (
            #[trigger] self@.params[i]).fits(self@.model) by {
                assert(self@.params[i].fits(old(self)@.model));
                assert(self@.model[self@.params[i].slot as int] == slot_reset(
                    old(self)@.model[self@.params[i].slot as int],
                    slot_value(old(self)@.model[self@.params[i].slot as int]),
                ));
            };
        }
    }

    /// A sample-rate change: every filter's coefficients are re-derived
    /// from its own time constant, and the whole model is hard-reset so
    /// that no ramp or crossfade runs across the boundary.
    pub fn set_sample_rate(&mut self, sample_rate: Fixed)
        requires
            old(self)@.wf(),
            !old(self)@.in_process,
        ensures
            final(self)@.wf(),
            final(self)@.sample_rate == sample_rate,
            final(self)@.model.len() == old(self)@.model.len(),
            forall|i: int|
                0 <= i < old(self)@.model.len() ==> final(self)@.model[i] == slot_reset(
                    slot_with_rate(#[trigger] old(self)@.model[i], sample_rate),
                    slot_value(slot_with_rate(old(self)@.model[i], sample_rate)),
                ),
    {
        self.sample_rate = sample_rate;
        self.smoothed_model.set_sample_rate(sample_rate);
        proof {
            assert forall|i: int| 0 <= i < self@.params.len() implies (
            #[trigger] self@.params[i]).fits(self@.model) by {
                assert(self@.params[i].fits(old(self)@.model));
                assert(self@.model[self@.params[i].slot as int] == slot_with_rate(
                    old(self)@.model[self@.params[i].slot as int],
                    sample_rate,
                ));
            };
        }
        self.reset();
    }

    /// Queues an event the plugin emitted during a subblock: its frame,
    /// relative to the subblock it was emitted in, is rebased onto the
    /// whole block and the event is inserted frame-sorted into the output
    /// queue that the host adapter drains after the call.
    pub fn enqueue_output_event(&mut self, subblock_start: usize, ev: Event)
        requires
            old(self)@.wf(),
            ev.frame + subblock_start <= usize::MAX,
        ensures
            final(self)@.wf(),
            final(self)@ == (WrapperView {
                output_events: final(self)@.output_events,
                ..old(self)@
            }),
            exists|k: int|
                {
                    &&& 0 <= k <= old(self)@.output_events.len()
                    &&& final(self)@.output_events == #[trigger] old(self)@.output_events.insert(
                        k,
                        Event { frame: (ev.frame + subblock_start) as usize, data: ev.data },
                    )
                },
    {
        let rebased = Event { frame: ev.frame + subblock_start, data: ev.data };
        enqueue_event_in(rebased, &mut self.output_events);
    }

    /// Hands the accumulated output events to the host adapter, leaving
    /// the output queue empty.
    pub fn drain_output_events(&mut self) -> (r: Vec<Event>)
        ensures
            r@ == old(self)@.output_events,
            final(self)@ == (WrapperView { output_events: Seq::empty(), ..old(self)@ }),
    {
        let mut out: Vec<Event> = Vec::new();
        core::mem::swap(&mut out, &mut self.output_events);
        proof {
            assert(self@.output_events =~= Seq::<Event>::empty());
        }
        out
    }

    /// Persists the canonical model: every slot's destination value,
    /// self-describing with its slot name, in slot order.
    pub fn serialise(&self) -> (r: Vec<u8>)
        requires
            self@.wf(),
        ensures
            r@ == encode_model(self@.slot_names, model_values(self@.model)),
    {
        let vals = self.smoothed_model.as_model();
        proof {
            assert(vals@ =~= model_values(self@.model));
        }
        encode_values(&self.slot_names, &vals)
    }

    /// Restores a persisted state. A blob that is exactly an encoding of
    /// compatible values under this wrapper's slot names is applied with
    /// smoothing, slot for slot, and the call reports success; any other
    /// blob leaves the model untouched — no partial or corrupt apply.
    pub fn deserialise(&mut self, data: &[u8]) -> (r: bool)
        requires
            old(self)@.wf(),
        ensures
            final(self)@.wf(),
            !r ==> final(self)@ == old(self)@,
            r ==> exists|vals: Seq<SlotValue>|
                {
                    &&& data@ == #[trigger] encode_model(old(self)@.slot_names, vals)
                    &&& vals.len() == old(self)@.model.len()
                    &&& final(self)@ == (WrapperView { model: final(self)@.model, ..old(self)@ })
                    &&& final(self)@.model.len() == old(self)@.model.len()
                    &&& (forall|i: int|
                        0 <= i < old(self)@.model.len() ==> final(self)@.model[i] == slot_set(
                            #[trigger] old(self)@.model[i],
                            vals[i],
                        ))
                },
            forall|vals: Seq<SlotValue>|
                (#[trigger] encode_model(old(self)@.slot_names, vals) == data@ && vals.len()
                    == old(self)@.model.len() && (forall|i: int|
                    0 <= i < vals.len() ==> crate::model::slot_compat(
                        #[trigger] old(self)@.model[i],
                        vals[i],
                    ))) ==> r,
    {
        let cand = parse_state(&self.slot_names, &self.smoothed_model, data);
        match cand {
            None => false,
            Some(vals) => {
                let reencoded = encode_values(&self.slot_names, &vals);
                if bytes_eq(&reencoded, data) {
                    self.smoothed_model.set(&vals);
                    proof {
                        assert forall|i: int| 0 <= i < self@.model.len() implies slot_wf(
                            #[trigger] self@.model[i],
                        ) by {
                            crate::model::lemma_slot_set_wf(old(self)@.model[i], vals@[i]);
                        };
                        assert forall|i: int| 0 <= i < self@.params.len() implies (
                        #[trigger] self@.params[i]).fits(self@.model) by {
                            assert(self@.params[i].fits(old(self)@.model));
                            assert(self@.model[self@.params[i].slot as int] == slot_set(
                                old(self)@.model[self@.params[i].slot as int],
                                vals@[self@.params[i].slot as int],
                            ));
                        };
                    }
                    true
                } else {
                    false
                }
            },
        }
    }
}

/// Parses a candidate value list out of persisted bytes, checking the
/// entry count, every stored name, every value's range, and every value's
/// kind against the model's slots. Any exact encoding of compatible values
/// parses back to exactly those values; anything it accepts satisfies the
/// model's slot kinds.
fn parse_state(names: &Vec<Vec<u8>>, model: &SmoothedModel, data: &[u8]) -> (r: Option<
    Vec<SlotValue>,
>)
    requires
        names@.len() == model@.len(),
    ensures
        r is Some ==> r.unwrap()@.len() == names@.len(),
        r is Some ==> forall|i: int|
            0 <= i < names@.len() ==> crate::model::slot_compat(
                #[trigger] model@[i],
                r.unwrap()@[i],
            ),
        forall|vals0: Seq<SlotValue>|
            (#[trigger] encode_model(names_view(names@), vals0) == data@
                && vals0.len() == names@.len() && (forall|i: int|
                0 <= i < vals0.len() ==> crate::model::slot_compat(
                    #[trigger] model@[i],
                    vals0[i],
                ))) ==> (r is Some && r.unwrap()@ == vals0),
{
    let ghost names_v = names_view(names@);
    proof {
        lemma_auto_spec_u64_to_from_le_bytes();
    }
    let n = names.len();
    if data.len() < 8 {
        proof {
            assert forall|v0: Seq<SlotValue>| ((#[trigger] encode_model(names_v, v0)) == data@ && v0.len() == names@.len() && (forall|ii: int| 0 <= ii < v0.len() ==> crate::model::slot_compat(#[trigger] model@[ii], v0[ii]))) implies false by {
                assert(data@.len() >= 8);
            };
        }
        return None;
    }
    let cnt = u64_from_le_bytes(slice_subrange(data, 0, 8));
    if cnt != n as u64 {
        proof {
            assert forall|v0: Seq<SlotValue>| ((#[trigger] encode_model(names_v, v0)) == data@ && v0.len() == names@.len() && (forall|ii: int| 0 <= ii < v0.len() ==> crate::model::slot_compat(#[trigger] model@[ii], v0[ii]))) implies false by {
                assert(data@.subrange(0, 8) =~= spec_u64_to_le_bytes(v0.len() as u64));
            };
        }
        return None;
    }
    let mut vals: Vec<SlotValue> = Vec::new();
    let mut pos: usize = 8;
    let mut i: usize = 0;
    while i < n
        invariant
            names@.len() == model@.len(),
            names_v == names_view(names@),
            n == names@.len(),
            i <= n,
            vals@.len() == i,
            8 <= pos <= data@.len(),
            forall|j: int|
                0 <= j < i ==> crate::model::slot_compat(#[trigger] model@[j], vals@[j]),
            forall|v0: Seq<SlotValue>|
                ((#[trigger] encode_model(names_v, v0)) == data@ && v0.len() == names@.len() && (forall|ii: int| 0 <= ii < v0.len() ==> crate::model::slot_compat(#[trigger] model@[ii], v0[ii]))) ==> {
                    &&& data@.subrange(pos as int, data@.len() as int) == encode_entries(
                        names_v,
                        v0,
                        i as int,
                    )
                    &&& vals@ == v0.subrange(0, i as int)
                },
        decreases n - i,
    {
        proof {
            lemma_auto_spec_u64_to_from_le_bytes();
        }
        let name_len = names[i].len();
        let ghost suffix = data@.subrange(pos as int, data@.len() as int);
        proof {
            assert forall|v0: Seq<SlotValue>| ((#[trigger] encode_model(names_v, v0)) == data@ && v0.len() == names@.len() && (forall|ii: int| 0 <= ii < v0.len() ==> crate::model::slot_compat(#[trigger] model@[ii], v0[ii]))) implies suffix
                == encode_entry(names_v[i as int], v0[i as int]) + encode_entries(
                names_v,
                v0,
                i as int + 1,
            ) && encode_entry(names_v[i as int], v0[i as int]).len() == 17 + names_v[
                i as int
            ].len() by {
                assert(encode_value(v0[i as int]).len() == 9);
            };
        }
        if data.len() - pos < 8 {
            proof {
                assert forall|v0: Seq<SlotValue>| ((#[trigger] encode_model(names_v, v0)) == data@ && v0.len() == names@.len() && (forall|ii: int| 0 <= ii < v0.len() ==> crate::model::slot_compat(#[trigger] model@[ii], v0[ii]))) implies false by {
                    assert(suffix.len() >= 17);
                };
            }
            return None;
        }
        let nl = u64_from_le_bytes(slice_subrange(data, pos, pos + 8));
        if nl != name_len as u64 {
            proof {
                assert forall|v0: Seq<SlotValue>| ((#[trigger] encode_model(names_v, v0)) == data@ && v0.len() == names@.len() && (forall|ii: int| 0 <= ii < v0.len() ==> crate::model::slot_compat(#[trigger] model@[ii], v0[ii]))) implies false by {
                    assert(data@.subrange(pos as int, pos as int + 8) =~= spec_u64_to_le_bytes(
                        names_v[i as int].len() as u64,
                    ));
                    assert(names_v[i as int].len() == name_len);
                };
            }
            return None;
        }
        let pos1 = pos + 8;
        if data.len() - pos1 < name_len {
            proof {
                assert forall|v0: Seq<SlotValue>| ((#[trigger] encode_model(names_v, v0)) == data@ && v0.len() == names@.len() && (forall|ii: int| 0 <= ii < v0.len() ==> crate::model::slot_compat(#[trigger] model@[ii], v0[ii]))) implies false by {
                    assert(suffix.len() >= 17 + names_v[i as int].len());
                };
            }
            return None;
        }
        if !bytes_eq(&names[i], slice_subrange(data, pos1, pos1 + name_len)) {
            proof {
                assert forall|v0: Seq<SlotValue>| ((#[trigger] encode_model(names_v, v0)) == data@ && v0.len() == names@.len() && (forall|ii: int| 0 <= ii < v0.len() ==> crate::model::slot_compat(#[trigger] model@[ii], v0[ii]))) implies false by {
                    let entry = encode_entry(names_v[i as int], v0[i as int]);
                    let rest = encode_entries(names_v, v0, i as int + 1);
                    assert(suffix == entry + rest);
                    assert(entry.subrange(8, 8 + name_len as int) =~= names_v[i as int]);
                    assert(data@.subrange(pos1 as int, pos1 as int + name_len as int)
                        =~= suffix.subrange(8, 8 + name_len as int));
                    assert(suffix.subrange(8, 8 + name_len as int) =~= entry.subrange(
                        8,
                        8 + name_len as int,
                    ));
                };
            }
            return None;
        }
        let pos2 = pos1 + name_len;
        if data.len() - pos2 < 9 {
            proof {
                assert forall|v0: Seq<SlotValue>| ((#[trigger] encode_model(names_v, v0)) == data@ && v0.len() == names@.len() && (forall|ii: int| 0 <= ii < v0.len() ==> crate::model::slot_compat(#[trigger] model@[ii], v0[ii]))) implies false by {
                    assert(suffix.len() >= 17 + names_v[i as int].len());
                };
            }
            return None;
        }
        let kind = data[pos2];
        let mag = u64_from_le_bytes(slice_subrange(data, pos2 + 1, pos2 + 9));
        proof {
            assert forall|v0: Seq<SlotValue>| ((#[trigger] encode_model(names_v, v0)) == data@ && v0.len() == names@.len() && (forall|ii: int| 0 <= ii < v0.len() ==> crate::model::slot_compat(#[trigger] model@[ii], v0[ii]))) implies kind
                == encode_value(v0[i as int])[0] && data@.subrange(
                pos2 as int + 1,
                pos2 as int + 9,
            ) == encode_value(v0[i as int]).subrange(1, 9) by {
                let entry = encode_entry(names_v[i as int], v0[i as int]);
                let rest = encode_entries(names_v, v0, i as int + 1);
                let value = encode_value(v0[i as int]);
                assert(suffix == entry + rest);
                assert(entry =~= spec_u64_to_le_bytes(names_v[i as int].len() as u64)
                    + names_v[i as int] + value);
                assert(entry[8 + name_len as int] == value[0]);
                assert(data@[pos2 as int] == suffix[8 + name_len as int]);
                assert(suffix[8 + name_len as int] == entry[8 + name_len as int]);
                assert(data@.subrange(pos2 as int + 1, pos2 as int + 9) =~= suffix.subrange(
                    9 + name_len as int,
                    17 + name_len as int,
                ));
                assert(suffix.subrange(9 + name_len as int, 17 + name_len as int)
                    =~= entry.subrange(9 + name_len as int, 17 + name_len as int));
                assert(entry.subrange(9 + name_len as int, 17 + name_len as int) =~= value.subrange(
                    1,
                    9,
                ));
            };
        }
        let parsed: SlotValue;
        if kind == 0u8 {
            if mag > 9223372036854775808u64 {
                proof {
                    assert forall|v0: Seq<SlotValue>| ((#[trigger] encode_model(names_v, v0)) == data@ && v0.len() == names@.len() && (forall|ii: int| 0 <= ii < v0.len() ==> crate::model::slot_compat(#[trigger] model@[ii], v0[ii]))) implies false by {
                        lemma_value_bytes(v0[i as int], 0u8, mag);
                    };
                }
                return None;
            }
            let w: i128 = -(mag as i128);
            parsed = SlotValue::Num(Fixed::from_raw(w as i64));
        } else if kind == 1u8 {
            if mag > 9223372036854775807u64 {
                proof {
                    assert forall|v0: Seq<SlotValue>| ((#[trigger] encode_model(names_v, v0)) == data@ && v0.len() == names@.len() && (forall|ii: int| 0 <= ii < v0.len() ==> crate::model::slot_compat(#[trigger] model@[ii], v0[ii]))) implies false by {
                        lemma_value_bytes(v0[i as int], 1u8, mag);
                    };
                }
                return None;
            }
            parsed = SlotValue::Num(Fixed::from_raw(mag as i64));
        } else if kind == 2u8 {
            if mag > 0xFFFF_FFFFu64 {
                proof {
                    assert forall|v0: Seq<SlotValue>| ((#[trigger] encode_model(names_v, v0)) == data@ && v0.len() == names@.len() && (forall|ii: int| 0 <= ii < v0.len() ==> crate::model::slot_compat(#[trigger] model@[ii], v0[ii]))) implies false by {
                        lemma_value_bytes(v0[i as int], 2u8, mag);
                    };
                }
                return None;
            }
            parsed = SlotValue::Disc(mag as u32);
        } else {
            proof {
                assert forall|v0: Seq<SlotValue>| ((#[trigger] encode_model(names_v, v0)) == data@ && v0.len() == names@.len() && (forall|ii: int| 0 <= ii < v0.len() ==> crate::model::slot_compat(#[trigger] model@[ii], v0[ii]))) implies false by {
                    lemma_value_bytes(v0[i as int], kind, mag);
                };
            }
            return None;
        }
        proof {
            assert forall|v0: Seq<SlotValue>| ((#[trigger] encode_model(names_v, v0)) == data@ && v0.len() == names@.len() && (forall|ii: int| 0 <= ii < v0.len() ==> crate::model::slot_compat(#[trigger] model@[ii], v0[ii]))) implies parsed
                == v0[i as int] by {
                lemma_value_bytes(v0[i as int], kind, mag);
            };
        }
        let compatible = match (model.get_value(i), parsed) {
            (SlotValue::Num(_), SlotValue::Num(_)) => true,
            (SlotValue::Disc(_), SlotValue::Disc(_)) => true,
            _ => false,
        };
        if !compatible {
            proof {
                assert forall|v0: Seq<SlotValue>| ((#[trigger] encode_model(names_v, v0)) == data@ && v0.len() == names@.len() && (forall|ii: int| 0 <= ii < v0.len() ==> crate::model::slot_compat(#[trigger] model@[ii], v0[ii]))) implies false by {
                    assert(crate::model::slot_compat(model@[i as int], v0[i as int]));
                    assert(slot_value(model@[i as int]) is Num <==> !(model@[i as int]
                        is Declicked));
                };
            }
            return None;
        }
        vals.push(parsed);
        let new_pos = pos2 + 9;
        proof {
            assert forall|v0: Seq<SlotValue>| ((#[trigger] encode_model(names_v, v0)) == data@ && v0.len() == names@.len() && (forall|ii: int| 0 <= ii < v0.len() ==> crate::model::slot_compat(#[trigger] model@[ii], v0[ii]))) implies data@.subrange(
                new_pos as int,
                data@.len() as int,
            ) == encode_entries(names_v, v0, i as int + 1) && vals@ == v0.subrange(
                0,
                i as int + 1,
            ) by {
                let entry = encode_entry(names_v[i as int], v0[i as int]);
                let rest = encode_entries(names_v, v0, i as int + 1);
                assert(suffix == entry + rest);
                assert(data@.subrange(new_pos as int, data@.len() as int) =~= suffix.subrange(
                    17 + name_len as int,
                    suffix.len() as int,
                ));
                assert(suffix.subrange(17 + name_len as int, suffix.len() as int) =~= rest);
                assert(vals@ =~= v0.subrange(0, i as int + 1));
            };
        }
        pos = new_pos;
        i = i + 1;
    }
    if pos != data.len() {
        proof {
            assert forall|v0: Seq<SlotValue>| ((#[trigger] encode_model(names_v, v0)) == data@ && v0.len() == names@.len() && (forall|ii: int| 0 <= ii < v0.len() ==> crate::model::slot_compat(#[trigger] model@[ii], v0[ii]))) implies false by {
                assert(data@.subrange(pos as int, data@.len() as int).len() == 0);
            };
        }
        return None;
    }
    proof {
        assert forall|v0: Seq<SlotValue>| ((#[trigger] encode_model(names_v, v0)) == data@ && v0.len() == names@.len() && (forall|ii: int| 0 <= ii < v0.len() ==> crate::model::slot_compat(#[trigger] model@[ii], v0[ii]))) implies vals@ == v0 by {
            assert(vals@ =~= v0.subrange(0, n as int));
            assert(v0.subrange(0, n as int) =~= v0);
        };
    }
    Some(vals)
}

/// State save and restore round-trip: a wrapper's own snapshot is always
/// compatible with its own slots, so the bytes that `serialise` produces
/// satisfy the acceptance condition of `deserialise` — restoring a saved
/// state never fails, and re-applies exactly the saved destination values.
pub proof fn lemma_state_snapshot_accepted(a: WrapperView)
    requires
        a.wf(),
    ensures
        model_values(a.model).len() == a.model.len(),
        forall|i: int|
            0 <= i < a.model.len() ==> crate::model::slot_compat(
                #[trigger] a.model[i],
                model_values(a.model)[i],
            ),
{
    assert forall|i: int| 0 <= i < a.model.len() implies crate::model::slot_compat(
        #[trigger] a.model[i],
        model_values(a.model)[i],
    ) by {
        assert(slot_wf(a.model[i]));
    };
}

/// Connects a value to the kind byte and magnitude of its encoding: the
/// kind byte fixes the case and the magnitude fixes the value.
proof fn lemma_value_bytes(v: SlotValue, kind: u8, mag: u64)
    requires
        kind == encode_value(v)[0],
        spec_u64_to_le_bytes(mag) == encode_value(v).subrange(1, 9),
    ensures
        kind == 0u8 ==> v is Num && (v->Num_0).raw < 0 && mag == -((v->Num_0).raw as int)
            && mag <= 9223372036854775808u64,
        kind == 1u8 ==> v is Num && (v->Num_0).raw >= 0 && mag == (v->Num_0).raw as int,
        kind == 2u8 ==> v is Disc && mag == v->Disc_0 as int,
        kind == 0u8 || kind == 1u8 || kind == 2u8,
{
    lemma_auto_spec_u64_to_from_le_bytes();
    match v {
        SlotValue::Num(f) => {
            if f.raw < 0 {
                let m0 = (-(f.raw as int)) as u64;
                assert(encode_value(v) =~= seq![0u8] + spec_u64_to_le_bytes(m0));
                assert(encode_value(v).subrange(1, 9) =~= spec_u64_to_le_bytes(m0));
                assert(spec_u64_from_le_bytes(spec_u64_to_le_bytes(mag)) == mag);
                assert(spec_u64_from_le_bytes(spec_u64_to_le_bytes(m0)) == m0);
            } else {
                let m0 = f.raw as u64;
                assert(encode_value(v) =~= seq![1u8] + spec_u64_to_le_bytes(m0));
                assert(encode_value(v).subrange(1, 9) =~= spec_u64_to_le_bytes(m0));
                assert(spec_u64_from_le_bytes(spec_u64_to_le_bytes(mag)) == mag);
                assert(spec_u64_from_le_bytes(spec_u64_to_le_bytes(m0)) == m0);
            }
        },
        SlotValue::Disc(d) => {
            let m0 = d as u64;
            assert(encode_value(v) =~= seq![2u8] + spec_u64_to_le_bytes(m0));
            assert(encode_value(v).subrange(1, 9) =~= spec_u64_to_le_bytes(m0));
            assert(spec_u64_from_le_bytes(spec_u64_to_le_bytes(mag)) == mag);
            assert(spec_u64_from_le_bytes(spec_u64_to_le_bytes(m0)) == m0);
        },
    }
}

/// How a program-changed notification may end: not connected leaves the
/// queue alone; a queue with room gets the full model snapshot appended; a
/// full queue drops it and counts the loss.
pub open spec fn program_notify_outcome(a: WrapperView, b: WrapperView) -> bool {
    if !a.ui_connected {
        b.to_ui_items == a.to_ui_items && b.dropped_to_ui == a.dropped_to_ui
    } else if a.to_ui_items.len() < a.to_ui_cap {
        &&& b.to_ui_items.len() == a.to_ui_items.len() + 1
        &&& b.to_ui_items.subrange(0, a.to_ui_items.len() as int) == a.to_ui_items
        &&& b.to_ui_items.last() is ProgramChanged
        &&& (b.to_ui_items.last()->0)@.len() == a.model.len()
        &&& (forall|i: int|
            0 <= i < a.model.len() ==> (b.to_ui_items.last()->0)@[i] == slot_value(
                #[trigger] a.model[i],
            ))
        &&& b.dropped_to_ui == a.dropped_to_ui
    } else {
        b.to_ui_items == a.to_ui_items && b.dropped_to_ui == (if a.dropped_to_ui < usize::MAX
            as nat {
            a.dropped_to_ui + 1
        } else {
            a.dropped_to_ui
        })
    }
}

/// The views of a list of byte-vector names.
pub open spec fn names_view(names: Seq<Vec<u8>>) -> Seq<Seq<u8>> {
    Seq::new(names.len(), |i: int| names[i]@)
}

/// The destination value of every slot: the canonical model snapshot.
pub open spec fn model_values(m: Seq<SlotView>) -> Seq<SlotValue> {
    Seq::new(m.len(), |i: int| slot_value(m[i]))
}

/// The byte encoding of one slot value: a kind byte (0 negative number, 1
/// nonnegative number, 2 discrete) followed by the magnitude, little
/// endian.
pub open spec fn encode_value(v: SlotValue) -> Seq<u8> {
    match v {
        SlotValue::Num(f) => if f.raw < 0 {
            seq![0u8] + spec_u64_to_le_bytes((-(f.raw as int)) as u64)
        } else {
            seq![1u8] + spec_u64_to_le_bytes(f.raw as u64)
        },
        SlotValue::Disc(d) => seq![2u8] + spec_u64_to_le_bytes(d as u64),
    }
}

/// The byte encoding of one named entry: name length, name bytes, value.
pub open spec fn encode_entry(name: Seq<u8>, v: SlotValue) -> Seq<u8> {
    spec_u64_to_le_bytes(name.len() as u64) + name + encode_value(v)
}

/// The byte encoding of the entries from `i` on.
pub open spec fn encode_entries(names: Seq<Seq<u8>>, vals: Seq<SlotValue>, i: int) -> Seq<u8>
    decreases vals.len() - i,
{
    if i < 0 || i >= vals.len() {
        Seq::empty()
    } else {
        encode_entry(names[i], vals[i]) + encode_entries(names, vals, i + 1)
    }
}

/// The persisted state: an entry count followed by one named entry per
/// slot, in slot order. The format is self-describing — every field name
/// is stored and checked on restore.
pub open spec fn encode_model(names: Seq<Seq<u8>>, vals: Seq<SlotValue>) -> Seq<u8> {
    spec_u64_to_le_bytes(vals.len() as u64) + encode_entries(names, vals, 0)
}

/// Appends the encoding of one value.
fn push_value(out: &mut Vec<u8>, v: SlotValue)
    ensures
        final(out)@ == old(out)@ + encode_value(v),
{
    match v {
        SlotValue::Num(f) => {
            if f.raw < 0 {
                out.push(0u8);
                let w: i128 = -(f.raw as i128);
                let mut b = u64_to_le_bytes(w as u64);
                out.append(&mut b);
            } else {
                out.push(1u8);
                let mut b = u64_to_le_bytes(f.raw as u64);
                out.append(&mut b);
            }
        },
        SlotValue::Disc(d) => {
            out.push(2u8);
            let mut b = u64_to_le_bytes(d as u64);
            out.append(&mut b);
        },
    }
    proof {
        assert(out@ =~= old(out)@ + encode_value(v));
    }
}

/// Builds the byte encoding of the given values under the given names.
fn encode_values(names: &Vec<Vec<u8>>, vals: &Vec<SlotValue>) -> (r: Vec<u8>)
    requires
        names@.len() == vals@.len(),
    ensures
        r@ == encode_model(names_view(names@), vals@),
{
    let ghost names_v = names_view(names@);
    let mut out: Vec<u8> = Vec::new();
    let mut cnt = u64_to_le_bytes(vals.len() as u64);
    out.append(&mut cnt);
    let mut i: usize = 0;
    while i < vals.len()
        invariant
            names@.len() == vals@.len(),
            names_v == names_view(names@),
            i <= vals@.len(),
            out@ + encode_entries(names_v, vals@, i as int) == encode_model(names_v, vals@),
        decreases vals@.len() - i,
    {
        let ghost out0 = out@;
        let mut lenb = u64_to_le_bytes(names[i].len() as u64);
        out.append(&mut lenb);
        out.extend_from_slice(names[i].as_slice());
        push_value(&mut out, vals[i]);
        proof {
            assert(out@ =~= out0 + encode_entry(names_v[i as int], vals@[i as int]));
            assert(out0 + encode_entries(names_v, vals@, i as int) =~= (out0 + encode_entry(
                names_v[i as int],
                vals@[i as int],
            )) + encode_entries(names_v, vals@, i as int + 1));
        }
        i = i + 1;
    }
    proof {
        assert(out@ + Seq::<u8>::empty() =~= out@);
    }
    out
}

/// Whether a byte vector and a byte slice hold the same bytes.
fn bytes_eq(a: &Vec<u8>, b: &[u8]) -> (r: bool)
    ensures
        r <==> a@ == b@,
{
    if a.len() != b.len() {
        proof {
            assert(a@.len() != b@.len());
        }
        return false;
    }
    let mut i: usize = 0;
    while i < a.len()
        invariant
            a@.len() == b@.len(),
            i <= a@.len(),
            forall|j: int| 0 <= j < i ==> a@[j] == b@[j],
        decreases a@.len() - i,
    {
        if a[i] != b[i] {
            return false;
        }
        i = i + 1;
    }
    proof {
        assert(a@ =~= b@);
    }
    true
}

/// How one notification attempt may end: not connected leaves everything
/// alone; a queue with room appends the message; a full queue drops it and
/// counts the loss.
pub open spec fn notify_outcome(a: WrapperView, b: WrapperView, msg: PlugToUIMsg) -> bool {
    if !a.ui_connected {
        b.to_ui_items == a.to_ui_items && b.dropped_to_ui == a.dropped_to_ui
    } else if a.to_ui_items.len() < a.to_ui_cap {
        b.to_ui_items == a.to_ui_items.push(msg) && b.dropped_to_ui == a.dropped_to_ui
    } else {
        b.to_ui_items == a.to_ui_items && b.dropped_to_ui == (if a.dropped_to_ui
            < usize::MAX as nat {
            a.dropped_to_ui + 1
        } else {
            a.dropped_to_ui
        })
    }
}

} // verus!
