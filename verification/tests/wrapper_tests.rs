use baseplug::parameter::{Gradient, Param, ParamInfo, Type, Unit};
use baseplug::{
    Event, Fixed, MusicalTime, PlugToUIMsg, Real, SlotValue, SmoothedModel, UIToPlugMsg,
    WrappedPlugin,
};
use baseplug::event::Data;

const SCALE: f64 = 4294967296.0;

fn fx(v: f64) -> Fixed {
    Fixed::from_raw((v * SCALE).round() as i64)
}

fn to_f(v: Fixed) -> f64 {
    v.raw as f64 / SCALE
}

fn close(a: f64, b: f64, tol: f64) -> bool {
    (a - b).abs() <= tol
}

fn gain_param(idx: usize, slot: usize, dsp_notify: bool) -> Param {
    Param {
        info: ParamInfo {
            name: String::from("gain"),
            short_name: None,
            label: String::from("dB"),
            unit: Unit::Generic,
            param_type: Type::Numeric { min: fx(0.0), max: fx(2.0), gradient: Gradient::Linear },
            idx,
        },
        slot,
        dsp_notify,
    }
}

fn make_wrapper(dsp_notify: bool) -> WrappedPlugin {
    let mut model = SmoothedModel::new();
    model.push_smoothed(fx(1.0), fx(5.0));
    WrappedPlugin::new(
        vec![gain_param(0, 0, dsp_notify)],
        vec![b"gain".to_vec()],
        model,
    )
}

fn idle_time() -> MusicalTime {
    MusicalTime { bpm: fx(120.0), beat: Fixed::zero(), is_playing: true }
}

#[test]
fn subblock_sizing_with_event_boundary() {
    let mut plug = make_wrapper(false);
    plug.set_sample_rate(fx(48000.0));
    plug.midi_input(150, [0x90, 60, 100]);
    let schedule = plug.process(idle_time(), 300);
    let sizes: Vec<(usize, usize)> =
        schedule.iter().map(|sb| (sb.start, sb.frames)).collect();
    assert_eq!(sizes, vec![(0, 128), (128, 22), (150, 128), (278, 22)]);
    // the event was dispatched at the subblock starting on its frame
    assert_eq!(schedule[2].midi, vec![[0x90, 60, 100]]);
    assert!(schedule[0].midi.is_empty());
    assert!(schedule[1].midi.is_empty());
    assert!(schedule[3].midi.is_empty());
}

#[test]
fn events_dispatch_in_frame_order() {
    let mut plug = make_wrapper(false);
    plug.set_sample_rate(fx(48000.0));
    // enqueued out of order: frames 5, 2, 8
    plug.midi_input(5, [5, 5, 5]);
    plug.midi_input(2, [2, 2, 2]);
    plug.midi_input(8, [8, 8, 8]);
    let schedule = plug.process(idle_time(), 32);
    let mut seen: Vec<[u8; 3]> = Vec::new();
    for sb in schedule.iter() {
        for m in sb.midi.iter() {
            seen.push(*m);
        }
    }
    assert_eq!(seen, vec![[2, 2, 2], [5, 5, 5], [8, 8, 8]]);
    // each lands on a subblock boundary equal to its frame
    let starts: Vec<usize> = schedule.iter().map(|sb| sb.start).collect();
    assert!(starts.contains(&2) && starts.contains(&5) && starts.contains(&8));
}

#[test]
fn same_frame_events_share_one_boundary() {
    let mut plug = make_wrapper(false);
    plug.set_sample_rate(fx(48000.0));
    plug.midi_input(10, [1, 0, 0]);
    plug.midi_input(10, [2, 0, 0]);
    let schedule = plug.process(idle_time(), 64);
    // both events are dispatched together, in enqueue order, at frame 10
    let with_midi: Vec<&baseplug::Subblock> =
        schedule.iter().filter(|sb| !sb.midi.is_empty()).collect();
    assert_eq!(with_midi.len(), 1);
    assert_eq!(with_midi[0].start, 10);
    assert_eq!(with_midi[0].midi, vec![[1, 0, 0], [2, 0, 0]]);
}

#[test]
fn set_parameter_applies_and_reads_back() {
    let mut plug = make_wrapper(false);
    plug.set_sample_rate(fx(48000.0));
    plug.set_parameter(0, fx(0.25));
    let back = plug.get_parameter(0);
    assert!(close(to_f(back), 0.25, 1e-6));
}

#[test]
fn dsp_notify_parameter_defers_to_an_event() {
    let mut plug = make_wrapper(true);
    plug.set_sample_rate(fx(48000.0));
    plug.set_parameter(0, fx(0.25));
    // nothing applied yet: the change waits as a frame-0 event
    assert!(!close(to_f(plug.get_parameter(0)), 0.25, 1e-6));
    let schedule = plug.process(idle_time(), 16);
    // the hook fires on the first subblock, and the value is applied
    assert_eq!(schedule[0].dsp_notifies, vec![0]);
    assert!(close(to_f(plug.get_parameter(0)), 0.25, 1e-6));
}

#[test]
fn ui_notifications_drop_when_full() {
    let mut plug = make_wrapper(false);
    plug.set_sample_rate(fx(48000.0));
    plug.connect_ui(1);
    plug.set_parameter(0, fx(0.25));
    plug.set_parameter(0, fx(0.75));
    assert_eq!(plug.dropped_ui_messages(), 1);
    match plug.pop_ui_msg() {
        Some(PlugToUIMsg::ParamChanged { param_idx, normalized }) => {
            assert_eq!(param_idx, 0);
            assert!(close(to_f(normalized), 0.25, 1e-9));
        },
        _ => panic!("expected a parameter notification"),
    }
    assert!(plug.pop_ui_msg().is_none());
}

#[test]
fn ui_messages_apply_at_frame_zero() {
    let mut plug = make_wrapper(false);
    plug.set_sample_rate(fx(48000.0));
    plug.connect_ui(8);
    plug.apply_ui_msg(UIToPlugMsg::ParamChanged { param_idx: 0, normalized: fx(0.5) });
    let schedule = plug.process(idle_time(), 16);
    assert_eq!(schedule[0].start, 0);
    assert!(close(to_f(plug.get_parameter(0)), 0.5, 1e-6));
    plug.apply_ui_msg(UIToPlugMsg::Closed);
    // after a close, changes no longer notify the interface
    plug.set_parameter(0, fx(0.1));
    assert!(plug.pop_ui_msg().is_none());
}

#[test]
fn zero_frame_call_produces_no_subblock() {
    let mut plug = make_wrapper(false);
    plug.set_sample_rate(fx(48000.0));
    let schedule = plug.process(idle_time(), 0);
    assert!(schedule.is_empty());
    // the wrapper is immediately usable again
    let schedule = plug.process(idle_time(), 8);
    assert_eq!(schedule.len(), 1);
    assert_eq!((schedule[0].start, schedule[0].frames), (0, 8));
}

#[test]
fn musical_time_advances_across_subblocks() {
    let mut plug = make_wrapper(false);
    plug.set_sample_rate(fx(48000.0));
    // 120 bpm at 48 kHz: 24000 frames is exactly one beat
    plug.process(idle_time(), 24000);
    let t = plug.musical_time();
    assert!(close(to_f(t.beat), 1.0, 1e-3));
    assert_eq!(to_f(t.bpm), 120.0);
    assert!(t.is_playing);
}

#[test]
fn output_events_are_rebased_and_drained_sorted() {
    let mut plug = make_wrapper(false);
    plug.enqueue_output_event(128, Event { frame: 3, data: Data::Midi([9, 9, 9]) });
    plug.enqueue_output_event(0, Event { frame: 7, data: Data::Midi([7, 7, 7]) });
    let drained = plug.drain_output_events();
    let frames: Vec<usize> = drained.iter().map(|e| e.frame).collect();
    assert_eq!(frames, vec![7, 131]);
    assert!(plug.drain_output_events().is_empty());
}

#[test]
fn serialise_restores_destinations() {
    let mut plug = make_wrapper(false);
    plug.set_sample_rate(fx(48000.0));
    plug.set_parameter(0, fx(0.75));
    let blob = plug.serialise();

    let mut other = make_wrapper(false);
    other.set_sample_rate(fx(48000.0));
    assert!(other.deserialise(&blob));
    assert!(close(to_f(other.get_parameter(0)), 0.75, 1e-6));
}

#[test]
fn deserialise_rejects_garbage_unchanged() {
    let mut plug = make_wrapper(false);
    plug.set_parameter(0, fx(0.25));
    let before = plug.get_parameter(0);
    assert!(!plug.deserialise(b"not a state blob"));
    assert!(!plug.deserialise(&[]));
    // a truncated valid blob is rejected too
    let mut blob = plug.serialise();
    blob.pop();
    assert!(!plug.deserialise(&blob));
    assert_eq!(plug.get_parameter(0), before);
}

#[test]
fn deserialise_rejects_wrong_name() {
    let plug = make_wrapper(false);
    let blob = plug.serialise();

    let mut model = SmoothedModel::new();
    model.push_smoothed(fx(1.0), fx(5.0));
    let mut other = WrappedPlugin::new(
        vec![gain_param(0, 0, false)],
        vec![b"level".to_vec()],
        model,
    );
    assert!(!other.deserialise(&blob));
}

#[test]
fn reset_notifies_a_program_change() {
    let mut plug = make_wrapper(false);
    plug.set_sample_rate(fx(48000.0));
    plug.connect_ui(8);
    plug.set_parameter(0, fx(0.5));
    // drop the parameter notification, keep the program change
    let _ = plug.pop_ui_msg();
    plug.reset();
    match plug.pop_ui_msg() {
        Some(PlugToUIMsg::ProgramChanged(values)) => {
            assert_eq!(values.len(), 1);
            match values[0] {
                SlotValue::Num(v) => assert!(close(to_f(v), 1.0, 1e-6)),
                _ => panic!("expected a numeric slot"),
            }
        },
        _ => panic!("expected a program change"),
    }
}

#[test]
fn smoothing_ramps_across_a_block() {
    let mut plug = make_wrapper(false);
    plug.set_sample_rate(fx(48000.0));
    plug.set_parameter(0, fx(0.0));
    let _ = plug.process(idle_time(), 128);
    let model = plug.model();
    let out = model.smooth_output(0).expect("slot 0 is smoothed");
    // the ramp heads down from 1 toward 0 without arriving within one block
    let first = to_f(out.values[0]);
    let last = to_f(out.values[127]);
    assert!(first < 1.0);
    assert!(last < first);
    assert!(last > 0.0);
}
