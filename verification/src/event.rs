//! Events scheduled against a frame offset within one processing call.

use vstd::prelude::*;

verus! {

use crate::fixed::Fixed;

/// What an event carries: raw MIDI bytes for the plugin's MIDI hook, or a
/// parameter change in normalized form. A parameter change remembers
/// whether the interface still has to be told about it.
#[derive(Debug, Clone, Copy)]
pub enum Data {
    Midi([u8; 3]),
    Parameter { param_idx: usize, val: Fixed, notify_ui: bool },
}

/// An event due at frame `frame` of the current processing call.
#[derive(Debug, Clone, Copy)]
pub struct Event {
    pub frame: usize,
    pub data: Data,
}

/// Frames never decrease along the queue: the scheduler can dispatch by
/// walking it front to back.
pub open spec fn sorted_by_frame(s: Seq<Event>) -> bool {
    forall|i: int, j: int| 0 <= i < j < s.len() ==> (#[trigger] s[i]).frame <= (#[trigger] s[j]).frame
}

} // verus!
