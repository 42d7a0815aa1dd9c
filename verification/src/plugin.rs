//! The hook a MIDI-consuming plugin implements.

use vstd::prelude::*;

verus! {

/// Implemented by plugins that want raw MIDI. The host shim queues
/// incoming bytes through [`crate::WrappedPlugin::midi_input`]; the
/// scheduler hands them back, sample-accurately, with the subblock whose
/// boundary they fall on, and the shim forwards each to this hook before
/// the subblock's audio is produced.
pub trait MidiReceiver {
    fn midi_input(&mut self, frame: usize, data: [u8; 3]);
}

} // verus!
