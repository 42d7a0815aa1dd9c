//! Parameter smoothing and sample-accurate event scheduling for real-time
//! audio plugins.
//!
//! The crate provides the pieces a plugin wrapper needs to apply parameter
//! changes without audible clicks: a one-pole smoothing filter ([`Smooth`]),
//! a crossfade stage for discrete values ([`Declick`]), parameter range and
//! curve translation, a frame-sorted event queue, and the block scheduler
//! that subdivides audio blocks around event boundaries.
//!
//! Continuous values are carried by any scalar implementing [`Real`]; the
//! crate supplies [`Fixed`], a saturating 32.32 fixed-point scalar, so that
//! every arithmetic step has an exact, machine-checkable meaning.

use vstd::prelude::*;

mod num;
mod fixed;
mod smooth;
mod declick;
pub mod util;
pub mod parameter;
mod model;
pub mod event;
mod time;
mod message;
mod wrapper;
mod plugin;

pub use num::{AsPrimitive, Discrete, Real};
pub use fixed::Fixed;
pub use smooth::{Smooth, SmoothOutput, SmoothStatus, SmoothView};
pub use declick::{Declick, DeclickOutput, DeclickView};
pub use model::{Slot, SlotValue, SlotView, SmoothedModel};
pub use event::Event;
pub use time::MusicalTime;
pub use message::{MsgQueue, MsgQueueView, PlugToUIMsg, UIToPlugMsg};
pub use wrapper::{Subblock, WrappedPlugin, WrapperView};
pub use plugin::MidiReceiver;

verus! {

/// Upper bound on the number of samples handled in one processing call;
/// every per-sample buffer in the crate is sized to this.
pub const MAX_BLOCKSIZE: usize = 128;

} // verus!
