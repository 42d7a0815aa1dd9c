//! The musical-time snapshot handed to the plugin with each subblock.

use vstd::prelude::*;

verus! {

use crate::fixed::Fixed;
use crate::num::Real;

/// Tempo, transport position in beats, and whether the host transport is
/// rolling.
#[derive(Debug, Clone, Copy)]
pub struct MusicalTime {
    pub bpm: Fixed,
    pub beat: Fixed,
    pub is_playing: bool,
}

/// What [`MusicalTime::step_by_samples`] adds to the beat position:
/// `samples / sample_rate` seconds at `bpm / 60` beats per second.
pub open spec fn sp_beat_step(bpm: Fixed, sample_rate: Fixed, samples: int) -> Fixed {
    Fixed::sp_from_uint(samples as u32).sp_div(sample_rate).sp_mul(
        bpm.sp_div(Fixed::sp_from_uint(60)),
    )
}

impl MusicalTime {
    /// Advances the transport position by `samples` frames, so that later
    /// subblocks of a subdivided block still see the right position.
    pub fn step_by_samples(&mut self, sample_rate: Fixed, samples: usize)
        requires
            samples <= 0xFFFF_FFFFusize,
        ensures
            final(self).beat == old(self).beat.sp_add(
                sp_beat_step(old(self).bpm, sample_rate, samples as int),
            ),
            final(self).bpm == old(self).bpm,
            final(self).is_playing == old(self).is_playing,
    {
        let beats_per_second = self.bpm.div(Fixed::from_uint(60));
        let seconds = Fixed::from_uint(samples as u32).div(sample_rate);
        self.beat = self.beat.plus(seconds.times(beats_per_second));
    }
}

} // verus!
