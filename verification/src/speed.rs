//! The runtime-switchable clock-gating discipline.
//!
//! Beats and times are carried as integer ticks: one beat (or one second)
//! is `TICKS_PER_SECOND` ticks.  The callers that own a fractional beat
//! counter or a fractional clock scale into ticks before handing values in.

use vstd::prelude::*;

verus! {

/// Ticks per beat and per second: beats and times are measured in
/// millionths (microbeats, microseconds).
pub const TICKS_PER_SECOND: u64 = 1_000_000;

/// Selects which clock pair gates the admission of decoded samples.
#[derive(Clone, Copy, PartialEq, Eq, Structural, Debug)]
pub enum SpeedMode {
    /// Admit one sample each time the beat counter moves strictly past a
    /// further multiple of this interval (in ticks, i.e. microbeats).
    BeatInterval(u64),
    /// Admit one sample each time the clock moves strictly past a further
    /// frame period of `1/fps` seconds.
    FrameRate(u64),
}

impl SpeedMode {
    /// A mode is well formed when its pace is positive: a beat interval of
    /// at least one tick, or a frame rate between one frame per second and
    /// one frame per tick.
    pub open spec fn wf(self) -> bool {
        match self {
            SpeedMode::BeatInterval(interval) => 1 <= interval,
            SpeedMode::FrameRate(fps) => 1 <= fps <= TICKS_PER_SECOND,
        }
    }

    /// The distance (in ticks) by which the active threshold advances on
    /// each admission.
    pub open spec fn spec_step(self) -> int {
        match self {
            SpeedMode::BeatInterval(interval) => interval as int,
            SpeedMode::FrameRate(fps) => TICKS_PER_SECOND as int / fps as int,
        }
    }

    /// A well-formed mode always advances by at least one tick, so
    /// admitted thresholds are strictly increasing.
    pub proof fn lemma_step_positive(self)
        requires
            self.wf(),
        ensures
            1 <= self.spec_step(),
    {
        match self {
            SpeedMode::BeatInterval(_) => {}
            SpeedMode::FrameRate(fps) => {
                assert(TICKS_PER_SECOND as int / fps as int >= 1) by (nonlinear_arith)
                    requires
                        1 <= fps <= TICKS_PER_SECOND,
                ;
            }
        }
    }

    /// The threshold advance of this mode, as an executable value.
    pub fn step(&self) -> (s: u64)
        requires
            self.wf(),
        ensures
            s as int == self.spec_step(),
            1 <= s,
    {
        proof {
            self.lemma_step_positive();
        }
        match self {
            SpeedMode::BeatInterval(interval) => *interval,
            SpeedMode::FrameRate(fps) => TICKS_PER_SECOND / *fps,
        }
    }
}

} // verus!
