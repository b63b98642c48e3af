//! The video provider: the shared frame slot, the clock state, and the
//! operations of the render loop and of the decode feeder.
//!
//! A `VideoProvider` value is the state that the original cells share
//! between the driver thread and the decode backend's threads.  The
//! caller that runs those threads keeps the value behind its own lock and
//! calls into this module for every decision: `gate_check` and
//! `commit_sample` on the decode side, `get`, `set_beat`, `set_time`,
//! `set_property` and `stop` on the render side, `check_loop` for
//! end-of-stream looping.  Blocking is the caller's business: `set_beat`
//! and `set_time` report whether the driver must wait, and
//! `beat_synced` / `time_synced` decide when the wait is over.

use vstd::prelude::*;

use crate::frame::{canonical_rgb, classify, convert_to_rgb, spec_classify, str_eq};
use crate::gate::{admitted_run, advanced, gate_admits};
use crate::speed::SpeedMode;
use vstd::string::StringExecFns;

verus! {

/// The latest-wins frame slot: the most recently admitted frame, already
/// canonicalized to tightly packed RGB bytes, and its dimensions.  An
/// absent frame means nothing has been committed since startup or since
/// the last invalidating read.
pub struct FrameSlot {
    pub data: Option<Vec<u8>>,
    pub width: u32,
    pub height: u32,
}

impl FrameSlot {
    /// The dimensions always describe the stored frame: three bytes per
    /// pixel.
    pub open spec fn wf(self) -> bool {
        match self.data {
            Some(d) => d@.len() == 3 * (self.width as int) * (self.height as int),
            None => true,
        }
    }
}

/// Why a delivered sample was dropped.  Either way the frame slot is left
/// unchanged and the previous frame stays visible.
#[derive(Clone, Copy, PartialEq, Eq, Structural, Debug)]
pub enum SampleError {
    /// The sample's pixel layout is outside the canonical set.
    UnsupportedLayout,
    /// The sample's byte buffer does not hold exactly one pixel's worth
    /// of bytes for each of `width * height` pixels.
    SizeMismatch,
}

/// The outcome of one poll of the sync gate by the decode feeder.
#[derive(Clone, Copy, PartialEq, Eq, Structural, Debug)]
pub enum GatePoll {
    /// The stop signal is set: the feeder must abort the sample.
    Stopped,
    /// The driving value has crossed the threshold; the threshold has
    /// been advanced and the sample may be committed.
    Admitted,
    /// The driving value has not yet crossed; poll again later.
    Denied,
}

/// What one non-blocking poll of the decode backend's status queue
/// observed.
#[derive(Clone, Copy, PartialEq, Eq, Structural, Debug)]
pub enum StreamEvent {
    /// Decode reached the end of the stream.
    EndOfStream,
    /// Any other notification.
    Other,
}

/// The outcome of a property update.
#[derive(Clone, Copy, PartialEq, Eq, Structural, Debug)]
pub enum PropertyUpdate {
    Updated,
    /// The property name is not one of this provider's; reported and
    /// ignored.
    UnknownProperty,
    /// The value cannot make a well-formed mode; reported and ignored.
    InvalidValue,
}

/// Copies a byte buffer.
fn copy_bytes(src: &Vec<u8>) -> (out: Vec<u8>)
    ensures
        out@ == src@,
{
    let mut out: Vec<u8> = Vec::new();
    let mut i: usize = 0;
    while i < src.len()
        invariant
            i <= src@.len(),
            out@ == src@.take(i as int),
        decreases src@.len() - i,
    {
        out.push(src[i]);
        proof {
            assert(out@ =~= src@.take(i + 1));
        }
        i = i + 1;
    }
    proof {
        assert(out@ =~= src@);
    }
    out
}

/// The synchronization state of one video source.
pub struct VideoProvider {
    /// The name under which the render loop looks this source up.
    pub name: String,
    /// The shared frame slot; sole writer `commit_sample`, read and
    /// possibly cleared by `get`.
    pub slot: FrameSlot,
    /// The beat counter, set only by the driver.
    pub beat: u64,
    /// The next beat threshold, advanced only by `gate_check`.
    pub next_sync_beat: u64,
    /// The clock, set only by the driver (ticks).
    pub time: u64,
    /// The next time threshold, advanced only by `gate_check`.
    pub next_sync_time: u64,
    /// Which clock pair gates admission right now.
    pub speed: SpeedMode,
    /// The cooperative stop signal; write-once to true.
    pub stopped: bool,
}

impl VideoProvider {
    /// A provider is well formed when its mode has a positive pace and
    /// the slot's dimensions describe its frame.
    pub open spec fn wf(self) -> bool {
        self.speed.wf() && self.slot.wf()
    }

    /// Both clock pairs unchanged between two states.
    pub open spec fn same_clock(self, other: Self) -> bool {
        self.beat == other.beat && self.next_sync_beat == other.next_sync_beat && self.time
            == other.time && self.next_sync_time == other.next_sync_time
    }

    /// Name, mode and stop signal unchanged between two states.
    pub open spec fn same_identity(self, other: Self) -> bool {
        self.name == other.name && self.speed == other.speed && self.stopped == other.stopped
    }

    /// Whether a read under this name reaches this provider: the name
    /// matches and the provider has not been stopped.
    pub open spec fn serves(self, uniform_name: Seq<char>) -> bool {
        uniform_name == self.name@ && !self.stopped
    }

    /// What a read returns: the stored frame and its dimensions, if the
    /// name reaches this provider and a frame is present.
    pub open spec fn spec_get(self, uniform_name: Seq<char>) -> Option<((u32, u32), Seq<u8>)> {
        if self.serves(uniform_name) {
            match self.slot.data {
                Some(d) => Some(((self.slot.width, self.slot.height), d@)),
                None => None,
            }
        } else {
            None
        }
    }

    /// The provider after a read: unchanged, except that a served
    /// invalidating read clears the slot's frame.
    pub open spec fn spec_after_get(self, uniform_name: Seq<char>, invalidate: bool) -> Self {
        if self.serves(uniform_name) && invalidate {
            VideoProvider { slot: (FrameSlot { data: None, ..self.slot }), ..self }
        } else {
            self
        }
    }

    /// A fresh provider: empty slot at the configured dimensions, both
    /// clock pairs at zero, not stopped.
    pub fn new(name: String, width: u32, height: u32, speed: SpeedMode) -> (p: VideoProvider)
        requires
            speed.wf(),
        ensures
            p.wf(),
            p.name == name,
            p.slot.data is None,
            p.slot.width == width,
            p.slot.height == height,
            p.beat == 0 && p.next_sync_beat == 0 && p.time == 0 && p.next_sync_time == 0,
            p.speed == speed,
            !p.stopped,
    {
        VideoProvider {
            name,
            slot: FrameSlot { data: None, width, height },
            beat: 0,
            next_sync_beat: 0,
            time: 0,
            next_sync_time: 0,
            speed,
            stopped: false,
        }
    }

    /// The names this provider answers to: exactly its own.
    pub fn provides(&self) -> (names: Vec<String>)
        ensures
            names@.len() == 1,
            names@[0]@ == self.name@,
    {
        let mut names: Vec<String> = Vec::new();
        names.push(self.name.clone());
        names
    }

    /// Renames the provider; nothing else changes.
    pub fn set_name(&mut self, name: &str)
        ensures
            final(self).name@ == name@,
            final(self).slot == old(self).slot,
            final(self).same_clock(*old(self)),
            final(self).speed == old(self).speed,
            final(self).stopped == old(self).stopped,
    {
        self.name = String::from_str(name);
    }

    /// Switches the speed mode at runtime.  `"speed_beats"` selects
    /// `BeatInterval(value)`, `"speed_fps"` selects `FrameRate(value)`;
    /// an unrecognized name, or a value that makes no well-formed mode,
    /// is reported and ignored.  The clock pairs are never touched, so
    /// the dormant mode's threshold stays where it was.
    pub fn set_property(&mut self, property: &str, value: u64) -> (r: PropertyUpdate)
        requires
            old(self).wf(),
        ensures
            final(self).wf(),
            final(self).name == old(self).name,
            final(self).slot == old(self).slot,
            final(self).same_clock(*old(self)),
            final(self).stopped == old(self).stopped,
            property@ == "speed_beats"@ ==> if SpeedMode::BeatInterval(value).wf() {
                final(self).speed == SpeedMode::BeatInterval(value) && r == PropertyUpdate::Updated
            } else {
                final(self).speed == old(self).speed && r == PropertyUpdate::InvalidValue
            },
            property@ == "speed_fps"@ ==> if SpeedMode::FrameRate(value).wf() {
                final(self).speed == SpeedMode::FrameRate(value) && r == PropertyUpdate::Updated
            } else {
                final(self).speed == old(self).speed && r == PropertyUpdate::InvalidValue
            },
            property@ != "speed_beats"@ && property@ != "speed_fps"@ ==> final(self).speed == old(
                self,
            ).speed && r == PropertyUpdate::UnknownProperty,
    {
        proof {
            reveal_strlit("speed_beats");
            reveal_strlit("speed_fps");
            assert("speed_beats"@.len() != "speed_fps"@.len());
        }
        if str_eq(property, "speed_beats") {
            if value >= 1 {
                self.speed = SpeedMode::BeatInterval(value);
                PropertyUpdate::Updated
            } else {
                PropertyUpdate::InvalidValue
            }
        } else if str_eq(property, "speed_fps") {
            if value >= 1 && value <= crate::speed::TICKS_PER_SECOND {
                self.speed = SpeedMode::FrameRate(value);
                PropertyUpdate::Updated
            } else {
                PropertyUpdate::InvalidValue
            }
        } else {
            PropertyUpdate::UnknownProperty
        }
    }

    /// Reads the current frame.  A served read returns the stored frame
    /// and its dimensions; with `invalidate` it then clears the slot, so
    /// the next read returns nothing until the feeder commits again.  A
    /// read under another name, after `stop`, or with an empty slot
    /// returns nothing and changes nothing.
    pub fn get(&mut self, uniform_name: &str, invalidate: bool) -> (r: Option<((u32, u32), Vec<u8>)>)
        requires
            old(self).wf(),
        ensures
            final(self).wf(),
            *final(self) == old(self).spec_after_get(uniform_name@, invalidate),
            match r {
                Some(frame) => old(self).spec_get(uniform_name@) matches Some(spec_frame)
                    && frame.0 == spec_frame.0 && frame.1@ == spec_frame.1,
                None => old(self).spec_get(uniform_name@) is None,
            },
    {
        if str_eq(uniform_name, self.name.as_str()) && !self.stopped {
            let result = match &self.slot.data {
                Some(d) => Some(((self.slot.width, self.slot.height), copy_bytes(d))),
                None => None,
            };
            if invalidate {
                self.slot.data = None;
            }
            result
        } else {
            None
        }
    }

    /// Sets the beat counter.  Returns whether the driver must block:
    /// only a `sync` call under an active `BeatInterval` mode whose new
    /// beat has moved past the next threshold waits, until the feeder's
    /// admissions have caught up (`beat_synced`).  A `sync` call under
    /// the other mode is a plain update.
    pub fn set_beat(&mut self, beat: u64, sync: bool) -> (wait: bool)
        requires
            old(self).wf(),
        ensures
            final(self).wf(),
            final(self).beat == beat,
            final(self).time == old(self).time,
            final(self).next_sync_beat == old(self).next_sync_beat,
            final(self).next_sync_time == old(self).next_sync_time,
            final(self).same_identity(*old(self)),
            final(self).slot == old(self).slot,
            wait == (sync && (old(self).speed matches SpeedMode::BeatInterval(_)) && beat > old(
                self,
            ).next_sync_beat),
    {
        self.beat = beat;
        if sync {
            match self.speed {
                SpeedMode::BeatInterval(_) => beat > self.next_sync_beat,
                SpeedMode::FrameRate(_) => false,
            }
        } else {
            false
        }
    }

    /// Whether the driver's blocking beat wait is over: the beat
    /// threshold has caught up with the driver's beat.
    pub fn beat_synced(&self, beat: u64) -> (synced: bool)
        ensures
            synced == (beat <= self.next_sync_beat),
    {
        beat <= self.next_sync_beat
    }

    /// Sets the clock (in ticks).  The counterpart of `set_beat` for the
    /// `FrameRate` mode.
    pub fn set_time(&mut self, time: u64, sync: bool) -> (wait: bool)
        requires
            old(self).wf(),
        ensures
            final(self).wf(),
            final(self).time == time,
            final(self).beat == old(self).beat,
            final(self).next_sync_beat == old(self).next_sync_beat,
            final(self).next_sync_time == old(self).next_sync_time,
            final(self).same_identity(*old(self)),
            final(self).slot == old(self).slot,
            wait == (sync && (old(self).speed matches SpeedMode::FrameRate(_)) && time > old(
                self,
            ).next_sync_time),
    {
        self.time = time;
        if sync {
            match self.speed {
                SpeedMode::FrameRate(_) => time > self.next_sync_time,
                SpeedMode::BeatInterval(_) => false,
            }
        } else {
            false
        }
    }

    /// Whether the driver's blocking time wait is over.
    pub fn time_synced(&self, time: u64) -> (synced: bool)
        ensures
            synced == (time <= self.next_sync_time),
    {
        time <= self.next_sync_time
    }

    /// One poll of the sync gate by the decode feeder.  Under the active
    /// mode's clock pair, a driving value strictly past the threshold
    /// admits the sample and advances that threshold by the mode's step;
    /// anything else changes nothing.  The dormant pair is never touched.
    pub fn gate_check(&mut self) -> (r: GatePoll)
        requires
            old(self).wf(),
        ensures
            final(self).wf(),
            final(self).name == old(self).name,
            final(self).slot == old(self).slot,
            final(self).speed == old(self).speed,
            final(self).stopped == old(self).stopped,
            final(self).beat == old(self).beat,
            final(self).time == old(self).time,
            old(self).stopped ==> r == GatePoll::Stopped && *final(self) == *old(self),
            !old(self).stopped ==> match old(self).speed {
                SpeedMode::BeatInterval(_) => {
                    &&& final(self).next_sync_time == old(self).next_sync_time
                    &&& if gate_admits(old(self).beat, old(self).next_sync_beat) {
                        r == GatePoll::Admitted && final(self).next_sync_beat == advanced(
                            old(self).next_sync_beat,
                            old(self).speed.spec_step(),
                        )
                    } else {
                        r == GatePoll::Denied && *final(self) == *old(self)
                    }
                },
                SpeedMode::FrameRate(_) => {
                    &&& final(self).next_sync_beat == old(self).next_sync_beat
                    &&& if gate_admits(old(self).time, old(self).next_sync_time) {
                        r == GatePoll::Admitted && final(self).next_sync_time == advanced(
                            old(self).next_sync_time,
                            old(self).speed.spec_step(),
                        )
                    } else {
                        r == GatePoll::Denied && *final(self) == *old(self)
                    }
                },
            },
    {
        if self.stopped {
            return GatePoll::Stopped;
        }
        let step = self.speed.step();
        match self.speed {
            SpeedMode::BeatInterval(_) => {
                if self.beat > self.next_sync_beat {
                    self.next_sync_beat = self.next_sync_beat.saturating_add(step);
                    GatePoll::Admitted
                } else {
                    GatePoll::Denied
                }
            },
            SpeedMode::FrameRate(_) => {
                if self.time > self.next_sync_time {
                    self.next_sync_time = self.next_sync_time.saturating_add(step);
                    GatePoll::Admitted
                } else {
                    GatePoll::Denied
                }
            },
        }
    }

    /// Commits one admitted sample: classifies its layout by the
    /// backend's format name, normalizes the bytes to packed RGB, and
    /// overwrites the frame slot wholesale.  An unsupported layout or a
    /// buffer that does not match the stated dimensions drops the sample
    /// and leaves the slot — and the previous frame — unchanged.
    pub fn commit_sample(
        &mut self,
        format_name: &str,
        width: u32,
        height: u32,
        data: &Vec<u8>,
    ) -> (r: Result<(), SampleError>)
        requires
            old(self).wf(),
        ensures
            final(self).wf(),
            final(self).same_clock(*old(self)),
            final(self).same_identity(*old(self)),
            match spec_classify(format_name@) {
                None => {
                    &&& r == Err::<(), SampleError>(SampleError::UnsupportedLayout)
                    &&& final(self).slot == old(self).slot
                },
                Some(f) => if data@.len() == (width as int) * (height as int)
                    * f.spec_channels() {
                    &&& r == Ok::<(), SampleError>(())
                    &&& final(self).slot.width == width
                    &&& final(self).slot.height == height
                    &&& final(self).slot.data matches Some(img) && img@ == canonical_rgb(
                        f,
                        data@,
                        (width as nat) * (height as nat),
                    )
                } else {
                    &&& r == Err::<(), SampleError>(SampleError::SizeMismatch)
                    &&& final(self).slot == old(self).slot
                },
            },
    {
        let format = match classify(format_name) {
            Some(format) => format,
            None => {
                return Err(SampleError::UnsupportedLayout);
            },
        };
        let channels = format.channels();
        let len = data.len();
        let pixels = match (width as usize).checked_mul(height as usize) {
            Some(pixels) => pixels,
            None => {
                proof {
                    lemma_oversized_buffer(width as int, height as int, channels as int, data@);
                }
                return Err(SampleError::SizeMismatch);
            },
        };
        let expected = match pixels.checked_mul(channels) {
            Some(expected) => expected,
            None => {
                proof {
                    lemma_oversized_buffer(width as int, height as int, channels as int, data@);
                }
                return Err(SampleError::SizeMismatch);
            },
        };
        if len != expected {
            return Err(SampleError::SizeMismatch);
        }
        proof {
            assert((pixels as int) * (channels as int) == (width as int) * (height as int) * (
            channels as int)) by (nonlinear_arith)
                requires
                    pixels == (width as int) * (height as int),
            ;
        }
        let rgb = convert_to_rgb(format, pixels, data);
        proof {
            assert(3 * (pixels as int) == 3 * (width as int) * (height as int))
                by (nonlinear_arith)
                requires
                    pixels == (width as int) * (height as int),
            ;
        }
        self.slot = FrameSlot { data: Some(rgb), width, height };
        Ok(())
    }

    /// Sets the cooperative stop signal.  The backend pipeline's halt is
    /// the caller's side of the same operation; from here on, the feeder
    /// aborts every sample and `get` serves nothing.
    pub fn stop(&mut self)
        ensures
            final(self).stopped,
            final(self).name == old(self).name,
            final(self).slot == old(self).slot,
            final(self).speed == old(self).speed,
            final(self).same_clock(*old(self)),
    {
        self.stopped = true;
    }

    /// Feeds the provider one gate poll per element of `beats`, under an
    /// active `BeatInterval` mode, recording every admitted sample as
    /// `(beat, threshold it crossed)`.  The record is exactly the run
    /// model `gate::admitted_run`, so the laws proved of that model —
    /// `lemma_admitted_thresholds`, `lemma_no_double_admit`,
    /// `lemma_admission_occurs` — hold of real provider runs.
    pub fn replay_beats(&mut self, beats: &Vec<u64>) -> (admitted: Vec<(u64, u64)>)
        requires
            old(self).wf(),
            !old(self).stopped,
            old(self).speed matches SpeedMode::BeatInterval(_),
            old(self).next_sync_beat + beats@.len() * old(self).speed.spec_step() <= u64::MAX,
        ensures
            final(self).wf(),
            final(self).slot == old(self).slot,
            final(self).same_identity(*old(self)),
            final(self).time == old(self).time,
            final(self).next_sync_time == old(self).next_sync_time,
            admissions_as_ints(admitted@) == admitted_run(
                old(self).speed.spec_step(),
                old(self).next_sync_beat as int,
                drive_as_ints(beats@),
            ),
    {
        let ghost step = old(self).speed.spec_step();
        let ghost t0 = old(self).next_sync_beat as int;
        let mut admitted: Vec<(u64, u64)> = Vec::new();
        let mut i: usize = 0;
        proof {
            self.speed.lemma_step_positive();
            assert(drive_as_ints(beats@).skip(0) =~= drive_as_ints(beats@));
            assert(admissions_as_ints(admitted@) + admitted_run(step, t0, drive_as_ints(beats@))
                =~= admitted_run(step, t0, drive_as_ints(beats@)));
        }
        while i < beats.len()
            invariant
                self.wf(),
                !self.stopped,
                self.speed == old(self).speed,
                self.speed matches SpeedMode::BeatInterval(_),
                self.slot == old(self).slot,
                self.name == old(self).name,
                self.time == old(self).time,
                self.next_sync_time == old(self).next_sync_time,
                step == self.speed.spec_step(),
                1 <= step,
                t0 == old(self).next_sync_beat as int,
                i <= beats@.len(),
                self.next_sync_beat as int <= t0 + i * step,
                t0 + beats@.len() * step <= u64::MAX,
                admissions_as_ints(admitted@) + admitted_run(
                    step,
                    self.next_sync_beat as int,
                    drive_as_ints(beats@).skip(i as int),
                ) == admitted_run(step, t0, drive_as_ints(beats@)),
            decreases beats@.len() - i,
        {
            let b = beats[i];
            self.set_beat(b, false);
            let threshold = self.next_sync_beat;
            let ghost rest = drive_as_ints(beats@).skip(i as int);
            let ghost recorded = admissions_as_ints(admitted@);
            proof {
                assert(rest.len() == beats@.len() - i);
                assert(rest[0] == b as int);
                assert(rest.skip(1) =~= drive_as_ints(beats@).skip(i + 1));
                assert((i + 1) * step == i * step + step) by (nonlinear_arith);
                assert((i + 1) * step <= beats@.len() * step) by (nonlinear_arith)
                    requires
                        i + 1 <= beats@.len(),
                        step >= 0,
                ;
                assert(threshold as int <= t0 + i * step);
                assert(threshold as int + step <= t0 + beats@.len() * step);
                assert(threshold as int + step <= u64::MAX);
            }
            let poll = self.gate_check();
            match poll {
                GatePoll::Admitted => {
                    admitted.push((b, threshold));
                    proof {
                        assert(self.next_sync_beat as int == threshold as int + step);
                        assert(admitted_run(step, threshold as int, rest) == seq![
                            (b as int, threshold as int),
                        ] + admitted_run(step, threshold as int + step, rest.skip(1)));
                        assert(admissions_as_ints(admitted@) =~= recorded + seq![
                            (b as int, threshold as int),
                        ]);
                        assert(admissions_as_ints(admitted@) + admitted_run(
                            step,
                            self.next_sync_beat as int,
                            drive_as_ints(beats@).skip(i + 1),
                        ) =~= recorded + admitted_run(step, threshold as int, rest));
                    }
                },
                _ => {
                    proof {
                        assert(admitted_run(step, threshold as int, rest) == admitted_run(
                            step,
                            threshold as int,
                            rest.skip(1),
                        ));
                    }
                },
            }
            i = i + 1;
        }
        proof {
            assert(drive_as_ints(beats@).skip(beats@.len() as int) =~= Seq::<int>::empty());
            assert(admissions_as_ints(admitted@) + Seq::<(int, int)>::empty() =~= admissions_as_ints(
                admitted@,
            ));
        }
        admitted
    }

    /// The counterpart of `replay_beats` for an active `FrameRate` mode:
    /// one gate poll per clock value, with the frame period as the step.
    pub fn replay_times(&mut self, times: &Vec<u64>) -> (admitted: Vec<(u64, u64)>)
        requires
            old(self).wf(),
            !old(self).stopped,
            old(self).speed matches SpeedMode::FrameRate(_),
            old(self).next_sync_time + times@.len() * old(self).speed.spec_step() <= u64::MAX,
        ensures
            final(self).wf(),
            final(self).slot == old(self).slot,
            final(self).same_identity(*old(self)),
            final(self).beat == old(self).beat,
            final(self).next_sync_beat == old(self).next_sync_beat,
            admissions_as_ints(admitted@) == admitted_run(
                old(self).speed.spec_step(),
                old(self).next_sync_time as int,
                drive_as_ints(times@),
            ),
    {
        let ghost step = old(self).speed.spec_step();
        let ghost t0 = old(self).next_sync_time as int;
        let mut admitted: Vec<(u64, u64)> = Vec::new();
        let mut i: usize = 0;
        proof {
            self.speed.lemma_step_positive();
            assert(drive_as_ints(times@).skip(0) =~= drive_as_ints(times@));
            assert(admissions_as_ints(admitted@) + admitted_run(step, t0, drive_as_ints(times@))
                =~= admitted_run(step, t0, drive_as_ints(times@)));
        }
        while i < times.len()
            invariant
                self.wf(),
                !self.stopped,
                self.speed == old(self).speed,
                self.speed matches SpeedMode::FrameRate(_),
                self.slot == old(self).slot,
                self.name == old(self).name,
                self.beat == old(self).beat,
                self.next_sync_beat == old(self).next_sync_beat,
                step == self.speed.spec_step(),
                1 <= step,
                t0 == old(self).next_sync_time as int,
                i <= times@.len(),
                self.next_sync_time as int <= t0 + i * step,
                t0 + times@.len() * step <= u64::MAX,
                admissions_as_ints(admitted@) + admitted_run(
                    step,
                    self.next_sync_time as int,
                    drive_as_ints(times@).skip(i as int),
                ) == admitted_run(step, t0, drive_as_ints(times@)),
            decreases times@.len() - i,
        {
            let t = times[i];
            self.set_time(t, false);
            let threshold = self.next_sync_time;
            let ghost rest = drive_as_ints(times@).skip(i as int);
            let ghost recorded = admissions_as_ints(admitted@);
            proof {
                assert(rest.len() == times@.len() - i);
                assert(rest[0] == t as int);
                assert(rest.skip(1) =~= drive_as_ints(times@).skip(i + 1));
                assert((i + 1) * step == i * step + step) by (nonlinear_arith);
                assert((i + 1) * step <= times@.len() * step) by (nonlinear_arith)
                    requires
                        i + 1 <= times@.len(),
                        step >= 0,
                ;
                assert(threshold as int <= t0 + i * step);
                assert(threshold as int + step <= t0 + times@.len() * step);
                assert(threshold as int + step <= u64::MAX);
            }
            let poll = self.gate_check();
            match poll {
                GatePoll::Admitted => {
                    admitted.push((t, threshold));
                    proof {
                        assert(self.next_sync_time as int == threshold as int + step);
                        assert(admitted_run(step, threshold as int, rest) == seq![
                            (t as int, threshold as int),
                        ] + admitted_run(step, threshold as int + step, rest.skip(1)));
                        assert(admissions_as_ints(admitted@) =~= recorded + seq![
                            (t as int, threshold as int),
                        ]);
                        assert(admissions_as_ints(admitted@) + admitted_run(
                            step,
                            self.next_sync_time as int,
                            drive_as_ints(times@).skip(i + 1),
                        ) =~= recorded + admitted_run(step, threshold as int, rest));
                    }
                },
                _ => {
                    proof {
                        assert(admitted_run(step, threshold as int, rest) == admitted_run(
                            step,
                            threshold as int,
                            rest.skip(1),
                        ));
                    }
                },
            }
            i = i + 1;
        }
        proof {
            assert(drive_as_ints(times@).skip(times@.len() as int) =~= Seq::<int>::empty());
            assert(admissions_as_ints(admitted@) + Seq::<(int, int)>::empty() =~= admissions_as_ints(
                admitted@,
            ));
        }
        admitted
    }

    /// The loop controller's decision over one non-blocking poll of the
    /// backend's status queue: seek back to the start exactly on an
    /// end-of-stream notification.  The frame slot and the clock state
    /// are not touched — only the decode position restarts.
    pub fn check_loop(&self, event: Option<StreamEvent>) -> (seek: bool)
        ensures
            seek == (event matches Some(StreamEvent::EndOfStream)),
    {
        match event {
            Some(StreamEvent::EndOfStream) => true,
            _ => false,
        }
    }
}

/// The integer shadow of a record of admissions.
pub open spec fn admissions_as_ints(pairs: Seq<(u64, u64)>) -> Seq<(int, int)> {
    pairs.map_values(|e: (u64, u64)| (e.0 as int, e.1 as int))
}

/// The integer shadow of a driving sequence.
pub open spec fn drive_as_ints(values: Seq<u64>) -> Seq<int> {
    values.map_values(|v: u64| v as int)
}

/// A buffer whose stated pixel count overflows the address space cannot
/// match its stated dimensions: it would have to hold more bytes than any
/// buffer can.
proof fn lemma_oversized_buffer(width: int, height: int, channels: int, data: Seq<u8>)
    requires
        width >= 0,
        height >= 0,
        channels >= 1,
        width * height > usize::MAX || width * height * channels > usize::MAX,
        data.len() <= usize::MAX,
    ensures
        data.len() != width * height * channels,
{
    assert(width * height * channels >= width * height && width * height >= 0)
        by (nonlinear_arith)
        requires
            width >= 0,
            height >= 0,
            channels >= 1,
    ;
}

/// Idempotence of reading: a read without invalidation leaves the
/// provider unchanged, so an immediate second read returns the same
/// frame.
pub proof fn lemma_get_idempotent(p: VideoProvider, uniform_name: Seq<char>)
    ensures
        p.spec_after_get(uniform_name, false) == p,
        p.spec_after_get(uniform_name, false).spec_get(uniform_name) == p.spec_get(uniform_name),
{
}

/// Invalidation: after a read with `invalidate`, a read under the same
/// name with no intervening commit returns nothing.
pub proof fn lemma_invalidate_clears(p: VideoProvider, uniform_name: Seq<char>)
    ensures
        p.spec_after_get(uniform_name, true).spec_get(uniform_name) is None,
{
}

} // verus!

