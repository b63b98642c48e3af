//! The sync gate: the admission predicate over (driving value, threshold)
//! and the laws of the runs it produces.
//!
//! `provider::VideoProvider::gate_check` applies `gate_admits` to the pair
//! selected by the active [`SpeedMode`] and advances that pair's threshold
//! by the mode's step on every admission.  `admitted_run` is the
//! specification-level replay of such a sequence of checks; the lemmas
//! below state what every run satisfies.

use vstd::prelude::*;

use crate::speed::SpeedMode;

verus! {

/// The admission predicate: a sample may be committed only when the
/// driving value has moved strictly past the threshold.  Equality never
/// admits, so a boundary repeated by the driver cannot commit twice.
pub open spec fn gate_admits(current: u64, threshold: u64) -> bool {
    current > threshold
}

/// The threshold after an admission: advanced by the active step, clamped
/// at the top of the tick range.  No driving value can move strictly past
/// `u64::MAX`, so a clamped gate never admits again, which mirrors a
/// threshold frozen out of reach.
pub open spec fn advanced(threshold: u64, step: int) -> u64 {
    if threshold + step > u64::MAX {
        u64::MAX
    } else {
        (threshold + step) as u64
    }
}

/// Whenever the sync gate admits, the threshold strictly increases: a
/// positive step moves `advanced` strictly past the old threshold.  (The
/// clamp can only produce the old threshold again at `u64::MAX`, and a
/// threshold that was just crossed lies strictly below some driving
/// value, so below `u64::MAX`.)  Admitted frames therefore stand at
/// strictly increasing thresholds: none is admitted twice for the same
/// threshold.
pub proof fn lemma_threshold_strictly_increases(current: u64, threshold: u64, step: int)
    requires
        gate_admits(current, threshold),
        step >= 1,
    ensures
        advanced(threshold, step) > threshold,
{
}

/// The samples admitted when a gate with step `step` and initial threshold
/// `threshold` is offered one sample per element of `drive`, in order.
/// Each admitted sample is recorded as `(driving value, threshold that it
/// crossed)`.  Denied offers leave the threshold unchanged.
pub open spec fn admitted_run(step: int, threshold: int, drive: Seq<int>) -> Seq<(int, int)>
    decreases drive.len(),
{
    if drive.len() == 0 {
        Seq::<(int, int)>::empty()
    } else if drive[0] > threshold {
        seq![(drive[0], threshold)] + admitted_run(step, threshold + step, drive.skip(1))
    } else {
        admitted_run(step, threshold, drive.skip(1))
    }
}

/// Admitted thresholds form the arithmetic sequence `t0, t0 + step,
/// t0 + 2*step, ...`, and every admitted driving value strictly exceeds
/// the threshold it crossed — whatever the offered values are.
pub proof fn lemma_admitted_thresholds(step: int, t0: int, drive: Seq<int>)
    requires
        step > 0,
    ensures
        forall|i: int|
            0 <= i < admitted_run(step, t0, drive).len() ==> {
                let entry = #[trigger] admitted_run(step, t0, drive)[i];
                entry.1 == t0 + i * step && entry.0 > entry.1
            },
    decreases drive.len(),
{
    if drive.len() == 0 {
    } else if drive[0] > t0 {
        lemma_admitted_thresholds(step, t0 + step, drive.skip(1));
        let run = admitted_run(step, t0, drive);
        let rest = admitted_run(step, t0 + step, drive.skip(1));
        assert forall|i: int| 0 <= i < run.len() implies {
            let entry = #[trigger] run[i];
            entry.1 == t0 + i * step && entry.0 > entry.1
        } by {
            if i == 0 {
                assert(run[0] == (drive[0], t0));
            } else {
                assert(run[i] == rest[i - 1]);
                assert(rest[i - 1].1 == (t0 + step) + (i - 1) * step);
                assert((t0 + step) + (i - 1) * step == t0 + i * step) by (nonlinear_arith);
            }
        }
    } else {
        lemma_admitted_thresholds(step, t0, drive.skip(1));
        let run = admitted_run(step, t0, drive);
        let rest = admitted_run(step, t0, drive.skip(1));
        assert forall|i: int| 0 <= i < run.len() implies {
            let entry = #[trigger] run[i];
            entry.1 == t0 + i * step && entry.0 > entry.1
        } by {
            assert(run[i] == rest[i]);
            assert(rest[i].1 == t0 + i * step);
        }
    }
}

/// No double admission: once a sample has been admitted at some threshold
/// `T`, every later admitted sample carries a driving value strictly
/// beyond `T + step`.  So for each threshold, at most one sample is
/// admitted while the driving value lies within `(T, T + step]`.
pub proof fn lemma_no_double_admit(step: int, t0: int, drive: Seq<int>)
    requires
        step > 0,
    ensures
        forall|i: int, j: int|
            0 <= i < j < admitted_run(step, t0, drive).len() ==> (#[trigger] admitted_run(
                step,
                t0,
                drive,
            )[j]).0 > (#[trigger] admitted_run(step, t0, drive)[i]).1 + step,
{
    lemma_admitted_thresholds(step, t0, drive);
    let run = admitted_run(step, t0, drive);
    assert forall|i: int, j: int| 0 <= i < j < run.len() implies (#[trigger] run[j]).0 > (
    #[trigger] run[i]).1 + step by {
        assert(run[i].1 == t0 + i * step);
        assert(run[j].1 == t0 + j * step);
        assert(t0 + j * step >= t0 + (i + 1) * step) by (nonlinear_arith)
            requires
                step > 0,
                j >= i + 1,
        ;
        assert((i + 1) * step == i * step + step) by (nonlinear_arith);
    }
}

/// The sync gate cannot starve a caller that has crossed: as soon as some
/// offered driving value lies strictly past the initial threshold, at
/// least one sample of the run is admitted.
pub proof fn lemma_admission_occurs(step: int, t0: int, drive: Seq<int>)
    requires
        exists|i: int| 0 <= i < drive.len() && drive[i] > t0,
    ensures
        admitted_run(step, t0, drive).len() > 0,
    decreases drive.len(),
{
    if drive[0] > t0 {
    } else {
        let i = choose|i: int| 0 <= i < drive.len() && drive[i] > t0;
        assert(drive.skip(1)[i - 1] == drive[i]);
        lemma_admission_occurs(step, t0, drive.skip(1));
    }
}

/// Under `BeatInterval(interval)`, the thresholds admitted along any beat
/// sequence form the arithmetic sequence `t0, t0 + interval, ...`, and
/// each admitted beat value strictly exceeds its threshold.
pub proof fn lemma_beat_interval_run(interval: u64, t0: int, drive: Seq<int>)
    requires
        SpeedMode::BeatInterval(interval).wf(),
    ensures
        forall|i: int|
            0 <= i < admitted_run(interval as int, t0, drive).len() ==> {
                let entry = #[trigger] admitted_run(interval as int, t0, drive)[i];
                entry.1 == t0 + i * (interval as int) && entry.0 > entry.1
            },
{
    lemma_admitted_thresholds(interval as int, t0, drive);
}

/// Under `FrameRate(fps)`, the same law with the frame period
/// `spec_step()` (one second of ticks divided by `fps`) as the step.
pub proof fn lemma_frame_rate_run(fps: u64, t0: int, drive: Seq<int>)
    requires
        SpeedMode::FrameRate(fps).wf(),
    ensures
        forall|i: int|
            0 <= i < admitted_run(SpeedMode::FrameRate(fps).spec_step(), t0, drive).len() ==> {
                let entry = #[trigger] admitted_run(
                    SpeedMode::FrameRate(fps).spec_step(),
                    t0,
                    drive,
                )[i];
                entry.1 == t0 + i * SpeedMode::FrameRate(fps).spec_step() && entry.0 > entry.1
            },
{
    SpeedMode::FrameRate(fps).lemma_step_positive();
    lemma_admitted_thresholds(SpeedMode::FrameRate(fps).spec_step(), t0, drive);
}

} // verus!
