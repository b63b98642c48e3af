use wvr_video::provider::{GatePoll, VideoProvider};
use wvr_video::speed::{SpeedMode, TICKS_PER_SECOND};

#[test]
fn beat_thresholds_form_arithmetic_sequence() {
    // A strictly increasing beat sequence under BeatInterval(step):
    // admitted thresholds are 0, step, 2*step, ... and every admitted
    // beat exceeds its threshold.
    let step = 250_000u64;
    let mut p = VideoProvider::new(String::from("vid"), 1, 1, SpeedMode::BeatInterval(step));
    let beats: Vec<u64> = (1..=40).map(|i| i * 70_000).collect();
    let admitted = p.replay_beats(&beats);
    assert!(admitted.len() > 3);
    for (i, &(beat, threshold)) in admitted.iter().enumerate() {
        assert_eq!(threshold, i as u64 * step);
        assert!(beat > threshold);
    }
}

#[test]
fn time_thresholds_form_arithmetic_sequence() {
    // The analogous law for FrameRate(fps) with step 1/fps over time.
    let fps = 25u64;
    let step = TICKS_PER_SECOND / fps;
    let mut p = VideoProvider::new(String::from("vid"), 1, 1, SpeedMode::FrameRate(fps));
    let times: Vec<u64> = (1..=60).map(|i| i * 17_000).collect();
    let admitted = p.replay_times(&times);
    assert!(admitted.len() > 3);
    for (i, &(time, threshold)) in admitted.iter().enumerate() {
        assert_eq!(threshold, i as u64 * step);
        assert!(time > threshold);
    }
}

#[test]
fn no_double_admit_within_one_step() {
    // For a fixed threshold T, exactly one sample is admitted while the
    // driving value lies in [T, T + step).
    let step = TICKS_PER_SECOND;
    let mut p = VideoProvider::new(String::from("vid"), 1, 1, SpeedMode::BeatInterval(step));
    // Many samples offered while the beat crawls through [1.0, 2.0).
    let beats = vec![
        1_000_000u64, 1_000_000, 1_100_000, 1_300_000, 1_300_000, 1_700_000, 1_999_999,
    ];
    p.set_beat(1_000_000, false);
    assert_eq!(p.gate_check(), GatePoll::Admitted); // crosses threshold 0
    let admitted = p.replay_beats(&beats);
    // Exactly one admission: the one that crossed threshold 1.0.
    assert_eq!(admitted.len(), 1);
    assert_eq!(admitted[0].1, step);
    assert!(admitted[0].0 > step);
}

#[test]
fn equal_driving_value_never_admits() {
    // Tie-break is strict: a beat exactly at the threshold is denied.
    let mut p = VideoProvider::new(
        String::from("vid"),
        1,
        1,
        SpeedMode::BeatInterval(TICKS_PER_SECOND),
    );
    p.set_beat(0, false);
    assert_eq!(p.gate_check(), GatePoll::Denied);
    p.set_beat(TICKS_PER_SECOND, false);
    assert_eq!(p.gate_check(), GatePoll::Admitted);
    // Now the threshold equals the beat again: denied.
    assert_eq!(p.gate_check(), GatePoll::Denied);
}

#[test]
fn jump_over_many_intervals_admits_once_per_check() {
    // A driving value that jumps several intervals in one update admits
    // only one frame per gate poll.
    let mut p = VideoProvider::new(
        String::from("vid"),
        1,
        1,
        SpeedMode::BeatInterval(TICKS_PER_SECOND),
    );
    p.set_beat(2_500_000, false);
    assert_eq!(p.gate_check(), GatePoll::Admitted);
    assert_eq!(p.next_sync_beat, TICKS_PER_SECOND);
    assert_eq!(p.gate_check(), GatePoll::Admitted);
    assert_eq!(p.next_sync_beat, 2 * TICKS_PER_SECOND);
    assert_eq!(p.gate_check(), GatePoll::Admitted);
    assert_eq!(p.next_sync_beat, 3 * TICKS_PER_SECOND);
    assert_eq!(p.gate_check(), GatePoll::Denied);
}

#[test]
fn threshold_saturates_at_the_top_of_the_range() {
    // A threshold that cannot advance by a full step clamps to the top of
    // the tick range, after which no driving value can cross it again.
    let mut p = VideoProvider::new(
        String::from("vid"),
        1,
        1,
        SpeedMode::BeatInterval(TICKS_PER_SECOND),
    );
    p.next_sync_beat = u64::MAX - 1;
    p.set_beat(u64::MAX, false);
    assert_eq!(p.gate_check(), GatePoll::Admitted);
    assert_eq!(p.next_sync_beat, u64::MAX);
    assert_eq!(p.gate_check(), GatePoll::Denied);
}
