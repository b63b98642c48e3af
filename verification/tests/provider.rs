use wvr_video::provider::{GatePoll, PropertyUpdate, SampleError, StreamEvent, VideoProvider};
use wvr_video::speed::{SpeedMode, TICKS_PER_SECOND};

fn fresh(mode: SpeedMode) -> VideoProvider {
    VideoProvider::new(String::from("vid"), 2, 1, mode)
}

#[test]
fn new_provider_is_empty_and_running() {
    let p = fresh(SpeedMode::BeatInterval(TICKS_PER_SECOND));
    assert_eq!(p.beat, 0);
    assert_eq!(p.next_sync_beat, 0);
    assert_eq!(p.time, 0);
    assert_eq!(p.next_sync_time, 0);
    assert!(!p.stopped);
    assert!(p.slot.data.is_none());
    assert_eq!(p.slot.width, 2);
    assert_eq!(p.slot.height, 1);
}

#[test]
fn provides_and_set_name() {
    let mut p = fresh(SpeedMode::BeatInterval(TICKS_PER_SECOND));
    assert_eq!(p.provides(), vec![String::from("vid")]);
    p.set_name("camera");
    assert_eq!(p.provides(), vec![String::from("camera")]);
}

#[test]
fn get_idempotent_without_invalidation() {
    // Repeated non-invalidating reads with no intervening commit return
    // the same frame.
    let mut p = fresh(SpeedMode::BeatInterval(TICKS_PER_SECOND));
    p.set_beat(1, false);
    assert_eq!(p.gate_check(), GatePoll::Admitted);
    let data = vec![1u8, 2, 3, 4, 5, 6];
    assert_eq!(p.commit_sample("RGB", 2, 1, &data), Ok(()));
    let first = p.get("vid", false);
    let second = p.get("vid", false);
    assert_eq!(first, Some(((2, 1), vec![1u8, 2, 3, 4, 5, 6])));
    assert_eq!(first, second);
}

#[test]
fn get_with_invalidate_clears_slot() {
    // An invalidating read returns the frame once; the next read returns
    // nothing until the feeder commits again.
    let mut p = fresh(SpeedMode::BeatInterval(TICKS_PER_SECOND));
    p.set_beat(1, false);
    assert_eq!(p.gate_check(), GatePoll::Admitted);
    let data = vec![1u8, 2, 3, 4, 5, 6];
    assert_eq!(p.commit_sample("RGB", 2, 1, &data), Ok(()));
    assert_eq!(p.get("vid", true), Some(((2, 1), vec![1u8, 2, 3, 4, 5, 6])));
    assert_eq!(p.get("vid", false), None);
    // A new commit makes a frame visible again.
    assert_eq!(p.commit_sample("RGB", 2, 1, &data), Ok(()));
    assert!(p.get("vid", false).is_some());
}

#[test]
fn get_under_other_name_returns_nothing_and_keeps_frame() {
    let mut p = fresh(SpeedMode::BeatInterval(TICKS_PER_SECOND));
    let data = vec![1u8, 2, 3, 4, 5, 6];
    assert_eq!(p.commit_sample("RGB", 2, 1, &data), Ok(()));
    assert_eq!(p.get("other", true), None);
    // The mismatched invalidating read did not clear the slot.
    assert!(p.get("vid", false).is_some());
}

#[test]
fn set_property_switches_mode() {
    let mut p = fresh(SpeedMode::BeatInterval(TICKS_PER_SECOND));
    assert_eq!(p.set_property("speed_fps", 30), PropertyUpdate::Updated);
    assert_eq!(p.speed, SpeedMode::FrameRate(30));
    assert_eq!(p.set_property("speed_beats", 500_000), PropertyUpdate::Updated);
    assert_eq!(p.speed, SpeedMode::BeatInterval(500_000));
}

#[test]
fn set_property_unknown_name_is_ignored() {
    let mut p = fresh(SpeedMode::BeatInterval(TICKS_PER_SECOND));
    assert_eq!(p.set_property("brightness", 3), PropertyUpdate::UnknownProperty);
    assert_eq!(p.speed, SpeedMode::BeatInterval(TICKS_PER_SECOND));
}

#[test]
fn set_property_invalid_value_is_ignored() {
    let mut p = fresh(SpeedMode::BeatInterval(TICKS_PER_SECOND));
    assert_eq!(p.set_property("speed_beats", 0), PropertyUpdate::InvalidValue);
    assert_eq!(
        p.set_property("speed_fps", TICKS_PER_SECOND + 1),
        PropertyUpdate::InvalidValue
    );
    assert_eq!(p.speed, SpeedMode::BeatInterval(TICKS_PER_SECOND));
}

#[test]
fn scenario_frame_rate_wait_until_commit() {
    // Mode FrameRate(30); one sample ready per check.  set_time(0.0) then
    // set_time(0.04, sync) blocks until a frame crossing the 0 -> 1/30
    // threshold has been committed; get() then returns that frame.
    let mut p = fresh(SpeedMode::FrameRate(30));
    assert!(!p.set_time(0, false));
    let must_wait = p.set_time(40_000, true);
    assert!(must_wait);
    let mut commits = 0u32;
    while !p.time_synced(40_000) {
        // Decode side: one sample ready per check.
        assert_eq!(p.gate_check(), GatePoll::Admitted);
        let data = vec![9u8, 8, 7, 6, 5, 4];
        assert_eq!(p.commit_sample("RGB", 2, 1, &data), Ok(()));
        commits += 1;
        assert!(commits <= 2);
    }
    // The first committed frame crossed the 0 -> 33333 tick threshold.
    assert!(commits >= 1);
    assert_eq!(p.get("vid", false), Some(((2, 1), vec![9u8, 8, 7, 6, 5, 4])));
}

#[test]
fn scenario_beat_interval_wait_until_commit() {
    // Mode BeatInterval(1.0): set_beat(0.5) then set_beat(1.5, sync)
    // unblocks only once a frame crossing beat 1.0 has committed.
    let mut p = fresh(SpeedMode::BeatInterval(TICKS_PER_SECOND));
    assert!(!p.set_beat(500_000, false));
    // A sample offered at beat 0.5 crosses the initial threshold 0.
    assert_eq!(p.gate_check(), GatePoll::Admitted);
    assert_eq!(p.next_sync_beat, TICKS_PER_SECOND);
    let must_wait = p.set_beat(1_500_000, true);
    assert!(must_wait);
    assert!(!p.beat_synced(1_500_000));
    // The admission that crosses beat 1.0 unblocks the driver.
    assert_eq!(p.gate_check(), GatePoll::Admitted);
    let data = vec![1u8, 2, 3, 4, 5, 6];
    assert_eq!(p.commit_sample("RGB", 2, 1, &data), Ok(()));
    assert!(p.beat_synced(1_500_000));
}

#[test]
fn scenario_unsupported_layout_then_valid_sample() {
    // An unsupported pixel layout drops its sample; a later valid sample
    // still succeeds.
    let mut p = fresh(SpeedMode::BeatInterval(TICKS_PER_SECOND));
    assert_eq!(
        p.commit_sample("GRAY16_LE", 2, 1, &vec![0u8; 4]),
        Err(SampleError::UnsupportedLayout)
    );
    assert_eq!(p.get("vid", false), None);
    let data = vec![1u8, 2, 3, 4, 5, 6];
    assert_eq!(p.commit_sample("RGB", 2, 1, &data), Ok(()));
    assert_eq!(p.get("vid", false), Some(((2, 1), vec![1u8, 2, 3, 4, 5, 6])));
}

#[test]
fn scenario_stop_silences_reads() {
    // After stop(), get() returns nothing regardless of further backend
    // deliveries, and the feeder's gate reports the stop.
    let mut p = fresh(SpeedMode::BeatInterval(TICKS_PER_SECOND));
    p.set_beat(1, false);
    assert_eq!(p.gate_check(), GatePoll::Admitted);
    let data = vec![1u8, 2, 3, 4, 5, 6];
    assert_eq!(p.commit_sample("RGB", 2, 1, &data), Ok(()));
    p.stop();
    assert_eq!(p.get("vid", false), None);
    assert_eq!(p.gate_check(), GatePoll::Stopped);
    // A delivery that was already admitted still cannot become
    // visible through get.
    assert_eq!(p.commit_sample("RGB", 2, 1, &data), Ok(()));
    assert_eq!(p.get("vid", false), None);
}

#[test]
fn scenario_mode_switch_freezes_dormant_threshold() {
    // Switching SpeedMode mid-stream pauses the dormant mode's threshold
    // at its last value: no drift while inactive.
    let mut p = fresh(SpeedMode::FrameRate(30));
    p.set_time(100_000, false);
    p.set_beat(5_000_000, false);
    assert_eq!(p.gate_check(), GatePoll::Admitted);
    assert_eq!(p.gate_check(), GatePoll::Admitted);
    assert_eq!(p.next_sync_time, 66_666);
    assert_eq!(p.next_sync_beat, 0);
    // Switch to beats: the time threshold must stay at 66_666.
    assert_eq!(p.set_property("speed_beats", TICKS_PER_SECOND), PropertyUpdate::Updated);
    assert_eq!(p.gate_check(), GatePoll::Admitted);
    assert_eq!(p.gate_check(), GatePoll::Admitted);
    assert_eq!(p.next_sync_beat, 2 * TICKS_PER_SECOND);
    assert_eq!(p.next_sync_time, 66_666);
    // And back: the beat threshold now stays frozen.
    assert_eq!(p.set_property("speed_fps", 30), PropertyUpdate::Updated);
    assert_eq!(p.gate_check(), GatePoll::Admitted);
    assert_eq!(p.next_sync_time, 99_999);
    assert_eq!(p.next_sync_beat, 2 * TICKS_PER_SECOND);
}

#[test]
fn check_loop_seeks_only_on_end_of_stream() {
    let p = fresh(SpeedMode::FrameRate(30));
    assert!(p.check_loop(Some(StreamEvent::EndOfStream)));
    assert!(!p.check_loop(Some(StreamEvent::Other)));
    assert!(!p.check_loop(None));
}

#[test]
fn sync_wait_ignores_mismatched_mode() {
    // A sync call under the dormant mode is a plain update: no wait.
    let mut p = fresh(SpeedMode::FrameRate(30));
    assert!(!p.set_beat(5_000_000, true));
    assert_eq!(p.beat, 5_000_000);
    let mut q = fresh(SpeedMode::BeatInterval(TICKS_PER_SECOND));
    assert!(!q.set_time(5_000_000, true));
    assert_eq!(q.time, 5_000_000);
}
