use tmzgua::playback::{
    play_with_retry, PlayResult, RetryController, RetryDecision, TrackStatus, MAX_ATTEMPTS,
    VOLUME_MILLI,
};

#[test]
fn constants_match_design() {
    assert_eq!(MAX_ATTEMPTS, 4);
    assert_eq!(VOLUME_MILLI, 225);
}

#[test]
fn immediate_playing_succeeds_first_attempt() {
    let script = vec![TrackStatus::Playing];
    assert!(play_with_retry(&script) == PlayResult::Played { attempts: 1 });
}

#[test]
fn flaky_start_succeeds_after_n_plus_one_attempts() {
    // N = 1, 2, 3 early "Ended" observations, then "Playing"
    for n in 1..=3u32 {
        let mut script = vec![TrackStatus::Ended; n as usize];
        script.push(TrackStatus::Playing);
        assert!(play_with_retry(&script) == PlayResult::Played { attempts: n + 1 });
    }
}

#[test]
fn always_ended_gives_up_after_exactly_four() {
    let script = vec![TrackStatus::Ended; 4];
    assert!(play_with_retry(&script) == PlayResult::Exhausted);
    // a longer recording changes nothing: the fifth observation is never used
    let long = vec![
        TrackStatus::Ended,
        TrackStatus::Ended,
        TrackStatus::Ended,
        TrackStatus::Ended,
        TrackStatus::Playing,
    ];
    assert!(play_with_retry(&long) == PlayResult::Exhausted);
}

#[test]
fn paused_track_is_replayed_not_resynthesized() {
    let mut c = RetryController::new();
    assert!(c.step(TrackStatus::Other) == RetryDecision::Replay);
    assert!(c.step(TrackStatus::Ended) == RetryDecision::Resynthesize);
    assert!(c.step(TrackStatus::Playing) == RetryDecision::Success);
}

#[test]
fn controller_counts_to_the_ceiling() {
    let mut c = RetryController::new();
    assert!(c.step(TrackStatus::Ended) == RetryDecision::Resynthesize);
    assert!(c.step(TrackStatus::Ended) == RetryDecision::Resynthesize);
    assert!(c.step(TrackStatus::Ended) == RetryDecision::Resynthesize);
    // the fourth failed attempt spends the ceiling
    assert!(c.step(TrackStatus::Ended) == RetryDecision::GiveUp);
    // and it stays spent
    assert!(c.step(TrackStatus::Ended) == RetryDecision::GiveUp);
    assert!(c.step(TrackStatus::Playing) == RetryDecision::GiveUp);
}

#[test]
fn fourth_attempt_can_still_succeed() {
    let script = vec![
        TrackStatus::Ended,
        TrackStatus::Other,
        TrackStatus::Ended,
        TrackStatus::Playing,
    ];
    assert!(play_with_retry(&script) == PlayResult::Played { attempts: 4 });
}

#[test]
fn short_recording_without_playing_is_exhausted() {
    let script = vec![TrackStatus::Ended, TrackStatus::Ended];
    assert!(play_with_retry(&script) == PlayResult::Exhausted);
    assert!(play_with_retry(&vec![]) == PlayResult::Exhausted);
}
