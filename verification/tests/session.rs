use tmzgua::fingerprint::fingerprint_of;
use tmzgua::playback::TrackStatus;
use tmzgua::say_cache::SayCache;
use tmzgua::session::{
    plan_message, reaction_for, JoinFailure, MessageEvent, MessageKind, Plan, Reaction,
    SpeakAction, SpeakEvent, SpeakPhase, SpeakSession, MEMBERSHIP_TTL_SECS,
};
use tmzgua::snapshot::encode_snapshot;
use tmzgua::synth::{FetchPlan, SynthCache};

const GUILD: u64 = 7;

fn msg(author: u64, content: &str) -> MessageEvent {
    MessageEvent {
        guild_id: GUILD,
        author_id: author,
        kind: MessageKind::Regular,
        content: String::from(content),
    }
}

#[test]
fn ttl_is_four_hours() {
    assert_eq!(MEMBERSHIP_TTL_SECS, 4 * 3600);
}

#[test]
fn enable_then_speak_end_to_end() {
    let mut cache = SayCache::new(String::from("/tmp/say"));
    let now = 1_000;

    // user A opts in; the command is acknowledged with a success reaction
    let p = plan_message(&mut cache, GUILD, &msg(42, "> sayEnable"), now);
    assert!(p == Plan::Enable { target: 42 });
    assert!(reaction_for(&p) == Some(Reaction::Success));
    assert!(cache.is_active(42, now));
    assert_eq!(encode_snapshot(&cache.to_vec(now)), b"[\"42\"]".to_vec());

    // A speaks within the window: the message is planned for playback
    let p2 = plan_message(&mut cache, GUILD, &msg(42, "hello there"), now + 100);
    let fp = fingerprint_of("hello there");
    assert!(p2 == Plan::Speak { fingerprint: fp });
    assert!(reaction_for(&p2).is_none());

    // the speak cycle: join, stop current, fetch, start, observe playing
    let mut cycle = SpeakSession::new();
    assert!(cycle.on_event(SpeakEvent::JoinSucceeded) == SpeakAction::StopAndFetch);
    let mut artifacts = SynthCache::new();
    assert!(artifacts.plan_fetch(fp) == FetchPlan::Synthesize);
    artifacts.on_synthesized(fp);
    assert!(cycle.on_event(SpeakEvent::ArtifactReady) == SpeakAction::StartTrack);
    let a = cycle.on_event(SpeakEvent::TrackObserved {
        status: TrackStatus::Playing,
    });
    assert!(a == SpeakAction::FinishCycle);
    assert!(cycle.current_phase() == SpeakPhase::Done);

    // finish: persist the refreshed membership, then drop the artifact
    assert_eq!(
        encode_snapshot(&cache.to_vec(now + 100)),
        b"[\"42\"]".to_vec()
    );
    artifacts.on_artifact_removed(fp);
    assert!(artifacts.plan_fetch(fp) == FetchPlan::Synthesize);
}

#[test]
fn never_enabled_user_is_silently_ignored() {
    let mut cache = SayCache::new(String::from("/tmp/say"));
    let before = encode_snapshot(&cache.to_vec(0));
    let p = plan_message(&mut cache, GUILD, &msg(99, "hello"), 0);
    assert!(p == Plan::Ignore);
    assert!(reaction_for(&p).is_none());
    assert_eq!(encode_snapshot(&cache.to_vec(0)), before);
}

#[test]
fn disable_stops_playback_and_updates_snapshot() {
    let mut cache = SayCache::new(String::from("/tmp/say"));
    let now = 50;
    plan_message(&mut cache, GUILD, &msg(42, "> sayEnable"), now);
    assert_eq!(encode_snapshot(&cache.to_vec(now)), b"[\"42\"]".to_vec());

    let p = plan_message(&mut cache, GUILD, &msg(42, "> sayDisable"), now + 1);
    assert!(p == Plan::Disable);
    assert!(reaction_for(&p) == Some(Reaction::Success));
    assert_eq!(encode_snapshot(&cache.to_vec(now + 1)), b"[]".to_vec());

    let p2 = plan_message(&mut cache, GUILD, &msg(42, "hello again"), now + 2);
    assert!(p2 == Plan::Ignore);
}

#[test]
fn help_is_answered_and_changes_nothing() {
    let mut cache = SayCache::new(String::from("/tmp/say"));
    let p = plan_message(&mut cache, GUILD, &msg(1, "> help"), 0);
    assert!(p == Plan::Help);
    assert!(reaction_for(&p).is_none());
    assert_eq!(cache.len(), 0);
    // near-miss is not the help command; from a non-member it is ignored
    let p2 = plan_message(&mut cache, GUILD, &msg(1, "> help "), 0);
    assert!(p2 == Plan::Ignore);
}

#[test]
fn enable_with_explicit_target() {
    let mut cache = SayCache::new(String::from("/tmp/say"));
    let p = plan_message(&mut cache, GUILD, &msg(1, "> sayEnable <@123>"), 0);
    assert!(p == Plan::Enable { target: 123 });
    assert!(cache.is_active(123, 0));
    assert!(!cache.is_active(1, 0));

    let p2 = plan_message(&mut cache, GUILD, &msg(1, "> sayEnable   <@99>  "), 0);
    assert!(p2 == Plan::Enable { target: 99 });

    // the platform trims Unicode whitespace around an explicit target
    let p3 = plan_message(&mut cache, GUILD, &msg(1, "> sayEnable\u{a0}<@7>\u{a0}"), 0);
    assert!(p3 == Plan::Enable { target: 7 });
}

#[test]
fn enable_with_bad_target_falls_back_to_author() {
    let mut cache = SayCache::new(String::from("/tmp/say"));
    let p = plan_message(&mut cache, GUILD, &msg(8, "> sayEnable <@abc>"), 0);
    assert!(p == Plan::Enable { target: 8 });
    let p2 = plan_message(&mut cache, GUILD, &msg(9, "> sayEnable pardon"), 0);
    assert!(p2 == Plan::Enable { target: 9 });
    assert!(cache.is_active(8, 0));
    assert!(cache.is_active(9, 0));
}

#[test]
fn disable_never_takes_a_target() {
    // a disable with extra text is not the disable command at all
    let mut cache = SayCache::new(String::from("/tmp/say"));
    plan_message(&mut cache, GUILD, &msg(5, "> sayEnable"), 0);
    let p = plan_message(&mut cache, GUILD, &msg(6, "> sayDisable <@5>"), 1);
    assert!(p == Plan::Ignore);
    assert!(cache.is_active(5, 1));
}

#[test]
fn wrong_guild_or_kind_is_ignored() {
    let mut cache = SayCache::new(String::from("/tmp/say"));
    let mut ev = msg(1, "> sayEnable");
    ev.guild_id = GUILD + 1;
    assert!(plan_message(&mut cache, GUILD, &ev, 0) == Plan::Ignore);
    let mut ev2 = msg(1, "> sayEnable");
    ev2.kind = MessageKind::Other;
    assert!(plan_message(&mut cache, GUILD, &ev2, 0) == Plan::Ignore);
    assert_eq!(cache.len(), 0);
}

#[test]
fn ineligible_content_is_dropped_but_still_rearms() {
    let mut cache = SayCache::new(String::from("/tmp/say"));
    plan_message(&mut cache, GUILD, &msg(42, "> sayEnable"), 0);
    // the filtered message produces no playback…
    let p = plan_message(&mut cache, GUILD, &msg(42, "see http://spam"), 10);
    assert!(p == Plan::Ignore);
    // …but reading it extended the window past the original expiry
    assert!(cache.is_active(42, 10 + MEMBERSHIP_TTL_SECS - 1));
}

#[test]
fn expired_member_is_ignored_again() {
    let mut cache = SayCache::new(String::from("/tmp/say"));
    plan_message(&mut cache, GUILD, &msg(42, "> sayEnable"), 0);
    let later = MEMBERSHIP_TTL_SECS;
    let p = plan_message(&mut cache, GUILD, &msg(42, "hello"), later);
    assert!(p == Plan::Ignore);
}

#[test]
fn join_failures_abandon_and_flag_driver_cases() {
    for (failure, restart) in [
        (JoinFailure::Dropped, true),
        (JoinFailure::Driver, true),
        (JoinFailure::Permanent, false),
    ] {
        let mut cycle = SpeakSession::new();
        let a = cycle.on_event(SpeakEvent::JoinFailed { failure });
        assert!(
            a == SpeakAction::ReportFailure {
                restart_process: restart
            }
        );
        assert!(cycle.current_phase() == SpeakPhase::Abandoned);
    }
}

#[test]
fn synthesis_failure_abandons_with_report() {
    let mut cycle = SpeakSession::new();
    cycle.on_event(SpeakEvent::JoinSucceeded);
    let a = cycle.on_event(SpeakEvent::SynthesisFailed);
    assert!(
        a == SpeakAction::ReportFailure {
            restart_process: false
        }
    );
    assert!(cycle.current_phase() == SpeakPhase::Abandoned);
}

#[test]
fn ended_track_is_refetched_then_succeeds() {
    let mut cycle = SpeakSession::new();
    assert!(cycle.on_event(SpeakEvent::JoinSucceeded) == SpeakAction::StopAndFetch);
    assert!(cycle.on_event(SpeakEvent::ArtifactReady) == SpeakAction::StartTrack);
    let a = cycle.on_event(SpeakEvent::TrackObserved {
        status: TrackStatus::Ended,
    });
    assert!(a == SpeakAction::Refetch);
    assert!(cycle.current_phase() == SpeakPhase::Fetching);
    assert!(cycle.on_event(SpeakEvent::ArtifactReady) == SpeakAction::StartTrack);
    let b = cycle.on_event(SpeakEvent::TrackObserved {
        status: TrackStatus::Playing,
    });
    assert!(b == SpeakAction::FinishCycle);
}

#[test]
fn retry_exhaustion_reports_failure() {
    let mut cycle = SpeakSession::new();
    cycle.on_event(SpeakEvent::JoinSucceeded);
    for _ in 0..3 {
        cycle.on_event(SpeakEvent::ArtifactReady);
        let a = cycle.on_event(SpeakEvent::TrackObserved {
            status: TrackStatus::Ended,
        });
        assert!(a == SpeakAction::Refetch);
    }
    cycle.on_event(SpeakEvent::ArtifactReady);
    let last = cycle.on_event(SpeakEvent::TrackObserved {
        status: TrackStatus::Ended,
    });
    assert!(
        last == SpeakAction::ReportFailure {
            restart_process: false
        }
    );
    assert!(cycle.current_phase() == SpeakPhase::Abandoned);
}

#[test]
fn paused_track_is_restarted_in_place() {
    let mut cycle = SpeakSession::new();
    cycle.on_event(SpeakEvent::JoinSucceeded);
    cycle.on_event(SpeakEvent::ArtifactReady);
    let a = cycle.on_event(SpeakEvent::TrackObserved {
        status: TrackStatus::Other,
    });
    assert!(a == SpeakAction::RestartTrack);
    assert!(cycle.current_phase() == SpeakPhase::Observing);
}
