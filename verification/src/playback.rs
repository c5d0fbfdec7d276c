//! Playback retry state machine.
//!
//! One utterance gets at most `MAX_ATTEMPTS` attempts. Each attempt starts
//! (or restarts) the track and then observes its state. An observation of
//! `Playing` is success. A track that reports it already ended — the
//! cold-start race where the driver finishes before the state can be seen as
//! playing — is not a hard failure: the artifact is re-fetched and the track
//! restarted. Any other state replays the same track. When all attempts end
//! without an observation of `Playing`, the utterance is abandoned and
//! reported, never retried further.
use vstd::prelude::*;

verus! {

/// Attempt ceiling per utterance.
pub const MAX_ATTEMPTS: u32 = 4;

/// Software attenuation applied to each started track, in thousandths
/// (the mixing level that keeps speech intelligible over channel audio).
pub const VOLUME_MILLI: u32 = 225;

/// Track state as observed from the voice driver after a start.
#[derive(PartialEq, Eq, Structural, Clone, Copy)]
pub enum TrackStatus {
    /// The track is audibly playing.
    Playing,
    /// The track already ended (or the handle reports it finished).
    Ended,
    /// Any other driver state (paused, stopped, …).
    Other,
}

/// What the controller does after consuming one observation.
#[derive(PartialEq, Eq, Structural)]
pub enum RetryDecision {
    /// The utterance is audible; the cycle can finish.
    Success,
    /// Re-fetch the artifact and start a fresh track.
    Resynthesize,
    /// Start the same track again.
    Replay,
    /// The attempt ceiling is spent; abandon and report.
    GiveUp,
}

/// Bounded retry controller for one utterance.
pub struct RetryController {
    attempts: u32,
}

/// The decision for an observation made on attempt number `attempts`
/// (counted after the observation).
pub open spec fn decision_of(attempts: u32, status: TrackStatus) -> RetryDecision {
    if status == TrackStatus::Playing {
        RetryDecision::Success
    } else if attempts >= MAX_ATTEMPTS {
        RetryDecision::GiveUp
    } else if status == TrackStatus::Ended {
        RetryDecision::Resynthesize
    } else {
        RetryDecision::Replay
    }
}

impl RetryController {
    /// Observations consumed so far.
    pub closed spec fn attempts_made(&self) -> u32 {
        self.attempts
    }

    pub fn new() -> (c: RetryController)
        ensures
            c.attempts_made() == 0,
    {
        RetryController { attempts: 0 }
    }

    /// Consumes one observation of the started track and decides the next
    /// move. Attempts past the ceiling (which the protocol never makes, as
    /// `GiveUp` ends the cycle) are answered `GiveUp` without counting.
    pub fn step(&mut self, status: TrackStatus) -> (d: RetryDecision)
        ensures
            old(self).attempts_made() >= MAX_ATTEMPTS ==> d == RetryDecision::GiveUp
                && final(self).attempts_made() == old(self).attempts_made(),
            old(self).attempts_made() < MAX_ATTEMPTS ==> final(self).attempts_made()
                == old(self).attempts_made() + 1
                && d == decision_of(final(self).attempts_made(), status),
    {
        if self.attempts >= MAX_ATTEMPTS {
            return RetryDecision::GiveUp;
        }
        self.attempts = self.attempts + 1;
        match status {
            TrackStatus::Playing => RetryDecision::Success,
            TrackStatus::Ended => {
                if self.attempts >= MAX_ATTEMPTS {
                    RetryDecision::GiveUp
                } else {
                    RetryDecision::Resynthesize
                }
            }
            TrackStatus::Other => {
                if self.attempts >= MAX_ATTEMPTS {
                    RetryDecision::GiveUp
                } else {
                    RetryDecision::Replay
                }
            }
        }
    }
}

/// Outcome of one utterance's playback cycle.
#[derive(PartialEq, Eq, Structural)]
pub enum PlayResult {
    /// The track was observed playing on attempt number `attempts`.
    Played { attempts: u32 },
    /// Every attempt ended without the track being observed playing.
    Exhausted,
}

/// Outcome of the retry loop over a sequence of observations, having already
/// made `k` attempts: attempt `k + 1` consumes `statuses[k]`, success on
/// `Playing`, exhaustion after `MAX_ATTEMPTS` attempts (or when the
/// observations run out).
pub open spec fn spec_play(statuses: Seq<TrackStatus>, k: nat) -> PlayResult
    decreases statuses.len() - k when k <= statuses.len()
{
    if k >= MAX_ATTEMPTS || k >= statuses.len() {
        PlayResult::Exhausted
    } else if statuses[k as int] == TrackStatus::Playing {
        PlayResult::Played { attempts: (k + 1) as u32 }
    } else {
        spec_play(statuses, k + 1)
    }
}

/// Replays the retry loop against a recorded sequence of observations, one
/// per attempt. A recording that runs out before an observation of
/// `Playing` counts as exhaustion.
pub fn play_with_retry(statuses: &Vec<TrackStatus>) -> (r: PlayResult)
    ensures
        r == spec_play(statuses@, 0),
{
    let mut ctl = RetryController::new();
    let n = statuses.len();
    let mut k: usize = 0;
    while k < n && k < MAX_ATTEMPTS as usize
        invariant
            k <= n,
            n == statuses@.len(),
            k <= MAX_ATTEMPTS,
            ctl.attempts_made() == k,
            spec_play(statuses@, 0) == spec_play(statuses@, k as nat),
        decreases n - k,
    {
        let d = ctl.step(statuses[k]);
        k = k + 1;
        if matches!(d, RetryDecision::Success) {
            return PlayResult::Played { attempts: k as u32 };
        }
        if matches!(d, RetryDecision::GiveUp) {
            return PlayResult::Exhausted;
        }
    }
    PlayResult::Exhausted
}

proof fn lemma_play_from(statuses: Seq<TrackStatus>, k: nat, n: nat)
    requires
        k <= n,
        n < MAX_ATTEMPTS,
        n < statuses.len(),
        forall|i: int| k <= i < n ==> statuses[i] != TrackStatus::Playing,
        statuses[n as int] == TrackStatus::Playing,
    ensures
        spec_play(statuses, k) == (PlayResult::Played { attempts: (n + 1) as u32 }),
    decreases n - k,
{
    if k < n {
        lemma_play_from(statuses, k + 1, n);
    }
}

/// A transient flake is retried through: when the first `n` observations
/// (with `n` below the attempt ceiling) report the track ended — or
/// otherwise not playing — and observation `n` reports it playing, the cycle
/// succeeds on attempt `n + 1` exactly.
pub proof fn lemma_retry_succeeds_after_flake(statuses: Seq<TrackStatus>, n: nat)
    requires
        n < MAX_ATTEMPTS,
        n < statuses.len(),
        forall|i: int| 0 <= i < n ==> statuses[i] != TrackStatus::Playing,
        statuses[n as int] == TrackStatus::Playing,
    ensures
        spec_play(statuses, 0) == (PlayResult::Played { attempts: (n + 1) as u32 }),
{
    lemma_play_from(statuses, 0, n);
}

/// A persistent failure is bounded: when none of the first `MAX_ATTEMPTS`
/// observations reports the track playing, the cycle gives up — after
/// exactly `MAX_ATTEMPTS` attempts, never more.
pub proof fn lemma_retry_gives_up(statuses: Seq<TrackStatus>)
    requires
        statuses.len() >= MAX_ATTEMPTS,
        forall|i: int| 0 <= i < MAX_ATTEMPTS ==> statuses[i] != TrackStatus::Playing,
    ensures
        spec_play(statuses, 0) == PlayResult::Exhausted,
{
    assert(spec_play(statuses, 0) == spec_play(statuses, 1));
    assert(spec_play(statuses, 1) == spec_play(statuses, 2));
    assert(spec_play(statuses, 2) == spec_play(statuses, 3));
    assert(spec_play(statuses, 3) == spec_play(statuses, 4));
}

/// The outcome is decided by the first `MAX_ATTEMPTS` observations alone:
/// whatever follows them is never consumed.
pub proof fn lemma_retry_bounded(statuses: Seq<TrackStatus>, k: nat)
    requires
        k <= statuses.len(),
        k <= MAX_ATTEMPTS,
    ensures
        spec_play(statuses, k) == spec_play(
            statuses.subrange(0, vstd::math::min(MAX_ATTEMPTS as int, statuses.len() as int)),
            k,
        ),
    decreases MAX_ATTEMPTS - k,
{
    let m = vstd::math::min(MAX_ATTEMPTS as int, statuses.len() as int);
    let pre = statuses.subrange(0, m);
    if k >= MAX_ATTEMPTS || k >= statuses.len() {
    } else {
        if statuses[k as int] == TrackStatus::Playing {
        } else {
            lemma_retry_bounded(statuses, k + 1);
        }
    }
}

} // verus!
