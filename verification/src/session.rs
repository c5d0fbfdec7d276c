//! Session coordinator: the per-community decision logic.
//!
//! One coordinator serves one community and processes its inbound messages
//! sequentially. For each message it decides a plan: answer the help
//! command, enable or disable a member (updating the membership cache and
//! asking for a snapshot write), speak an eligible message from an active
//! member, or do nothing. The speak path is then driven as a small state
//! machine — join, stop the current track, fetch the artifact, start and
//! observe the track with bounded retries, then persist and clean up — whose
//! transitions are decided here while the surrounding process performs the
//! I/O and feeds the outcome of each step back as an event.
use vstd::prelude::*;
use vstd::string::StrSliceExecFns;
use crate::say_cache::SayCache;
use crate::filter::spec_eligible;
use crate::fingerprint::spec_fingerprint;
use crate::playback::{decision_of, RetryController, RetryDecision, TrackStatus, MAX_ATTEMPTS};
use crate::text::{has_prefix, mention_parse, trim};

verus! {

/// Opt-in window: four hours, re-armed by every qualifying utterance.
pub const MEMBERSHIP_TTL_SECS: u64 = 14400;

/// Kind of an inbound message; only ordinary chat messages are processed.
#[derive(PartialEq, Eq, Structural, Clone, Copy)]
pub enum MessageKind {
    Regular,
    Other,
}

/// An inbound message event, as handed over by the chat gateway.
pub struct MessageEvent {
    pub guild_id: u64,
    pub author_id: u64,
    pub kind: MessageKind,
    pub content: String,
}

/// Emoji reaction set on the triggering message.
#[derive(PartialEq, Eq, Structural, Clone, Copy)]
pub enum Reaction {
    /// The check mark acknowledging an enable or disable command.
    Success,
    /// The cross reporting an externally visible failure.
    Failure,
}

/// What the coordinator decided for one inbound message.
#[derive(PartialEq, Eq, Structural)]
pub enum Plan {
    /// Drop the message: wrong community, not a chat message, an inactive
    /// author, or ineligible content. Deliberately silent — opted-out users
    /// get no feedback noise.
    Ignore,
    /// Reply with the usage text.
    Help,
    /// Membership was refreshed for `target`; persist the snapshot and
    /// acknowledge with a success reaction.
    Enable { target: u64 },
    /// Membership was revoked for the author; persist the snapshot and
    /// acknowledge with a success reaction.
    Disable,
    /// Speak the message: run the playback cycle for this fingerprint.
    Speak { fingerprint: u64 },
}

/// The rest of an enable command after the command word, trimmed.
pub open spec fn enable_rest(c: Seq<char>) -> Seq<char> {
    trim(c.subrange("> sayEnable"@.len() as int, c.len() as int))
}

/// Whom an enable command applies to: an explicitly mentioned user, or the
/// author when no well-formed mention follows the command word.
pub open spec fn enable_target(c: Seq<char>, author: u64) -> u64 {
    match mention_parse(enable_rest(c)) {
        Some(u) => u,
        None => author,
    }
}

/// The plan decided for message `ev` against membership map `m` at time
/// `now`: command dispatch first (help, enable, disable), then the speech
/// path for active members whose text passes the content filter.
pub open spec fn plan_of(m: Map<u64, u64>, cfg_guild: u64, ev: MessageEvent, now: u64) -> Plan {
    let c = ev.content@;
    if ev.guild_id != cfg_guild || ev.kind != MessageKind::Regular {
        Plan::Ignore
    } else if c == "> help"@ {
        Plan::Help
    } else if has_prefix(c, "> sayEnable"@) {
        Plan::Enable { target: enable_target(c, ev.author_id) }
    } else if c == "> sayDisable"@ {
        Plan::Disable
    } else if !(m.contains_key(ev.author_id) && now < m[ev.author_id]) {
        Plan::Ignore
    } else if !spec_eligible(c) {
        Plan::Ignore
    } else {
        Plan::Speak { fingerprint: spec_fingerprint(c) }
    }
}

/// The membership map after message `ev`: an enable inserts the target with
/// a full window, a disable removes the author, and any message from an
/// active member — eligible or not — re-arms the author's window. Everything
/// else leaves the map unchanged.
pub open spec fn cache_after(m: Map<u64, u64>, cfg_guild: u64, ev: MessageEvent, now: u64) -> Map<
    u64,
    u64,
> {
    let c = ev.content@;
    let fresh = (now + MEMBERSHIP_TTL_SECS) as u64;
    if ev.guild_id != cfg_guild || ev.kind != MessageKind::Regular {
        m
    } else if c == "> help"@ {
        m
    } else if has_prefix(c, "> sayEnable"@) {
        m.insert(enable_target(c, ev.author_id), fresh)
    } else if c == "> sayDisable"@ {
        m.remove(ev.author_id)
    } else if !(m.contains_key(ev.author_id) && now < m[ev.author_id]) {
        m
    } else {
        m.insert(ev.author_id, fresh)
    }
}

/// `s` equals the characters of `w`.
fn lit_eq(s: &Vec<char>, w: &str) -> (r: bool)
    ensures
        r == (s@ == w@),
{
    let m = w.unicode_len();
    if s.len() != m {
        return false;
    }
    let mut k: usize = 0;
    while k < m
        invariant
            k <= m,
            m == w@.len(),
            s@.len() == m,
            forall|t: int| 0 <= t < k ==> s@[t] == w@[t],
        decreases m - k,
    {
        if s[k] != w.get_char(k) {
            return false;
        }
        k = k + 1;
    }
    proof {
        assert(s@ =~= w@);
    }
    true
}

/// The characters of `w` are a prefix of `s`.
fn lit_prefix(s: &Vec<char>, w: &str) -> (r: bool)
    ensures
        r == has_prefix(s@, w@),
{
    let m = w.unicode_len();
    if s.len() < m {
        return false;
    }
    let mut k: usize = 0;
    while k < m
        invariant
            k <= m,
            m == w@.len(),
            m <= s@.len(),
            forall|t: int| 0 <= t < k ==> s@[t] == w@[t],
        decreases m - k,
    {
        if s[k] != w.get_char(k) {
            proof {
                if has_prefix(s@, w@) {
                    assert(s@.subrange(0, m as int)[k as int] == w@[k as int]);
                }
            }
            return false;
        }
        k = k + 1;
    }
    proof {
        assert(s@.subrange(0, m as int) =~= w@);
    }
    true
}

/// Decides one inbound message and applies its membership effect: the
/// returned plan is `plan_of` over the cache's map before the call, and the
/// cache afterwards holds `cache_after` of that map. The snapshot path and
/// well-formedness are preserved.
pub fn plan_message(cache: &mut SayCache, cfg_guild: u64, ev: &MessageEvent, now: u64) -> (p: Plan)
    requires
        old(cache).wf(),
        now + MEMBERSHIP_TTL_SECS <= u64::MAX,
    ensures
        final(cache).wf(),
        final(cache).spec_path() == old(cache).spec_path(),
        p == plan_of(old(cache).as_map(), cfg_guild, *ev, now),
        final(cache).as_map() == cache_after(old(cache).as_map(), cfg_guild, *ev, now),
{
    if ev.guild_id != cfg_guild || !matches!(ev.kind, MessageKind::Regular) {
        return Plan::Ignore;
    }
    let cs = crate::text::chars_vec(ev.content.as_str());
    if lit_eq(&cs, "> help") {
        return Plan::Help;
    }
    if lit_prefix(&cs, "> sayEnable") {
        let m = "> sayEnable".unicode_len();
        let n = cs.len();
        let mut rest: Vec<char> = Vec::new();
        let mut k: usize = m;
        while k < n
            invariant
                m <= k <= n,
                n == cs@.len(),
                rest@ == cs@.subrange(m as int, k as int),
            decreases n - k,
        {
            rest.push(cs[k]);
            k = k + 1;
            proof {
                assert(rest@ =~= cs@.subrange(m as int, k as int));
            }
        }
        let trimmed = crate::text::trim_chars(&rest);
        let target = match crate::text::parse_mention(&trimmed) {
            Some(u) => u,
            None => ev.author_id,
        };
        cache.refresh(target, now, MEMBERSHIP_TTL_SECS);
        proof {
            assert(rest@ =~= ev.content@.subrange(
                "> sayEnable"@.len() as int,
                ev.content@.len() as int,
            ));
        }
        return Plan::Enable { target };
    }
    if lit_eq(&cs, "> sayDisable") {
        cache.revoke(ev.author_id);
        return Plan::Disable;
    }
    if !cache.is_active(ev.author_id, now) {
        return Plan::Ignore;
    }
    cache.refresh(ev.author_id, now, MEMBERSHIP_TTL_SECS);
    if !crate::filter::is_eligible_chars(&cs) {
        return Plan::Ignore;
    }
    let fp = crate::fingerprint::fingerprint_of(ev.content.as_str());
    Plan::Speak { fingerprint: fp }
}

/// The acknowledgement owed for a plan: enable and disable are acknowledged
/// with a success reaction; everything else gets none here (failures along
/// the speak path are reported by the playback cycle).
pub fn reaction_for(p: &Plan) -> (r: Option<Reaction>)
    ensures
        r == (match p {
            Plan::Enable { .. } => Some(Reaction::Success),
            Plan::Disable => Some(Reaction::Success),
            _ => None::<Reaction>,
        }),
{
    match p {
        Plan::Enable { .. } => Some(Reaction::Success),
        Plan::Disable => Some(Reaction::Success),
        _ => None,
    }
}

/// How a voice join failed.
#[derive(PartialEq, Eq, Structural, Clone, Copy)]
pub enum JoinFailure {
    /// The join was dropped by the driver: a process-level restart candidate.
    Dropped,
    /// A driver error: likewise a restart candidate.
    Driver,
    /// A permanent failure (permissions, configuration): reported, no retry.
    Permanent,
}

/// Phase of one utterance's speak cycle.
#[derive(PartialEq, Eq, Structural, Clone, Copy)]
pub enum SpeakPhase {
    /// Waiting for the voice join.
    Joining,
    /// Waiting for the artifact (cache hit or synthesis).
    Fetching,
    /// Track started; waiting for its observed state.
    Observing,
    /// The utterance is audible; the cycle finished.
    Done,
    /// The cycle was abandoned and reported.
    Abandoned,
}

/// Outcome of the step the surrounding process just performed.
pub enum SpeakEvent {
    JoinSucceeded,
    JoinFailed { failure: JoinFailure },
    /// The artifact exists: fetched from cache or freshly synthesized.
    ArtifactReady,
    /// The synthesizer failed or timed out; no artifact was left behind.
    SynthesisFailed,
    /// The started track was observed in this state.
    TrackObserved { status: TrackStatus },
}

/// The next step the surrounding process must perform.
#[derive(PartialEq, Eq, Structural)]
pub enum SpeakAction {
    /// Halt whatever is playing on the connection, then fetch the artifact
    /// (never two audible tracks: a new utterance preempts the old one).
    StopAndFetch,
    /// Start the artifact as a track at `VOLUME_MILLI` attenuation, then
    /// observe its state.
    StartTrack,
    /// Fetch the artifact again (the ended-track flake) and report back.
    Refetch,
    /// Start the same track again, then observe its state.
    RestartTrack,
    /// Success: persist the membership snapshot and delete the artifact.
    FinishCycle,
    /// Report with a failure reaction and a log entry; when
    /// `restart_process` holds, the driver failure is flagged for
    /// process-level recovery.
    ReportFailure { restart_process: bool },
}

/// Which events a phase can receive.
pub open spec fn event_fits(phase: SpeakPhase, ev: SpeakEvent) -> bool {
    match ev {
        SpeakEvent::JoinSucceeded => phase == SpeakPhase::Joining,
        SpeakEvent::JoinFailed { .. } => phase == SpeakPhase::Joining,
        SpeakEvent::ArtifactReady => phase == SpeakPhase::Fetching,
        SpeakEvent::SynthesisFailed => phase == SpeakPhase::Fetching,
        SpeakEvent::TrackObserved { .. } => phase == SpeakPhase::Observing,
    }
}

/// The speak cycle for one utterance: a state machine over the events that
/// the surrounding process reports back, with the bounded retry controller
/// inside. Failures never unwind past the cycle: every path ends in `Done`
/// or in `Abandoned` with a report.
pub struct SpeakSession {
    phase: SpeakPhase,
    retry: RetryController,
}

impl SpeakSession {
    pub closed spec fn phase(&self) -> SpeakPhase {
        self.phase
    }

    pub closed spec fn attempts_made(&self) -> u32 {
        self.retry.attempts_made()
    }

    pub fn new() -> (s: SpeakSession)
        ensures
            s.phase() == SpeakPhase::Joining,
            s.attempts_made() == 0,
    {
        SpeakSession { phase: SpeakPhase::Joining, retry: RetryController::new() }
    }

    /// Current phase, for the surrounding loop.
    pub fn current_phase(&self) -> (r: SpeakPhase)
        ensures
            r == self.phase(),
    {
        self.phase
    }

    /// Consumes the outcome of the step just performed and decides the next
    /// one.
    pub fn on_event(&mut self, ev: SpeakEvent) -> (a: SpeakAction)
        requires
            event_fits(old(self).phase(), ev),
            old(self).attempts_made() < MAX_ATTEMPTS,
        ensures
            match ev {
                SpeakEvent::JoinSucceeded => final(self).phase() == SpeakPhase::Fetching && a
                    == SpeakAction::StopAndFetch
                    && final(self).attempts_made() == old(self).attempts_made(),
                SpeakEvent::JoinFailed { failure } => final(self).phase() == SpeakPhase::Abandoned
                    && a == (SpeakAction::ReportFailure {
                    restart_process: failure == JoinFailure::Dropped || failure
                        == JoinFailure::Driver,
                }) && final(self).attempts_made() == old(self).attempts_made(),
                SpeakEvent::ArtifactReady => final(self).phase() == SpeakPhase::Observing && a
                    == SpeakAction::StartTrack
                    && final(self).attempts_made() == old(self).attempts_made(),
                SpeakEvent::SynthesisFailed => final(self).phase() == SpeakPhase::Abandoned && a
                    == (SpeakAction::ReportFailure { restart_process: false })
                    && final(self).attempts_made() == old(self).attempts_made(),
                SpeakEvent::TrackObserved { status } => {
                    &&& final(self).attempts_made() == old(self).attempts_made() + 1
                    &&& {
                        let d = decision_of(final(self).attempts_made(), status);
                        match d {
                            RetryDecision::Success => final(self).phase() == SpeakPhase::Done && a
                                == SpeakAction::FinishCycle,
                            RetryDecision::Resynthesize => final(self).phase()
                                == SpeakPhase::Fetching && a == SpeakAction::Refetch,
                            RetryDecision::Replay => final(self).phase() == SpeakPhase::Observing
                                && a == SpeakAction::RestartTrack,
                            RetryDecision::GiveUp => final(self).phase() == SpeakPhase::Abandoned
                                && a == (SpeakAction::ReportFailure { restart_process: false }),
                        }
                    }
                },
            },
    {
        match ev {
            SpeakEvent::JoinSucceeded => {
                self.phase = SpeakPhase::Fetching;
                SpeakAction::StopAndFetch
            }
            SpeakEvent::JoinFailed { failure } => {
                self.phase = SpeakPhase::Abandoned;
                let restart = matches!(failure, JoinFailure::Dropped) || matches!(
                    failure,
                    JoinFailure::Driver,
                );
                SpeakAction::ReportFailure { restart_process: restart }
            }
            SpeakEvent::ArtifactReady => {
                self.phase = SpeakPhase::Observing;
                SpeakAction::StartTrack
            }
            SpeakEvent::SynthesisFailed => {
                self.phase = SpeakPhase::Abandoned;
                SpeakAction::ReportFailure { restart_process: false }
            }
            SpeakEvent::TrackObserved { status } => {
                let d = self.retry.step(status);
                match d {
                    RetryDecision::Success => {
                        self.phase = SpeakPhase::Done;
                        SpeakAction::FinishCycle
                    }
                    RetryDecision::Resynthesize => {
                        self.phase = SpeakPhase::Fetching;
                        SpeakAction::Refetch
                    }
                    RetryDecision::Replay => {
                        self.phase = SpeakPhase::Observing;
                        SpeakAction::RestartTrack
                    }
                    RetryDecision::GiveUp => {
                        self.phase = SpeakPhase::Abandoned;
                        SpeakAction::ReportFailure { restart_process: false }
                    }
                }
            }
        }
    }
}

} // verus!
