//! Per-community voice-announcement core.
//!
//! Members opt in for a limited time window; while opted in, their text
//! messages in a designated channel are synthesized into speech and played
//! into a live voice session. This crate holds the session-state and
//! playback-control logic: the time-bounded membership cache, the content
//! filter, the synthesis-result cache, the bounded playback retry machine,
//! and the per-community session coordinator, together with the snapshot
//! codec used to persist membership across restarts.
//!
//! The chat gateway, the voice transport and the external synthesizer are
//! collaborators outside this crate; the coordinator here decides, and the
//! surrounding process performs the I/O.

pub mod cfg;
pub mod text;
pub mod say_cache;
pub mod filter;
pub mod fingerprint;
pub mod snapshot;
pub mod synth;
pub mod playback;
pub mod session;
