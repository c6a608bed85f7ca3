//! Events from the back end to the interface.
//!
//! Commands only start tasks or read state and never block for long; what a
//! long task produces is pushed as events, so the interface stays responsive.

use vstd::prelude::*;
use crate::domain::plan::MatchSummary;
use crate::domain::track::LyricsPresence;

verus! {

/// Task phase; the status bar words its progress text by it.
#[derive(Clone, Copy, Debug, PartialEq, Eq, Structural)]
pub enum Phase {
    Scanning,
    Matching,
    Writing,
    Idle,
    Done,
    Cancelled,
    Failed,
}

/// Progress event, throttled and merged before it goes out.
#[derive(Clone, Debug)]
pub enum ProgressEvent {
    /// Overall progress.
    Progress {
        phase: Phase,
        done: usize,
        total: usize,
        /// Written / to confirm / not found: the status bar shows these counts.
        ok: usize,
        warn: usize,
        err: usize,
        skip: usize,
    },
}

/// One track changed: its list row follows without reading the whole list.
#[derive(Clone, Debug)]
pub struct TrackUpdated {
    pub track_id: u64,
    pub state: String,
    /// Match score, in thousandths.
    pub score: Option<u32>,
    /// One sentence for the user, free of technical detail.
    pub message: Option<String>,
    /// The lyrics the file holds; a write changes it, and the row's column
    /// must change with it.
    pub existing_lyrics: LyricsPresence,
    /// The match, for the row's "matched lyrics" column.
    pub matched: Option<MatchSummary>,
}

/// A log line for the interface.
#[derive(Clone, Debug)]
pub struct LogEvent {
    pub level: String,
    pub message: String,
}

/// End of a scan.
#[derive(Clone, Debug)]
pub struct ScanDone {
    pub count: usize,
    pub elapsed_ms: u64,
    /// The directory that was scanned.
    pub path: String,
}

pub const EVT_PROGRESS: &'static str = "progress";

pub const EVT_TRACK: &'static str = "track:updated";

pub const EVT_LOG: &'static str = "log";

pub const EVT_SCAN_DONE: &'static str = "scan:done";

} // verus!
