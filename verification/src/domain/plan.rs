//! Write plans and outcomes.

use vstd::prelude::*;
use crate::domain::candidate::{copy_all, copy_text, opt_seq, Candidate, Grade, ProviderId};
use crate::domain::lyrics::Lyrics;
use crate::domain::track::TrackMeta;

verus! {

/// Cover image bytes.
#[derive(Clone, Debug)]
pub struct CoverBytes {
    pub bytes: Vec<u8>,
    pub mime: String,
}

/// What gets written. Each of the three products has its own switch.
#[derive(Clone, Debug)]
pub struct WritePayload {
    /// The rendered lyric text (translations merged as the settings say).
    pub lrc: String,
    pub fill_missing_metadata: bool,
    pub embed_cover: bool,
    pub metadata: TrackMeta,
    pub cover: Option<CoverBytes>,
}

/// Where lyrics were written.
#[derive(Clone, Debug, PartialEq, Eq)]
pub enum WrittenTarget {
    /// Inside the song file, with the field name used.
    EmbeddedTag(&'static str),
    /// A sidecar `.lrc` at this path.
    Sidecar(String),
}

#[derive(Clone, Debug)]
pub struct WriteOutcome {
    /// Growth of the file (always zero for a sidecar).
    pub bytes_delta: i64,
    pub target: WrittenTarget,
    pub filled_fields: Vec<String>,
    pub cover_written: bool,
}

/// What the plan decided for one track, before any file is touched.
#[derive(Clone, Copy, Debug, PartialEq, Eq, Structural)]
pub enum WriteAction {
    Write,
    /// The song has lyrics and overwriting is off.
    SkipExistingLyrics,
    /// The format cannot hold lyrics.
    SkipUnsupportedFormat,
    /// Another program holds the file.
    SkipLocked,
    /// No match yet: nothing to write.
    SkipNoMatch,
    /// Sidecar mode: only the `.lrc` is written.
    WriteSidecarOnly,
}

pub open spec fn is_write_spec(a: WriteAction) -> bool {
    a is Write || a is WriteSidecarOnly
}

impl WriteAction {
    /// Whether this action writes anything (the others skip).
    pub fn is_write(&self) -> (r: bool)
        ensures
            r == is_write_spec(*self),
    {
        matches!(self, WriteAction::Write | WriteAction::WriteSidecarOnly)
    }
}

#[derive(Clone, Debug)]
pub struct WritePlanItem {
    pub track_id: u64,
    pub title: String,
    pub action: WriteAction,
    /// Expected growth of the file in bytes.
    pub expected_delta: i64,
}

#[derive(Clone, Debug)]
pub struct WritePlan {
    pub items: Vec<WritePlanItem>,
    pub total_delta: i64,
}

impl Default for WritePlan {
    fn default() -> (r: Self)
        ensures
            r.items@.len() == 0,
            r.total_delta == 0,
    {
        WritePlan { items: Vec::new(), total_delta: 0 }
    }
}

pub open spec fn actions(items: Seq<WritePlanItem>) -> Seq<WriteAction> {
    items.map_values(|i: WritePlanItem| i.action)
}

/// How many actions equal `a`.
pub open spec fn count_action(s: Seq<WriteAction>, a: WriteAction) -> nat
    decreases s.len(),
{
    if s.len() == 0 {
        0
    } else {
        count_action(s.drop_last(), a) + if s.last() == a {
            1nat
        } else {
            0nat
        }
    }
}

/// How many actions write.
pub open spec fn count_writes(s: Seq<WriteAction>) -> nat
    decreases s.len(),
{
    if s.len() == 0 {
        0
    } else {
        count_writes(s.drop_last()) + if is_write_spec(s.last()) {
            1nat
        } else {
            0nat
        }
    }
}

proof fn lemma_counts_bound(s: Seq<WriteAction>, a: WriteAction)
    ensures
        count_action(s, a) <= s.len(),
        count_writes(s) <= s.len(),
    decreases s.len(),
{
    if s.len() > 0 {
        lemma_counts_bound(s.drop_last(), a);
    }
}

/// Every item either writes or is skipped for exactly one of the four reasons.
pub proof fn lemma_plan_partition(s: Seq<WriteAction>)
    ensures
        count_writes(s) + count_action(s, WriteAction::SkipExistingLyrics) + count_action(
            s,
            WriteAction::SkipUnsupportedFormat,
        ) + count_action(s, WriteAction::SkipLocked) + count_action(s, WriteAction::SkipNoMatch)
            == s.len(),
    decreases s.len(),
{
    if s.len() > 0 {
        lemma_plan_partition(s.drop_last());
    }
}

impl WritePlan {
    fn count(&self, action: WriteAction) -> (r: usize)
        ensures
            r == count_action(actions(self.items@), action),
    {
        let ghost acts = actions(self.items@);
        let mut n: usize = 0;
        let mut i: usize = 0;
        while i < self.items.len()
            invariant
                i <= self.items.len(),
                acts == actions(self.items@),
                n == count_action(acts.take(i as int), action),
            decreases self.items.len() - i,
        {
            proof {
                lemma_counts_bound(acts.take(i as int), action);
            }
            assert(acts.take(i + 1).drop_last() == acts.take(i as int));
            if self.items[i].action == action {
                n = n + 1;
            }
            i = i + 1;
        }
        assert(acts.take(self.items.len() as int) == acts);
        n
    }

    /// Number of items that write.
    pub fn writable(&self) -> (r: usize)
        ensures
            r == count_writes(actions(self.items@)),
    {
        let ghost acts = actions(self.items@);
        let mut n: usize = 0;
        let mut i: usize = 0;
        while i < self.items.len()
            invariant
                i <= self.items.len(),
                acts == actions(self.items@),
                n == count_writes(acts.take(i as int)),
            decreases self.items.len() - i,
        {
            proof {
                lemma_counts_bound(acts.take(i as int), WriteAction::Write);
            }
            assert(acts.take(i + 1).drop_last() == acts.take(i as int));
            if self.items[i].action.is_write() {
                n = n + 1;
            }
            i = i + 1;
        }
        assert(acts.take(self.items.len() as int) == acts);
        n
    }

    pub fn locked(&self) -> (r: usize)
        ensures
            r == count_action(actions(self.items@), WriteAction::SkipLocked),
    {
        self.count(WriteAction::SkipLocked)
    }

    /// Number of items skipped, whatever the reason.
    pub fn skipped(&self) -> (r: usize)
        ensures
            r == self.items@.len() - count_writes(actions(self.items@)),
    {
        let w = self.writable();
        proof {
            lemma_counts_bound(actions(self.items@), WriteAction::Write);
        }
        self.items.len() - w
    }

    /// Items skipped for want of a match.
    pub fn skipped_no_match(&self) -> (r: usize)
        ensures
            r == count_action(actions(self.items@), WriteAction::SkipNoMatch),
    {
        self.count(WriteAction::SkipNoMatch)
    }

    /// Items skipped because the song already has lyrics.
    pub fn skipped_existing(&self) -> (r: usize)
        ensures
            r == count_action(actions(self.items@), WriteAction::SkipExistingLyrics),
    {
        self.count(WriteAction::SkipExistingLyrics)
    }

    /// Items skipped because the format cannot hold lyrics.
    pub fn skipped_unsupported(&self) -> (r: usize)
        ensures
            r == count_action(actions(self.items@), WriteAction::SkipUnsupportedFormat),
    {
        self.count(WriteAction::SkipUnsupportedFormat)
    }
}

/// The skipped items are exactly those skipped for one of the four reasons.
pub proof fn lemma_skipped_breakdown(plan: WritePlan)
    ensures
        plan.items@.len() - count_writes(actions(plan.items@)) == count_action(
            actions(plan.items@),
            WriteAction::SkipNoMatch,
        ) + count_action(actions(plan.items@), WriteAction::SkipExistingLyrics) + count_action(
            actions(plan.items@),
            WriteAction::SkipUnsupportedFormat,
        ) + count_action(actions(plan.items@), WriteAction::SkipLocked),
{
    lemma_plan_partition(actions(plan.items@));
}

/// What one match decision produced. Lyrics, metadata and cover share one
/// grade: they stand on one decision, and grading them apart would allow
/// "right lyrics, wrong cover" mixes nobody could trace.
#[derive(Clone, Debug)]
pub struct MatchResult {
    pub candidate: Candidate,
    pub lyrics: Lyrics,
    pub metadata: TrackMeta,
    pub cover_url: Option<String>,
    pub grade: Grade,
    /// The match score, in thousandths.
    pub score: u32,
}

/// The part of a match result that is saved; the lyrics go to the cache.
#[derive(Clone, Debug)]
pub struct MatchSummary {
    pub provider: ProviderId,
    pub song_id: String,
    pub title: String,
    pub artists: Vec<String>,
    pub album: Option<String>,
    pub year: Option<u32>,
    pub track_no: Option<u32>,
    pub duration_ms: Option<u64>,
    pub cover_url: Option<String>,
    /// The match score, in thousandths.
    pub score: u32,
    pub grade: Grade,
}

/// `s` summarises match `m`.
pub open spec fn summarises(s: MatchSummary, m: MatchResult) -> bool {
    &&& s.provider == m.candidate.provider
    &&& s.song_id@ == m.candidate.song_id@
    &&& s.title@ == m.candidate.title@
    &&& s.artists.deep_view() == m.candidate.artists.deep_view()
    &&& opt_seq(s.album) == opt_seq(m.candidate.album)
    &&& s.year == m.candidate.year
    &&& s.track_no == m.candidate.track_no
    &&& s.duration_ms == m.candidate.duration_ms
    &&& opt_seq(s.cover_url) == opt_seq(m.cover_url)
    &&& s.score == m.score
    &&& s.grade == m.grade
}

/// The candidate a summary stands for; the access key is not saved.
pub open spec fn summary_candidate(c: Candidate, s: MatchSummary) -> bool {
    &&& c.provider == s.provider
    &&& c.song_id@ == s.song_id@
    &&& c.access_key is None
    &&& c.title@ == s.title@
    &&& c.artists.deep_view() == s.artists.deep_view()
    &&& opt_seq(c.album) == opt_seq(s.album)
    &&& c.year == s.year
    &&& c.track_no == s.track_no
    &&& c.duration_ms == s.duration_ms
    &&& opt_seq(c.cover_url) == opt_seq(s.cover_url)
}

impl MatchSummary {
    pub fn from_result(m: &MatchResult) -> (r: Self)
        ensures
            summarises(r, *m),
    {
        MatchSummary {
            provider: m.candidate.provider,
            song_id: m.candidate.song_id.clone(),
            title: m.candidate.title.clone(),
            artists: copy_all(&m.candidate.artists),
            album: copy_text(&m.candidate.album),
            year: m.candidate.year,
            track_no: m.candidate.track_no,
            duration_ms: m.candidate.duration_ms,
            cover_url: copy_text(&m.cover_url),
            score: m.score,
            grade: m.grade,
        }
    }

    pub fn candidate(&self) -> (r: Candidate)
        ensures
            summary_candidate(r, *self),
    {
        Candidate {
            provider: self.provider,
            song_id: self.song_id.clone(),
            access_key: None,
            title: self.title.clone(),
            artists: copy_all(&self.artists),
            album: copy_text(&self.album),
            year: self.year,
            track_no: self.track_no,
            duration_ms: self.duration_ms,
            cover_url: copy_text(&self.cover_url),
        }
    }
}

} // verus!
