//! Data shapes exchanged with the front end, and the conversions that are rules.

use vstd::prelude::*;
use crate::domain::candidate::{
    copy_text, displayable_spec, join_with, opt_seq, provider_key_spec, provider_name_spec,
    Candidate, ProviderId, Scored,
};
use crate::domain::lyrics::{count_text_lines, has_text_line, text_line_count, utf8_len, Lyrics};
use crate::domain::plan::MatchResult;
use crate::domain::track::{
    format_label_spec, match_grade, opt_text, pick_position, presence_label_spec,
    state_label_spec, track_mismatched, LyricsPresence, MetaSource, Track, TrackState,
};
use crate::infra::config::Settings;
use crate::lrc::merge::merge_spec;
use crate::lrc::render::render_spec;
use crate::pipeline::downloader::capability_hint;
use crate::pipeline::orchestrator::{state_key, state_key_spec};
use crate::pipeline::writer::{needs_review, render_lyrics, render_options};
use crate::text::{chars_of, slice_vec, string_of};

verus! {

/// The front end's key for a source.
pub fn provider_key(id: ProviderId) -> (r: String)
    ensures
        r@ == provider_key_spec(id),
{
    id.as_str().to_owned()
}

pub open spec fn meta_source_label_spec(s: MetaSource) -> Seq<char> {
    match s {
        MetaSource::TagLib => "歌曲自带信息"@,
        MetaSource::FileNameRegex => "文件名"@,
        MetaSource::PathPattern => "文件夹名"@,
        MetaSource::Fallback => "文件名"@,
    }
}

/// Where the metadata came from, as users read it.
pub fn meta_source_label(s: MetaSource) -> (r: &'static str)
    ensures
        r@ == meta_source_label_spec(s),
{
    match s {
        MetaSource::TagLib => "歌曲自带信息",
        MetaSource::FileNameRegex => "文件名",
        MetaSource::PathPattern => "文件夹名",
        MetaSource::Fallback => "文件名",
    }
}

/// Lyric preview for the detail panel.
#[derive(Clone, Debug)]
pub struct PreviewDto {
    pub text: String,
    pub lines: usize,
    pub bytes: usize,
    pub has_translation: bool,
    pub has_verbatim: bool,
}

#[derive(Clone, Copy, Debug, Default)]
pub struct CapabilitiesDto {
    pub no_year: bool,
    pub no_track_no: bool,
    pub no_verbatim: bool,
    pub no_translation_verified: bool,
}

/// Counts for the sidebar.
#[derive(Clone, Copy, Debug, Default, PartialEq, Eq)]
pub struct LibraryStats {
    pub all: usize,
    pub todo: usize,
    pub completed: usize,
    pub problem: usize,
    pub idle: usize,
    pub matched: usize,
    pub confirm: usize,
    pub done: usize,
    pub failed: usize,
    pub skip: usize,
}

pub open spec fn count_state(s: Seq<TrackState>, st: TrackState) -> nat
    decreases s.len(),
{
    if s.len() == 0 {
        0
    } else {
        count_state(s.drop_last(), st) + if s.last() == st {
            1nat
        } else {
            0nat
        }
    }
}

proof fn lemma_count_state_bound(s: Seq<TrackState>, st: TrackState)
    ensures
        count_state(s, st) <= s.len(),
    decreases s.len(),
{
    if s.len() > 0 {
        lemma_count_state_bound(s.drop_last(), st);
    }
}

proof fn lemma_count_states_sum(s: Seq<TrackState>)
    ensures
        count_state(s, TrackState::Idle) + count_state(s, TrackState::Matched) + count_state(
            s,
            TrackState::Confirm,
        ) + count_state(s, TrackState::Done) + count_state(s, TrackState::Failed) + count_state(
            s,
            TrackState::Skip,
        ) <= s.len(),
    decreases s.len(),
{
    if s.len() > 0 {
        lemma_count_states_sum(s.drop_last());
    }
}

/// The states of the tracks, in order.
pub open spec fn states_of(ts: Seq<Track>) -> Seq<TrackState> {
    ts.map_values(|t: Track| t.state)
}

/// Sidebar counts: pending is matched plus awaiting confirmation, completed
/// is written, problems are failures.
pub fn stats(tracks: &[Track]) -> (r: LibraryStats)
    ensures
        r.all == tracks@.len(),
        r.idle == count_state(states_of(tracks@), TrackState::Idle),
        r.matched == count_state(states_of(tracks@), TrackState::Matched),
        r.confirm == count_state(states_of(tracks@), TrackState::Confirm),
        r.done == count_state(states_of(tracks@), TrackState::Done),
        r.failed == count_state(states_of(tracks@), TrackState::Failed),
        r.skip == count_state(states_of(tracks@), TrackState::Skip),
        r.todo == r.matched + r.confirm,
        r.completed == r.done,
        r.problem == r.failed,
{
    let ghost states = states_of(tracks@);
    let mut s = LibraryStats {
        all: tracks.len(),
        todo: 0,
        completed: 0,
        problem: 0,
        idle: 0,
        matched: 0,
        confirm: 0,
        done: 0,
        failed: 0,
        skip: 0,
    };
    let mut i: usize = 0;
    while i < tracks.len()
        invariant
            i <= tracks.len(),
            states == states_of(tracks@),
            states.len() == tracks@.len(),
            s.all == tracks@.len(),
            s.idle == count_state(states.take(i as int), TrackState::Idle),
            s.matched == count_state(states.take(i as int), TrackState::Matched),
            s.confirm == count_state(states.take(i as int), TrackState::Confirm),
            s.done == count_state(states.take(i as int), TrackState::Done),
            s.failed == count_state(states.take(i as int), TrackState::Failed),
            s.skip == count_state(states.take(i as int), TrackState::Skip),
        decreases tracks.len() - i,
    {
        proof {
            lemma_count_states_sum(states.take(i as int));
        }
        assert(states.take(i + 1).drop_last() == states.take(i as int));
        assert(states.take(i + 1).last() == tracks@[i as int].state);
        match tracks[i].state {
            TrackState::Idle => s.idle = s.idle + 1,
            TrackState::Matched => s.matched = s.matched + 1,
            TrackState::Confirm => s.confirm = s.confirm + 1,
            TrackState::Done => s.done = s.done + 1,
            TrackState::Failed => s.failed = s.failed + 1,
            TrackState::Skip => s.skip = s.skip + 1,
            _ => {},
        }
        i = i + 1;
    }
    assert(states.take(tracks.len() as int) == states);
    proof {
        lemma_count_states_sum(states);
    }
    s.todo = s.matched + s.confirm;
    s.completed = s.done;
    s.problem = s.failed;
    s
}

/// Result of a scan.
#[derive(Clone, Debug)]
pub struct ScanResultDto {
    pub count: usize,
    pub elapsed_ms: u64,
    pub skipped: usize,
    pub path: String,
    /// Tracks whose lyrics were restored from the cache.
    pub restored: usize,
    /// Tracks set back to unprocessed because their cache entry was gone.
    pub downgraded: usize,
}

/// The save confirmation's summary.
#[derive(Clone, Debug)]
pub struct WritePlanDto {
    pub total: usize,
    pub delta_bytes: i64,
    pub locked: usize,
    pub skipped: usize,
    pub skipped_existing: usize,
    pub skipped_unsupported: usize,
    pub skipped_no_match: usize,
    pub target: String,
}

/// Arguments of a manual search.
#[derive(Clone, Debug)]
pub struct SearchArgs {
    pub track_id: u64,
    /// Keyword typed by the user; none means the track's own metadata.
    pub keyword: Option<String>,
}

/// The "matched lyrics" column of a list row.
#[derive(Clone, Debug)]
pub struct MatchedDto {
    pub provider: String,
    pub provider_name: String,
    /// Match score, in thousandths.
    pub score: u32,
    pub title: String,
    pub artist: String,
    pub album: String,
    pub year: Option<u32>,
    /// Seconds.
    pub duration: u64,
}

/// One row of the track list, kept small: ten thousand of them cross to the
/// front end at once.
#[derive(Clone, Debug)]
pub struct TrackRowDto {
    pub id: u64,
    pub title: String,
    pub artist: String,
    /// Seconds.
    pub duration: u64,
    pub format: String,
    pub state: String,
    pub state_label: String,
    /// What lyrics the file had before any work (not the same as the state).
    pub existing_lyrics: LyricsPresence,
    pub matched: Option<MatchedDto>,
    /// The match disagrees with the song's own information: the row is flagged.
    pub mismatch: bool,
    pub message: Option<String>,
}

/// A candidate as the detail panel lists it.
#[derive(Clone, Debug)]
pub struct CandidateDto {
    pub provider: String,
    pub provider_name: String,
    pub song_id: String,
    /// The second id KuGou needs to fetch lyrics.
    pub access_key: Option<String>,
    pub title: String,
    pub artist: String,
    pub album: String,
    pub year: Option<u32>,
    pub track_no: Option<u32>,
    /// Seconds.
    pub duration: u64,
    /// Match score, in thousandths.
    pub score: u32,
    pub cover_url: Option<String>,
}

/// The detail panel of one track.
#[derive(Clone, Debug)]
pub struct TrackDetailDto {
    pub id: u64,
    pub title: String,
    pub artist: String,
    pub album: String,
    pub year: Option<u32>,
    pub track_no: Option<u32>,
    /// Seconds.
    pub duration: u64,
    pub format: String,
    pub file_name: String,
    pub path: String,
    pub file_size: u64,
    pub state: String,
    pub state_label: String,
    pub message: Option<String>,
    pub lyrics_label: String,
    pub has_cover: bool,
    pub meta_source: String,
    /// Confidence in the metadata, in hundredths.
    pub meta_confidence: u32,
    pub candidates: Vec<CandidateDto>,
    pub pick: usize,
    pub preview: Option<PreviewDto>,
    pub capabilities: CapabilitiesDto,
    /// The key of the selected candidate's source.
    pub provider: Option<String>,
    /// Whether this format can take lyrics into the file.
    pub can_write: bool,
    /// The metadata is too unsure to go without a look.
    pub needs_review: bool,
}

/// The whole list for the front end.
#[derive(Clone, Debug)]
pub struct LibraryDto {
    pub root: String,
    pub tracks: Vec<TrackRowDto>,
    pub stats: LibraryStats,
}

pub open spec fn secs(ms: Option<u64>) -> u64 {
    match ms {
        Some(m) => m / 1000,
        None => 0,
    }
}

fn secs_of(ms: Option<u64>) -> (r: u64)
    ensures
        r == secs(ms),
{
    match ms {
        Some(m) => m / 1000,
        None => 0,
    }
}

fn text_or_empty(o: &Option<String>) -> (r: String)
    ensures
        r@ == opt_text(*o),
{
    match o {
        Some(s) => s.clone(),
        None => String::new(),
    }
}

/// The column shows `c`, scored `score`.
pub open spec fn matched_shows(d: MatchedDto, c: Candidate, score: u32) -> bool {
    &&& d.provider@ == provider_key_spec(c.provider)
    &&& d.provider_name@ == provider_name_spec(c.provider)
    &&& d.score == score
    &&& d.title@ == c.title@
    &&& d.artist@ == join_with(c.artists.deep_view(), "/"@)
    &&& d.album@ == opt_text(c.album)
    &&& d.year == c.year
    &&& d.duration == secs(c.duration_ms)
}

fn matched_dto(c: &Candidate, score: u32) -> (r: MatchedDto)
    ensures
        matched_shows(r, *c, score),
{
    MatchedDto {
        provider: provider_key(c.provider),
        provider_name: c.provider.display_name().to_owned(),
        score,
        title: c.title.clone(),
        artist: c.artist_joined(),
        album: text_or_empty(&c.album),
        year: c.year,
        duration: secs_of(c.duration_ms),
    }
}

/// The "matched lyrics" column: empty unless the track has a match worth
/// showing; then the selected candidate, so that a pick in the detail panel
/// shows in the list, scored with the match's own score when it is the
/// matched song and with its own score otherwise; the match itself when
/// there are no candidates (a match restored from the saved index).
pub open spec fn matched_column(t: Track, d: Option<MatchedDto>) -> bool {
    if !displayable_spec(t.state, match_grade(t.matched)) {
        d is None
    } else {
        match pick_position(t.candidates@.len() as int, t.candidate_pick as int) {
            Some(i) => {
                let c = t.candidates@[i];
                d matches Some(x) && matched_shows(
                    x,
                    c.candidate,
                    match t.matched {
                        Some(m) => if m.candidate.song_id@ == c.candidate.song_id@ {
                            m.score
                        } else {
                            c.score
                        },
                        None => c.score,
                    },
                )
            },
            None => d matches Some(x) && matched_shows(x, t.matched->0.candidate, t.matched->0.score),
        }
    }
}

fn matched(t: &Track) -> (r: Option<MatchedDto>)
    ensures
        matched_column(*t, r),
{
    let m = match t.displayable_match() {
        None => {
            return None;
        },
        Some(m) => m,
    };
    match t.selected_candidate() {
        Some(c) => {
            let score = if crate::text::str_eq(m.candidate.song_id.as_str(), c.candidate.song_id.as_str()) {
                m.score
            } else {
                c.score
            };
            Some(matched_dto(&c.candidate, score))
        },
        None => Some(matched_dto(&m.candidate, m.score)),
    }
}

/// A track as one list row.
pub fn row(t: &Track) -> (r: TrackRowDto)
    ensures
        r.id == t.id.0,
        r.title@ == match t.meta.title {
            Some(x) => x@,
            None => "未知标题"@,
        },
        r.artist@ == opt_text(t.meta.artist),
        r.duration == secs(t.duration_ms),
        r.format@ == format_label_spec(t.format),
        r.state@ == state_key_spec(t.state),
        r.state_label@ == state_label_spec(t.state),
        r.existing_lyrics == t.existing_lyrics,
        matched_column(*t, r.matched),
        r.mismatch == track_mismatched(*t),
        opt_seq(r.message) == opt_seq(t.message),
{
    TrackRowDto {
        id: t.id.0,
        title: t.meta.display_title(),
        artist: t.meta.display_artist(),
        duration: secs_of(t.duration_ms),
        format: t.format.label().to_owned(),
        state: state_key(t.state).to_owned(),
        state_label: t.state.label().to_owned(),
        existing_lyrics: t.existing_lyrics,
        matched: matched(t),
        mismatch: t.is_mismatched(),
        message: copy_text(&t.message),
    }
}

/// `d` lists candidate `c`.
pub open spec fn candidate_shows(d: CandidateDto, c: Scored) -> bool {
    &&& d.provider@ == provider_key_spec(c.candidate.provider)
    &&& d.provider_name@ == provider_name_spec(c.candidate.provider)
    &&& d.song_id@ == c.candidate.song_id@
    &&& opt_seq(d.access_key) == opt_seq(c.candidate.access_key)
    &&& d.title@ == c.candidate.title@
    &&& d.artist@ == join_with(c.candidate.artists.deep_view(), "/"@)
    &&& d.album@ == opt_text(c.candidate.album)
    &&& d.year == c.candidate.year
    &&& d.track_no == c.candidate.track_no
    &&& d.duration == secs(c.candidate.duration_ms)
    &&& d.score == c.score
    &&& opt_seq(d.cover_url) == opt_seq(c.candidate.cover_url)
}

/// A candidate as the detail panel lists it.
pub fn candidate(c: &Scored) -> (r: CandidateDto)
    ensures
        candidate_shows(r, *c),
{
    CandidateDto {
        provider: provider_key(c.candidate.provider),
        provider_name: c.candidate.provider.display_name().to_owned(),
        song_id: c.candidate.song_id.clone(),
        access_key: copy_text(&c.candidate.access_key),
        title: c.candidate.title.clone(),
        artist: c.candidate.artist_joined(),
        album: text_or_empty(&c.candidate.album),
        year: c.candidate.year,
        track_no: c.candidate.track_no,
        duration: secs_of(c.candidate.duration_ms),
        score: c.score,
        cover_url: copy_text(&c.candidate.cover_url),
    }
}

/// The preview of what would be saved from `lyrics`: the merged lines
/// rendered as the settings say, with their count and size.
pub open spec fn preview_of(p: PreviewDto, lyrics: Lyrics, settings: Settings) -> bool {
    let merged = merge_spec(lyrics.lines.deep_view(), lyrics.trans.deep_view());
    let text = render_spec(merged, render_options(settings));
    &&& p.text@ == text
    &&& p.lines == count_text_lines(merged)
    &&& p.bytes == utf8_len(text) as usize
    &&& p.has_translation == has_text_line(lyrics.trans.deep_view())
    &&& p.has_verbatim == (lyrics.verbatim is Some && lyrics.verbatim->0.lines@.len() > 0)
}

/// The preview of what would be saved from `lyrics`.
pub fn preview(lyrics: &Lyrics, settings: &Settings) -> (r: PreviewDto)
    ensures
        preview_of(r, *lyrics, *settings),
{
    let (merged, text) = render_lyrics(lyrics, settings);
    let lines = text_line_count(merged.as_slice());
    let bytes = text.as_str().len();
    PreviewDto {
        text,
        lines,
        bytes,
        has_translation: lyrics.has_translation(),
        has_verbatim: lyrics.has_verbatim(),
    }
}

pub open spec fn is_sep(c: char) -> bool {
    c == '/' || c == '\\'
}

/// The last component of a path: the text after its last separator.
pub open spec fn file_name_spec(p: Seq<char>) -> Seq<char>
    decreases p.len(),
{
    if p.len() == 0 {
        p
    } else if is_sep(p.last()) {
        Seq::empty()
    } else {
        file_name_spec(p.drop_last()).push(p.last())
    }
}

fn file_name_of(path: &str) -> (r: String)
    ensures
        r@ == file_name_spec(path@),
{
    let v = chars_of(path);
    let mut start: usize = 0;
    let mut i: usize = 0;
    while i < v.len()
        invariant
            i <= v.len(),
            start <= i,
            file_name_spec(v@.take(i as int)) == v@.subrange(start as int, i as int),
        decreases v.len() - i,
    {
        assert(v@.take(i + 1).drop_last() == v@.take(i as int));
        if v[i] == '/' || v[i] == '\\' {
            start = i + 1;
        }
        assert(v@.subrange(start as int, i + 1) =~= file_name_spec(v@.take(i + 1)));
        i = i + 1;
    }
    assert(v@.take(v.len() as int) == v@);
    let w = slice_vec(&v, start, v.len());
    string_of(&w)
}

/// A track's detail panel. The preview shows what would be saved, so a
/// failed or skipped track, which saves nothing, has none; its candidates
/// are still listed, to show what was found and why it was not used.
/// `can_write` is whether the save target can take this file's lyrics.
pub fn detail(t: &Track, settings: &Settings, can_write: bool) -> (r: TrackDetailDto)
    ensures
        r.id == t.id.0,
        r.title@ == match t.meta.title {
            Some(x) => x@,
            None => "未知标题"@,
        },
        r.artist@ == opt_text(t.meta.artist),
        r.album@ == opt_text(t.meta.album),
        r.year == t.meta.year,
        r.track_no == t.meta.track_no,
        r.duration == secs(t.duration_ms),
        r.format@ == format_label_spec(t.format),
        r.file_name@ == file_name_spec(t.path@),
        r.path@ == t.path@,
        r.file_size == t.file_size,
        r.state@ == state_key_spec(t.state),
        r.state_label@ == state_label_spec(t.state),
        opt_seq(r.message) == opt_seq(t.message),
        r.lyrics_label@ == presence_label_spec(t.existing_lyrics),
        r.has_cover == t.meta.has_cover,
        r.meta_source@ == meta_source_label_spec(t.meta.source),
        r.meta_confidence == t.meta_confidence,
        r.candidates@.len() == t.candidates@.len(),
        forall|i: int| 0 <= i < t.candidates@.len() ==> candidate_shows(#[trigger] r.candidates@[i], t.candidates@[i]),
        r.pick == t.candidate_pick,
        displayable_spec(t.state, match_grade(t.matched)) ==> (r.preview matches Some(p) && preview_of(p, t.matched->0.lyrics, *settings)),
        !displayable_spec(t.state, match_grade(t.matched)) ==> r.preview is None,
        match pick_position(t.candidates@.len() as int, t.candidate_pick as int) {
            Some(i) => {
                let p = t.candidates@[i].candidate.provider;
                &&& r.provider matches Some(k) && k@ == provider_key_spec(p)
                &&& r.capabilities.no_year == (p == ProviderId::KuWo)
                &&& r.capabilities.no_track_no == (p != ProviderId::NetEase)
                &&& r.capabilities.no_verbatim == (p != ProviderId::NetEase)
                &&& r.capabilities.no_translation_verified == (p == ProviderId::KuGou || p == ProviderId::KuWo)
            },
            None => r.provider is None && !r.capabilities.no_year && !r.capabilities.no_track_no
                && !r.capabilities.no_verbatim && !r.capabilities.no_translation_verified,
        },
        r.can_write == can_write,
        r.needs_review == (t.meta_confidence < crate::pipeline::metadata::LOW_CONFIDENCE),
{
    let (provider, capabilities) = match t.selected_candidate() {
        Some(c) => {
            let h = capability_hint(c.candidate.provider);
            (
                Some(provider_key(c.candidate.provider)),
                CapabilitiesDto {
                    no_year: h.no_year,
                    no_track_no: h.no_track_no,
                    no_verbatim: h.no_verbatim,
                    no_translation_verified: h.no_translation_verified,
                },
            )
        },
        None => (
            None,
            CapabilitiesDto {
                no_year: false,
                no_track_no: false,
                no_verbatim: false,
                no_translation_verified: false,
            },
        ),
    };
    let mut candidates: Vec<CandidateDto> = Vec::new();
    let mut i: usize = 0;
    while i < t.candidates.len()
        invariant
            i <= t.candidates@.len(),
            candidates@.len() == i,
            forall|j: int| 0 <= j < i ==> candidate_shows(#[trigger] candidates@[j], t.candidates@[j]),
        decreases t.candidates@.len() - i,
    {
        candidates.push(candidate(&t.candidates[i]));
        i = i + 1;
    }
    let preview = match t.displayable_match() {
        Some(m) => Some(preview(&m.lyrics, settings)),
        None => None,
    };
    TrackDetailDto {
        id: t.id.0,
        title: t.meta.display_title(),
        artist: t.meta.display_artist(),
        album: text_or_empty(&t.meta.album),
        year: t.meta.year,
        track_no: t.meta.track_no,
        duration: secs_of(t.duration_ms),
        format: t.format.label().to_owned(),
        file_name: file_name_of(t.path.as_str()),
        path: t.path.clone(),
        file_size: t.file_size,
        state: state_key(t.state).to_owned(),
        state_label: t.state.label().to_owned(),
        message: copy_text(&t.message),
        lyrics_label: t.existing_lyrics.label().to_owned(),
        has_cover: t.meta.has_cover,
        meta_source: meta_source_label(t.meta.source).to_owned(),
        meta_confidence: t.meta_confidence,
        candidates,
        pick: t.candidate_pick,
        preview,
        capabilities,
        provider,
        can_write,
        needs_review: needs_review(t),
    }
}

} // verus!
