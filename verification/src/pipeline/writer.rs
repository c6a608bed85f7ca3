//! Write plans and payloads.
//!
//! Writing into a song file cannot be undone, so matching and writing are two
//! steps, and the plan is the checkpoint between them: every reason a song
//! would be skipped is known before any file is touched, and the plan sums
//! them up for the save dialog. Nothing here touches a file; the format and
//! lock probes are done by the caller and handed in.

use vstd::prelude::*;
use crate::domain::lyrics::{utf8_len, LineView, LyricLine, Lyrics};
use crate::domain::plan::{
    is_write_spec, CoverBytes, WriteAction, WritePayload, WritePlan, WritePlanItem,
};
use crate::domain::track::{same_meta, LyricsPresence, Track, TrackMeta};
use crate::pipeline::metadata::LOW_CONFIDENCE;
use crate::infra::config::{SaveTarget, Settings};
use crate::infra::error::AppError;
use crate::lrc::merge::{merge_spec, merge_translation};
use crate::lrc::render::{
    render_lrc, render_spec, validate, validate_message, validate_spec, RenderOptions, MERGE_TRANSLATION_ONE_LINE,
};
use crate::provider::cover::estimated_bytes_per_track;

verus! {

/// Merges the translation and renders LRC as the settings say. Preview, size
/// estimate and the actual write all use this one path; it returns the merged
/// lines (for the structure check) and the text.
pub fn render_lyrics(lyrics: &Lyrics, settings: &Settings) -> (r: (Vec<LyricLine>, String))
    ensures
        r.0.deep_view() == merge_spec(lyrics.lines.deep_view(), lyrics.trans.deep_view()),
        r.1@ == render_spec(
            r.0.deep_view(),
            RenderOptions {
                one_line: MERGE_TRANSLATION_ONE_LINE,
                include_translation: settings.lyrics.include_translation,
                strip_credits: false,
            },
        ),
{
    let merged = merge_translation(lyrics.lines.as_slice(), lyrics.trans.as_slice());
    let opts = RenderOptions {
        one_line: MERGE_TRANSLATION_ONE_LINE,
        include_translation: settings.lyrics.include_translation,
        strip_credits: false,
    };
    let text = render_lrc(merged.as_slice(), &opts);
    (merged, text)
}


/// The lyrics a track was matched with, and the metadata the match brought.
pub struct MatchedLyrics {
    pub lyrics: Lyrics,
    pub metadata: TrackMeta,
}

/// What planning and writing read of one track.
pub struct WriteSubject {
    pub track_id: u64,
    pub meta: TrackMeta,
    pub existing_lyrics: LyricsPresence,
    pub matched: Option<MatchedLyrics>,
    /// Whether the match may be used (`Track::displayable_match` gives it):
    /// not for a song the user skipped, nor for a failed or rejected match.
    pub displayable: bool,
    /// Whether the tag layer can write lyrics into this format.
    pub writable: bool,
    /// Whether another program holds the file.
    pub locked: bool,
}

pub open spec fn render_options(settings: Settings) -> RenderOptions {
    RenderOptions {
        one_line: MERGE_TRANSLATION_ONE_LINE,
        include_translation: settings.lyrics.include_translation,
        strip_credits: false,
    }
}

/// The text that gets written for `lyrics` under `settings`.
pub open spec fn rendered_text(lyrics: Lyrics, settings: Settings) -> Seq<char> {
    render_spec(
        merge_spec(lyrics.lines.deep_view(), lyrics.trans.deep_view()),
        render_options(settings),
    )
}

/// The decision for one track. No usable match comes first: it is the most
/// basic reason, and such songs count as skipped rather than failed; a song
/// the user skipped is never saved. Each target
/// protects only the lyrics it would replace: a sidecar write replaces the
/// `.lrc`, a file write the embedded tag.
pub open spec fn action_spec(t: WriteSubject, target: SaveTarget, settings: Settings) -> WriteAction {
    if t.matched is None || !t.displayable {
        WriteAction::SkipNoMatch
    } else if target == SaveTarget::Sidecar {
        if (t.existing_lyrics is SidecarLrc || t.existing_lyrics is Both)
            && !settings.lyrics.overwrite_existing {
            WriteAction::SkipExistingLyrics
        } else {
            WriteAction::WriteSidecarOnly
        }
    } else if (t.existing_lyrics is EmbeddedTag || t.existing_lyrics is Both)
        && !settings.lyrics.overwrite_existing {
        WriteAction::SkipExistingLyrics
    } else if !t.writable {
        WriteAction::SkipUnsupportedFormat
    } else if t.locked {
        WriteAction::SkipLocked
    } else {
        WriteAction::Write
    }
}

/// Expected growth of the song file: only tracks that will really be written
/// into the file count, by their lyric bytes plus a cover estimate when a
/// missing cover gets embedded.
pub open spec fn delta_spec(t: WriteSubject, target: SaveTarget, settings: Settings) -> int {
    if !is_write_spec(action_spec(t, target, settings)) || target == SaveTarget::Sidecar {
        0
    } else {
        let lyric_bytes: int = match t.matched {
            Some(m) => utf8_len(rendered_text(m.lyrics, settings)) as int,
            None => 0,
        };
        let cover: int = if settings.write.embed_cover && !t.meta.has_cover {
            256000
        } else {
            0
        };
        lyric_bytes + cover
    }
}

/// The summed growth of the first `n` tracks.
pub open spec fn total_delta_spec(
    ts: Seq<WriteSubject>,
    n: int,
    target: SaveTarget,
    settings: Settings,
) -> int
    decreases n,
{
    if n <= 0 {
        0
    } else {
        total_delta_spec(ts, n - 1, target, settings) + delta_spec(ts[n - 1], target, settings)
    }
}

proof fn lemma_total_monotone(ts: Seq<WriteSubject>, a: int, b: int, target: SaveTarget, settings: Settings)
    requires
        0 <= a <= b,
    ensures
        total_delta_spec(ts, a, target, settings) <= total_delta_spec(ts, b, target, settings),
    decreases b,
{
    if a < b {
        lemma_total_monotone(ts, a, b - 1, target, settings);
    }
}

/// The write decision for one track.
pub fn decide_action(t: &WriteSubject, target: SaveTarget, settings: &Settings) -> (r: WriteAction)
    ensures
        r == action_spec(*t, target, *settings),
{
    if t.matched.is_none() || !t.displayable {
        return WriteAction::SkipNoMatch;
    }
    match target {
        SaveTarget::Sidecar => {
            if t.existing_lyrics.has_sidecar() && !settings.lyrics.overwrite_existing {
                return WriteAction::SkipExistingLyrics;
            }
            WriteAction::WriteSidecarOnly
        },
        SaveTarget::File => {
            if t.existing_lyrics.has_embedded() && !settings.lyrics.overwrite_existing {
                return WriteAction::SkipExistingLyrics;
            }
            if !t.writable {
                return WriteAction::SkipUnsupportedFormat;
            }
            if t.locked {
                return WriteAction::SkipLocked;
            }
            WriteAction::Write
        },
    }
}

/// Expected growth of the song file for one planned action.
pub fn expected_delta(
    t: &WriteSubject,
    target: SaveTarget,
    settings: &Settings,
    action: &WriteAction,
) -> (r: i64)
    requires
        *action == action_spec(*t, target, *settings),
        delta_spec(*t, target, *settings) <= i64::MAX,
    ensures
        r == delta_spec(*t, target, *settings),
{
    if !action.is_write() || target == SaveTarget::Sidecar {
        return 0;
    }
    let lyric_bytes: i64 = match &t.matched {
        Some(m) => {
            let (_, text) = render_lyrics(&m.lyrics, settings);
            let n: usize = text.as_str().as_bytes().len();
            n as i64
        },
        None => 0,
    };
    let cover: i64 = if settings.write.embed_cover && !t.meta.has_cover {
        estimated_bytes_per_track()
    } else {
        0
    };
    lyric_bytes + cover
}

/// The write plan for the given tracks under the current settings. No file is
/// touched, so the save dialog can ask for it again and again.
pub fn plan(tracks: &[WriteSubject], target: SaveTarget, settings: &Settings) -> (r: WritePlan)
    requires
        total_delta_spec(tracks@, tracks@.len() as int, target, *settings) <= i64::MAX,
    ensures
        r.items@.len() == tracks@.len(),
        forall|i: int|
            0 <= i < tracks@.len() ==> {
                let it = #[trigger] r.items@[i];
                &&& it.track_id == tracks@[i].track_id
                &&& it.title@ == match tracks@[i].meta.title {
                    Some(t) => t@,
                    None => "未知标题"@,
                }
                &&& it.action == action_spec(tracks@[i], target, *settings)
                &&& it.expected_delta == delta_spec(tracks@[i], target, *settings)
            },
        r.total_delta == total_delta_spec(tracks@, tracks@.len() as int, target, *settings),
{
    let mut items: Vec<WritePlanItem> = Vec::new();
    let mut total: i64 = 0;
    let mut i: usize = 0;
    while i < tracks.len()
        invariant
            i <= tracks@.len(),
            total_delta_spec(tracks@, tracks@.len() as int, target, *settings) <= i64::MAX,
            items@.len() == i,
            total == total_delta_spec(tracks@, i as int, target, *settings),
            forall|k: int|
                0 <= k < i ==> {
                    let it = #[trigger] items@[k];
                    &&& it.track_id == tracks@[k].track_id
                    &&& it.title@ == match tracks@[k].meta.title {
                        Some(t) => t@,
                        None => "未知标题"@,
                    }
                    &&& it.action == action_spec(tracks@[k], target, *settings)
                    &&& it.expected_delta == delta_spec(tracks@[k], target, *settings)
                },
        decreases tracks.len() - i,
    {
        let t = &tracks[i];
        proof {
            lemma_total_monotone(tracks@, i + 1, tracks@.len() as int, target, *settings);
            lemma_total_monotone(tracks@, 0, i as int, target, *settings);
        }
        let action = decide_action(t, target, settings);
        let expected = expected_delta(t, target, settings, &action);
        total = total + expected;
        items.push(
            WritePlanItem {
                track_id: t.track_id,
                title: t.meta.display_title(),
                action,
                expected_delta: expected,
            },
        );
        i = i + 1;
    }
    WritePlan { items, total_delta: total }
}

/// Whether the plan's size estimate for these tracks fits its counters; the
/// caller checks this before asking for a plan.
pub fn plan_fits(tracks: &[WriteSubject], target: SaveTarget, settings: &Settings) -> (r: bool)
    ensures
        r == (total_delta_spec(tracks@, tracks@.len() as int, target, *settings) <= i64::MAX),
{
    let mut total: u128 = 0;
    let mut i: usize = 0;
    while i < tracks.len()
        invariant
            i <= tracks@.len(),
            total == total_delta_spec(tracks@, i as int, target, *settings),
            total <= i64::MAX,
        decreases tracks.len() - i,
    {
        let t = &tracks[i];
        let action = decide_action(t, target, settings);
        let d: u128 = if !action.is_write() || target == SaveTarget::Sidecar {
            0
        } else {
            let lyric_bytes: u128 = match &t.matched {
                Some(m) => {
                    let (_, text) = render_lyrics(&m.lyrics, settings);
                    let n: usize = text.as_str().as_bytes().len();
                    n as u128
                },
                None => 0,
            };
            let cover: u128 = if settings.write.embed_cover && !t.meta.has_cover {
                256000
            } else {
                0
            };
            lyric_bytes + cover
        };
        assert(d == delta_spec(tracks@[i as int], target, *settings));
        total = total + d;
        if total > 0x7FFF_FFFF_FFFF_FFFFu128 {
            proof {
                lemma_total_monotone(tracks@, i + 1, tracks@.len() as int, target, *settings);
            }
            return false;
        }
        i = i + 1;
    }
    true
}

/// What gets written for a track: the merged and rendered lyrics, checked for
/// structure, with the metadata and cover switches. Sidecar mode has nowhere
/// to put metadata or a cover, so both are forced off there.
pub fn build_payload(
    track: &WriteSubject,
    target: SaveTarget,
    settings: &Settings,
    cover: Option<CoverBytes>,
) -> (r: Result<WritePayload, AppError>)
    ensures
        match track.matched {
            None => r matches Err(AppError::Other(msg)) && msg@ == "这首歌还没有匹配结果"@,
            Some(m) => {
                let merged = merge_spec(m.lyrics.lines.deep_view(), m.lyrics.trans.deep_view());
                let text = rendered_text(m.lyrics, *settings);
                match validate_spec(merged, text) {
                    Err(e) => r is Err && match (r->Err_0, e) {
                        (AppError::LyricsTooLarge { bytes }, AppError::LyricsTooLarge { bytes: b }) =>
                            bytes == b,
                        (AppError::MalformedLyrics(msg), AppError::MalformedLyrics(_)) => msg@
                            == validate_message(merged, text),
                        _ => false,
                    },
                    Ok(()) => r matches Ok(p) && {
                        &&& p.lrc@ == text
                        &&& p.fill_missing_metadata == (settings.write.fill_missing_info
                            && target != SaveTarget::Sidecar)
                        &&& p.embed_cover == (settings.write.embed_cover && target
                            != SaveTarget::Sidecar)
                        &&& same_meta(p.metadata, m.metadata)
                        &&& p.cover == cover
                    },
                }
            },
        },
{
    let m = match &track.matched {
        None => {
            return Err(AppError::Other("这首歌还没有匹配结果".to_owned()));
        },
        Some(m) => m,
    };
    let (merged, text) = render_lyrics(&m.lyrics, settings);
    match validate(merged.as_slice(), text.as_str()) {
        Err(e) => {
            return Err(e);
        },
        Ok(()) => {},
    }
    let sidecar = target == SaveTarget::Sidecar;
    Ok(
        WritePayload {
            lrc: text,
            fill_missing_metadata: settings.write.fill_missing_info && !sidecar,
            embed_cover: settings.write.embed_cover && !sidecar,
            metadata: m.metadata.duplicate(),
            cover,
        },
    )
}


/// With overwriting on, a song with a usable match is always saved as a
/// sidecar in sidecar mode, whatever lyrics it already has.
pub proof fn lemma_overwrite_saves_sidecar(t: WriteSubject, settings: Settings)
    requires
        t.matched is Some,
        t.displayable,
        settings.lyrics.overwrite_existing,
    ensures
        action_spec(t, SaveTarget::Sidecar, settings) == WriteAction::WriteSidecarOnly,
{
}

/// With overwriting on, a song with a usable match whose format takes lyrics
/// and whose file is free is written into the file, whatever lyrics it has.
pub proof fn lemma_overwrite_writes_file(t: WriteSubject, settings: Settings)
    requires
        t.matched is Some,
        t.displayable,
        t.writable,
        !t.locked,
        settings.lyrics.overwrite_existing,
    ensures
        action_spec(t, SaveTarget::File, settings) == WriteAction::Write,
{
}

/// Without overwriting, a song that already has a sidecar is never given a
/// new one, and one with embedded lyrics is never written into.
pub proof fn lemma_no_overwrite_keeps_existing(t: WriteSubject, settings: Settings)
    requires
        !settings.lyrics.overwrite_existing,
    ensures
        (t.existing_lyrics is SidecarLrc || t.existing_lyrics is Both) ==> action_spec(
            t,
            SaveTarget::Sidecar,
            settings,
        ) != WriteAction::WriteSidecarOnly,
        (t.existing_lyrics is EmbeddedTag || t.existing_lyrics is Both) ==> action_spec(
            t,
            SaveTarget::File,
            settings,
        ) != WriteAction::Write,
{
}

/// A track that is skipped adds nothing to the size estimate, and nothing is
/// counted for the audio file in sidecar mode.
pub proof fn lemma_skips_add_nothing(t: WriteSubject, target: SaveTarget, settings: Settings)
    requires
        !is_write_spec(action_spec(t, target, settings)) || target == SaveTarget::Sidecar,
    ensures
        delta_spec(t, target, settings) == 0,
{
}

/// The size estimate of a plan is never negative.
pub proof fn lemma_total_delta_nonnegative(
    ts: Seq<WriteSubject>,
    n: int,
    target: SaveTarget,
    settings: Settings,
)
    ensures
        total_delta_spec(ts, n, target, settings) >= 0,
    decreases n,
{
    if n > 0 {
        lemma_total_delta_nonnegative(ts, n - 1, target, settings);
    }
}

/// Whether a song's metadata is too unsure to match on without a look
/// from the user.
pub fn needs_review(t: &Track) -> (r: bool)
    ensures
        r == (t.meta_confidence < LOW_CONFIDENCE),
{
    t.meta_confidence < LOW_CONFIDENCE
}

} // verus!
