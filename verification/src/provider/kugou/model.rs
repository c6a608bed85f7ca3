//! KuGou response parsing.
//!
//! Some search records carry an unrecoverably garbled `SongName` (the singer
//! is fine); such records are kept as they are and left to the score to push
//! down, since dropping them here could drop the right song. `Image` is a
//! template with a `{size}` placeholder that must be filled in.

use vstd::prelude::*;
use crate::domain::candidate::{opt_seq, same_candidate, Candidate, ProviderId};
use crate::domain::lyrics::Lyrics;
use crate::domain::normalize::{clean_display_title, display_title_spec};
use crate::domain::track::{split_artists, split_artists_spec};
use crate::infra::error::AppError;
use crate::provider::json::{derefs, Json};
use crate::provider::qq::model::{year_from_date, year_from_date_spec};
use crate::provider::util::{
    arr1, arr2, arr_at_spec, base64_text_spec, build_lyrics, built_lyrics, clean_all,
    clean_artists_spec, decode_base64, display_opt, display_opt_of, duration_ms_of,
    duration_ms_spec, keep, normalize_lyric_payload, or_empty, or_opt, payload_spec, str1,
    str_at_spec, u64_1, u64_at_spec,
};
use crate::text::{chars_of, matches_at, occurs_at, push_str_vec, string_of};

verus! {

/// The size filled into the cover template.
pub const COVER_SIZE: &'static str = "480";

/// `s` with each non-overlapping `p`, left to right, replaced by `r`
/// (`str::replace`, for a non-empty pattern).
pub open spec fn replace_all(s: Seq<char>, p: Seq<char>, r: Seq<char>) -> Seq<char>
    decreases s.len(),
{
    if p.len() == 0 || s.len() < p.len() {
        s
    } else if s.subrange(0, p.len() as int) == p {
        r + replace_all(s.subrange(p.len() as int, s.len() as int), p, r)
    } else {
        seq![s[0]] + replace_all(s.drop_first(), p, r)
    }
}

/// The cover template with its size placeholder filled in.
pub fn fill_cover_size(t: &str) -> (r: String)
    ensures
        r@ == replace_all(t@, "{size}"@, COVER_SIZE@),
{
    let s = chars_of(t);
    let p = chars_of("{size}");
    let rep = chars_of(COVER_SIZE);
    let mut out: Vec<char> = Vec::new();
    let mut i: usize = 0;
    assert(s@.subrange(0, s.len() as int) == s@);
    while i < s.len()
        invariant
            i <= s.len(),
            p@ == "{size}"@,
            rep@ == COVER_SIZE@,
            out@ + replace_all(s@.subrange(i as int, s.len() as int), p@, rep@) == replace_all(
                s@,
                p@,
                rep@,
            ),
        decreases s.len() - i,
    {
        let ghost rest = s@.subrange(i as int, s.len() as int);
        if p.len() > 0 && matches_at(&s, &p, i) {
            assert(rest.subrange(0, p.len() as int) == s@.subrange(i as int, i + p.len()));
            assert(rest.subrange(p.len() as int, rest.len() as int) == s@.subrange(
                i + p.len(),
                s.len() as int,
            ));
            let ghost before = out@;
            let mut k: usize = 0;
            while k < rep.len()
                invariant
                    k <= rep.len(),
                    out@ == before + rep@.take(k as int),
                decreases rep.len() - k,
            {
                out.push(rep[k]);
                assert(rep@.take(k + 1) == rep@.take(k as int).push(rep@[k as int]));
                k = k + 1;
            }
            assert(rep@.take(rep.len() as int) == rep@);
            assert(out@ + replace_all(s@.subrange(i + p.len(), s.len() as int), p@, rep@) == before
                + (rep@ + replace_all(s@.subrange(i + p.len(), s.len() as int), p@, rep@)));
            i = i + p.len();
        } else {
            proof {
                if p.len() > 0 && rest.len() >= p.len() {
                    assert(rest.subrange(0, p.len() as int) == s@.subrange(
                        i as int,
                        i + p.len(),
                    ));
                    assert(!occurs_at(s@, p@, i as int));
                }
            }
            assert(rest.drop_first() == s@.subrange(i + 1, s.len() as int));
            let ghost before = out@;
            out.push(s[i]);
            proof {
                if p.len() == 0 || rest.len() < p.len() {
                    assert(replace_all(rest, p@, rep@) == rest);
                    if p.len() > 0 {
                        assert(replace_all(rest.drop_first(), p@, rep@) == rest.drop_first());
                    }
                }
            }
            assert(out@ + replace_all(s@.subrange(i + 1, s.len() as int), p@, rep@) == before + (
            seq![s@[i as int]] + replace_all(rest.drop_first(), p@, rep@)));
            i = i + 1;
        }
    }
    string_of(&out)
}

/// A song from the search step, with the `FileHash` the lyric step needs.
#[derive(Clone, Debug)]
pub struct KugouSong {
    pub candidate: Candidate,
    pub file_hash: String,
}

/// The song list: `data.lists`, else `data.info`.
pub open spec fn kugou_songs(v: Json) -> Seq<Json> {
    if arr_at_spec(v, seq!["data"@, "lists"@]).len() > 0 {
        arr_at_spec(v, seq!["data"@, "lists"@])
    } else {
        arr_at_spec(v, seq!["data"@, "info"@])
    }
}

fn song_list(json: &Json) -> (r: Vec<&Json>)
    ensures
        derefs(r@) == kugou_songs(*json),
{
    let a = arr2(json, "data", "lists");
    assert(derefs(a@).len() == a@.len());
    if a.len() > 0 {
        return a;
    }
    arr2(json, "data", "info")
}

pub open spec fn song_usable(s: Json) -> bool {
    str_at_spec(s, seq!["FileHash"@]) is Some && str_at_spec(s, seq!["SongName"@]) is Some
}

/// The song a search record yields; its candidate carries the file hash as a
/// placeholder id until the lyric step finds the lyric's own id.
pub open spec fn kugou_song(k: KugouSong, s: Json) -> bool {
    let c = k.candidate;
    &&& str_at_spec(s, seq!["FileHash"@]) matches Some(h) && k.file_hash@ == h && c.song_id@ == h
    &&& c.provider == ProviderId::KuGou
    &&& c.access_key is None
    &&& str_at_spec(s, seq!["SongName"@]) matches Some(t) && c.title@ == display_title_spec(t)
    &&& c.artists.deep_view() == clean_artists_spec(
        split_artists_spec(or_empty(str_at_spec(s, seq!["SingerName"@]))),
    )
    &&& opt_seq(c.album) == display_opt(str_at_spec(s, seq!["AlbumName"@]))
    &&& c.year == match str_at_spec(s, seq!["PublishDate"@]) {
        Some(d) => year_from_date_spec(d),
        None => None,
    }
    &&& c.track_no is None
    &&& c.duration_ms == duration_ms_spec(u64_at_spec(s, seq!["Duration"@]))
    &&& opt_seq(c.cover_url) == match str_at_spec(s, seq!["Image"@]) {
        Some(t) => Some(replace_all(t, "{size}"@, COVER_SIZE@)),
        None => None,
    }
}

fn song_of(s: &Json) -> (r: Option<KugouSong>)
    ensures
        match r {
            Some(k) => song_usable(*s) && kugou_song(k, *s),
            None => !song_usable(*s),
        },
{
    let file_hash = match str1(s, "FileHash") {
        Some(h) => h,
        None => {
            return None;
        },
    };
    let title_raw = match str1(s, "SongName") {
        Some(t) => t,
        None => {
            return None;
        },
    };
    let singer_raw = match str1(s, "SingerName") {
        Some(t) => t,
        None => String::new(),
    };
    let artists = clean_all(&split_artists(singer_raw.as_str()));
    let cover_url = match str1(s, "Image") {
        Some(t) => Some(fill_cover_size(t.as_str())),
        None => None,
    };
    let year = match str1(s, "PublishDate") {
        Some(d) => year_from_date(d.as_str()),
        None => None,
    };
    let candidate = Candidate {
        provider: ProviderId::KuGou,
        song_id: file_hash.clone(),
        access_key: None,
        title: clean_display_title(title_raw.as_str()),
        artists,
        album: display_opt_of(str1(s, "AlbumName")),
        year,
        track_no: None,
        duration_ms: duration_ms_of(u64_1(s, "Duration")),
        cover_url,
    };
    Some(KugouSong { candidate, file_hash })
}

/// Parses the song search step: one song per record with a file hash and a
/// song name, in order.
pub fn parse_song_search(json: &Json) -> (r: Vec<KugouSong>)
    ensures
        r@.len() == keep(kugou_songs(*json), |s: Json| song_usable(s)).len(),
        forall|i: int|
            0 <= i < r@.len() ==> kugou_song(
                #[trigger] r@[i],
                keep(kugou_songs(*json), |s: Json| song_usable(s))[i],
            ),
{
    let list = song_list(json);
    let ghost all = derefs(list@);
    let ghost ok = |s: Json| song_usable(s);
    let mut out: Vec<KugouSong> = Vec::new();
    let mut i: usize = 0;
    while i < list.len()
        invariant
            i <= list@.len(),
            all == derefs(list@),
            all == kugou_songs(*json),
            ok == (|s: Json| song_usable(s)),
            out@.len() == keep(all.take(i as int), ok).len(),
            forall|k: int|
                0 <= k < out@.len() ==> kugou_song(#[trigger] out@[k], keep(all.take(i as int), ok)[k]),
        decreases list.len() - i,
    {
        assert(all.take(i + 1).drop_last() == all.take(i as int));
        assert(all.take(i + 1).last() == *list@[i as int]);
        match song_of(list[i]) {
            Some(k) => {
                out.push(k);
            },
            None => {},
        }
        i = i + 1;
    }
    assert(all.take(list@.len() as int) == all);
    out
}

pub open spec fn lyric_usable(c: Json) -> bool {
    str_at_spec(c, seq!["id"@]) is Some && str_at_spec(c, seq!["accesskey"@]) is Some
}

/// The candidate a lyric search entry yields. The entry's own song name and
/// singer win (a lyric version may differ from the song's); album, year and
/// cover stay the song's, and a zero duration falls back to the song's, since
/// the duration is the score's most reliable constraint.
pub open spec fn kugou_lyric_candidate(c: Candidate, e: Json, base: Candidate) -> bool {
    let split = clean_artists_spec(split_artists_spec(or_empty(str_at_spec(e, seq!["singer"@]))));
    &&& c.provider == ProviderId::KuGou
    &&& str_at_spec(e, seq!["id"@]) matches Some(id) && c.song_id@ == id
    &&& str_at_spec(e, seq!["accesskey"@]) matches Some(k) && c.access_key matches Some(a) && a@
        == k
    &&& c.title@ == match display_opt(str_at_spec(e, seq!["song"@])) {
        Some(t) => t,
        None => base.title@,
    }
    &&& c.artists.deep_view() == if split.len() > 0 {
        split
    } else {
        base.artists.deep_view()
    }
    &&& opt_seq(c.album) == opt_seq(base.album)
    &&& c.year == base.year
    &&& c.track_no is None
    &&& c.duration_ms == or_opt(duration_ms_spec(u64_at_spec(e, seq!["duration"@])), base.duration_ms)
    &&& opt_seq(c.cover_url) == opt_seq(base.cover_url)
}

fn copy_opt(o: &Option<String>) -> (r: Option<String>)
    ensures
        opt_seq(r) == opt_seq(*o),
{
    match o {
        Some(s) => Some(s.clone()),
        None => None,
    }
}

fn copy_strings(v: &Vec<String>) -> (r: Vec<String>)
    ensures
        r.deep_view() == v.deep_view(),
{
    let mut out: Vec<String> = Vec::new();
    let mut i: usize = 0;
    while i < v.len()
        invariant
            i <= v.len(),
            out.deep_view() == v.deep_view().take(i as int),
        decreases v.len() - i,
    {
        let ghost before = out.deep_view();
        out.push(v[i].clone());
        assert(out.deep_view() =~= before.push(v[i as int]@));
        assert(v.deep_view().take(i + 1) =~= v.deep_view().take(i as int).push(v[i as int]@));
        i = i + 1;
    }
    assert(v.deep_view().take(v.len() as int) == v.deep_view());
    out
}

fn lyric_candidate_of(e: &Json, base: &Candidate) -> (r: Option<Candidate>)
    ensures
        match r {
            Some(c) => lyric_usable(*e) && kugou_lyric_candidate(c, *e, *base),
            None => !lyric_usable(*e),
        },
{
    let id = match str1(e, "id") {
        Some(i) => i,
        None => {
            return None;
        },
    };
    let accesskey = match str1(e, "accesskey") {
        Some(k) => k,
        None => {
            return None;
        },
    };
    let title = match display_opt_of(str1(e, "song")) {
        Some(t) => t,
        None => base.title.clone(),
    };
    let singer = match str1(e, "singer") {
        Some(t) => t,
        None => String::new(),
    };
    let artists = clean_all(&split_artists(singer.as_str()));
    let duration_ms = match duration_ms_of(u64_1(e, "duration")) {
        Some(d) => Some(d),
        None => base.duration_ms,
    };
    Some(
        Candidate {
            provider: ProviderId::KuGou,
            song_id: id,
            access_key: Some(accesskey),
            title,
            artists: if artists.len() == 0 {
                copy_strings(&base.artists)
            } else {
                artists
            },
            album: copy_opt(&base.album),
            year: base.year,
            track_no: None,
            duration_ms,
            cover_url: copy_opt(&base.cover_url),
        },
    )
}

/// Parses the lyric search step: one candidate per entry with an id and an
/// access key, in order, filled in from the song where the entry is silent.
pub fn parse_lyric_candidates(json: &Json, base: &Candidate) -> (r: Vec<Candidate>)
    ensures
        r@.len() == keep(arr_at_spec(*json, seq!["candidates"@]), |e: Json| lyric_usable(e)).len(),
        forall|i: int|
            0 <= i < r@.len() ==> kugou_lyric_candidate(
                #[trigger] r@[i],
                keep(arr_at_spec(*json, seq!["candidates"@]), |e: Json| lyric_usable(e))[i],
                *base,
            ),
{
    let list = arr1(json, "candidates");
    let ghost all = derefs(list@);
    let ghost ok = |e: Json| lyric_usable(e);
    let mut out: Vec<Candidate> = Vec::new();
    let mut i: usize = 0;
    while i < list.len()
        invariant
            i <= list@.len(),
            all == derefs(list@),
            all == arr_at_spec(*json, seq!["candidates"@]),
            ok == (|e: Json| lyric_usable(e)),
            out@.len() == keep(all.take(i as int), ok).len(),
            forall|k: int|
                0 <= k < out@.len() ==> kugou_lyric_candidate(
                    #[trigger] out@[k],
                    keep(all.take(i as int), ok)[k],
                    *base,
                ),
        decreases list.len() - i,
    {
        assert(all.take(i + 1).drop_last() == all.take(i as int));
        assert(all.take(i + 1).last() == *list@[i as int]);
        match lyric_candidate_of(list[i], base) {
            Some(c) => {
                out.push(c);
            },
            None => {},
        }
        i = i + 1;
    }
    assert(all.take(list@.len() as int) == all);
    out
}

/// The text of `content`, Base64-decoded (empty when it does not decode).
pub open spec fn content_text(json: Json) -> Seq<char> {
    match base64_text_spec(or_empty(str_at_spec(json, seq!["content"@]))) {
        Ok(t) => t,
        Err(_) => Seq::empty(),
    }
}

/// Lyrics from the download step: `content` is Base64-encoded LRC. No
/// translation is taken (one was seen once, never verified). Never fails.
pub fn parse_lyric(json: &Json, song_id: &str) -> (r: Result<Lyrics, AppError>)
    ensures
        r matches Ok(l) && built_lyrics(
            l,
            ProviderId::KuGou,
            song_id@,
            payload_spec(content_text(*json)),
            Seq::empty(),
        ),
{
    let content = match str1(json, "content") {
        Some(t) => t,
        None => String::new(),
    };
    let decoded = match decode_base64(content.as_str()) {
        Ok(d) => d,
        Err(_) => String::new(),
    };
    let text = normalize_lyric_payload(decoded.as_str());
    proof {
        reveal_strlit("");
        assert(""@ =~= Seq::<char>::empty());
    }
    Ok(build_lyrics(ProviderId::KuGou, song_id, text.as_str(), ""))
}

/// How far a song's duration lies from the wanted length, in milliseconds;
/// `None` for a song without a duration.
pub open spec fn duration_gap(c: Candidate, want_secs: u32) -> Option<int> {
    match c.duration_ms {
        Some(ms) => {
            let d = ms - want_secs * 1000;
            Some(
                if d >= 0 {
                    d
                } else {
                    -d
                },
            )
        },
        None => None,
    }
}

/// Song `a` lies strictly closer to the wanted length than song `b`; a song
/// without a duration is never closer than one with.
pub open spec fn closer(a: Candidate, b: Candidate, want_secs: u32) -> bool {
    match (duration_gap(a, want_secs), duration_gap(b, want_secs)) {
        (Some(x), Some(y)) => x < y,
        (Some(_), None) => true,
        _ => false,
    }
}

fn gap_of(c: &Candidate, want_ms: u64) -> (r: Option<u64>)
    requires
        want_ms % 1000 == 0,
        want_ms <= u32::MAX as int * 1000,
    ensures
        match (r, duration_gap(*c, (want_ms / 1000) as u32)) {
            (Some(x), Some(y)) => x == y,
            (None, None) => true,
            _ => false,
        },
{
    match c.duration_ms {
        Some(ms) => Some(
            if ms >= want_ms {
                ms - want_ms
            } else {
                want_ms - ms
            },
        ),
        None => None,
    }
}

/// The song whose lyric search goes on: the first one whose duration lies
/// closest to the local file's (titles there are sometimes garbled, durations
/// are not); without a local duration, the first song. `None` for no songs.
pub fn pick_best_song(songs: &[KugouSong], duration_secs: Option<u32>) -> (r: Option<usize>)
    ensures
        r is None <==> songs@.len() == 0,
        match r {
            Some(i) => i < songs@.len() && match duration_secs {
                None => i == 0,
                Some(w) => {
                    &&& forall|j: int|
                        0 <= j < i ==> closer(songs@[i as int].candidate, #[trigger] songs@[j].candidate, w)
                    &&& forall|j: int|
                        i < j < songs@.len() ==> !closer(
                            #[trigger] songs@[j].candidate,
                            songs@[i as int].candidate,
                            w,
                        )
                },
            },
            None => true,
        },
{
    if songs.len() == 0 {
        return None;
    }
    let w = match duration_secs {
        None => {
            return Some(0);
        },
        Some(w) => w,
    };
    let want_ms: u64 = w as u64 * 1000;
    assert(want_ms / 1000 == w);
    let mut best: usize = 0;
    let mut best_gap = gap_of(&songs[0].candidate, want_ms);
    let mut k: usize = 1;
    while k < songs.len()
        invariant
            1 <= k <= songs@.len(),
            best < k,
            want_ms == w * 1000,
            want_ms / 1000 == w,
            match (best_gap, duration_gap(songs@[best as int].candidate, w)) {
                (Some(x), Some(y)) => x == y,
                (None, None) => true,
                _ => false,
            },
            forall|j: int| 0 <= j < best ==> closer(songs@[best as int].candidate, #[trigger] songs@[j].candidate, w),
            forall|j: int|
                best < j < k ==> !closer(#[trigger] songs@[j].candidate, songs@[best as int].candidate, w),
        decreases songs.len() - k,
    {
        let g = gap_of(&songs[k].candidate, want_ms);
        let better = match (g, best_gap) {
            (Some(x), Some(y)) => x < y,
            (Some(_), None) => true,
            _ => false,
        };
        if better {
            assert forall|j: int| 0 <= j < k implies closer(songs@[k as int].candidate, #[trigger] songs@[j].candidate, w) by {
                if j < best {
                    assert(closer(songs@[best as int].candidate, songs@[j].candidate, w));
                } else if j > best {
                    assert(!closer(songs@[j].candidate, songs@[best as int].candidate, w));
                }
            }
            best = k;
            best_gap = g;
        }
        k = k + 1;
    }
    Some(best)
}

/// What a KuGou search yields once the lyric step has answered: the lyric
/// step's candidates when it gave any, else the chosen song itself (the lyric
/// step sometimes answers with no candidates at all, or fails).
pub fn search_candidates(lyric_step: Option<&Json>, song: &Candidate) -> (r: Vec<Candidate>)
    ensures
        match lyric_step {
            Some(j) if keep(arr_at_spec(*j, seq!["candidates"@]), |e: Json| lyric_usable(e)).len()
                > 0 => {
                let es = keep(arr_at_spec(*j, seq!["candidates"@]), |e: Json| lyric_usable(e));
                &&& r@.len() == es.len()
                &&& forall|i: int|
                    0 <= i < r@.len() ==> kugou_lyric_candidate(#[trigger] r@[i], es[i], *song)
            },
            _ => r@.len() == 1 && same_candidate(r@[0], *song),
        },
{
    match lyric_step {
        Some(j) => {
            let cs = parse_lyric_candidates(j, song);
            if cs.len() > 0 {
                return cs;
            }
        },
        None => {},
    }
    let mut out: Vec<Candidate> = Vec::new();
    out.push(song.duplicate());
    out
}

/// The lyric id and access key to download with, for a candidate that
/// carries no key: those of the first usable entry of a lyric search made
/// with the candidate's hash.
pub fn download_key(json: &Json, candidate: &Candidate) -> (r: Result<(String, String), AppError>)
    ensures
        ({
            let es = keep(arr_at_spec(*json, seq!["candidates"@]), |e: Json| lyric_usable(e));
            match r {
                Ok((id, key)) => es.len() > 0 && str_at_spec(es[0], seq!["id"@]) == Some(id@)
                    && str_at_spec(es[0], seq!["accesskey"@]) == Some(key@),
                Err(e) => es.len() == 0 && (e matches AppError::ProviderUnavailable(m) && m@
                    == "酷狗这首歌暂时取不到歌词"@),
            }
        }),
{
    let cs = parse_lyric_candidates(json, candidate);
    if cs.len() == 0 {
        return Err(AppError::ProviderUnavailable("酷狗这首歌暂时取不到歌词".to_owned()));
    }
    let c = &cs[0];
    match &c.access_key {
        Some(k) => Ok((c.song_id.clone(), k.clone())),
        None => Err(AppError::ProviderUnavailable("酷狗取词缺少必要参数".to_owned())),
    }
}

} // verus!
