//! NetEase response parsing.
//!
//! Field names differ between the search endpoint (`artists`, `album`,
//! `duration`) and the song detail endpoint (`ar`, `al`, `dt`), so both
//! spellings are read.

use vstd::prelude::*;
use crate::domain::candidate::{opt_seq, Candidate, ProviderId};
use crate::domain::lyrics::{LyricLine, Lyrics, VerbatimData};
use crate::domain::normalize::{clean_display_title, display_title_spec};
use crate::infra::error::AppError;
use crate::infra::time::{year_from_epoch_ms, year_from_epoch_spec};
use crate::lrc::parse::{parse, parse_spec};
use crate::lrc::verbatim::{
    downgrade_spec, downgrade_to_lines, looks_sane, parse_yrc, sane_spec, yrc_fold,
};
use crate::provider::json::{derefs, Json};
use crate::provider::util::{
    arr1, arr2, arr_at_spec, build_lyrics, built_lyrics, clean_all, clean_artists_spec,
    display_opt, display_opt_of, duration_ms_of, duration_ms_spec, keep, or_empty, or_opt, str1,
    str2, str_at_spec, strs_from, strs_spec, u64_1, u64_2, u64_at_spec, code_of, response_code,
};
use crate::text::{chars_of, str_lines, string_of, trim, trim_vec};

verus! {

/// The song array: `result.songs`, else `songs`, else `result.song`.
pub open spec fn songs_spec(v: Json) -> Seq<Json> {
    if arr_at_spec(v, seq!["result"@, "songs"@]).len() > 0 {
        arr_at_spec(v, seq!["result"@, "songs"@])
    } else if arr_at_spec(v, seq!["songs"@]).len() > 0 {
        arr_at_spec(v, seq!["songs"@])
    } else {
        arr_at_spec(v, seq!["result"@, "song"@])
    }
}

fn songs_of(json: &Json) -> (r: Vec<&Json>)
    ensures
        derefs(r@) == songs_spec(*json),
{
    let a = arr2(json, "result", "songs");
    assert(derefs(a@).len() == a@.len());
    if a.len() > 0 {
        return a;
    }
    let b = arr1(json, "songs");
    assert(derefs(b@).len() == b@.len());
    if b.len() > 0 {
        return b;
    }
    arr2(json, "result", "song")
}

pub open spec fn ne_usable(s: Json) -> bool {
    str_at_spec(s, seq!["id"@]) is Some && str_at_spec(s, seq!["name"@]) is Some
}

pub open spec fn ne_artists(s: Json) -> Seq<Seq<char>> {
    let a = strs_spec(arr_at_spec(s, seq!["artists"@]), "name"@);
    if a.len() > 0 {
        a
    } else {
        strs_spec(arr_at_spec(s, seq!["ar"@]), "name"@)
    }
}

pub open spec fn year_opt(ms: Option<u64>) -> Option<u32> {
    match ms {
        Some(m) => year_from_epoch_spec(m),
        None => None,
    }
}

/// The candidate a song entry yields.
pub open spec fn ne_candidate(c: Candidate, s: Json) -> bool {
    &&& c.provider == ProviderId::NetEase
    &&& str_at_spec(s, seq!["id"@]) matches Some(id) && c.song_id@ == id
    &&& c.access_key is None
    &&& str_at_spec(s, seq!["name"@]) matches Some(t) && c.title@ == display_title_spec(t)
    &&& c.artists.deep_view() == clean_artists_spec(ne_artists(s))
    &&& opt_seq(c.album) == display_opt(
        or_opt(str_at_spec(s, seq!["album"@, "name"@]), str_at_spec(s, seq!["al"@, "name"@])),
    )
    &&& c.year == year_opt(
        or_opt(
            u64_at_spec(s, seq!["al"@, "publishTime"@]),
            u64_at_spec(s, seq!["album"@, "publishTime"@]),
        ),
    )
    &&& c.track_no == match u64_at_spec(s, seq!["no"@]) {
        Some(n) => Some(n as u32),
        None => None,
    }
    &&& c.duration_ms == duration_ms_spec(
        or_opt(u64_at_spec(s, seq!["duration"@]), u64_at_spec(s, seq!["dt"@])),
    )
    &&& opt_seq(c.cover_url) == or_opt(
        str_at_spec(s, seq!["al"@, "picUrl"@]),
        str_at_spec(s, seq!["album"@, "picUrl"@]),
    )
}

fn year_of(ms: Option<u64>) -> (r: Option<u32>)
    ensures
        r == year_opt(ms),
{
    match ms {
        Some(m) => year_from_epoch_ms(m),
        None => None,
    }
}

fn candidate_of(s: &Json) -> (r: Option<Candidate>)
    ensures
        match r {
            Some(c) => ne_usable(*s) && ne_candidate(c, *s),
            None => !ne_usable(*s),
        },
{
    let song_id = match str1(s, "id") {
        Some(i) => i,
        None => {
            return None;
        },
    };
    let title = match str1(s, "name") {
        Some(t) => t,
        None => {
            return None;
        },
    };
    let a = strs_from(arr1(s, "artists").as_slice(), "name");
    let artists_raw = if a.len() > 0 {
        a
    } else {
        strs_from(arr1(s, "ar").as_slice(), "name")
    };
    let album_raw = match str2(s, "album", "name") {
        Some(t) => Some(t),
        None => str2(s, "al", "name"),
    };
    let duration_raw = match u64_1(s, "duration") {
        Some(d) => Some(d),
        None => u64_1(s, "dt"),
    };
    let year_raw = match u64_2(s, "al", "publishTime") {
        Some(d) => Some(d),
        None => u64_2(s, "album", "publishTime"),
    };
    let track_no = match u64_1(s, "no") {
        Some(n) => Some(n as u32),
        None => None,
    };
    let cover_url = match str2(s, "al", "picUrl") {
        Some(u) => Some(u),
        None => str2(s, "album", "picUrl"),
    };
    Some(
        Candidate {
            provider: ProviderId::NetEase,
            song_id,
            access_key: None,
            title: clean_display_title(title.as_str()),
            artists: clean_all(&artists_raw),
            album: display_opt_of(album_raw),
            year: year_of(year_raw),
            track_no,
            duration_ms: duration_ms_of(duration_raw),
            cover_url,
        },
    )
}

/// Parses a search (or detail) response: one candidate per song with an id
/// and a name, in order.
pub fn parse_search(json: &Json) -> (r: Vec<Candidate>)
    ensures
        r@.len() == keep(songs_spec(*json), |s: Json| ne_usable(s)).len(),
        forall|i: int|
            0 <= i < r@.len() ==> ne_candidate(
                #[trigger] r@[i],
                keep(songs_spec(*json), |s: Json| ne_usable(s))[i],
            ),
{
    let list = songs_of(json);
    let ghost all = derefs(list@);
    let ghost ok = |s: Json| ne_usable(s);
    let mut out: Vec<Candidate> = Vec::new();
    let mut i: usize = 0;
    while i < list.len()
        invariant
            i <= list@.len(),
            all == derefs(list@),
            all == songs_spec(*json),
            ok == (|s: Json| ne_usable(s)),
            out@.len() == keep(all.take(i as int), ok).len(),
            forall|k: int|
                0 <= k < out@.len() ==> ne_candidate(#[trigger] out@[k], keep(all.take(i as int), ok)[k]),
        decreases list.len() - i,
    {
        assert(all.take(i + 1).drop_last() == all.take(i as int));
        assert(all.take(i + 1).last() == *list@[i as int]);
        match candidate_of(list[i]) {
            Some(c) => {
                out.push(c);
            },
            None => {},
        }
        i = i + 1;
    }
    assert(all.take(list@.len() as int) == all);
    out
}

/// The index of the first song whose id reads as `id`, at or after `i`.
pub open spec fn song_with_id(songs: Seq<Json>, id: Seq<char>, i: int) -> Option<int>
    decreases songs.len() - i,
{
    if i < 0 || i >= songs.len() {
        None
    } else if str_at_spec(songs[i], seq!["id"@]) == Some(id) {
        Some(i)
    } else {
        song_with_id(songs, id, i + 1)
    }
}

/// The detail entry used to enrich a candidate: the song with its id, else
/// the first song.
pub open spec fn detail_song(json: Json, id: Seq<char>) -> Option<Json> {
    let songs = songs_spec(json);
    match song_with_id(songs, id, 0) {
        Some(i) => Some(songs[i]),
        None => if songs.len() > 0 {
            Some(songs[0])
        } else {
            None
        },
    }
}

/// What the enrichment sets, field by field, from detail entry `s`.
pub open spec fn enriched(c: Candidate, old_c: Candidate, s: Json) -> bool {
    let pic = str_at_spec(s, seq!["al"@, "picUrl"@]);
    let year = year_opt(u64_at_spec(s, seq!["al"@, "publishTime"@]));
    let no = u64_at_spec(s, seq!["no"@]);
    let dt = duration_ms_spec(u64_at_spec(s, seq!["dt"@]));
    let al = or_opt(str_at_spec(s, seq!["al"@, "name"@]), str_at_spec(s, seq!["album"@, "name"@]));
    &&& opt_seq(c.cover_url) == if pic is Some {
        pic
    } else {
        opt_seq(old_c.cover_url)
    }
    &&& c.year == if year is Some {
        year
    } else {
        old_c.year
    }
    &&& c.track_no == match no {
        Some(n) => if n > 0 {
            Some(n as u32)
        } else {
            old_c.track_no
        },
        None => old_c.track_no,
    }
    &&& c.duration_ms == if dt is Some {
        dt
    } else {
        old_c.duration_ms
    }
    &&& opt_seq(c.album) == match al {
        Some(a) => Some(display_title_spec(a)),
        None => opt_seq(old_c.album),
    }
    &&& c.provider == old_c.provider
    &&& c.song_id@ == old_c.song_id@
    &&& opt_seq(c.access_key) == opt_seq(old_c.access_key)
    &&& c.title@ == old_c.title@
    &&& c.artists.deep_view() == old_c.artists.deep_view()
}

/// Whether the entry changes anything.
pub open spec fn enrich_changes(s: Json) -> bool {
    ||| str_at_spec(s, seq!["al"@, "picUrl"@]) is Some
    ||| year_opt(u64_at_spec(s, seq!["al"@, "publishTime"@])) is Some
    ||| (u64_at_spec(s, seq!["no"@]) matches Some(n) && n > 0)
    ||| duration_ms_spec(u64_at_spec(s, seq!["dt"@])) is Some
    ||| or_opt(str_at_spec(s, seq!["al"@, "name"@]), str_at_spec(s, seq!["album"@, "name"@])) is Some
}

fn pick_index(songs: &Vec<&Json>, id: &str) -> (r: Option<usize>)
    ensures
        r matches Some(k) ==> song_with_id(derefs(songs@), id@, 0) == Some(k as int) && k
            < songs@.len(),
        r is None ==> song_with_id(derefs(songs@), id@, 0) is None,
{
    let ghost all = derefs(songs@);
    let mut i: usize = 0;
    while i < songs.len()
        invariant
            i <= songs@.len(),
            all == derefs(songs@),
            song_with_id(all, id@, 0) == song_with_id(all, id@, i as int),
        decreases songs.len() - i,
    {
        assert(all[i as int] == *songs@[i as int]);
        match str1(songs[i], "id") {
            Some(t) => {
                if crate::text::str_eq(t.as_str(), id) {
                    return Some(i);
                }
            },
            None => {},
        }
        i = i + 1;
    }
    None
}

/// Fills a candidate from the song detail response, which is the only way to
/// get NetEase's cover, year and track number anonymously. Returns whether
/// anything changed.
pub fn enrich_from_detail(json: &Json, candidate: &mut Candidate) -> (r: bool)
    ensures
        match detail_song(*json, old(candidate).song_id@) {
            None => !r && *final(candidate) == *old(candidate),
            Some(s) => r == enrich_changes(s) && enriched(*final(candidate), *old(candidate), s),
        },
{
    let songs = songs_of(json);
    let ghost all = derefs(songs@);
    let idx = match pick_index(&songs, candidate.song_id.as_str()) {
        Some(k) => k,
        None => {
            if songs.len() == 0 {
                return false;
            }
            0
        },
    };
    assert(detail_song(*json, old(candidate).song_id@) == Some(all[idx as int]));
    assert(all[idx as int] == *songs@[idx as int]);
    let s = songs[idx];
    let mut changed = false;
    match str2(s, "al", "picUrl") {
        Some(pic) => {
            candidate.cover_url = Some(pic);
            changed = true;
        },
        None => {},
    }
    match year_of(u64_2(s, "al", "publishTime")) {
        Some(y) => {
            candidate.year = Some(y);
            changed = true;
        },
        None => {},
    }
    match u64_1(s, "no") {
        Some(no) => {
            if no > 0 {
                candidate.track_no = Some(no as u32);
                changed = true;
            }
        },
        None => {},
    }
    match duration_ms_of(u64_1(s, "dt")) {
        Some(dt) => {
            candidate.duration_ms = Some(dt);
            changed = true;
        },
        None => {},
    }
    let al = match str2(s, "al", "name") {
        Some(a) => Some(a),
        None => str2(s, "album", "name"),
    };
    match al {
        Some(a) => {
            candidate.album = Some(clean_display_title(a.as_str()));
            changed = true;
        },
        None => {},
    }
    changed
}


pub open spec fn ne_text(json: Json, k1: Seq<char>, k2: Seq<char>) -> Seq<char> {
    or_empty(str_at_spec(json, seq![k1, k2]))
}

/// The word-timed text: `yrc.yrc`, else `yrc.lyric`.
pub open spec fn yrc_text(json: Json) -> Seq<char> {
    or_empty(or_opt(str_at_spec(json, seq!["yrc"@, "yrc"@]), str_at_spec(json, seq!["yrc"@, "lyric"@])))
}

/// Whether the word-timed lyrics replace the original's timeline: only when
/// they look sane and cover at least as many lines (YRC sometimes comes back
/// with only the first few lines, and taking it would cut the song short).
pub open spec fn yrc_useful(yrc: Seq<char>, origin_len: nat) -> bool {
    let v = yrc_fold(str_lines(yrc));
    let refined = downgrade_spec(v);
    trim(yrc).len() > 0 && sane_spec(v) && refined.len() >= origin_len && refined.len() > 0
}

/// What a lyric response yields: original, translation and romanisation, and
/// the word-timed lyrics when they are useful, the translation staying apart
/// (merging is the renderer's job).
pub open spec fn ne_lyrics(l: Lyrics, json: Json, song_id: Seq<char>) -> bool {
    let lrc = ne_text(json, "lrc"@, "lyric"@);
    let trans = ne_text(json, "tlyric"@, "lyric"@);
    let roma = ne_text(json, "romalrc"@, "lyric"@);
    let yrc = yrc_text(json);
    let origin = parse_spec(lrc).0;
    let v = yrc_fold(str_lines(yrc));
    &&& l.trans.deep_view() == parse_spec(trans).0
    &&& l.raw_lrc@ == lrc
    &&& l.raw_trans@ == trans
    &&& l.provider == ProviderId::NetEase
    &&& l.song_id@ == song_id
    &&& l.is_instrumental == crate::domain::lyrics::looks_instrumental_spec(lrc)
    &&& l.roma.deep_view() == if trim(roma).len() > 0 {
        parse_spec(roma).0
    } else {
        Seq::empty()
    }
    &&& if yrc_useful(yrc, origin.len()) {
        &&& l.lines.deep_view() == downgrade_spec(v)
        &&& l.verbatim matches Some(d) && d.lines.deep_view() == v
    } else {
        &&& l.lines.deep_view() == origin
        &&& l.verbatim is None
    }
}

fn text2(json: &Json, k1: &str, k2: &str) -> (r: String)
    ensures
        r@ == or_empty(str_at_spec(*json, seq![k1@, k2@])),
{
    match str2(json, k1, k2) {
        Some(t) => t,
        None => String::new(),
    }
}

/// Parses a lyric response; the four fields `lrc`, `tlyric`, `romalrc` and
/// `yrc` are read. Never fails.
pub fn parse_lyric(json: &Json, song_id: &str) -> (r: Result<Lyrics, AppError>)
    ensures
        r matches Ok(l) && ne_lyrics(l, *json, song_id@),
{
    let lrc_text = text2(json, "lrc", "lyric");
    let trans_text = text2(json, "tlyric", "lyric");
    let roma_text = text2(json, "romalrc", "lyric");
    let yrc_text = match str2(json, "yrc", "yrc") {
        Some(t) => t,
        None => text2(json, "yrc", "lyric"),
    };
    let mut lyrics = build_lyrics(ProviderId::NetEase, song_id, lrc_text.as_str(), trans_text.as_str());
    let rv = chars_of(roma_text.as_str());
    if trim_vec(&rv).len() > 0 {
        lyrics.roma = parse(roma_text.as_str()).lines;
    } else {
        assert(lyrics.roma.deep_view() =~= Seq::<crate::domain::lyrics::LineView>::empty());
    }
    let yv = chars_of(yrc_text.as_str());
    if trim_vec(&yv).len() > 0 {
        let verbatim = parse_yrc(yrc_text.as_str());
        let refined = downgrade_to_lines(&verbatim);
        let useful = looks_sane(&verbatim) && refined.len() >= lyrics.lines.len() && refined.len()
            > 0;
        if useful {
            lyrics.lines = refined;
            lyrics.verbatim = Some(verbatim);
        }
    }
    Ok(lyrics)
}


/// What a response's `code` says: 200 (or no code) is fine; 50000005 means
/// the endpoint wants a login, so the source counts as unavailable; 400 is a
/// parameter error; any other code is an odd answer.
pub open spec fn ensure_ok_spec(v: Json) -> Result<(), AppError> {
    match code_of(v) {
        None => Ok(()),
        Some(200) => Ok(()),
        Some(50000005) => Err(AppError::ProviderUnavailable(arbitrary())),
        Some(_) => Err(AppError::BadResponse(arbitrary())),
    }
}

/// Checks a NetEase response's `code`.
pub fn ensure_ok(value: &Json) -> (r: Result<(), AppError>)
    ensures
        match (r, ensure_ok_spec(*value)) {
            (Ok(()), Ok(())) => true,
            (Err(AppError::ProviderUnavailable(m)), Err(AppError::ProviderUnavailable(_))) => m@
                == "网易云该接口需要登录，已改用匿名链路"@,
            (Err(AppError::BadResponse(m)), Err(AppError::BadResponse(_))) => code_of(*value)
                == Some(400i64) ==> m@ == "网易云接口参数错误"@,
            _ => false,
        },
{
    match response_code(value) {
        None => Ok(()),
        Some(200) => Ok(()),
        Some(50000005) => Err(AppError::ProviderUnavailable("网易云该接口需要登录，已改用匿名链路".to_owned())),
        Some(400) => Err(AppError::BadResponse("网易云接口参数错误".to_owned())),
        Some(other) => {
            let mut v = chars_of("网易云返回异常（code=");
            let d = crate::text::signed_decimal(other);
            crate::text::append_vec(&mut v, &d);
            crate::text::push_str_vec(&mut v, "）");
            Err(AppError::BadResponse(string_of(&v)))
        },
    }
}

} // verus!
