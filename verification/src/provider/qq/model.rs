//! QQ Music response parsing.

use vstd::prelude::*;
use crate::domain::candidate::{opt_seq, Candidate, ProviderId};
use crate::domain::normalize::{clean_display_title, display_title_spec};
use crate::domain::lyrics::{has_text_line, looks_instrumental_spec, Lyrics};
use crate::infra::error::AppError;
use crate::provider::json::{derefs, keys_view, Json};
use crate::provider::util::{
    arr1, arr_at, arr_at_spec, clean_all, clean_artists_spec, display_opt, display_opt_of,
    duration_ms_of, duration_ms_spec, keep, or_empty, or_opt, str1, str2, str_at_spec,
    strs_from, strs_spec, u64_1, u64_at_spec,
    base64_text_spec, build_lyrics, built_lyrics, decode_base64, find_in, first_occurrence,
    normalize_lyric_payload, payload_spec, strip_comments_spec, strip_xml_comments, code_of,
    response_code,
};
use crate::lrc::parse::parse_spec;
use crate::text::{append_vec, chars_of, is_ascii_digit, push_str_vec, slice_vec, string_of, trim, trim_vec};

verus! {

/// The text of the `n`-th (from zero) `<tag>...</tag>` in `xml`, trimmed.
pub open spec fn nth_tag_spec(xml: Seq<char>, open: Seq<char>, close: Seq<char>, n: nat) -> Option<
    Seq<char>,
>
    decreases n,
{
    match first_occurrence(xml, open) {
        None => None,
        Some(o) => {
            let start = o + open.len();
            match first_occurrence(xml.skip(start), close) {
                None => None,
                Some(e) => {
                    let end = start + e;
                    if 0 <= o && 0 <= e && end + close.len() <= xml.len() {
                        if n == 0 {
                            Some(trim(xml.subrange(start, end)))
                        } else {
                            nth_tag_spec(xml.skip(end + close.len()), open, close, (n - 1) as nat)
                        }
                    } else {
                        None
                    }
                },
            }
        },
    }
}

pub open spec fn open_tag(tag: Seq<char>) -> Seq<char> {
    seq!['<'] + tag + seq!['>']
}

pub open spec fn close_tag(tag: Seq<char>) -> Seq<char> {
    seq!['<', '/'] + tag + seq!['>']
}

/// The content of the `n`-th `<tag>` (from zero). `content` appears more than
/// once in responses: the first is the original, the second the translation.
pub fn extract_nth_tag_text(xml: &str, tag: &str, n: usize) -> (r: Option<String>)
    ensures
        match nth_tag_spec(xml@, open_tag(tag@), close_tag(tag@), n as nat) {
            Some(t) => r is Some && r->0@ == t,
            None => r is None,
        },
{
    let v = chars_of(xml);
    let mut open: Vec<char> = Vec::new();
    open.push('<');
    push_str_vec(&mut open, tag);
    open.push('>');
    let mut close: Vec<char> = Vec::new();
    close.push('<');
    close.push('/');
    push_str_vec(&mut close, tag);
    close.push('>');
    assert(open@ =~= open_tag(tag@));
    assert(close@ =~= close_tag(tag@));
    let mut pos: usize = 0;
    let mut i: usize = 0;
    assert(v@.skip(0) == v@);
    while i <= n
        invariant
            pos <= v.len(),
            i <= n,
            open@ == open_tag(tag@),
            close@ == close_tag(tag@),
            nth_tag_spec(xml@, open@, close@, n as nat) == nth_tag_spec(
                v@.skip(pos as int),
                open@,
                close@,
                (n - i) as nat,
            ),
            v@ == xml@,
        decreases n + 1 - i,
    {
        let ghost rest = v@.skip(pos as int);
        let o = match find_in(&v, &open, pos) {
            None => {
                return None;
            },
            Some(o) => o,
        };
        let start = pos + o + open.len();
        assert(v@.skip(start as int) == rest.skip(o + open@.len()));
        let e = match find_in(&v, &close, start) {
            None => {
                return None;
            },
            Some(e) => e,
        };
        let end = start + e;
        if i == n {
            let raw = slice_vec(&v, start, end);
            assert(raw@ == rest.subrange(o + open@.len(), o + open@.len() + e));
            let t = trim_vec(&raw);
            return Some(string_of(&t));
        }
        assert(v@.skip(end + close.len()) == rest.skip(o + open@.len() + e + close@.len()));
        pos = end + close.len();
        i = i + 1;
    }
    None
}

/// The content of the first `<tag>`.
pub fn extract_tag_text(xml: &str, tag: &str) -> (r: Option<String>)
    ensures
        match nth_tag_spec(xml@, open_tag(tag@), close_tag(tag@), 0) {
            Some(t) => r is Some && r->0@ == t,
            None => r is None,
        },
{
    extract_nth_tag_text(xml, tag, 0)
}

pub open spec fn cover_url_spec(pmid: Seq<char>) -> Seq<char> {
    "https://y.qq.com/music/photo_new/T002R500x500M000"@ + pmid + ".jpg"@
}

/// `album.pmid` to the cover URL.
pub fn cover_url_from_pmid(pmid: &str) -> (r: String)
    ensures
        r@ == cover_url_spec(pmid@),
{
    let mut v: Vec<char> = Vec::new();
    push_str_vec(&mut v, "https://y.qq.com/music/photo_new/T002R500x500M000");
    push_str_vec(&mut v, pmid);
    push_str_vec(&mut v, ".jpg");
    string_of(&v)
}

/// Number of leading ASCII digits.
pub open spec fn lead_digits(s: Seq<char>) -> nat
    decreases s.len(),
{
    if s.len() > 0 && is_ascii_digit(s[0]) {
        1 + lead_digits(s.drop_first())
    } else {
        0
    }
}

pub open spec fn digit_value(c: char) -> nat {
    ((c as u32) - ('0' as u32)) as nat
}

/// `time_public` (`2004-03-01`) to its year: exactly four leading digits.
pub open spec fn year_from_date_spec(s: Seq<char>) -> Option<u32> {
    if lead_digits(s) == 4 {
        Some(
            (digit_value(s[0]) * 1000 + digit_value(s[1]) * 100 + digit_value(s[2]) * 10
                + digit_value(s[3])) as u32,
        )
    } else {
        None
    }
}

proof fn lemma_lead_digits(s: Seq<char>)
    ensures
        lead_digits(s) <= s.len(),
        forall|k: int| 0 <= k < lead_digits(s) ==> is_ascii_digit(#[trigger] s[k]),
        lead_digits(s) < s.len() ==> !is_ascii_digit(s[lead_digits(s) as int]),
    decreases s.len(),
{
    if s.len() > 0 && is_ascii_digit(s[0]) {
        lemma_lead_digits(s.drop_first());
        assert forall|k: int| 0 <= k < lead_digits(s) implies is_ascii_digit(#[trigger] s[k]) by {
            if k > 0 {
                assert(s[k] == s.drop_first()[k - 1]);
            }
        }
        if lead_digits(s) < s.len() {
            assert(s[lead_digits(s) as int] == s.drop_first()[lead_digits(s) - 1]);
        }
    }
}

/// The year of a `YYYY-MM-DD` date.
pub fn year_from_date(s: &str) -> (r: Option<u32>)
    ensures
        r == year_from_date_spec(s@),
{
    let v = chars_of(s);
    proof {
        lemma_lead_digits(v@);
    }
    let mut k: usize = 0;
    assert(v@.skip(0) == v@);
    while k < v.len() && '0' <= v[k] && v[k] <= '9'
        invariant
            k <= v.len(),
            lead_digits(v@) == k + lead_digits(v@.skip(k as int)),
        decreases v.len() - k,
    {
        assert(v@.skip(k as int).drop_first() == v@.skip(k + 1));
        assert(v@.skip(k as int)[0] == v@[k as int]);
        k = k + 1;
    }
    if k < v.len() {
        assert(v@.skip(k as int)[0] == v@[k as int]);
    }
    if k != 4 {
        return None;
    }
    let d0 = (v[0] as u32 - '0' as u32);
    let d1 = (v[1] as u32 - '0' as u32);
    let d2 = (v[2] as u32 - '0' as u32);
    let d3 = (v[3] as u32 - '0' as u32);
    Some(d0 * 1000 + d1 * 100 + d2 * 10 + d3)
}

/// The lyrics of QQ's download response: `<!-- -->` comments removed, the
/// first `<content>` is the Base64 original, the second the translation.
pub open spec fn lyric_xml_texts(xml: Seq<char>) -> (Seq<char>, Seq<char>) {
    let cleaned = strip_comments_spec(xml);
    let open = open_tag("content"@);
    let close = close_tag("content"@);
    let decode = |t: Option<Seq<char>>|
        match t {
            Some(x) => match base64_text_spec(x) {
                Ok(d) => d,
                Err(_) => Seq::empty(),
            },
            None => Seq::empty(),
        };
    (
        payload_spec(decode(nth_tag_spec(cleaned, open, close, 0))),
        payload_spec(decode(nth_tag_spec(cleaned, open, close, 1))),
    )
}

fn decode_or_empty(t: Option<String>) -> (r: String)
    ensures
        r@ == match t {
            Some(x) => match base64_text_spec(x@) {
                Ok(d) => d,
                Err(_) => Seq::empty(),
            },
            None => Seq::<char>::empty(),
        },
{
    match t {
        Some(x) => match decode_base64(x.as_str()) {
            Ok(d) => d,
            Err(_) => String::new(),
        },
        None => String::new(),
    }
}

/// Lyrics from the XML response of the fallback lyric endpoint. Never fails:
/// missing parts give empty lyrics.
pub fn parse_lyric_xml(xml: &str, song_id: &str) -> (r: Result<Lyrics, AppError>)
    ensures
        r matches Ok(l) && built_lyrics(
            l,
            ProviderId::QQ,
            song_id@,
            lyric_xml_texts(xml@).0,
            lyric_xml_texts(xml@).1,
        ),
{
    let cleaned = strip_xml_comments(xml);
    proof {
        reveal_strlit("content");
    }
    let lyric = extract_tag_text(cleaned.as_str(), "content");
    let trans = extract_nth_tag_text(cleaned.as_str(), "content", 1);
    let raw_lyric = decode_or_empty(lyric);
    let raw_trans = decode_or_empty(trans);
    let a = normalize_lyric_payload(raw_lyric.as_str());
    let b = normalize_lyric_payload(raw_trans.as_str());
    Ok(build_lyrics(ProviderId::QQ, song_id, a.as_str(), b.as_str()))
}


/// Where the song list sits: `req_N` depends on the request, and some server
/// versions shorten `data.body.song.list` to `data.song.list`.
pub open spec fn qq_list_paths() -> Seq<Seq<Seq<char>>> {
    seq![
        seq!["req_1"@, "data"@, "body"@, "song"@, "list"@],
        seq!["req"@, "data"@, "body"@, "song"@, "list"@],
        seq!["data"@, "body"@, "song"@, "list"@],
        seq!["req_1"@, "data"@, "song"@, "list"@],
        seq!["req"@, "data"@, "song"@, "list"@],
        seq!["data"@, "song"@, "list"@],
    ]
}

/// The first non-empty array among `paths`.
pub open spec fn first_list(v: Json, paths: Seq<Seq<Seq<char>>>) -> Seq<Json>
    decreases paths.len(),
{
    if paths.len() == 0 {
        Seq::empty()
    } else if arr_at_spec(v, paths[0]).len() > 0 {
        arr_at_spec(v, paths[0])
    } else {
        first_list(v, paths.drop_first())
    }
}

fn song_list(json: &Json) -> (r: Vec<&Json>)
    ensures
        derefs(r@) == first_list(*json, qq_list_paths()),
{
    let ghost ps = qq_list_paths();
    let paths: [&[&str]; 6] = [
        &["req_1", "data", "body", "song", "list"],
        &["req", "data", "body", "song", "list"],
        &["data", "body", "song", "list"],
        &["req_1", "data", "song", "list"],
        &["req", "data", "song", "list"],
        &["data", "song", "list"],
    ];
    assert(keys_view(paths@[0]@) =~= ps[0]);
    assert(keys_view(paths@[1]@) =~= ps[1]);
    assert(keys_view(paths@[2]@) =~= ps[2]);
    assert(keys_view(paths@[3]@) =~= ps[3]);
    assert(keys_view(paths@[4]@) =~= ps[4]);
    assert(keys_view(paths@[5]@) =~= ps[5]);
    let mut k: usize = 0;
    assert(ps.subrange(0, 6) =~= ps);
    while k < 6
        invariant
            k <= 6,
            ps == qq_list_paths(),
            forall|j: int| 0 <= j < 6 ==> keys_view(#[trigger] paths@[j]@) == ps[j],
            first_list(*json, ps) == first_list(*json, ps.subrange(k as int, 6)),
        decreases 6 - k,
    {
        let a = arr_at(json, paths[k]);
        assert(derefs(a@).len() == a@.len());
        assert(ps.subrange(k as int, 6)[0] == ps[k as int]);
        if a.len() > 0 {
            return a;
        }
        assert(ps.subrange(k as int, 6).drop_first() =~= ps.subrange(k + 1, 6));
        k = k + 1;
    }
    let empty: Vec<&Json> = Vec::new();
    assert(derefs(empty@) =~= Seq::<Json>::empty());
    empty
}


pub open spec fn qq_mid(s: Json) -> Option<Seq<char>> {
    or_opt(str_at_spec(s, seq!["mid"@]), str_at_spec(s, seq!["songmid"@]))
}

pub open spec fn qq_title(s: Json) -> Option<Seq<char>> {
    or_opt(str_at_spec(s, seq!["name"@]), str_at_spec(s, seq!["title"@]))
}

/// A song entry yields a candidate when it has a `mid` and a name.
pub open spec fn qq_usable(s: Json) -> bool {
    qq_mid(s) is Some && qq_title(s) is Some
}

pub open spec fn qq_artists(s: Json) -> Seq<Seq<char>> {
    let a = strs_spec(arr_at_spec(s, seq!["singer"@]), "name"@);
    if a.len() > 0 {
        a
    } else {
        strs_spec(arr_at_spec(s, seq!["singers"@]), "name"@)
    }
}

/// The candidate a song entry yields. `mid` is what the lyric endpoint needs;
/// the numeric id serves the fallback endpoint. The cover is built from the
/// album's `pmid`; QQ gives no track number.
pub open spec fn qq_candidate(c: Candidate, s: Json) -> bool {
    &&& c.provider == ProviderId::QQ
    &&& qq_mid(s) matches Some(mid) && c.access_key matches Some(k) && k@ == mid
        && c.song_id@ == or_empty(or_opt(str_at_spec(s, seq!["id"@]), Some(mid)))
    &&& qq_title(s) matches Some(t) && c.title@ == display_title_spec(t)
    &&& c.artists.deep_view() == clean_artists_spec(qq_artists(s))
    &&& opt_seq(c.album) == display_opt(str_at_spec(s, seq!["album"@, "name"@]))
    &&& c.year == match str_at_spec(s, seq!["time_public"@]) {
        Some(d) => year_from_date_spec(d),
        None => None,
    }
    &&& c.track_no is None
    &&& c.duration_ms == duration_ms_spec(
        or_opt(u64_at_spec(s, seq!["interval"@]), u64_at_spec(s, seq!["duration"@])),
    )
    &&& opt_seq(c.cover_url) == match or_opt(
        str_at_spec(s, seq!["album"@, "pmid"@]),
        str_at_spec(s, seq!["album"@, "mid"@]),
    ) {
        Some(m) => Some(cover_url_spec(m)),
        None => None,
    }
}

fn candidate_of(s: &Json) -> (r: Option<Candidate>)
    ensures
        match r {
            Some(c) => qq_usable(*s) && qq_candidate(c, *s),
            None => !qq_usable(*s),
        },
{
    let mid = match str1(s, "mid") {
        Some(m) => m,
        None => match str1(s, "songmid") {
            Some(m) => m,
            None => {
                return None;
            },
        },
    };
    let song_id = match str1(s, "id") {
        Some(i) => i,
        None => mid.clone(),
    };
    let title = match str1(s, "name") {
        Some(t) => t,
        None => match str1(s, "title") {
            Some(t) => t,
            None => {
                return None;
            },
        },
    };
    let a = strs_from(arr1(s, "singer").as_slice(), "name");
    let artists_raw = if a.len() > 0 {
        a
    } else {
        strs_from(arr1(s, "singers").as_slice(), "name")
    };
    let album_mid = match str2(s, "album", "pmid") {
        Some(m) => Some(m),
        None => str2(s, "album", "mid"),
    };
    let cover_url = match album_mid {
        Some(m) => Some(cover_url_from_pmid(m.as_str())),
        None => None,
    };
    let year = match str1(s, "time_public") {
        Some(d) => year_from_date(d.as_str()),
        None => None,
    };
    let raw_duration = match u64_1(s, "interval") {
        Some(n) => Some(n),
        None => u64_1(s, "duration"),
    };
    Some(
        Candidate {
            provider: ProviderId::QQ,
            song_id,
            access_key: Some(mid),
            title: clean_display_title(title.as_str()),
            artists: clean_all(&artists_raw),
            album: display_opt_of(str2(s, "album", "name")),
            year,
            track_no: None,
            duration_ms: duration_ms_of(raw_duration),
            cover_url,
        },
    )
}

/// Parses a search response: one candidate per song entry with a `mid` and a
/// name, in order.
pub fn parse_search(json: &Json) -> (r: Vec<Candidate>)
    ensures
        r@.len() == keep(first_list(*json, qq_list_paths()), |s: Json| qq_usable(s)).len(),
        forall|i: int|
            0 <= i < r@.len() ==> qq_candidate(
                #[trigger] r@[i],
                keep(first_list(*json, qq_list_paths()), |s: Json| qq_usable(s))[i],
            ),
{
    let list = song_list(json);
    let ghost all = derefs(list@);
    let ghost ok = |s: Json| qq_usable(s);
    let mut out: Vec<Candidate> = Vec::new();
    let mut i: usize = 0;
    while i < list.len()
        invariant
            i <= list@.len(),
            all == derefs(list@),
            all == first_list(*json, qq_list_paths()),
            ok == (|s: Json| qq_usable(s)),
            out@.len() == keep(all.take(i as int), ok).len(),
            forall|k: int|
                0 <= k < out@.len() ==> qq_candidate(#[trigger] out@[k], keep(all.take(i as int), ok)[k]),
        decreases list.len() - i,
    {
        assert(all.take(i + 1).drop_last() == all.take(i as int));
        assert(all.take(i + 1).last() == *list@[i as int]);
        match candidate_of(list[i]) {
            Some(c) => {
                out.push(c);
            },
            None => {},
        }
        i = i + 1;
    }
    assert(all.take(list@.len() as int) == all);
    out
}

/// Lyrics from a lyric response. Both endpoints answer JSON with `lyric` and
/// `trans`; the texts are HTML-escaped LRC that needs unescaping twice.
/// Never fails: missing fields give empty lyrics.
pub fn parse_lyric(json: &Json, song_id: &str) -> (r: Result<Lyrics, AppError>)
    ensures
        r matches Ok(l) && built_lyrics(
            l,
            ProviderId::QQ,
            song_id@,
            payload_spec(or_empty(str_at_spec(*json, seq!["lyric"@]))),
            payload_spec(
                or_empty(
                    or_opt(str_at_spec(*json, seq!["trans"@]), str_at_spec(*json, seq!["tlyric"@])),
                ),
            ),
        ),
{
    let raw_lyric = match str1(json, "lyric") {
        Some(t) => t,
        None => String::new(),
    };
    let raw_trans = match str1(json, "trans") {
        Some(t) => t,
        None => match str1(json, "tlyric") {
            Some(t) => t,
            None => String::new(),
        },
    };
    let a = normalize_lyric_payload(raw_lyric.as_str());
    let b = normalize_lyric_payload(raw_trans.as_str());
    Ok(build_lyrics(ProviderId::QQ, song_id, a.as_str(), b.as_str()))
}

/// The original text a JSON lyric answer carries, ready to parse.
pub open spec fn json_lyric_text(v: Json) -> Seq<char> {
    payload_spec(or_empty(str_at_spec(v, seq!["lyric"@])))
}

/// The translation text a JSON lyric answer carries, ready to parse.
pub open spec fn json_trans_text(v: Json) -> Seq<char> {
    payload_spec(
        or_empty(or_opt(str_at_spec(v, seq!["trans"@]), str_at_spec(v, seq!["tlyric"@]))),
    )
}

/// Whether an original text gives lines worth writing: not instrumental, and
/// with a non-blank line.
pub open spec fn writable_text(raw: Seq<char>) -> bool {
    !looks_instrumental_spec(raw) && has_text_line(parse_spec(raw).0)
}

/// What the primary (JSON) lyric answer yields: its lyrics when the answer's
/// `code` is 0 and they have lines to write. Anything else sends the request
/// on to the fallback endpoint.
pub fn primary_lyrics(json: &Json, song_id: &str) -> (r: Option<Lyrics>)
    ensures
        match r {
            Some(l) => code_of(*json) == Some(0i64) && writable_text(json_lyric_text(*json))
                && built_lyrics(
                l,
                ProviderId::QQ,
                song_id@,
                json_lyric_text(*json),
                json_trans_text(*json),
            ),
            None => code_of(*json) != Some(0i64) || !writable_text(json_lyric_text(*json)),
        },
{
    match response_code(json) {
        Some(0) => {},
        _ => {
            return None;
        },
    }
    match parse_lyric(json, song_id) {
        Ok(l) => {
            if l.has_content() {
                Some(l)
            } else {
                None
            }
        },
        Err(_) => None,
    }
}

/// What the fallback (XML) lyric answer yields: its lyrics when they have
/// lines to write or the song is instrumental; otherwise the source has no
/// lyrics for the song.
pub fn fallback_lyrics(xml: &str, song_id: &str) -> (r: Result<Lyrics, AppError>)
    ensures
        match r {
            Ok(l) => (looks_instrumental_spec(lyric_xml_texts(xml@).0) || writable_text(
                lyric_xml_texts(xml@).0,
            )) && built_lyrics(
                l,
                ProviderId::QQ,
                song_id@,
                lyric_xml_texts(xml@).0,
                lyric_xml_texts(xml@).1,
            ),
            Err(e) => !looks_instrumental_spec(lyric_xml_texts(xml@).0) && !writable_text(
                lyric_xml_texts(xml@).0,
            ) && (e matches AppError::ProviderUnavailable(m) && m@ == "QQ 音乐该歌曲暂时取不到歌词"@),
        },
{
    let l = match parse_lyric_xml(xml, song_id) {
        Ok(l) => l,
        Err(e) => {
            return Err(e);
        },
    };
    if l.has_content() || l.is_instrumental {
        Ok(l)
    } else {
        Err(AppError::ProviderUnavailable("QQ 音乐该歌曲暂时取不到歌词".to_owned()))
    }
}

} // verus!
