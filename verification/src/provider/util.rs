//! Helpers shared by the source adapters.

use vstd::prelude::*;
use vstd::utf8::*;
use crate::domain::candidate::{opt_seq, ProviderId};
use crate::provider::json::{deref_opt, derefs, json_get, keys_view, member, member_of, Json};
use crate::lrc::parse::{parse_i64, parse_i64_spec, parse_u64, parse_u64_spec};
use crate::domain::lyrics::{
    has_text_line, looks_instrumental, looks_instrumental_spec, LineView, LyricLine, Lyrics,
};
use crate::domain::normalize::{
    clean_artist, clean_artist_spec, clean_display_title, decode_html, display_title_spec,
    html_decoded,
};
use crate::infra::error::AppError;
use crate::lrc::merge::{merge_spec, merge_translation};
use crate::lrc::normalize::{lossy_utf8, normalize_newlines, normalized_newlines, utf8_lossy};
use crate::lrc::parse::{parse, parse_spec};
use crate::lrc::render::{render_lrc, render_spec, RenderOptions};
use crate::text::{
    append_vec, chars_of, contains_seq, contains_vec, find_from, is_ascii_digit, is_whitespace,
    is_ws, occurs_at, push_str_vec, slice_vec, string_of, trim, trim_vec,
};

verus! {

/// Durations below ten thousand are seconds (no real song is shorter than ten
/// seconds); larger values are already milliseconds.
pub open spec fn to_ms_spec(raw: u64) -> u64 {
    if raw == 0 {
        0
    } else if raw < 10_000 {
        (raw * 1000) as u64
    } else {
        raw
    }
}

/// A source's duration (seconds or milliseconds) in milliseconds.
pub fn to_ms(raw: u64) -> (r: u64)
    ensures
        r == to_ms_spec(raw),
{
    if raw == 0 {
        return 0;
    }
    if raw < 10_000 {
        raw * 1000
    } else {
        raw
    }
}

/// The two Base64 alphabets tried, padded first.
#[derive(Clone, Copy, Debug, PartialEq, Eq, Structural)]
pub enum Base64Engine {
    Standard,
    StandardNoPad,
}

/// What the `base64` crate's engine makes of the input: the bytes, or the
/// error's description.
pub uninterp spec fn base64_outcome(engine: Base64Engine, input: Seq<u8>) -> Result<
    Seq<u8>,
    Seq<char>,
>;

/// Calls `base64::Engine::decode` with the chosen engine; the contract names
/// its outcome (bytes, or the error's `Display` text).
#[verifier::external_body]
fn base64_decode(engine: Base64Engine, input: &[u8]) -> (r: Result<Vec<u8>, String>)
    ensures
        match (r, base64_outcome(engine, input@)) {
            (Ok(v), Ok(w)) => v@ == w,
            (Err(e), Err(m)) => e@ == m,
            _ => false,
        },
{
    let result = match engine {
        Base64Engine::Standard => base64::Engine::decode(
            &base64::engine::general_purpose::STANDARD,
            input,
        ),
        Base64Engine::StandardNoPad => base64::Engine::decode(
            &base64::engine::general_purpose::STANDARD_NO_PAD,
            input,
        ),
    };
    result.map_err(|e| e.to_string())
}

/// The text without white space.
pub open spec fn remove_ws(s: Seq<char>) -> Seq<char>
    decreases s.len(),
{
    if s.len() == 0 {
        s
    } else if is_ws(s.last()) {
        remove_ws(s.drop_last())
    } else {
        remove_ws(s.drop_last()).push(s.last())
    }
}

/// Decoding Base64 text (white space ignored, padded alphabet first): the
/// text, or the decoder's complaint.
pub open spec fn base64_text_spec(text: Seq<char>) -> Result<Seq<char>, Seq<char>> {
    let input = encode_utf8(remove_ws(text));
    match base64_outcome(Base64Engine::Standard, input) {
        Ok(b) => Ok(utf8_lossy(b)),
        Err(_) => match base64_outcome(Base64Engine::StandardNoPad, input) {
            Ok(b) => Ok(utf8_lossy(b)),
            Err(m) => Err("Base64 解码失败："@ + m),
        },
    }
}

/// Decodes Base64 into UTF-8 text (invalid sequences replaced).
pub fn decode_base64(text: &str) -> (r: Result<String, AppError>)
    ensures
        match (r, base64_text_spec(text@)) {
            (Ok(s), Ok(t)) => s@ == t,
            (Err(AppError::BadResponse(m)), Err(t)) => m@ == t,
            _ => false,
        },
{
    let v = chars_of(text);
    let mut cleaned: Vec<char> = Vec::new();
    let mut i: usize = 0;
    while i < v.len()
        invariant
            i <= v.len(),
            cleaned@ == remove_ws(v@.take(i as int)),
        decreases v.len() - i,
    {
        assert(v@.take(i + 1).drop_last() == v@.take(i as int));
        if !is_whitespace(v[i]) {
            cleaned.push(v[i]);
        }
        i = i + 1;
    }
    assert(v@.take(v.len() as int) == v@);
    let cs = string_of(&cleaned);
    let bytes = cs.as_str().as_bytes();
    match base64_decode(Base64Engine::Standard, bytes) {
        Ok(b) => Ok(lossy_utf8(b.as_slice())),
        Err(_) => match base64_decode(Base64Engine::StandardNoPad, bytes) {
            Ok(b) => Ok(lossy_utf8(b.as_slice())),
            Err(e) => {
                let mut m: Vec<char> = Vec::new();
                push_str_vec(&mut m, "Base64 解码失败：");
                push_str_vec(&mut m, e.as_str());
                Err(AppError::BadResponse(string_of(&m)))
            },
        },
    }
}

/// HTML entities decoded twice (QQ escapes its lyric fields twice).
pub fn unescape_twice(s: &str) -> (r: String)
    ensures
        r@ == html_decoded(html_decoded(s@)),
{
    let once = decode_html(s);
    decode_html(once.as_str())
}

/// What `serde_json::from_str::<String>` makes of a JSON string literal.
pub uninterp spec fn json_string_value(s: Seq<char>) -> Option<Seq<char>>;

/// Calls `serde_json::from_str::<String>`; only its name is claimed.
#[verifier::external_body]
fn json_string(s: &str) -> (r: Option<String>)
    ensures
        match (r, json_string_value(s@)) {
            (Some(x), Some(y)) => x@ == y,
            (None, None) => true,
            _ => false,
        },
{
    serde_json::from_str::<String>(s).ok()
}

/// Double quotes escaped with a backslash.
pub open spec fn escape_quotes(s: Seq<char>) -> Seq<char>
    decreases s.len(),
{
    if s.len() == 0 {
        s
    } else if s.last() == '"' {
        escape_quotes(s.drop_last()) + seq!['\\', '"']
    } else {
        escape_quotes(s.drop_last()).push(s.last())
    }
}

/// Unwrapping a lyric payload: entities twice, then JSON string escapes when
/// they look present and the result looks like lyrics, then Base64 when the
/// text is not LRC yet, then unified line ends.
pub open spec fn payload_spec(raw: Seq<char>) -> Seq<char> {
    let t0 = trim(raw);
    if t0.len() == 0 {
        t0
    } else {
        let t1 = html_decoded(html_decoded(t0));
        let t2 = json_step(t1);
        let t3 = if !looks_like_lrc_spec(t2) {
            match base64_text_spec(t2) {
                Ok(d) => if looks_like_lrc_spec(d) {
                    d
                } else {
                    t2
                },
                Err(_) => t2,
            }
        } else {
            t2
        };
        normalized_newlines(t3)
    }
}

pub open spec fn json_step(t1: Seq<char>) -> Seq<char> {
    if contains_seq(t1, seq!['\\', 'n']) || contains_seq(t1, seq!['\\', 'u']) {
        match json_string_value(seq!['"'] + escape_quotes(t1) + seq!['"']) {
            Some(d) => if d.contains('\n') || d.contains('[') {
                d
            } else {
                t1
            },
            None => t1,
        }
    } else {
        t1
    }
}

/// Decodes JSON string escapes when the text shows some and the result looks like lyrics.
fn json_unwrap(text: String) -> (r: String)
    ensures
        r@ == json_step(text@),
{
    let tv = chars_of(text.as_str());
    let bn = vec!['\\', 'n'];
    let bu = vec!['\\', 'u'];
    assert(bn@ == seq!['\\', 'n']);
    assert(bu@ == seq!['\\', 'u']);
    if contains_vec(&tv, &bn) || contains_vec(&tv, &bu) {
        let mut q: Vec<char> = Vec::new();
        q.push('"');
        let mut i: usize = 0;
        assert(q@ =~= seq!['"'] + escape_quotes(tv@.take(0)));
        while i < tv.len()
            invariant
                i <= tv.len(),
                q@ == seq!['"'] + escape_quotes(tv@.take(i as int)),
            decreases tv.len() - i,
        {
            assert(tv@.take(i + 1).drop_last() == tv@.take(i as int));
            if tv[i] == '"' {
                q.push('\\');
                q.push('"');
            } else {
                q.push(tv[i]);
            }
            assert(q@ =~= seq!['"'] + escape_quotes(tv@.take(i + 1)));
            i = i + 1;
        }
        assert(tv@.take(tv.len() as int) == tv@);
        q.push('"');
        assert(q@ =~= seq!['"'] + escape_quotes(text@) + seq!['"']);
        let qs = string_of(&q);
        match json_string(qs.as_str()) {
            Some(decoded) => {
                let dv = chars_of(decoded.as_str());
                if crate::text::contains_char(&dv, '\n') || crate::text::contains_char(&dv, '[') {
                    return decoded;
                }
                text
            },
            None => text,
        }
    } else {
        text
    }
}

/// Peels the wrappings sources put around lyric text (entities, JSON escapes,
/// Base64) until it looks like LRC.
pub fn normalize_lyric_payload(raw: &str) -> (r: String)
    ensures
        r@ == payload_spec(raw@),
{
    let rv = chars_of(raw);
    let t0 = trim_vec(&rv);
    if t0.len() == 0 {
        return string_of(&t0);
    }
    let t0s = string_of(&t0);
    let mut text = unescape_twice(t0s.as_str());
    let ghost t1 = text@;
    assert(t1 == html_decoded(html_decoded(trim(raw@))));
    text = json_unwrap(text);
    let ghost t2 = text@;
    assert(t2 == json_step(t1));
    if !looks_like_lrc(text.as_str()) {
        match decode_base64(text.as_str()) {
            Ok(decoded) => {
                if looks_like_lrc(decoded.as_str()) {
                    text = decoded;
                }
            },
            Err(_) => {},
        }
    }
    assert(text@ == if !looks_like_lrc_spec(t2) {
        match base64_text_spec(t2) {
            Ok(d) => if looks_like_lrc_spec(d) {
                d
            } else {
                t2
            },
            Err(_) => t2,
        }
    } else {
        t2
    });
    normalize_newlines(text.as_str())
}

/// Whether the bracket opened at `i` holds `digits` then `:` or `.` then
/// `digits` (the second part ending at the next separator or at `]`).
pub open spec fn bracket_is_time(h: Seq<char>, i: int) -> bool {
    let tail = h.skip(i);
    match find_char_spec(tail, ']') {
        None => false,
        Some(close) => {
            let inner = tail.subrange(1, close);
            match first_sep(inner) {
                None => false,
                Some(s1) => {
                    let a = inner.take(s1);
                    let rest = inner.skip(s1 + 1);
                    let b = match first_sep(rest) {
                        Some(s2) => rest.take(s2),
                        None => rest,
                    };
                    a.len() > 0 && b.len() > 0 && all_digits(a) && all_digits(b)
                },
            }
        },
    }
}

pub open spec fn all_digits(s: Seq<char>) -> bool {
    forall|k: int| 0 <= k < s.len() ==> is_ascii_digit(#[trigger] s[k])
}

/// First index of `c` in `s`.
pub open spec fn find_char_spec(s: Seq<char>, c: char) -> Option<int>
    decreases s.len(),
{
    if s.len() == 0 {
        None
    } else if s[0] == c {
        Some(0)
    } else {
        match find_char_spec(s.drop_first(), c) {
            Some(k) => Some(k + 1),
            None => None,
        }
    }
}

/// First index of `:` or `.` in `s`.
pub open spec fn first_sep(s: Seq<char>) -> Option<int>
    decreases s.len(),
{
    if s.len() == 0 {
        None
    } else if s[0] == ':' || s[0] == '.' {
        Some(0)
    } else {
        match first_sep(s.drop_first()) {
            Some(k) => Some(k + 1),
            None => None,
        }
    }
}

/// Some `[` within the first 2000 characters opens a `[mm:ss` time tag.
pub open spec fn looks_like_lrc_spec(s: Seq<char>) -> bool {
    has_time_tag(head_2000(s))
}

/// The first 2000 characters.
pub open spec fn head_2000(s: Seq<char>) -> Seq<char> {
    if s.len() <= 2000 {
        s
    } else {
        s.take(2000)
    }
}

pub open spec fn has_time_tag(h: Seq<char>) -> bool {
    exists|i: int| 0 <= i < h.len() && h[i] == '[' && #[trigger] bracket_is_time(h, i)
}

proof fn lemma_find_char(s: Seq<char>, c: char)
    ensures
        match find_char_spec(s, c) {
            Some(k) => 0 <= k < s.len() && s[k] == c && forall|j: int| 0 <= j < k ==> s[j] != c,
            None => forall|j: int| 0 <= j < s.len() ==> s[j] != c,
        },
    decreases s.len(),
{
    if s.len() > 0 && s[0] != c {
        lemma_find_char(s.drop_first(), c);
        match find_char_spec(s.drop_first(), c) {
            Some(k) => {
                assert forall|j: int| 0 <= j < k + 1 implies s[j] != c by {
                    if j > 0 {
                        assert(s[j] == s.drop_first()[j - 1]);
                    }
                }
            },
            None => {
                assert forall|j: int| 0 <= j < s.len() implies s[j] != c by {
                    if j > 0 {
                        assert(s[j] == s.drop_first()[j - 1]);
                    }
                }
            },
        }
    }
}

proof fn lemma_first_sep(s: Seq<char>)
    ensures
        match first_sep(s) {
            Some(k) => 0 <= k < s.len() && (s[k] == ':' || s[k] == '.') && forall|j: int|
                0 <= j < k ==> s[j] != ':' && s[j] != '.',
            None => forall|j: int| 0 <= j < s.len() ==> s[j] != ':' && s[j] != '.',
        },
    decreases s.len(),
{
    if s.len() > 0 && !(s[0] == ':' || s[0] == '.') {
        lemma_first_sep(s.drop_first());
        match first_sep(s.drop_first()) {
            Some(k) => {
                assert forall|j: int| 0 <= j < k + 1 implies s[j] != ':' && s[j] != '.' by {
                    if j > 0 {
                        assert(s[j] == s.drop_first()[j - 1]);
                    }
                }
            },
            None => {
                assert forall|j: int| 0 <= j < s.len() implies s[j] != ':' && s[j] != '.' by {
                    if j > 0 {
                        assert(s[j] == s.drop_first()[j - 1]);
                    }
                }
            },
        }
    }
}

/// Index of the first `c` in `v[from..to]`, as an offset from `from`.
fn find_char_in(v: &Vec<char>, from: usize, to: usize, c: char) -> (r: Option<usize>)
    requires
        from <= to <= v.len(),
    ensures
        match find_char_spec(v@.subrange(from as int, to as int), c) {
            Some(k) => r == Some(k as usize),
            None => r is None,
        },
{
    let mut k = from;
    while k < to
        invariant
            from <= k <= to <= v.len(),
            forall|j: int| from <= j < k ==> v@[j] != c,
        decreases to - k,
    {
        if v[k] == c {
            proof {
                let s = v@.subrange(from as int, to as int);
                lemma_find_char(s, c);
                match find_char_spec(s, c) {
                    Some(q) => {
                        assert(s[k - from] == c);
                        if q < k - from {
                            assert(s[q] == v@[from + q]);
                        }
                    },
                    None => {
                        assert(s[k - from] == c);
                    },
                }
            }
            return Some(k - from);
        }
        k = k + 1;
    }
    proof {
        let s = v@.subrange(from as int, to as int);
        lemma_find_char(s, c);
        match find_char_spec(s, c) {
            Some(q) => {
                assert(s[q] == v@[from + q]);
            },
            None => {},
        }
    }
    None
}

/// Index of the first `:` or `.` in `v[from..to]`, as an offset from `from`.
fn first_sep_in(v: &Vec<char>, from: usize, to: usize) -> (r: Option<usize>)
    requires
        from <= to <= v.len(),
    ensures
        match first_sep(v@.subrange(from as int, to as int)) {
            Some(k) => r == Some(k as usize),
            None => r is None,
        },
{
    let mut k = from;
    while k < to
        invariant
            from <= k <= to <= v.len(),
            forall|j: int| from <= j < k ==> v@[j] != ':' && v@[j] != '.',
        decreases to - k,
    {
        if v[k] == ':' || v[k] == '.' {
            proof {
                let s = v@.subrange(from as int, to as int);
                lemma_first_sep(s);
                match first_sep(s) {
                    Some(q) => {
                        assert(s[k - from] == v@[k as int]);
                        if q < k - from {
                            assert(s[q] == v@[from + q]);
                        }
                    },
                    None => {
                        assert(s[k - from] == v@[k as int]);
                    },
                }
            }
            return Some(k - from);
        }
        k = k + 1;
    }
    proof {
        let s = v@.subrange(from as int, to as int);
        lemma_first_sep(s);
        match first_sep(s) {
            Some(q) => {
                assert(s[q] == v@[from + q]);
            },
            None => {},
        }
    }
    None
}

fn digits_in(v: &Vec<char>, from: usize, to: usize) -> (r: bool)
    requires
        from <= to <= v.len(),
    ensures
        r == all_digits(v@.subrange(from as int, to as int)),
{
    let mut k = from;
    while k < to
        invariant
            from <= k <= to <= v.len(),
            forall|j: int| from <= j < k ==> is_ascii_digit(#[trigger] v@[j]),
        decreases to - k,
    {
        if !('0' <= v[k] && v[k] <= '9') {
            assert(v@.subrange(from as int, to as int)[k - from] == v@[k as int]);
            return false;
        }
        k = k + 1;
    }
    assert forall|j: int|
        0 <= j < to - from implies is_ascii_digit(
        #[trigger] v@.subrange(from as int, to as int)[j],
    ) by {
        assert(v@.subrange(from as int, to as int)[j] == v@[from + j]);
    }
    true
}

fn bracket_time_at(h: &Vec<char>, i: usize) -> (r: bool)
    requires
        i < h.len(),
        h@[i as int] == '[',
    ensures
        r == bracket_is_time(h@, i as int),
{
    let ghost tail = h@.skip(i as int);
    assert(h@.subrange(i as int, h.len() as int) == tail);
    match find_char_in(h, i, h.len(), ']') {
        None => false,
        Some(close) => {
            proof {
                lemma_find_char(tail, ']');
            }
            if close < 1 {
                assert(tail[0] == h@[i as int]);
                return false;
            }
            let ghost inner = tail.subrange(1, close as int);
            let from = i + 1;
            let to = i + close;
            assert(h@.subrange(from as int, to as int) == inner);
            match first_sep_in(h, from, to) {
                None => false,
                Some(s1) => {
                    proof {
                        lemma_first_sep(inner);
                    }
                    let a_ok = s1 > 0 && digits_in(h, from, from + s1);
                    assert(h@.subrange(from as int, from + s1) == inner.take(s1 as int));
                    let rs = from + s1 + 1;
                    let ghost rest = inner.skip(s1 + 1);
                    assert(h@.subrange(rs as int, to as int) == rest);
                    let b_end = match first_sep_in(h, rs, to) {
                        Some(s2) => {
                            proof {
                                lemma_first_sep(rest);
                            }
                            rs + s2
                        },
                        None => to,
                    };
                    assert(h@.subrange(rs as int, b_end as int) == match first_sep(rest) {
                        Some(s2) => rest.take(s2),
                        None => rest,
                    });
                    a_ok && b_end > rs && digits_in(h, rs, b_end)
                },
            }
        },
    }
}

/// A rough check that a text is LRC: some `[mm:ss` time tag near its start.
pub fn looks_like_lrc(s: &str) -> (r: bool)
    ensures
        r == looks_like_lrc_spec(s@),
{
    let v = chars_of(s);
    let h = if v.len() <= 2000 {
        v
    } else {
        slice_vec(&v, 0, 2000)
    };
    assert(h@ == if s@.len() <= 2000 {
        s@
    } else {
        s@.take(2000)
    });
    let mut i: usize = 0;
    while i < h.len()
        invariant
            i <= h.len(),
            h@ == head_2000(s@),
            forall|j: int| 0 <= j < i ==> !(h@[j] == '[' && #[trigger] bracket_is_time(h@, j)),
        decreases h.len() - i,
    {
        if h[i] == '[' && bracket_time_at(&h, i) {
            assert(h@[i as int] == '[' && bracket_is_time(h@, i as int));
            assert(has_time_tag(h@));
            return true;
        }
        i = i + 1;
    }
    false
}

/// `xml` with every `<!-- ... -->` removed; an unclosed comment drops the rest.
pub open spec fn strip_comments_spec(s: Seq<char>) -> Seq<char>
    decreases s.len(),
{
    match first_occurrence(s, "<!--"@) {
        None => s,
        Some(st) => {
            let after = s.skip(st);
            match first_occurrence(after, "-->"@) {
                Some(e) => if 0 <= st && 0 <= e && st + e + 3 <= s.len() {
                    s.take(st) + strip_comments_spec(s.skip(st + e + 3))
                } else {
                    s.take(st)
                },
                None => s.take(st),
            }
        },
    }
}

/// Where `str::find` finds `p` in `s`.
#[verifier::opaque]
pub open spec fn first_occurrence(s: Seq<char>, p: Seq<char>) -> Option<int> {
    if exists|i: int| occurs_at(s, p, i) {
        Some(choose|i: int| occurs_at(s, p, i) && forall|j: int| 0 <= j < i ==> !occurs_at(s, p, j))
    } else {
        None
    }
}

proof fn lemma_occurs_skip(s: Seq<char>, p: Seq<char>, from: int, j: int)
    requires
        0 <= from <= s.len(),
        0 <= j,
    ensures
        occurs_at(s.skip(from), p, j) <==> occurs_at(s, p, from + j),
{
    if j + p.len() <= s.len() - from {
        assert(s.skip(from).subrange(j, j + p.len()) =~= s.subrange(from + j, from + j + p.len()));
    }
}

/// `str::find` from index `from` of `s`, as an offset from `from`.
pub fn find_in(s: &Vec<char>, p: &Vec<char>, from: usize) -> (r: Option<usize>)
    requires
        from <= s.len(),
    ensures
        match first_occurrence(s@.skip(from as int), p@) {
            Some(i) => r == Some(i as usize) && 0 <= i && from + i + p@.len() <= s.len(),
            None => r is None,
        },
{
    let ghost t = s@.skip(from as int);
    match find_from(s, p, from) {
        Some(i) => {
            proof {
                reveal(first_occurrence);
                lemma_occurs_skip(s@, p@, from as int, i - from);
                assert forall|j: int| 0 <= j < i - from implies !occurs_at(t, p@, j) by {
                    lemma_occurs_skip(s@, p@, from as int, j);
                }
                let c = choose|k: int|
                    occurs_at(t, p@, k) && forall|j: int| 0 <= j < k ==> !occurs_at(t, p@, j);
                assert(occurs_at(t, p@, c));
                if c > i - from {
                    assert(!occurs_at(t, p@, i - from));
                }
            }
            Some(i - from)
        },
        None => {
            proof {
                reveal(first_occurrence);
                assert forall|j: int| !occurs_at(t, p@, j) by {
                    if j >= 0 {
                        lemma_occurs_skip(s@, p@, from as int, j);
                    }
                }
            }
            None
        },
    }
}

/// Removes XML comments (QQ's download response is full of them).
pub fn strip_xml_comments(s: &str) -> (r: String)
    ensures
        r@ == strip_comments_spec(s@),
{
    let v = chars_of(s);
    let open = chars_of("<!--");
    let close = chars_of("-->");
    proof {
        reveal_strlit("-->");
    }
    let mut out: Vec<char> = Vec::new();
    let mut pos: usize = 0;
    assert(v@.skip(0) == v@);
    loop
        invariant
            pos <= v.len(),
            v@ == s@,
            open@ == "<!--"@,
            close@ == "-->"@,
            close@.len() == 3,
            out@ + strip_comments_spec(v@.skip(pos as int)) == strip_comments_spec(v@),
        decreases v.len() - pos,
    {
        let ghost rest = v@.skip(pos as int);
        match find_in(&v, &open, pos) {
            None => {
                let tail = slice_vec(&v, pos, v.len());
                assert(tail@ == rest);
                assert(first_occurrence(rest, "<!--"@) is None);
                assert(strip_comments_spec(rest) == rest);
                let ghost before = out@;
                append_vec(&mut out, &tail);
                assert(out@ == before + strip_comments_spec(rest));
                assert(out@ == strip_comments_spec(v@));
                return string_of(&out);
            },
            Some(st) => {
                let head = slice_vec(&v, pos, pos + st);
                assert(head@ == rest.take(st as int));
                append_vec(&mut out, &head);
                assert(v@.skip(pos + st) == rest.skip(st as int));
                match find_in(&v, &close, pos + st) {
                    Some(e) => {
                        let next = pos + st + e + 3;
                        assert(v@.skip(next as int) == rest.skip(st + e + 3));
                        assert(out@ + strip_comments_spec(v@.skip(next as int)) =~= strip_comments_spec(
                            v@,
                        ));
                        pos = next;
                    },
                    None => {
                        assert(first_occurrence(rest, "<!--"@) == Some(st as int));
                        assert(first_occurrence(rest.skip(st as int), "-->"@) is None);
                        assert(strip_comments_spec(rest) == rest.take(st as int));
                        assert(out@ == strip_comments_spec(v@));
                        return string_of(&out);
                    },
                }
            },
        }
    }
}

/// What `build_lyrics` records: both texts parsed, the raw texts kept, the
/// instrumental placeholder detected on the original.
pub open spec fn built_lyrics(
    l: Lyrics,
    provider: ProviderId,
    song_id: Seq<char>,
    raw_lrc: Seq<char>,
    raw_trans: Seq<char>,
) -> bool {
    &&& l.lines.deep_view() == parse_spec(raw_lrc).0
    &&& l.trans.deep_view() == parse_spec(raw_trans).0
    &&& l.roma@.len() == 0
    &&& l.verbatim is None
    &&& l.raw_lrc@ == raw_lrc
    &&& l.raw_trans@ == raw_trans
    &&& l.provider == provider
    &&& l.song_id@ == song_id
    &&& l.is_instrumental == looks_instrumental_spec(raw_lrc)
}

/// Parses raw original and translation text into lyrics.
pub fn build_lyrics(provider: ProviderId, song_id: &str, raw_lrc: &str, raw_trans: &str) -> (r:
    Lyrics)
    ensures
        built_lyrics(r, provider, song_id@, raw_lrc@, raw_trans@),
{
    let origin = parse(raw_lrc);
    let trans = parse(raw_trans);
    let instrumental = looks_instrumental(raw_lrc);
    Lyrics {
        lines: origin.lines,
        trans: trans.lines,
        roma: Vec::new(),
        verbatim: None,
        raw_lrc: raw_lrc.to_owned(),
        raw_trans: raw_trans.to_owned(),
        provider,
        song_id: song_id.to_owned(),
        is_instrumental: instrumental,
    }
}

/// Preview text: translation merged on one line, shown only when asked for and present.
pub fn render_preview(lyrics: &Lyrics, include_translation: bool) -> (r: String)
    ensures
        r@ == render_spec(
            merge_spec(lyrics.lines.deep_view(), lyrics.trans.deep_view()),
            RenderOptions {
                one_line: true,
                include_translation: include_translation && has_text_line(
                    lyrics.trans.deep_view(),
                ),
                strip_credits: false,
            },
        ),
{
    let merged = merge_translation(lyrics.lines.as_slice(), lyrics.trans.as_slice());
    let opts = RenderOptions {
        one_line: true,
        include_translation: include_translation && lyrics.has_translation(),
        strip_credits: false,
    };
    render_lrc(merged.as_slice(), &opts)
}

/// Renders lines with the default options (tests and debugging).
pub fn render_lines(lines: &[LyricLine]) -> (r: String)
    ensures
        r@ == render_spec(
            lines.deep_view(),
            RenderOptions { one_line: true, include_translation: true, strip_credits: false },
        ),
{
    let opts = RenderOptions::default();
    render_lrc(lines, &opts)
}

/// The value at a path of member names.
pub fn get<'a>(v: &'a Json, path: &[&str]) -> (r: Option<&'a Json>)
    ensures
        deref_opt(r) == json_get(*v, keys_view(path@)),
{
    let mut cur: &Json = v;
    let mut i: usize = 0;
    assert(keys_view(path@).skip(0) == keys_view(path@));
    while i < path.len()
        invariant
            i <= path@.len(),
            json_get(*v, keys_view(path@)) == json_get(*cur, keys_view(path@).skip(i as int)),
        decreases path.len() - i,
    {
        let ghost rest = keys_view(path@).skip(i as int);
        assert(rest[0] == path@[i as int]@);
        assert(rest.drop_first() == keys_view(path@).skip(i + 1));
        match member_of(cur, path[i]) {
            Some(c) => {
                cur = c;
            },
            None => {
                return None;
            },
        }
        i = i + 1;
    }
    assert(keys_view(path@).skip(path@.len() as int).len() == 0);
    Some(cur)
}


/// A value read as text: a string trimmed (blank counts as missing), or a
/// number's text, since sources often write ids as numbers.
pub open spec fn text_of(v: Option<Json>) -> Option<Seq<char>> {
    match v {
        Some(Json::Str { text, .. }) => if trim(text@).len() > 0 {
            Some(trim(text@))
        } else {
            None
        },
        Some(Json::Num { text, .. }) => Some(text@),
        _ => None,
    }
}

pub open spec fn str_at_spec(v: Json, path: Seq<Seq<char>>) -> Option<Seq<char>> {
    text_of(json_get(v, path))
}

/// A value read as a whole number: a number's reading, or a string's trimmed
/// text as an integer, else as a floating-point number (`"227.5"`).
pub open spec fn whole_of(v: Option<Json>) -> Option<u64> {
    match v {
        Some(Json::Num { whole, .. }) => whole,
        Some(Json::Str { text, float_whole }) => match parse_u64_spec(trim(text@)) {
            Some(n) => Some(n),
            None => float_whole,
        },
        _ => None,
    }
}

pub open spec fn u64_at_spec(v: Json, path: Seq<Seq<char>>) -> Option<u64> {
    whole_of(json_get(v, path))
}

/// The items of the array at a path; empty when there is none.
pub open spec fn arr_at_spec(v: Json, path: Seq<Seq<char>>) -> Seq<Json> {
    match json_get(v, path) {
        Some(Json::Arr(items)) => items@,
        _ => Seq::empty(),
    }
}

/// The non-blank texts of member `key` of each item, in order.
pub open spec fn strs_spec(items: Seq<Json>, key: Seq<char>) -> Seq<Seq<char>>
    decreases items.len(),
{
    if items.len() == 0 {
        Seq::empty()
    } else {
        let rest = strs_spec(items.drop_last(), key);
        match text_of(member(items.last(), key)) {
            Some(t) => if trim(t).len() > 0 {
                rest.push(t)
            } else {
                rest
            },
            None => rest,
        }
    }
}

/// The value at `path` as text.
pub fn str_at(v: &Json, path: &[&str]) -> (r: Option<String>)
    ensures
        opt_seq(r) == str_at_spec(*v, keys_view(path@)),
{
    text_at(get(v, path))
}

fn text_at(v: Option<&Json>) -> (r: Option<String>)
    ensures
        opt_seq(r) == text_of(deref_opt(v)),
{
    match v {
        Some(Json::Str { text, .. }) => {
            let c = chars_of(text.as_str());
            let t = trim_vec(&c);
            if t.len() > 0 {
                Some(string_of(&t))
            } else {
                None
            }
        },
        Some(Json::Num { text, .. }) => Some(text.clone()),
        _ => None,
    }
}

/// The value at `path` as a whole number.
pub fn u64_at(v: &Json, path: &[&str]) -> (r: Option<u64>)
    ensures
        r == u64_at_spec(*v, keys_view(path@)),
{
    match get(v, path) {
        Some(Json::Num { whole, .. }) => *whole,
        Some(Json::Str { text, float_whole }) => {
            let c = chars_of(text.as_str());
            let t = trim_vec(&c);
            match parse_u64(&t) {
                Some(n) => Some(n),
                None => *float_whole,
            }
        },
        _ => None,
    }
}

/// The items of the array at `path`.
pub fn arr_at<'a>(v: &'a Json, path: &[&str]) -> (r: Vec<&'a Json>)
    ensures
        derefs(r@) == arr_at_spec(*v, keys_view(path@)),
{
    let mut out: Vec<&'a Json> = Vec::new();
    match get(v, path) {
        Some(Json::Arr(items)) => {
            let mut i: usize = 0;
            while i < items.len()
                invariant
                    i <= items@.len(),
                    derefs(out@) == items@.take(i as int),
                decreases items.len() - i,
            {
                let ghost before = out@;
                out.push(&items[i]);
                assert(out@ == before.push(&items@[i as int]));
                assert(derefs(out@) =~= derefs(before).push(items@[i as int]));
                assert(items@.take(i + 1) =~= items@.take(i as int).push(items@[i as int]));
                i = i + 1;
            }
            assert(items@.take(items@.len() as int) == items@);
        },
        _ => {
            assert(derefs(out@) =~= Seq::<Json>::empty());
        },
    }
    out
}

/// The non-blank texts of member `key` of the given items.
pub fn strs_from(arr: &[&Json], key: &str) -> (r: Vec<String>)
    ensures
        r.deep_view() == strs_spec(derefs(arr@), key@),
{
    let mut out: Vec<String> = Vec::new();
    let mut i: usize = 0;
    while i < arr.len()
        invariant
            i <= arr@.len(),
            out.deep_view() == strs_spec(derefs(arr@).take(i as int), key@),
        decreases arr.len() - i,
    {
        let ghost pre = derefs(arr@).take(i as int);
        assert(derefs(arr@).take(i + 1).drop_last() == pre);
        assert(derefs(arr@).take(i + 1).last() == *arr@[i as int]);
        match text_at(member_of(arr[i], key)) {
            Some(t) => {
                let c = chars_of(t.as_str());
                let tt = trim_vec(&c);
                if tt.len() > 0 {
                    let ghost before = out.deep_view();
                    out.push(t);
                    assert(out.deep_view() =~= before.push(opt_seq(Some(t))->0));
                }
            },
            None => {},
        }
        i = i + 1;
    }
    assert(derefs(arr@).take(arr@.len() as int) == derefs(arr@));
    out
}


/// Each artist name cleaned.
pub open spec fn clean_artists_spec(raw: Seq<Seq<char>>) -> Seq<Seq<char>> {
    raw.map_values(|a: Seq<char>| clean_artist_spec(a))
}

/// Cleans each artist name.
pub fn clean_all(raw: &Vec<String>) -> (r: Vec<String>)
    ensures
        r.deep_view() == clean_artists_spec(raw.deep_view()),
{
    let mut out: Vec<String> = Vec::new();
    let mut i: usize = 0;
    while i < raw.len()
        invariant
            i <= raw.len(),
            out.deep_view() == clean_artists_spec(raw.deep_view().take(i as int)),
        decreases raw.len() - i,
    {
        let a = clean_artist(raw[i].as_str());
        let ghost before = out.deep_view();
        out.push(a);
        assert(out.deep_view() =~= before.push(clean_artist_spec(raw[i as int]@)));
        assert(raw.deep_view().take(i + 1) == raw.deep_view().take(i as int).push(
            raw[i as int]@,
        ));
        i = i + 1;
    }
    assert(raw.deep_view().take(raw.len() as int) == raw.deep_view());
    out
}


/// `a`, or `b` when `a` is missing (`Option::or_else`).
pub open spec fn or_opt<T>(a: Option<T>, b: Option<T>) -> Option<T> {
    if a is Some {
        a
    } else {
        b
    }
}

/// The items that pass `ok`, in order.
pub open spec fn keep(items: Seq<Json>, ok: spec_fn(Json) -> bool) -> Seq<Json>
    decreases items.len(),
{
    if items.len() == 0 {
        Seq::empty()
    } else if ok(items.last()) {
        keep(items.drop_last(), ok).push(items.last())
    } else {
        keep(items.drop_last(), ok)
    }
}

/// A missing text read as empty.
pub open spec fn or_empty(o: Option<Seq<char>>) -> Seq<char> {
    match o {
        Some(t) => t,
        None => Seq::empty(),
    }
}

/// A duration reading in milliseconds, dropped when zero.
pub open spec fn duration_ms_spec(raw: Option<u64>) -> Option<u64> {
    match raw {
        Some(n) => if to_ms_spec(n) > 0 {
            Some(to_ms_spec(n))
        } else {
            None
        },
        None => None,
    }
}

pub fn duration_ms_of(raw: Option<u64>) -> (r: Option<u64>)
    ensures
        r == duration_ms_spec(raw),
{
    match raw {
        Some(n) => {
            let ms = to_ms(n);
            if ms > 0 {
                Some(ms)
            } else {
                None
            }
        },
        None => None,
    }
}

/// A name cleaned for display, dropped when nothing is left.
pub open spec fn display_opt(o: Option<Seq<char>>) -> Option<Seq<char>> {
    match o {
        Some(a) => if display_title_spec(a).len() > 0 {
            Some(display_title_spec(a))
        } else {
            None
        },
        None => None,
    }
}

pub fn display_opt_of(o: Option<String>) -> (r: Option<String>)
    ensures
        opt_seq(r) == display_opt(opt_seq(o)),
{
    match o {
        Some(a) => {
            let d = clean_display_title(a.as_str());
            if d.as_str().unicode_len() > 0 {
                Some(d)
            } else {
                None
            }
        },
        None => None,
    }
}

/// `str_at` with a path of one key.
pub fn str1(v: &Json, k: &str) -> (r: Option<String>)
    ensures
        opt_seq(r) == str_at_spec(*v, seq![k@]),
{
    let p = [k];
    let ps: &[&str] = &p;
    assert(keys_view(ps@) =~= seq![k@]);
    str_at(v, ps)
}

/// `str_at` with a path of two keys.
pub fn str2(v: &Json, k1: &str, k2: &str) -> (r: Option<String>)
    ensures
        opt_seq(r) == str_at_spec(*v, seq![k1@, k2@]),
{
    let p = [k1, k2];
    let ps: &[&str] = &p;
    assert(keys_view(ps@) =~= seq![k1@, k2@]);
    str_at(v, ps)
}

/// `u64_at` with a path of one key.
pub fn u64_1(v: &Json, k: &str) -> (r: Option<u64>)
    ensures
        r == u64_at_spec(*v, seq![k@]),
{
    let p = [k];
    let ps: &[&str] = &p;
    assert(keys_view(ps@) =~= seq![k@]);
    u64_at(v, ps)
}

/// `u64_at` with a path of two keys.
pub fn u64_2(v: &Json, k1: &str, k2: &str) -> (r: Option<u64>)
    ensures
        r == u64_at_spec(*v, seq![k1@, k2@]),
{
    let p = [k1, k2];
    let ps: &[&str] = &p;
    assert(keys_view(ps@) =~= seq![k1@, k2@]);
    u64_at(v, ps)
}

/// `arr_at` with a path of one key.
pub fn arr1<'a>(v: &'a Json, k: &str) -> (r: Vec<&'a Json>)
    ensures
        derefs(r@) == arr_at_spec(*v, seq![k@]),
{
    let p = [k];
    let ps: &[&str] = &p;
    assert(keys_view(ps@) =~= seq![k@]);
    arr_at(v, ps)
}

/// `arr_at` with a path of two keys.
pub fn arr2<'a>(v: &'a Json, k1: &str, k2: &str) -> (r: Vec<&'a Json>)
    ensures
        derefs(r@) == arr_at_spec(*v, seq![k1@, k2@]),
{
    let p = [k1, k2];
    let ps: &[&str] = &p;
    assert(keys_view(ps@) =~= seq![k1@, k2@]);
    arr_at(v, ps)
}

/// A response's `code`, when it is an integer.
pub open spec fn code_of(v: Json) -> Option<i64> {
    match member(v, "code"@) {
        Some(Json::Num { text, .. }) => parse_i64_spec(text@),
        _ => None,
    }
}

/// Reads a response's `code`.
pub fn response_code(v: &Json) -> (r: Option<i64>)
    ensures
        r == code_of(*v),
{
    match member_of(v, "code") {
        Some(Json::Num { text, .. }) => {
            let t = chars_of(text.as_str());
            parse_i64(&t)
        },
        _ => None,
    }
}

} // verus!
