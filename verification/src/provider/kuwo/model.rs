//! KuWo response parsing.
//!
//! The search endpoint answers in single-quoted pseudo-JSON that JSON parsers
//! refuse, so fields are picked out one by one; an odd field cannot spoil the
//! rest. Names carry HTML entities and noise, and no release year is given.

use vstd::prelude::*;
use crate::domain::candidate::{Candidate, ProviderId};
use crate::domain::lyrics::{
    line_spec, looks_instrumental, looks_instrumental_spec, LineView, LyricLine, Lyrics,
};
use crate::domain::normalize::{decode_html, html_decoded};
use crate::lrc::parse::{dedup_all, dedup_lines, sort_by_time, sort_lines};
use crate::lrc::render::{render_lrc, render_spec, RenderOptions};
use crate::provider::json::{derefs, Json};
use crate::provider::util::{arr2, arr_at_spec, str1, str_at_spec};
use crate::domain::normalize::{
    clean_artist, clean_artist_spec, clean_display_title, display_title_spec,
};
use crate::domain::track::{split_artists, split_artists_spec};
use crate::domain::candidate::opt_seq;
use crate::lrc::parse::{parse_u64, parse_u64_spec};
use crate::provider::util::{clean_all, clean_artists_spec, to_ms, to_ms_spec};
use crate::text::{
    chars_of, is_ascii_digit, is_whitespace, is_ws, matches_at, ws_run, ws_run_at, occurs_at, push_str_vec,
    slice_vec, starts_with, starts_with_vec, string_of, trim, trim_vec,
};

verus! {

pub open spec fn is_quote(c: char) -> bool {
    c == '\'' || c == '"'
}

/// Characters that end an unquoted value.
pub open spec fn is_stop(c: char) -> bool {
    c == ',' || c == '}' || c == ']'
}

/// Number of characters from index `i` that do not end an unquoted value.
pub open spec fn plain_run(s: Seq<char>, i: int) -> nat
    decreases s.len() - i,
{
    if 0 <= i < s.len() && !is_stop(s[i]) {
        1 + plain_run(s, i + 1)
    } else {
        0
    }
}

/// Index of the first `c` in `s` after index `i`.
pub open spec fn next_char(s: Seq<char>, c: char, i: int) -> Option<int>
    decreases s.len() - i,
{
    if i + 1 >= s.len() || i + 1 < 0 {
        None
    } else if s[i + 1] == c {
        Some(i + 1)
    } else {
        next_char(s, c, i + 1)
    }
}

/// The value starting at `q`: `'...'`, `"..."`, or a run up to `,`, `}` or `]`.
pub open spec fn value_at(s: Seq<char>, q: int) -> Option<Seq<char>> {
    if 0 <= q < s.len() && s[q] == '\'' && next_char(s, '\'', q) is Some {
        Some(s.subrange(q + 1, next_char(s, '\'', q)->0))
    } else if 0 <= q < s.len() && s[q] == '"' && next_char(s, '"', q) is Some {
        Some(s.subrange(q + 1, next_char(s, '"', q)->0))
    } else if 0 <= q < s.len() && !is_stop(s[q]) {
        Some(s.subrange(q, q + plain_run(s, q)))
    } else {
        None
    }
}

/// What `['"]KEY['"]\s*:\s*(?:'([^']*)'|"([^"]*)"|([^,}\]]+))` captures when
/// matched at index `p`.
pub open spec fn field_match_at(s: Seq<char>, key: Seq<char>, p: int) -> Option<Seq<char>> {
    let i0 = p + 2 + key.len();
    let w1 = ws_run(s, i0);
    let j0 = i0 + w1 + 1;
    let w2 = ws_run(s, j0);
    let q = j0 + w2;
    if 0 <= p && p + 1 + key.len() < s.len() && is_quote(s[p]) && s.subrange(
        p + 1,
        p + 1 + key.len(),
    ) == key && is_quote(s[p + 1 + key.len()]) && i0 + w1 < s.len() && s[i0 + w1] == ':' {
        match value_at(s, q) {
            Some(v) => Some(v),
            None => if w2 > 0 {
                Some(seq![s[q - 1]])
            } else {
                None
            },
        }
    } else {
        None
    }
}

/// The capture of the leftmost match at or after index `p`.
pub open spec fn field_capture(s: Seq<char>, key: Seq<char>, p: int) -> Option<Seq<char>>
    decreases s.len() - p,
{
    if p < 0 || p >= s.len() {
        None
    } else {
        match field_match_at(s, key, p) {
            Some(v) => Some(v),
            None => field_capture(s, key, p + 1),
        }
    }
}

pub open spec fn trim_quotes_start(s: Seq<char>) -> Seq<char>
    decreases s.len(),
{
    if s.len() > 0 && is_quote(s[0]) {
        trim_quotes_start(s.drop_first())
    } else {
        s
    }
}

pub open spec fn trim_quotes_end(s: Seq<char>) -> Seq<char>
    decreases s.len(),
{
    if s.len() > 0 && is_quote(s.last()) {
        trim_quotes_end(s.drop_last())
    } else {
        s
    }
}

/// The value of field `key` in a pseudo-JSON object: the capture trimmed,
/// quotes trimmed off, trimmed again; empty values count as missing.
pub open spec fn field_spec(obj: Seq<char>, key: Seq<char>) -> Option<Seq<char>> {
    match field_capture(obj, key, 0) {
        None => None,
        Some(c) => {
            let v = trim(trim_quotes_end(trim_quotes_start(trim(c))));
            if v.len() > 0 {
                Some(v)
            } else {
                None
            }
        },
    }
}

fn plain_run_exec(s: &Vec<char>, i: usize) -> (n: usize)
    requires
        i <= s.len(),
    ensures
        n == plain_run(s@, i as int),
        i + n <= s.len(),
{
    let mut j = i;
    while j < s.len() && !(s[j] == ',' || s[j] == '}' || s[j] == ']')
        invariant
            i <= j <= s.len(),
            plain_run(s@, i as int) == (j - i) + plain_run(s@, j as int),
        decreases s.len() - j,
    {
        j = j + 1;
    }
    j - i
}

fn next_char_exec(s: &Vec<char>, c: char, i: usize) -> (r: Option<usize>)
    requires
        i < s.len(),
    ensures
        match next_char(s@, c, i as int) {
            Some(k) => r == Some(k as usize) && i < k < s.len(),
            None => r is None,
        },
{
    let mut j = i;
    while j + 1 < s.len()
        invariant
            i <= j < s.len(),
            next_char(s@, c, i as int) == next_char(s@, c, j as int),
        decreases s.len() - j,
    {
        if s[j + 1] == c {
            return Some(j + 1);
        }
        j = j + 1;
    }
    None
}

fn value_at_exec(s: &Vec<char>, q: usize) -> (r: Option<Vec<char>>)
    ensures
        match value_at(s@, q as int) {
            Some(v) => r is Some && r->0@ == v,
            None => r is None,
        },
{
    if q >= s.len() {
        return None;
    }
    if s[q] == '\'' {
        match next_char_exec(s, '\'', q) {
            Some(e) => {
                return Some(slice_vec(s, q + 1, e));
            },
            None => {},
        }
    }
    if s[q] == '"' {
        match next_char_exec(s, '"', q) {
            Some(e) => {
                return Some(slice_vec(s, q + 1, e));
            },
            None => {},
        }
    }
    if !(s[q] == ',' || s[q] == '}' || s[q] == ']') {
        let n = plain_run_exec(s, q);
        return Some(slice_vec(s, q, q + n));
    }
    None
}

fn field_match_exec(s: &Vec<char>, key: &Vec<char>, p: usize) -> (r: Option<Vec<char>>)
    requires
        p < s.len(),
    ensures
        match field_match_at(s@, key@, p as int) {
            Some(v) => r is Some && r->0@ == v,
            None => r is None,
        },
{
    let k = key.len();
    if !(k < s.len() && p < s.len() - 1 - k) {
        return None;
    }
    if !(s[p] == '\'' || s[p] == '"') {
        return None;
    }
    let mut t: usize = 0;
    while t < k
        invariant
            t <= k == key.len(),
            p + 1 + k < s.len(),
            s@.subrange(p + 1, p + 1 + t) == key@.take(t as int),
        decreases k - t,
    {
        if s[p + 1 + t] != key[t] {
            assert(s@.subrange(p + 1, p + 1 + k)[t as int] == s@[p + 1 + t]);
            return None;
        }
        assert(s@.subrange(p + 1, p + 1 + t + 1) == s@.subrange(p + 1, p + 1 + t).push(
            s@[p + 1 + t],
        ));
        assert(key@.take(t + 1) == key@.take(t as int).push(key@[t as int]));
        t = t + 1;
    }
    assert(key@.take(k as int) == key@);
    if !(s[p + 1 + k] == '\'' || s[p + 1 + k] == '"') {
        return None;
    }
    let i0 = p + 2 + k;
    let w1 = ws_run_at(s, i0);
    if !(i0 + w1 < s.len() && s[i0 + w1] == ':') {
        return None;
    }
    let j0 = i0 + w1 + 1;
    let w2 = ws_run_at(s, j0);
    let q = j0 + w2;
    match value_at_exec(s, q) {
        Some(v) => Some(v),
        None => {
            if w2 > 0 {
                let mut one: Vec<char> = Vec::new();
                one.push(s[q - 1]);
                Some(one)
            } else {
                None
            }
        },
    }
}

fn field_capture_exec(s: &Vec<char>, key: &Vec<char>) -> (r: Option<Vec<char>>)
    ensures
        match field_capture(s@, key@, 0) {
            Some(v) => r is Some && r->0@ == v,
            None => r is None,
        },
{
    let mut p: usize = 0;
    while p < s.len()
        invariant
            p <= s.len(),
            field_capture(s@, key@, 0) == field_capture(s@, key@, p as int),
        decreases s.len() - p,
    {
        match field_match_exec(s, key, p) {
            Some(v) => {
                return Some(v);
            },
            None => {},
        }
        p = p + 1;
    }
    None
}

/// Picks field `key` out of a pseudo-JSON object (`'KEY':value`): the value
/// may be single-quoted, double-quoted or bare. The key must be quoted, so
/// `ALBUM` does not pick up `ALBUMID`.
pub fn field(obj: &str, key: &str) -> (r: Option<String>)
    ensures
        match field_spec(obj@, key@) {
            Some(v) => r is Some && r->0@ == v,
            None => r is None,
        },
{
    let s = chars_of(obj);
    let k = chars_of(key);
    field_vec(&s, &k)
}

fn field_vec(s: &Vec<char>, k: &Vec<char>) -> (r: Option<String>)
    ensures
        match field_spec(s@, k@) {
            Some(v) => r is Some && r->0@ == v,
            None => r is None,
        },
{
    let cap = match field_capture_exec(s, k) {
        None => {
            return None;
        },
        Some(c) => c,
    };
    let a = trim_vec(&cap);
    let mut lo: usize = 0;
    assert(a@.subrange(0, a.len() as int) == a@);
    while lo < a.len() && (a[lo] == '\'' || a[lo] == '"')
        invariant
            lo <= a.len(),
            trim_quotes_start(a@) == trim_quotes_start(a@.subrange(lo as int, a.len() as int)),
        decreases a.len() - lo,
    {
        assert(a@.subrange(lo as int, a.len() as int).drop_first() == a@.subrange(
            lo + 1,
            a.len() as int,
        ));
        lo = lo + 1;
    }
    if lo < a.len() {
        assert(a@.subrange(lo as int, a.len() as int)[0] == a@[lo as int]);
    }
    let ghost mid = a@.subrange(lo as int, a.len() as int);
    let mut hi = a.len();
    while hi > lo && (a[hi - 1] == '\'' || a[hi - 1] == '"')
        invariant
            lo <= hi <= a.len(),
            trim_quotes_end(mid) == trim_quotes_end(a@.subrange(lo as int, hi as int)),
        decreases hi,
    {
        assert(a@.subrange(lo as int, hi as int).drop_last() == a@.subrange(lo as int, hi - 1));
        hi = hi - 1;
    }
    let b = slice_vec(&a, lo, hi);
    let v = trim_vec(&b);
    if v.len() > 0 {
        Some(string_of(&v))
    } else {
        None
    }
}

/// The scan that cuts objects out of a list: quote, depth and start state.
pub struct SplitState {
    pub quote: Option<char>,
    pub depth: nat,
    pub start: Option<int>,
    pub out: Seq<Seq<char>>,
}

/// One character of the object scan (braces inside quotes do not count).
pub open spec fn split_step(s: Seq<char>, i: int, st: SplitState) -> SplitState {
    let c = s[i];
    match st.quote {
        Some(q) => if c == q {
            SplitState { quote: None, ..st }
        } else {
            st
        },
        None => if c == '\'' || c == '"' {
            SplitState { quote: Some(c), ..st }
        } else if c == '{' {
            SplitState {
                start: if st.depth == 0 {
                    Some(i)
                } else {
                    st.start
                },
                depth: st.depth + 1,
                ..st
            }
        } else if c == '}' {
            let d: nat = if st.depth > 0 {
                (st.depth - 1) as nat
            } else {
                0
            };
            if d == 0 && st.start is Some {
                SplitState {
                    depth: d,
                    start: None,
                    out: st.out.push(s.subrange(st.start->0, i + 1)),
                    ..st
                }
            } else {
                SplitState { depth: d, ..st }
            }
        } else {
            st
        },
    }
}

pub open spec fn split_from(s: Seq<char>, i: int, st: SplitState) -> Seq<Seq<char>>
    decreases s.len() - i,
{
    if i < 0 || i >= s.len() {
        st.out
    } else {
        split_from(s, i + 1, split_step(s, i, st))
    }
}

pub open spec fn split_objects_spec(s: Seq<char>) -> Seq<Seq<char>> {
    split_from(s, 0, SplitState { quote: None, depth: 0, start: None, out: Seq::empty() })
}

/// Cuts each object out of the `abslist` text by brace matching, ignoring
/// braces inside quotes.
pub fn split_objects(list: &str) -> (r: Vec<String>)
    ensures
        r.deep_view() == split_objects_spec(list@),
{
    let s = chars_of(list);
    let mut quote: Option<char> = None;
    let mut depth: usize = 0;
    let mut start: Option<usize> = None;
    let mut out: Vec<String> = Vec::new();
    let mut i: usize = 0;
    assert(out.deep_view() =~= Seq::<Seq<char>>::empty());
    while i < s.len()
        invariant
            i <= s.len(),
            s@ == list@,
            depth <= i,
            start matches Some(k) ==> k < i,
            split_objects_spec(s@) == split_from(
                s@,
                i as int,
                SplitState {
                    quote,
                    depth: depth as nat,
                    start: match start {
                        Some(k) => Some(k as int),
                        None => None,
                    },
                    out: out.deep_view(),
                },
            ),
        decreases s.len() - i,
    {
        let c = s[i];
        match quote {
            Some(q) => {
                if c == q {
                    quote = None;
                }
            },
            None => {
                if c == '\'' || c == '"' {
                    quote = Some(c);
                } else if c == '{' {
                    if depth == 0 {
                        start = Some(i);
                    }
                    depth = depth + 1;
                } else if c == '}' {
                    depth = if depth > 0 {
                        depth - 1
                    } else {
                        0
                    };
                    if depth == 0 {
                        match start {
                            Some(k) => {
                                let piece = slice_vec(&s, k, i + 1);
                                let ghost before = out.deep_view();
                                let ps = string_of(&piece);
                                out.push(ps);
                                assert(out.deep_view() =~= before.push(piece@));
                                start = None;
                            },
                            None => {},
                        }
                    }
                }
            },
        }
        i = i + 1;
    }
    out
}


/// `['"]abslist['"]\s*:\s*\[` matched at index `p`: the index of the `[`.
pub open spec fn abslist_at(s: Seq<char>, p: int) -> Option<int> {
    let i0 = p + 9;
    let w1 = ws_run(s, i0);
    let j0 = i0 + w1 + 1;
    let w2 = ws_run(s, j0);
    if 0 <= p && p + 8 < s.len() && is_quote(s[p]) && s.subrange(p + 1, p + 8) == "abslist"@
        && is_quote(s[p + 8]) && i0 + w1 < s.len() && s[i0 + w1] == ':' && j0 + w2 < s.len()
        && s[j0 + w2] == '[' {
        Some(j0 + w2)
    } else {
        None
    }
}

/// The `[` of the leftmost `abslist` key at or after index `p`.
pub open spec fn abslist_open(s: Seq<char>, p: int) -> Option<int>
    decreases s.len() - p,
{
    if p < 0 || p >= s.len() {
        None
    } else {
        match abslist_at(s, p) {
            Some(b) => Some(b),
            None => abslist_open(s, p + 1),
        }
    }
}

/// The index of the `]` that closes the list, scanning from `i` at bracket
/// depth `depth`; brackets inside quotes do not count.
pub open spec fn bracket_close(s: Seq<char>, i: int, depth: nat, quote: Option<char>) -> Option<
    int,
>
    decreases s.len() - i,
{
    if i < 0 || i >= s.len() {
        None
    } else {
        let c = s[i];
        match quote {
            Some(q) => if c == q {
                bracket_close(s, i + 1, depth, None)
            } else {
                bracket_close(s, i + 1, depth, quote)
            },
            None => if is_quote(c) {
                bracket_close(s, i + 1, depth, Some(c))
            } else if c == '[' {
                bracket_close(s, i + 1, depth + 1, None)
            } else if c == ']' {
                if depth <= 1 {
                    Some(i)
                } else {
                    bracket_close(s, i + 1, (depth - 1) as nat, None)
                }
            } else {
                bracket_close(s, i + 1, depth, None)
            },
        }
    }
}

/// The raw text inside the `abslist` array.
pub open spec fn abslist_spec(body: Seq<char>) -> Option<Seq<char>> {
    match abslist_open(body, 0) {
        None => None,
        Some(b) => match bracket_close(body, b, 0, None) {
            Some(e) => Some(body.subrange(b + 1, e)),
            None => None,
        },
    }
}

fn abslist_at_exec(s: &Vec<char>, key: &Vec<char>, p: usize) -> (r: Option<usize>)
    requires
        key@ == "abslist"@,
    ensures
        match abslist_at(s@, p as int) {
            Some(b) => r == Some(b as usize) && b < s.len() && s@[b] == '[',
            None => r is None,
        },
{
    if !(p < s.len() && s.len() - p > 8) {
        return None;
    }
    proof {
        reveal_strlit("abslist");
    }
    if !(s[p] == '\'' || s[p] == '"') {
        return None;
    }
    let k = slice_vec(s, p + 1, p + 8);
    if !crate::text::vec_eq(&k, key) {
        return None;
    }
    if !(s[p + 8] == '\'' || s[p + 8] == '"') {
        return None;
    }
    let i0 = p + 9;
    let w1 = ws_run_at(s, i0);
    if !(i0 + w1 < s.len() && s[i0 + w1] == ':') {
        return None;
    }
    let j0 = i0 + w1 + 1;
    let w2 = ws_run_at(s, j0);
    if !(j0 + w2 < s.len() && s[j0 + w2] == '[') {
        return None;
    }
    Some(j0 + w2)
}

fn abslist_open_exec(s: &Vec<char>) -> (r: Option<usize>)
    ensures
        r matches Some(b) ==> abslist_open(s@, 0) == Some(b as int) && b < s.len() && s@[b as int]
            == '[',
        r is None ==> abslist_open(s@, 0) is None,
{
    let key = chars_of("abslist");
    let mut p: usize = 0;
    while p < s.len()
        invariant
            p <= s.len(),
            key@ == "abslist"@,
            abslist_open(s@, 0) == abslist_open(s@, p as int),
        decreases s.len() - p,
    {
        match abslist_at_exec(s, &key, p) {
            Some(b) => {
                return Some(b);
            },
            None => {},
        }
        p = p + 1;
    }
    None
}

fn abslist_vec(s: &Vec<char>) -> (r: Option<Vec<char>>)
    ensures
        match abslist_spec(s@) {
            Some(v) => r is Some && r->0@ == v,
            None => r is None,
        },
{
    let b = match abslist_open_exec(s) {
        None => {
            return None;
        },
        Some(b) => b,
    };
    let mut depth: usize = 0;
    let mut quote: Option<char> = None;
    let mut i = b;
    while i < s.len()
        invariant
            b < s.len(),
            b <= i <= s.len(),
            depth <= i - b,
            s@[b as int] == '[',
            i == b ==> depth == 0 && quote is None,
            i > b ==> depth >= 1,
            abslist_open(s@, 0) == Some(b as int),
            bracket_close(s@, b as int, 0, None) == bracket_close(
                s@,
                i as int,
                depth as nat,
                quote,
            ),
        decreases s.len() - i,
    {
        let c = s[i];
        match quote {
            Some(q) => {
                if c == q {
                    quote = None;
                }
            },
            None => {
                if c == '\'' || c == '"' {
                    quote = Some(c);
                } else if c == '[' {
                    depth = depth + 1;
                } else if c == ']' {
                    if depth <= 1 {
                        return Some(slice_vec(s, b + 1, i));
                    }
                    depth = depth - 1;
                }
            },
        }
        i = i + 1;
    }
    None
}

/// The value of `key` read as missing when absent.
pub open spec fn field_or_empty(obj: Seq<char>, key: Seq<char>) -> Seq<char> {
    match field_spec(obj, key) {
        Some(v) => v,
        None => Seq::empty(),
    }
}

/// `s` with every leading copy of `p` removed (`str::trim_start_matches`).
pub open spec fn strip_prefixes(s: Seq<char>, p: Seq<char>) -> Seq<char>
    decreases s.len(),
{
    if p.len() > 0 && starts_with(s, p) {
        strip_prefixes(s.subrange(p.len() as int, s.len() as int), p)
    } else {
        s
    }
}

pub open spec fn all_ascii_digits(s: Seq<char>) -> bool {
    forall|k: int| 0 <= k < s.len() ==> is_ascii_digit(#[trigger] s[k])
}

/// The song id: the numeric `DC_TARGETID`, else `MUSICRID` without its
/// `MUSIC_` prefix.
pub open spec fn song_id_spec(obj: Seq<char>) -> Option<Seq<char>> {
    match field_spec(obj, "DC_TARGETID"@) {
        Some(v) if all_ascii_digits(v) => Some(v),
        _ => match field_spec(obj, "MUSICRID"@) {
            Some(m) => {
                let t = strip_prefixes(m, "MUSIC_"@);
                if t.len() > 0 {
                    Some(t)
                } else {
                    None
                }
            },
            None => None,
        },
    }
}

pub open spec fn is_album_tail(c: char) -> bool {
    c == '，' || c == ',' || c == '、'
}

pub open spec fn trim_album_tail(s: Seq<char>) -> Seq<char>
    decreases s.len(),
{
    if s.len() > 0 && is_album_tail(s.last()) {
        trim_album_tail(s.drop_last())
    } else {
        s
    }
}

/// The album: cleaned for display, dropped when empty, trailing commas cut.
pub open spec fn album_spec(obj: Seq<char>) -> Option<Seq<char>> {
    match field_spec(obj, "ALBUM"@) {
        None => None,
        Some(a) => {
            let d = display_title_spec(a);
            if d.len() > 0 {
                Some(trim_album_tail(d))
            } else {
                None
            }
        },
    }
}

/// The duration in milliseconds, when `DURATION` reads as a positive number.
pub open spec fn duration_spec(obj: Seq<char>) -> Option<u64> {
    match field_spec(obj, "DURATION"@) {
        None => None,
        Some(d) => match parse_u64_spec(d) {
            None => None,
            Some(n) => if to_ms_spec(n) > 0 {
                Some(to_ms_spec(n))
            } else {
                None
            },
        },
    }
}

/// The first cover path given, as a full URL.
pub open spec fn cover_spec(obj: Seq<char>) -> Option<Seq<char>> {
    let path = match field_spec(obj, "web_albumpic"@) {
        Some(v) => Some(v),
        None => match field_spec(obj, "web_albumpic_short"@) {
            Some(v) => Some(v),
            None => field_spec(obj, "hts_MVPIC"@),
        },
    };
    match path {
        None => None,
        Some(p) => if starts_with(p, "http"@) {
            Some(p)
        } else {
            Some("https://img1.kuwo.cn/star/albumcover/"@ + p)
        },
    }
}

/// An object yields a candidate when it has a song id and a song name.
pub open spec fn usable(obj: Seq<char>) -> bool {
    song_id_spec(obj) is Some && field_spec(obj, "SONGNAME"@) is Some
}

/// The objects that yield candidates, in order.
pub open spec fn usable_objects(objs: Seq<Seq<char>>) -> Seq<Seq<char>>
    decreases objs.len(),
{
    if objs.len() == 0 {
        Seq::empty()
    } else if usable(objs.last()) {
        usable_objects(objs.drop_last()).push(objs.last())
    } else {
        usable_objects(objs.drop_last())
    }
}

/// The candidate that object `obj` yields.
pub open spec fn kuwo_candidate(c: Candidate, obj: Seq<char>) -> bool {
    &&& c.provider == ProviderId::KuWo
    &&& song_id_spec(obj) == Some(c.song_id@)
    &&& c.access_key is None
    &&& field_spec(obj, "SONGNAME"@) matches Some(t) && c.title@ == display_title_spec(t)
    &&& c.artists.deep_view() == clean_artists_spec(
        split_artists_spec(field_or_empty(obj, "ARTIST"@)),
    )
    &&& opt_seq(c.album) == album_spec(obj)
    &&& c.year is None
    &&& c.track_no is None
    &&& c.duration_ms == duration_spec(obj)
    &&& opt_seq(c.cover_url) == cover_spec(obj)
}

/// What a search response yields: one candidate per usable object of the
/// `abslist` array, in order.
pub open spec fn search_result(body: Seq<char>, r: Seq<Candidate>) -> bool {
    match abslist_spec(body) {
        None => r.len() == 0,
        Some(list) => {
            let objs = usable_objects(split_objects_spec(list));
            &&& r.len() == objs.len()
            &&& forall|i: int| 0 <= i < r.len() ==> kuwo_candidate(#[trigger] r[i], objs[i])
        },
    }
}

fn song_id_of(obj: &str) -> (r: Option<String>)
    ensures
        match song_id_spec(obj@) {
            Some(v) => r is Some && r->0@ == v,
            None => r is None,
        },
{
    match field(obj, "DC_TARGETID") {
        Some(v) => {
            let cs = chars_of(v.as_str());
            let mut ok = true;
            let mut k: usize = 0;
            while k < cs.len()
                invariant
                    k <= cs.len(),
                    ok == forall|j: int| 0 <= j < k ==> is_ascii_digit(#[trigger] cs@[j]),
                decreases cs.len() - k,
            {
                if !('0' <= cs[k] && cs[k] <= '9') {
                    ok = false;
                }
                k = k + 1;
            }
            if ok {
                return Some(v);
            }
        },
        None => {},
    }
    match field(obj, "MUSICRID") {
        None => None,
        Some(m) => {
            let mv = chars_of(m.as_str());
            let pv = chars_of("MUSIC_");
            let mut k: usize = 0;
            assert(mv@.subrange(0, mv.len() as int) == mv@);
            while pv.len() > 0 && matches_at(&mv, &pv, k)
                invariant
                    k <= mv.len(),
                    strip_prefixes(mv@, pv@) == strip_prefixes(
                        mv@.subrange(k as int, mv.len() as int),
                        pv@,
                    ),
                decreases mv.len() - k,
            {
                assert(mv@.subrange(k as int, mv.len() as int).subrange(0, pv.len() as int)
                    == mv@.subrange(k as int, k + pv.len()));
                assert(mv@.subrange(k as int, mv.len() as int).subrange(
                    pv.len() as int,
                    mv.len() - k,
                ) == mv@.subrange(k + pv.len(), mv.len() as int));
                k = k + pv.len();
            }
            proof {
                let rest = mv@.subrange(k as int, mv.len() as int);
                if pv.len() > 0 && starts_with(rest, pv@) {
                    assert(rest.subrange(0, pv.len() as int) == mv@.subrange(
                        k as int,
                        k + pv.len(),
                    ));
                    assert(occurs_at(mv@, pv@, k as int));
                }
            }
            let t = slice_vec(&mv, k, mv.len());
            if t.len() > 0 {
                Some(string_of(&t))
            } else {
                None
            }
        },
    }
}

fn album_of(obj: &str) -> (r: Option<String>)
    ensures
        opt_seq(r) == album_spec(obj@),
{
    match field(obj, "ALBUM") {
        None => None,
        Some(a) => {
            let d = clean_display_title(a.as_str());
            let dv = chars_of(d.as_str());
            if dv.len() == 0 {
                return None;
            }
            let mut n = dv.len();
            assert(dv@.subrange(0, n as int) == dv@);
            while n > 0 && (dv[n - 1] == '，' || dv[n - 1] == ',' || dv[n - 1] == '、')
                invariant
                    n <= dv.len(),
                    trim_album_tail(dv@) == trim_album_tail(dv@.subrange(0, n as int)),
                decreases n,
            {
                assert(dv@.subrange(0, n as int).drop_last() == dv@.subrange(0, n - 1));
                n = n - 1;
            }
            let t = slice_vec(&dv, 0, n);
            Some(string_of(&t))
        },
    }
}

fn duration_of(obj: &str) -> (r: Option<u64>)
    ensures
        r == duration_spec(obj@),
{
    match field(obj, "DURATION") {
        None => None,
        Some(d) => {
            let dv = chars_of(d.as_str());
            match parse_u64(&dv) {
                None => None,
                Some(n) => {
                    let ms = to_ms(n);
                    if ms > 0 {
                        Some(ms)
                    } else {
                        None
                    }
                },
            }
        },
    }
}

/// The cover URL: KuWo gives a path fragment (`120/47/90/2417553615.jpg`)
/// that needs the album-cover host in front.
pub fn cover_url(obj: &str) -> (r: Option<String>)
    ensures
        opt_seq(r) == cover_spec(obj@),
{
    let path = match field(obj, "web_albumpic") {
        Some(v) => v,
        None => match field(obj, "web_albumpic_short") {
            Some(v) => v,
            None => match field(obj, "hts_MVPIC") {
                Some(v) => v,
                None => {
                    return None;
                },
            },
        },
    };
    let pv = chars_of(path.as_str());
    let http = chars_of("http");
    if starts_with_vec(&pv, &http) {
        return Some(path);
    }
    let mut out = chars_of("https://img1.kuwo.cn/star/albumcover/");
    push_str_vec(&mut out, path.as_str());
    Some(string_of(&out))
}

/// The candidate an object yields, or `None` without a song id or name.
fn candidate_of(obj: &str) -> (r: Option<Candidate>)
    ensures
        match r {
            Some(c) => usable(obj@) && kuwo_candidate(c, obj@),
            None => !usable(obj@),
        },
{
    let song_id = match song_id_of(obj) {
        Some(v) => v,
        None => {
            return None;
        },
    };
    let title_raw = match field(obj, "SONGNAME") {
        Some(v) => v,
        None => {
            return None;
        },
    };
    let artists_raw = match field(obj, "ARTIST") {
        Some(v) => v,
        None => String::new(),
    };
    let split = split_artists(artists_raw.as_str());
    let artists = clean_all(&split);
    Some(
        Candidate {
            provider: ProviderId::KuWo,
            song_id,
            access_key: None,
            title: clean_display_title(title_raw.as_str()),
            artists,
            album: album_of(obj),
            year: None,
            track_no: None,
            duration_ms: duration_of(obj),
            cover_url: cover_url(obj),
        },
    )
}

/// Parses a search response (single-quoted pseudo-JSON). Anything malformed
/// gives an empty list rather than an error.
pub fn parse_search(body: &str) -> (r: Vec<Candidate>)
    ensures
        search_result(body@, r@),
{
    let bv = chars_of(body);
    let list = match abslist_vec(&bv) {
        None => {
            return Vec::new();
        },
        Some(l) => l,
    };
    let ls = string_of(&list);
    let objs = split_objects(ls.as_str());
    let ghost all = split_objects_spec(list@);
    let mut out: Vec<Candidate> = Vec::new();
    let mut i: usize = 0;
    while i < objs.len()
        invariant
            i <= objs.len(),
            objs.deep_view() == all,
            out@.len() == usable_objects(all.take(i as int)).len(),
            forall|k: int|
                0 <= k < out@.len() ==> kuwo_candidate(
                    #[trigger] out@[k],
                    usable_objects(all.take(i as int))[k],
                ),
        decreases objs.len() - i,
    {
        let ghost prev = all.take(i as int);
        assert(all.take(i + 1).drop_last() == prev);
        assert(all.take(i + 1).last() == objs[i as int]@);
        match candidate_of(objs[i].as_str()) {
            Some(c) => {
                out.push(c);
            },
            None => {},
        }
        i = i + 1;
    }
    assert(all.take(objs.len() as int) == all);
    out
}


/// The time of entry `i` in milliseconds: what the caller read, else zero.
pub open spec fn time_at(times_ms: Seq<u64>, i: int) -> u64 {
    if 0 <= i < times_ms.len() {
        times_ms[i]
    } else {
        0
    }
}

/// The lines of the first `n` entries: each entry with a `lineLyric`, its
/// entities decoded and white space trimmed.
pub open spec fn entry_lines(items: Seq<Json>, times_ms: Seq<u64>, n: int) -> Seq<LineView>
    decreases n,
{
    if n <= 0 {
        Seq::empty()
    } else {
        let rest = entry_lines(items, times_ms, n - 1);
        match str_at_spec(items[n - 1], seq!["lineLyric"@]) {
            Some(t) => rest.push(line_spec(time_at(times_ms, n - 1), trim(html_decoded(t)))),
            None => rest,
        }
    }
}

/// The lines a lyric response yields: sorted by time, repeats collapsed.
pub open spec fn kuwo_lines(json: Json, times_ms: Seq<u64>) -> Seq<LineView> {
    let items = arr_at_spec(json, seq!["data"@, "lrclist"@]);
    dedup_lines(sort_by_time(entry_lines(items, times_ms, items.len() as int)))
}

/// Parses the lyric endpoint's answer (ordinary JSON): `data.lrclist` holds
/// one entry per line with `lineLyric` and `time` in seconds. `times_ms[i]`
/// is entry `i`'s time in milliseconds, rounded; the caller reads it, since
/// it goes through floating point, and a missing one counts as zero. Only the
/// original is taken: translations, when present at all, are not assumed.
pub fn parse_lyric(json: &Json, times_ms: &[u64], song_id: &str) -> (r: Lyrics)
    ensures
        r.lines.deep_view() == kuwo_lines(*json, times_ms@),
        r.raw_lrc@ == render_spec(
            kuwo_lines(*json, times_ms@),
            RenderOptions { one_line: true, include_translation: true, strip_credits: false },
        ),
        r.is_instrumental == looks_instrumental_spec(r.raw_lrc@),
        r.trans@.len() == 0 && r.roma@.len() == 0 && r.verbatim is None,
        r.raw_trans@.len() == 0,
        r.provider == ProviderId::KuWo,
        r.song_id@ == song_id@,
{
    let items = arr2(json, "data", "lrclist");
    let ghost all = derefs(items@);
    let mut lines: Vec<LyricLine> = Vec::new();
    let mut i: usize = 0;
    while i < items.len()
        invariant
            i <= items@.len(),
            all == derefs(items@),
            all == arr_at_spec(*json, seq!["data"@, "lrclist"@]),
            lines.deep_view() == entry_lines(all, times_ms@, i as int),
        decreases items.len() - i,
    {
        assert(all[i as int] == *items@[i as int]);
        match str1(items[i], "lineLyric") {
            Some(t) => {
                let at: u64 = if i < times_ms.len() {
                    times_ms[i]
                } else {
                    0
                };
                let decoded = decode_html(t.as_str());
                let dv = chars_of(decoded.as_str());
                let trimmed = string_of(&trim_vec(&dv));
                let ghost before = lines.deep_view();
                lines.push(LyricLine::new(at, trimmed.as_str()));
                assert(lines.deep_view() =~= before.push(line_spec(at, trim(html_decoded(t@)))));
            },
            None => {},
        }
        i = i + 1;
    }
    let sorted = sort_lines(&lines);
    proof {
        crate::lrc::parse::lemma_sort_by_time_sorted(lines.deep_view());
    }
    let lines = dedup_all(&sorted);
    let raw_lrc = render_lrc(lines.as_slice(), &RenderOptions::default());
    let instrumental = looks_instrumental(raw_lrc.as_str());
    let mut out = Lyrics::new(ProviderId::KuWo, song_id);
    out.lines = lines;
    out.raw_lrc = raw_lrc;
    out.is_instrumental = instrumental;
    out
}

} // verus!
