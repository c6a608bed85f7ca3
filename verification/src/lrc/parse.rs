//! LRC parsing.
//!
//! Accepts `[mm:ss.xx]`, `[mm:ss.xxx]`, `[mm:ss]` and `:` as the fraction
//! separator; several time tags on one line; and the meta tags `[ti:]`, `[ar:]`,
//! `[al:]`, `[by:]`, `[offset:]`.

use vstd::prelude::*;
use crate::domain::lyrics::{copy_lines, line_spec, LineView, LyricLine};
use crate::lrc::normalize::{
    clean_line_spec, clean_line_vec, normalize_newlines_vec, normalized_newlines,
    strip_invisible_vec, strip_inv,
};
use crate::text::{
    chars_of, is_ascii_alpha, is_ascii_digit, lines_of, lower_seq, lower_vec, slice_vec,
    starts_with, starts_with_vec, str_lines, string_of, trim, trim_vec, vec_eq,
};

verus! {

/// Meta tags found in an LRC text.
#[derive(Clone, Debug)]
pub struct LrcMeta {
    pub title: Option<String>,
    pub artist: Option<String>,
    pub album: Option<String>,
    pub by: Option<String>,
    /// Offset in milliseconds; positive moves the whole timeline earlier.
    pub offset_ms: i64,
}

pub struct MetaView {
    pub title: Option<Seq<char>>,
    pub artist: Option<Seq<char>>,
    pub album: Option<Seq<char>>,
    pub by: Option<Seq<char>>,
    pub offset_ms: i64,
}

pub open spec fn opt_view(o: Option<String>) -> Option<Seq<char>> {
    match o {
        Some(s) => Some(s@),
        None => None,
    }
}

impl View for LrcMeta {
    type V = MetaView;

    open spec fn view(&self) -> MetaView {
        MetaView {
            title: opt_view(self.title),
            artist: opt_view(self.artist),
            album: opt_view(self.album),
            by: opt_view(self.by),
            offset_ms: self.offset_ms,
        }
    }
}

pub open spec fn empty_meta() -> MetaView {
    MetaView { title: None, artist: None, album: None, by: None, offset_ms: 0 }
}

impl Default for LrcMeta {
    fn default() -> (r: Self)
        ensures
            r@ == empty_meta(),
    {
        LrcMeta { title: None, artist: None, album: None, by: None, offset_ms: 0 }
    }
}

impl LrcMeta {
    pub fn is_empty(&self) -> (r: bool)
        ensures
            r == (self.title.is_none() && self.artist.is_none() && self.album.is_none()
                && self.by.is_none() && self.offset_ms == 0),
    {
        self.title.is_none() && self.artist.is_none() && self.album.is_none() && self.by.is_none()
            && self.offset_ms == 0
    }
}

/// Result of parsing.
#[derive(Clone, Debug)]
pub struct ParsedLrc {
    pub lines: Vec<LyricLine>,
    pub meta: LrcMeta,
}

/// Number of consecutive ASCII digits in `s` from index `i`.
pub open spec fn digit_run(s: Seq<char>, i: int) -> nat
    decreases s.len() - i,
{
    if 0 <= i < s.len() && is_ascii_digit(s[i]) {
        1 + digit_run(s, i + 1)
    } else {
        0
    }
}

/// Decimal value of the `n` characters of `s` from index `i`.
pub open spec fn dval(s: Seq<char>, i: int, n: nat) -> nat
    decreases n,
{
    if n == 0 {
        0
    } else {
        dval(s, i, (n - 1) as nat) * 10 + ((s[i + n - 1] as u32) - ('0' as u32)) as nat
    }
}

/// A time tag `[m:s]`, `[m:s.f]` or `[m:s:f]` at index `i` (1–3 minute digits,
/// 1–2 second digits, 1–3 fraction digits): its time in milliseconds and the
/// index after it.
pub open spec fn ts_at(s: Seq<char>, i: int) -> Option<(int, int)> {
    if 0 <= i < s.len() && s[i] == '[' {
        let a = digit_run(s, i + 1);
        if 1 <= a <= 3 && i + 1 + a < s.len() && s[i + 1 + a] == ':' {
            let b = digit_run(s, i + 2 + a);
            let p = i + 2 + a + b;
            if 1 <= b <= 2 && p < s.len() {
                let base: int = (dval(s, i + 1, a) * 60000 + dval(s, i + 2 + a, b) * 1000) as int;
                if s[p] == ']' {
                    Some((base, p + 1))
                } else if s[p] == '.' || s[p] == ':' {
                    let c = digit_run(s, p + 1);
                    if 1 <= c <= 3 && p + 1 + c < s.len() && s[p + 1 + c] == ']' {
                        let f: int = dval(s, p + 1, c) as int;
                        let ms: int = if c == 1 {
                            f * 100
                        } else if c == 2 {
                            f * 10
                        } else {
                            f
                        };
                        Some((base + ms, p + 2 + c))
                    } else {
                        None
                    }
                } else {
                    None
                }
            } else {
                None
            }
        } else {
            None
        }
    } else {
        None
    }
}

/// The time tags that open `s` from index `i`, and the index where they end.
pub open spec fn stamps_from(s: Seq<char>, i: int) -> (Seq<u64>, int)
    decreases s.len() - i,
{
    match ts_at(s, i) {
        Some((v, e)) => if i < e <= s.len() {
            let r = stamps_from(s, e);
            (seq![v as u64] + r.0, r.1)
        } else {
            (Seq::empty(), i)
        },
        None => (Seq::empty(), i),
    }
}

/// `[key:value]` with a key of 1–16 ASCII letters (lower-cased) and the value trimmed.
pub open spec fn meta_tag_spec(line: Seq<char>) -> Option<(Seq<char>, Seq<char>)> {
    if line.len() >= 2 && line[0] == '[' && line.last() == ']' {
        let inner = line.subrange(1, line.len() - 1);
        if inner.contains(':') {
            let c = inner.index_of_first(':')->0;
            let key = lower_seq(trim(inner.subrange(0, c)));
            if key.len() > 0 && key.len() <= 16 && (forall|k: int|
                0 <= k < key.len() ==> is_ascii_alpha(#[trigger] key[k])) {
                Some((key, trim(inner.subrange(c + 1, inner.len() as int))))
            } else {
                None
            }
        } else {
            None
        }
    } else {
        None
    }
}

/// The integer a string stands for, as `i64::from_str` reads it.
pub open spec fn all_digits(s: Seq<char>) -> bool {
    forall|k: int| 0 <= k < s.len() ==> is_ascii_digit(#[trigger] s[k])
}

pub open spec fn parse_i64_spec(s: Seq<char>) -> Option<i64> {
    let neg = s.len() > 0 && s[0] == '-';
    let body = if s.len() > 0 && (s[0] == '-' || s[0] == '+') {
        s.drop_first()
    } else {
        s
    };
    let v: int = if neg {
        -dval(body, 0, body.len())
    } else {
        dval(body, 0, body.len()) as int
    };
    if body.len() > 0 && all_digits(body) && i64::MIN <= v <= i64::MAX {
        Some(v as i64)
    } else {
        None
    }
}

/// Meta tag values are stored for the standard keys only; an empty value changes nothing.
pub open spec fn apply_meta_spec(m: MetaView, key: Seq<char>, value: Seq<char>) -> MetaView {
    if value.len() == 0 {
        m
    } else if key == "ti"@ {
        MetaView { title: Some(value), ..m }
    } else if key == "ar"@ {
        MetaView { artist: Some(value), ..m }
    } else if key == "al"@ {
        MetaView { album: Some(value), ..m }
    } else if key == "by"@ {
        MetaView { by: Some(value), ..m }
    } else if key == "offset"@ {
        MetaView {
            offset_ms: match parse_i64_spec(value) {
                Some(v) => v,
                None => 0,
            },
            ..m
        }
    } else {
        m
    }
}

pub open spec fn credit_keys() -> Seq<Seq<char>> {
    seq![
        "作词"@,
        "作曲"@,
        "编曲"@,
        "制作人"@,
        "混音"@,
        "母带"@,
        "录音"@,
        "监制"@,
        "出品"@,
        "发行"@,
        "OP"@,
        "SP"@,
        "Lyrics by"@,
        "Composed by"@,
    ]
}

/// `s` with every plain space removed.
pub open spec fn remove_spaces(s: Seq<char>) -> Seq<char>
    decreases s.len(),
{
    if s.len() == 0 {
        s
    } else if s.last() == ' ' {
        remove_spaces(s.drop_last())
    } else {
        remove_spaces(s.drop_last()).push(s.last())
    }
}

/// A credit line (lyricist, composer, producer, ...): at most 40 characters once
/// trimmed, opening with one of the credit keys, spaces ignored or not.
pub open spec fn pure_metadata_spec(text: Seq<char>) -> bool {
    let t = trim(text);
    t.len() <= 40 && exists|k: int|
        0 <= k < 14 && (starts_with(t, #[trigger] credit_keys()[k]) || starts_with(
            remove_spaces(t),
            credit_keys()[k],
        ))
}

/// Lines added by one raw input line, and the meta tags after it.
pub open spec fn parse_step(acc: (Seq<LineView>, MetaView), raw: Seq<char>) -> (
    Seq<LineView>,
    MetaView,
) {
    let line = strip_inv(raw);
    let trimmed = trim(line);
    if trimmed.len() == 0 {
        acc
    } else {
        let st = stamps_from(trimmed, 0);
        let rest = trimmed.skip(st.1);
        if st.0.len() == 0 {
            match meta_tag_spec(trimmed) {
                Some((k, v)) => (acc.0, apply_meta_spec(acc.1, k, v)),
                None => {
                    let t = clean_line_spec(rest);
                    if t.len() > 0 && !pure_metadata_spec(t) {
                        (acc.0.push(line_spec(0, t)), acc.1)
                    } else {
                        acc
                    }
                },
            }
        } else {
            match meta_tag_spec(trim(rest)) {
                Some((k, v)) => (acc.0, apply_meta_spec(acc.1, k, v)),
                None => {
                    let content = clean_line_spec(rest);
                    (acc.0 + st.0.map_values(|at: u64| line_spec(at, content)), acc.1)
                },
            }
        }
    }
}

pub open spec fn parse_fold(ls: Seq<Seq<char>>) -> (Seq<LineView>, MetaView)
    decreases ls.len(),
{
    if ls.len() == 0 {
        (Seq::empty(), empty_meta())
    } else {
        parse_step(parse_fold(ls.drop_last()), ls.last())
    }
}

/// A time moved earlier by `offset`, never below zero.
pub open spec fn shifted(at: u64, offset: i64) -> u64 {
    if at - offset < 0 {
        0
    } else {
        (at - offset) as u64
    }
}

pub open spec fn shift_lines(s: Seq<LineView>, offset: i64) -> Seq<LineView> {
    s.map_values(|l: LineView| LineView { at_ms: shifted(l.at_ms, offset), ..l })
}

/// Where a stable insertion puts a line into a time-sorted sequence: after every
/// line that is not later than it.
pub open spec fn insert_pos(s: Seq<LineView>, at: u64) -> nat
    decreases s.len(),
{
    if s.len() > 0 && s[0].at_ms <= at {
        1 + insert_pos(s.drop_first(), at)
    } else {
        0
    }
}

/// Stable sort by time (insertion sort).
pub open spec fn sort_by_time(s: Seq<LineView>) -> Seq<LineView>
    decreases s.len(),
{
    if s.len() == 0 {
        s
    } else {
        let r = sort_by_time(s.drop_last());
        r.insert(insert_pos(r, s.last().at_ms) as int, s.last())
    }
}

/// Some line of `r` has the time and text of `x`.
pub open spec fn has_line(r: Seq<LineView>, x: LineView) -> bool {
    exists|k: int| 0 <= k < r.len() && #[trigger] r[k].at_ms == x.at_ms && r[k].text == x.text
}

/// Lines with the time and text of an earlier line dropped: the first of
/// each stays.
pub open spec fn dedup_lines(s: Seq<LineView>) -> Seq<LineView>
    decreases s.len(),
{
    if s.len() == 0 {
        s
    } else {
        let r = dedup_lines(s.drop_last());
        if has_line(r, s.last()) {
            r
        } else {
            r.push(s.last())
        }
    }
}

/// What `parse` gives for a text: lines and meta tags.
pub open spec fn parse_spec(text: Seq<char>) -> (Seq<LineView>, MetaView) {
    let f = parse_fold(str_lines(normalized_newlines(text)));
    (dedup_lines(sort_by_time(shift_lines(f.0, f.1.offset_ms))), f.1)
}

proof fn lemma_digit_run_bound(s: Seq<char>, i: int)
    ensures
        i + digit_run(s, i) <= s.len() || digit_run(s, i) == 0,
        forall|k: int| i <= k < i + digit_run(s, i) ==> is_ascii_digit(#[trigger] s[k]),
        0 <= i && i + digit_run(s, i) < s.len() ==> !is_ascii_digit(s[i + digit_run(s, i)]),
    decreases s.len() - i,
{
    if 0 <= i < s.len() && is_ascii_digit(s[i]) {
        lemma_digit_run_bound(s, i + 1);
    }
}

fn digit_run_exec(v: &Vec<char>, i: usize) -> (n: usize)
    requires
        i <= v.len(),
    ensures
        n == digit_run(v@, i as int),
        i + n <= v.len(),
{
    let mut j = i;
    while j < v.len() && '0' <= v[j] && v[j] <= '9'
        invariant
            i <= j <= v.len(),
            digit_run(v@, i as int) == (j - i) + digit_run(v@, j as int),
        decreases v.len() - j,
    {
        j = j + 1;
    }
    j - i
}

proof fn lemma_dval_bound(s: Seq<char>, i: int, n: nat)
    requires
        forall|k: int| i <= k < i + n ==> is_ascii_digit(#[trigger] s[k]),
    ensures
        dval(s, i, n) < pow10(n),
    decreases n,
{
    if n > 0 {
        lemma_dval_bound(s, i, (n - 1) as nat);
        assert(is_ascii_digit(s[i + n - 1]));
    }
}

pub open spec fn pow10(n: nat) -> nat
    decreases n,
{
    if n == 0 {
        1
    } else {
        10 * pow10((n - 1) as nat)
    }
}

/// Value of `n` ASCII digits from index `i` (at most 18 of them).
fn digits_value(v: &Vec<char>, i: usize, n: usize) -> (r: u64)
    requires
        i + n <= v.len(),
        n <= 18,
        forall|k: int| i <= k < i + n ==> is_ascii_digit(#[trigger] v@[k]),
    ensures
        r == dval(v@, i as int, n as nat),
{
    let mut r: u64 = 0;
    let mut k: usize = 0;
    while k < n
        invariant
            k <= n <= 18,
            i + n <= v.len(),
            forall|k: int| i <= k < i + n ==> is_ascii_digit(#[trigger] v@[k]),
            r == dval(v@, i as int, k as nat),
            r < pow10(k as nat),
        decreases n - k,
    {
        assert(is_ascii_digit(v@[i + k]));
        let d = (v[i + k] as u32 - '0' as u32) as u64;
        proof {
            lemma_pow10_mono(k as nat, 17);
            reveal_with_fuel(pow10, 18);
            assert(pow10(17) == 100000000000000000);
        }
        r = r * 10 + d;
        proof {
            lemma_dval_bound(v@, i as int, (k + 1) as nat);
        }
        k = k + 1;
    }
    r
}

proof fn lemma_pow10_mono(a: nat, b: nat)
    requires
        a <= b,
    ensures
        pow10(a) <= pow10(b),
    decreases b,
{
    if a < b {
        lemma_pow10_mono(a, (b - 1) as nat);
    }
}

/// The time tag at index `i`, as `ts_at` describes it.
fn timestamp_at(v: &Vec<char>, i: usize) -> (r: Option<(u64, usize)>)
    requires
        i <= v.len(),
    ensures
        match ts_at(v@, i as int) {
            Some((t, e)) => r == Some((t as u64, e as usize)) && i < e <= v.len() && 0 <= t
                <= u64::MAX,
            None => r.is_none(),
        },
{
    if i >= v.len() || v[i] != '[' {
        return None;
    }
    let a = digit_run_exec(v, i + 1);
    proof {
        lemma_digit_run_bound(v@, i + 1);
    }
    if !(1 <= a && a <= 3 && i + 1 + a < v.len() && v[i + 1 + a] == ':') {
        return None;
    }
    let b = digit_run_exec(v, i + 2 + a);
    proof {
        lemma_digit_run_bound(v@, i + 2 + a);
    }
    let p = i + 2 + a + b;
    if !(1 <= b && b <= 2 && p < v.len()) {
        return None;
    }
    let mins = digits_value(v, i + 1, a);
    let secs = digits_value(v, i + 2 + a, b);
    proof {
        lemma_dval_bound(v@, i + 1, a as nat);
        lemma_pow10_mono(a as nat, 3);
        lemma_dval_bound(v@, i + 2 + a, b as nat);
        lemma_pow10_mono(b as nat, 2);
        reveal_with_fuel(pow10, 4);
        assert(pow10(3) == 1000);
        assert(pow10(2) == 100);
    }
    let base = mins * 60000 + secs * 1000;
    if v[p] == ']' {
        return Some((base, p + 1));
    }
    if v[p] == '.' || v[p] == ':' {
        let c = digit_run_exec(v, p + 1);
        proof {
            lemma_digit_run_bound(v@, p + 1);
        }
        if 1 <= c && c <= 3 && p + 1 + c < v.len() && v[p + 1 + c] == ']' {
            let f = digits_value(v, p + 1, c);
            proof {
                lemma_dval_bound(v@, p + 1, c as nat);
                lemma_pow10_mono(c as nat, 3);
            }
            let ms = if c == 1 {
                f * 100
            } else if c == 2 {
                f * 10
            } else {
                f
            };
            return Some((base + ms, p + 2 + c));
        }
    }
    None
}

/// Index of the first `:` in `v[from..to]`.
fn first_colon(v: &Vec<char>, from: usize, to: usize) -> (r: Option<usize>)
    requires
        from <= to <= v.len(),
    ensures
        match r {
            Some(c) => from <= c < to && v@[c as int] == ':' && forall|k: int|
                from <= k < c ==> v@[k] != ':',
            None => forall|k: int| from <= k < to ==> v@[k] != ':',
        },
{
    let mut k = from;
    while k < to
        invariant
            from <= k <= to <= v.len(),
            forall|j: int| from <= j < k ==> v@[j] != ':',
        decreases to - k,
    {
        if v[k] == ':' {
            return Some(k);
        }
        k = k + 1;
    }
    None
}

/// Recognises a `[key:value]` meta tag.
///
/// The whole line must be `[ASCII key : any value]`. This covers the standard
/// tags (`[ti:]`, `[offset:500]`, empty values allowed) and the sources' private
/// ones (`[id:$00000000]`, `[sign:...]`); none of them belongs in lyric text.
/// `[Chorus]` has no colon and is kept.
pub fn parse_meta_tag(line: &Vec<char>) -> (r: Option<(Vec<char>, Vec<char>)>)
    ensures
        match meta_tag_spec(line@) {
            Some((k, val)) => r is Some && (r->0).0@ == k && (r->0).1@ == val,
            None => r is None,
        },
{
    let n = line.len();
    if !(n >= 2 && line[0] == '[' && line[n - 1] == ']') {
        return None;
    }
    let ghost inner = line@.subrange(1, n - 1);
    match first_colon(line, 1, n - 1) {
        None => {
            assert(!inner.contains(':')) by {
                if inner.contains(':') {
                    let j = choose|j: int| 0 <= j < inner.len() && inner[j] == ':';
                    assert(line@[j + 1] == ':');
                }
            }
            None
        },
        Some(c) => {
            assert(inner[c - 1] == ':');
            assert(inner.contains(':'));
            proof {
                let f = inner.index_of_first(':');
                inner.index_of_first_ensures(':');
                let fi = f->0;
                assert(fi == c - 1) by {
                    if fi < c - 1 {
                        assert(line@[fi + 1] != ':');
                        assert(inner[fi] == line@[fi + 1]);
                    }
                    if fi > c - 1 {
                        assert(inner[c - 1] == ':');
                    }
                }
            }
            let k_raw = slice_vec(line, 1, c);
            assert(k_raw@ == inner.subrange(0, c - 1));
            let k_trim = trim_vec(&k_raw);
            let key = lower_vec(&k_trim);
            let mut all_alpha = true;
            let mut j: usize = 0;
            while j < key.len()
                invariant
                    j <= key.len(),
                    all_alpha == forall|q: int| 0 <= q < j ==> is_ascii_alpha(#[trigger] key@[q]),
                decreases key.len() - j,
            {
                let ch = key[j];
                if !(('a' <= ch && ch <= 'z') || ('A' <= ch && ch <= 'Z')) {
                    all_alpha = false;
                }
                j = j + 1;
            }
            if key.len() > 0 && key.len() <= 16 && all_alpha {
                let v_raw = slice_vec(line, c + 1, n - 1);
                assert(v_raw@ == inner.subrange(c - 1 + 1, inner.len() as int));
                let value = trim_vec(&v_raw);
                Some((key, value))
            } else {
                None
            }
        },
    }
}

/// `i64::from_str` on the given characters.
pub fn parse_i64(s: &Vec<char>) -> (r: Option<i64>)
    ensures
        r == parse_i64_spec(s@),
{
    let n = s.len();
    let neg = n > 0 && s[0] == '-';
    let start: usize = if n > 0 && (s[0] == '-' || s[0] == '+') {
        1
    } else {
        0
    };
    let ghost body = if n > 0 && (s@[0] == '-' || s@[0] == '+') {
        s@.drop_first()
    } else {
        s@
    };
    assert(body == s@.subrange(start as int, n as int));
    if start >= n {
        return None;
    }
    let mut acc: u128 = 0;
    let mut k = start;
    while k < n
        invariant
            start <= k <= n == s.len(),
            body == s@.subrange(start as int, n as int),
            body == (if s@.len() > 0 && (s@[0] == '-' || s@[0] == '+') {
                s@.drop_first()
            } else {
                s@
            }),
            neg == (s@.len() > 0 && s@[0] == '-'),
            forall|q: int| start <= q < k ==> is_ascii_digit(#[trigger] s@[q]),
            acc == dval(body, 0, (k - start) as nat),
            acc <= 0x8000_0000_0000_0000u128,
        decreases n - k,
    {
        let ch = s[k];
        if !('0' <= ch && ch <= '9') {
            assert(!all_digits(body)) by {
                assert(body[k - start] == ch);
                assert(!is_ascii_digit(body[k - start]));
            }
            return None;
        }
        assert(body[k - start] == ch);
        let d = (ch as u32 - '0' as u32) as u128;
        let next = acc * 10 + d;
        assert(next == dval(body, 0, (k + 1 - start) as nat));
        if next > 0x8000_0000_0000_0000u128 {
            proof {
                lemma_dval_monotone(body, (k + 1 - start) as nat, body.len());
            }
            return None;
        }
        acc = next;
        k = k + 1;
    }
    assert(all_digits(body));
    if neg {
        let r: i128 = -(acc as i128);
        Some(r as i64)
    } else {
        if acc > 0x7FFF_FFFF_FFFF_FFFFu128 {
            None
        } else {
            Some(acc as i64)
        }
    }
}

/// The number a string stands for, as `u64::from_str` reads it: an optional
/// `+`, then one or more ASCII digits, within range.
pub open spec fn parse_u64_spec(s: Seq<char>) -> Option<u64> {
    let body = if s.len() > 1 && s[0] == '+' {
        s.drop_first()
    } else {
        s
    };
    if body.len() > 0 && all_digits(body) && dval(body, 0, body.len()) <= u64::MAX {
        Some(dval(body, 0, body.len()) as u64)
    } else {
        None
    }
}

/// `u64::from_str` on the given characters.
pub fn parse_u64(s: &Vec<char>) -> (r: Option<u64>)
    ensures
        r == parse_u64_spec(s@),
{
    let n = s.len();
    let start: usize = if n > 1 && s[0] == '+' {
        1
    } else {
        0
    };
    let ghost body = if n > 1 && s@[0] == '+' {
        s@.drop_first()
    } else {
        s@
    };
    assert(body == s@.subrange(start as int, n as int));
    if start >= n {
        return None;
    }
    let mut acc: u128 = 0;
    let mut k = start;
    while k < n
        invariant
            start <= k <= n == s.len(),
            body == s@.subrange(start as int, n as int),
            body == (if s@.len() > 1 && s@[0] == '+' {
                s@.drop_first()
            } else {
                s@
            }),
            forall|q: int| start <= q < k ==> is_ascii_digit(#[trigger] s@[q]),
            acc == dval(body, 0, (k - start) as nat),
            acc <= 0xFFFF_FFFF_FFFF_FFFFu128,
        decreases n - k,
    {
        let ch = s[k];
        if !('0' <= ch && ch <= '9') {
            assert(!all_digits(body)) by {
                assert(body[k - start] == ch);
                assert(!is_ascii_digit(body[k - start]));
            }
            return None;
        }
        assert(body[k - start] == ch);
        let d = (ch as u32 - '0' as u32) as u128;
        let next = acc * 10 + d;
        assert(next == dval(body, 0, (k + 1 - start) as nat));
        if next > 0xFFFF_FFFF_FFFF_FFFFu128 {
            proof {
                lemma_dval_monotone(body, (k + 1 - start) as nat, body.len());
            }
            return None;
        }
        acc = next;
        k = k + 1;
    }
    assert(all_digits(body)) by {
        assert forall|q: int| 0 <= q < body.len() implies is_ascii_digit(#[trigger] body[q]) by {
            assert(body[q] == s@[q + start]);
        }
    }
    Some(acc as u64)
}

proof fn lemma_dval_monotone(s: Seq<char>, a: nat, b: nat)
    requires
        a <= b,
    ensures
        dval(s, 0, a) <= dval(s, 0, b),
    decreases b,
{
    if a < b {
        lemma_dval_monotone(s, a, (b - 1) as nat);
    }
}

/// Stores a meta tag value; only the standard keys are kept, private tags are dropped.
pub fn apply_meta(meta: &mut LrcMeta, key: &Vec<char>, value: &Vec<char>)
    ensures
        final(meta)@ == apply_meta_spec(old(meta)@, key@, value@),
{
    if value.len() == 0 {
        return;
    }
    let ti = chars_of("ti");
    let ar = chars_of("ar");
    let al = chars_of("al");
    let by = chars_of("by");
    let off = chars_of("offset");
    if vec_eq(key, &ti) {
        meta.title = Some(string_of(value));
    } else if vec_eq(key, &ar) {
        meta.artist = Some(string_of(value));
    } else if vec_eq(key, &al) {
        meta.album = Some(string_of(value));
    } else if vec_eq(key, &by) {
        meta.by = Some(string_of(value));
    } else if vec_eq(key, &off) {
        meta.offset_ms = match parse_i64(value) {
            Some(v) => v,
            None => 0,
        };
    }
}

fn remove_spaces_vec(v: &Vec<char>) -> (r: Vec<char>)
    ensures
        r@ == remove_spaces(v@),
{
    let mut r: Vec<char> = Vec::new();
    let mut i: usize = 0;
    while i < v.len()
        invariant
            i <= v.len(),
            r@ == remove_spaces(v@.take(i as int)),
        decreases v.len() - i,
    {
        assert(v@.take(i + 1).drop_last() == v@.take(i as int));
        if v[i] != ' ' {
            r.push(v[i]);
        }
        i = i + 1;
    }
    assert(v@.take(v.len() as int) == v@);
    r
}

/// Whether a line is a credit line (lyricist, composer, ...) rather than lyric content.
pub fn is_pure_metadata(text: &str) -> (r: bool)
    ensures
        r == pure_metadata_spec(text@),
{
    let v = chars_of(text);
    is_pure_metadata_vec(&v)
}

pub fn is_pure_metadata_vec(v: &Vec<char>) -> (r: bool)
    ensures
        r == pure_metadata_spec(v@),
{
    let t = trim_vec(v);
    if t.len() > 40 {
        return false;
    }
    let compact = remove_spaces_vec(&t);
    let keys: [&str; 14] = [
        "作词",
        "作曲",
        "编曲",
        "制作人",
        "混音",
        "母带",
        "录音",
        "监制",
        "出品",
        "发行",
        "OP",
        "SP",
        "Lyrics by",
        "Composed by",
    ];
    assert(forall|k: int| 0 <= k < 14 ==> keys@[k]@ == #[trigger] credit_keys()[k]);
    let mut found = false;
    let mut k: usize = 0;
    while k < 14
        invariant
            k <= 14,
            t@ == trim(v@),
            compact@ == remove_spaces(t@),
            forall|j: int| 0 <= j < 14 ==> keys@[j]@ == #[trigger] credit_keys()[j],
            found == exists|j: int|
                0 <= j < k && (starts_with(t@, #[trigger] credit_keys()[j]) || starts_with(
                    compact@,
                    credit_keys()[j],
                )),
        decreases 14 - k,
    {
        let key = chars_of(keys[k]);
        let a = starts_with_vec(&t, &key);
        let b = starts_with_vec(&compact, &key);
        assert(key@ == credit_keys()[k as int]);
        if a || b {
            found = true;
        }
        k = k + 1;
    }
    found
}

/// Handles one raw input line.
fn parse_line(raw: &Vec<char>, lines: &mut Vec<LyricLine>, meta: &mut LrcMeta)
    ensures
        (final(lines).deep_view(), final(meta)@) == parse_step(
            (old(lines).deep_view(), old(meta)@),
            raw@,
        ),
{
    let line = strip_invisible_vec(raw);
    let trimmed = trim_vec(&line);
    if trimmed.len() == 0 {
        return;
    }
    let mut stamps: Vec<u64> = Vec::new();
    let mut pos: usize = 0;
    let mut done = false;
    while !done && pos < trimmed.len()
        invariant
            pos <= trimmed.len(),
            done ==> ts_at(trimmed@, pos as int).is_none(),
            ({
                let st = stamps_from(trimmed@, 0);
                let here = stamps_from(trimmed@, pos as int);
                st.0 == stamps@ + here.0 && st.1 == here.1
            }),
        decreases (trimmed.len() - pos) * 2 + (if done {
            0int
        } else {
            1int
        }),
    {
        match timestamp_at(&trimmed, pos) {
            Some((t, e)) => {
                let ghost here = stamps_from(trimmed@, pos as int);
                let ghost next = stamps_from(trimmed@, e as int);
                let ghost before = stamps@;
                assert(here.0 == seq![t] + next.0);
                stamps.push(t);
                assert(before + (seq![t] + next.0) =~= stamps@ + next.0);
                pos = e;
            },
            None => {
                done = true;
            },
        }
    }
    proof {
        let here = stamps_from(trimmed@, pos as int);
        assert(ts_at(trimmed@, pos as int).is_none());
        assert(here.0.len() == 0 && here.1 == pos);
        assert(stamps@ + here.0 == stamps@);
    }
    let rest = slice_vec(&trimmed, pos, trimmed.len());
    assert(rest@ == trimmed@.skip(pos as int));
    if stamps.len() == 0 {
        match parse_meta_tag(&trimmed) {
            Some((k, v)) => {
                apply_meta(meta, &k, &v);
            },
            None => {
                let t = clean_line_vec(&rest);
                if t.len() > 0 && !is_pure_metadata_vec(&t) {
                    lines.push(LyricLine::from_chars(0, &t));
                }
            },
        }
    } else {
        let rt = trim_vec(&rest);
        match parse_meta_tag(&rt) {
            Some((k, v)) => {
                apply_meta(meta, &k, &v);
            },
            None => {
                let content = clean_line_vec(&rest);
                let ghost base = lines.deep_view();
                let mut j: usize = 0;
                while j < stamps.len()
                    invariant
                        j <= stamps.len(),
                        lines.deep_view() == base + stamps@.take(j as int).map_values(
                            |at: u64| line_spec(at, content@),
                        ),
                    decreases stamps.len() - j,
                {
                    let l = LyricLine::from_chars(stamps[j], &content);
                    let ghost lv = l@;
                    let ghost before = lines.deep_view();
                    lines.push(l);
                    assert(lines.deep_view() =~= before.push(lv));
                    assert(stamps@.take(j + 1).map_values(|at: u64| line_spec(at, content@))
                        =~= stamps@.take(j as int).map_values(|at: u64| line_spec(at, content@)).push(
                        lv,
                    ));
                    assert(base + stamps@.take(j + 1).map_values(|at: u64| line_spec(at, content@))
                        =~= (base + stamps@.take(j as int).map_values(
                        |at: u64| line_spec(at, content@),
                    )).push(lv));
                    j = j + 1;
                }
                assert(stamps@.take(stamps.len() as int) == stamps@);
            },
        }
    }
}


/// Latest time a tag can give: 999 minutes, 99 seconds, 999 milliseconds.
pub open spec fn max_tag_ms() -> int {
    60_039_999
}

proof fn lemma_ts_bound(s: Seq<char>, i: int)
    ensures
        match ts_at(s, i) {
            Some((v, e)) => 0 <= v <= max_tag_ms() && i < e <= s.len(),
            None => true,
        },
{
    if 0 <= i < s.len() && s[i] == '[' {
        let a = digit_run(s, i + 1);
        lemma_digit_run_bound(s, i + 1);
        if 1 <= a <= 3 && i + 1 + a < s.len() && s[i + 1 + a] == ':' {
            let b = digit_run(s, i + 2 + a);
            lemma_digit_run_bound(s, i + 2 + a);
            let p = i + 2 + a + b;
            lemma_dval_bound(s, i + 1, a);
            lemma_pow10_mono(a, 3);
            reveal_with_fuel(pow10, 4);
            if 1 <= b <= 2 && p < s.len() {
                lemma_dval_bound(s, i + 2 + a, b);
                lemma_pow10_mono(b, 2);
                if s[p] == '.' || s[p] == ':' {
                    let c = digit_run(s, p + 1);
                    lemma_digit_run_bound(s, p + 1);
                    if 1 <= c <= 3 {
                        lemma_dval_bound(s, p + 1, c);
                        lemma_pow10_mono(c, 3);
                    }
                }
            }
        }
    }
}

proof fn lemma_stamps_bound(s: Seq<char>, i: int)
    requires
        0 <= i,
    ensures
        forall|k: int|
            0 <= k < stamps_from(s, i).0.len() ==> #[trigger] stamps_from(s, i).0[k]
                <= max_tag_ms(),
    decreases s.len() - i,
{
    lemma_ts_bound(s, i);
    match ts_at(s, i) {
        Some((v, e)) => {
            if i < e <= s.len() {
                lemma_stamps_bound(s, e);
                let r = stamps_from(s, e);
                assert forall|k: int|
                    0 <= k < stamps_from(s, i).0.len() implies #[trigger] stamps_from(s, i).0[k]
                    <= max_tag_ms() by {
                    if k > 0 {
                        assert(stamps_from(s, i).0[k] == r.0[k - 1]);
                    }
                }
            }
        },
        None => {},
    }
}

pub open spec fn times_bounded(s: Seq<LineView>) -> bool {
    forall|k: int| 0 <= k < s.len() ==> #[trigger] s[k].at_ms <= max_tag_ms()
}

proof fn lemma_fold_bound(ls: Seq<Seq<char>>)
    ensures
        times_bounded(parse_fold(ls).0),
    decreases ls.len(),
{
    if ls.len() > 0 {
        lemma_fold_bound(ls.drop_last());
        let acc = parse_fold(ls.drop_last());
        let raw = ls.last();
        let trimmed = trim(strip_inv(raw));
        lemma_stamps_bound(trimmed, 0);
        let r = parse_fold(ls).0;
        assert forall|k: int| 0 <= k < r.len() implies #[trigger] r[k].at_ms <= max_tag_ms() by {
            if k >= acc.0.len() {
                let st = stamps_from(trimmed, 0);
                if st.0.len() > 0 {
                    assert(r[k].at_ms == st.0[k - acc.0.len()]);
                }
            } else {
                assert(r[k] == acc.0[k]);
            }
        }
    }
}

/// Moves every time earlier by `offset` milliseconds (never below zero).
fn shift_all(lines: &mut Vec<LyricLine>, offset: i64)
    requires
        forall|k: int| 0 <= k < old(lines)@.len() ==> #[trigger] old(lines)@[k].at_ms <= max_tag_ms(),
    ensures
        final(lines).deep_view() == shift_lines(old(lines).deep_view(), offset),
{
    let ghost orig = lines.deep_view();
    let mut i: usize = 0;
    while i < lines.len()
        invariant
            i <= lines.len() == orig.len(),
            forall|k: int| 0 <= k < orig.len() ==> #[trigger] orig[k].at_ms <= max_tag_ms(),
            forall|k: int| 0 <= k < i ==> #[trigger] lines.deep_view()[k] == shift_lines(orig, offset)[k],
            forall|k: int| i <= k < lines.len() ==> #[trigger] lines.deep_view()[k] == orig[k],
        decreases orig.len() - i,
    {
        assert(lines.deep_view()[i as int] == orig[i as int]);
        let at = lines[i].at_ms;
        assert(at == orig[i as int].at_ms);
        let d: i128 = at as i128 - offset as i128;
        let t: u64 = if d < 0 {
            0
        } else {
            d as u64
        };
        let mut l = lines[i].duplicate();
        l.at_ms = t;
        let ghost lv = l@;
        let ghost before = lines.deep_view();
        lines.set(i, l);
        assert(lines.deep_view() =~= before.update(i as int, lv));
        i = i + 1;
    }
    assert(lines.deep_view() =~= shift_lines(orig, offset));
}

/// Stable insertion sort by time.
pub fn sort_lines(v: &Vec<LyricLine>) -> (r: Vec<LyricLine>)
    ensures
        r.deep_view() == sort_by_time(v.deep_view()),
{
    let mut out: Vec<LyricLine> = Vec::new();
    let mut i: usize = 0;
    while i < v.len()
        invariant
            i <= v.len(),
            out.deep_view() == sort_by_time(v.deep_view().take(i as int)),
        decreases v.len() - i,
    {
        let x = v[i].duplicate();
        let at = x.at_ms;
        let ghost s = out.deep_view();
        let mut j: usize = 0;
        assert(s.skip(0) == s);
        while j < out.len() && out[j].at_ms <= at
            invariant
                j <= out.len(),
                s == out.deep_view(),
                insert_pos(s, at) == j + insert_pos(s.skip(j as int), at),
            decreases out.len() - j,
        {
            assert(s.skip(j as int).drop_first() == s.skip(j + 1));
            assert(s.skip(j as int)[0] == s[j as int]);
            j = j + 1;
        }
        if j < out.len() {
            assert(s.skip(j as int)[0] == s[j as int]);
        }
        let ghost xv = x@;
        out.insert(j, x);
        assert(out.deep_view() =~= s.insert(j as int, xv));
        assert(v.deep_view().take(i + 1).drop_last() == v.deep_view().take(i as int));
        assert(v.deep_view().take(i + 1).last() == xv);
        i = i + 1;
    }
    assert(v.deep_view().take(v.len() as int) == v.deep_view());
    out
}

/// Drops each line whose time and text an earlier line already has. The
/// lines come in time order, so only the run of the same time is searched.
pub fn dedup_all(v: &Vec<LyricLine>) -> (r: Vec<LyricLine>)
    requires
        time_sorted(v.deep_view()),
    ensures
        r.deep_view() == dedup_lines(v.deep_view()),
{
    let mut out: Vec<LyricLine> = Vec::new();
    let mut i: usize = 0;
    while i < v.len()
        invariant
            i <= v.len(),
            time_sorted(v.deep_view()),
            out.deep_view() == dedup_lines(v.deep_view().take(i as int)),
            time_sorted(out.deep_view()),
            out.len() > 0 ==> i > 0 && out.deep_view().last().at_ms <= v.deep_view()[i - 1].at_ms,
        decreases v.len() - i,
    {
        assert(v.deep_view().take(i + 1).drop_last() == v.deep_view().take(i as int));
        assert(v.deep_view().take(i + 1).last() == v[i as int]@);
        let ghost o = out.deep_view();
        let ghost xv = v[i as int]@;
        assert(xv == v.deep_view()[i as int]);
        proof {
            if out.len() > 0 {
                assert(v.deep_view()[i - 1].at_ms <= v.deep_view()[i as int].at_ms);
            }
        }
        assert(o.len() > 0 ==> o.last().at_ms <= xv.at_ms);
        let mut j: usize = out.len();
        let mut found = false;
        while j > 0
            invariant_except_break
                !found,
            invariant
                j <= out.len(),
                i < v.len(),
                o == out.deep_view(),
                xv == v[i as int]@,
                time_sorted(o),
                o.len() > 0 ==> o.last().at_ms <= xv.at_ms,
                forall|k: int| j <= k < o.len() ==> !(o[k].at_ms == xv.at_ms && o[k].text == xv.text),
            ensures
                found ==> j > 0 && o[j - 1].at_ms == xv.at_ms && o[j - 1].text == xv.text,
                !found ==> j == 0 || o[j - 1].at_ms != xv.at_ms,
            decreases j,
        {
            assert(o[j - 1] == out[j - 1]@);
            if out[j - 1].at_ms != v[i].at_ms {
                break;
            }
            if out[j - 1].text == v[i].text {
                found = true;
                break;
            }
            j = j - 1;
        }
        proof {
            if found {
                assert(o[j - 1].at_ms == xv.at_ms && o[j - 1].text == xv.text);
                assert(has_line(o, xv));
            } else {
                if j > 0 {
                    assert(o[j - 1] == out[j - 1]@);
                    assert(o[j - 1].at_ms <= o[o.len() - 1].at_ms);
                    assert(o[j - 1].at_ms < xv.at_ms);
                }
                assert forall|k: int| 0 <= k < o.len() implies !(#[trigger] o[k].at_ms == xv.at_ms
                    && o[k].text == xv.text) by {
                    if k < j {
                        assert(o[k].at_ms <= o[j - 1].at_ms);
                    }
                }
                assert(!has_line(o, xv));
            }
        }
        if !found {
            let x = v[i].duplicate();
            out.push(x);
            assert(out.deep_view() =~= o.push(xv));
            proof {
                assert forall|a: int, b: int| 0 <= a <= b < out.deep_view().len() implies
                    #[trigger] out.deep_view()[a].at_ms <= #[trigger] out.deep_view()[b].at_ms by {
                    if b == o.len() && a < b {
                        assert(o[a].at_ms <= o.last().at_ms);
                    }
                }
            }
        }
        i = i + 1;
    }
    assert(v.deep_view().take(v.len() as int) == v.deep_view());
    out
}

/// Parses LRC text. Never fails: anything unrecognised is treated as plain text.
pub fn parse(text: &str) -> (r: ParsedLrc)
    ensures
        (r.lines.deep_view(), r.meta@) == parse_spec(text@),
{
    let v = chars_of(text);
    let norm = normalize_newlines_vec(&v);
    let ls = lines_of(&norm);
    let mut lines: Vec<LyricLine> = Vec::new();
    let mut meta = LrcMeta::default();
    let mut i: usize = 0;
    while i < ls.len()
        invariant
            i <= ls.len(),
            ls.deep_view() == str_lines(normalized_newlines(text@)),
            (lines.deep_view(), meta@) == parse_fold(ls.deep_view().take(i as int)),
        decreases ls.len() - i,
    {
        assert(ls[i as int].deep_view() =~= ls[i as int]@);
        assert(ls.deep_view().take(i + 1).drop_last() == ls.deep_view().take(i as int));
        parse_line(&ls[i], &mut lines, &mut meta);
        i = i + 1;
    }
    assert(ls.deep_view().take(ls.len() as int) == ls.deep_view());
    proof {
        lemma_fold_bound(ls.deep_view());
        assert forall|k: int| 0 <= k < lines@.len() implies #[trigger] lines@[k].at_ms
            <= max_tag_ms() by {
            assert(lines@[k].at_ms == lines.deep_view()[k].at_ms);
        }
    }
    shift_all(&mut lines, meta.offset_ms);
    let sorted = sort_lines(&lines);
    proof {
        lemma_sort_by_time_sorted(lines.deep_view());
    }
    let deduped = dedup_all(&sorted);
    ParsedLrc { lines: deduped, meta }
}


/// Lines in non-decreasing time order.
pub open spec fn time_sorted(s: Seq<LineView>) -> bool {
    forall|i: int, j: int| 0 <= i <= j < s.len() ==> #[trigger] s[i].at_ms <= #[trigger] s[j].at_ms
}

proof fn lemma_insert_pos(r: Seq<LineView>, at: u64)
    requires
        time_sorted(r),
    ensures
        insert_pos(r, at) <= r.len(),
        forall|k: int| 0 <= k < insert_pos(r, at) ==> #[trigger] r[k].at_ms <= at,
        forall|k: int| insert_pos(r, at) <= k < r.len() ==> #[trigger] r[k].at_ms > at,
    decreases r.len(),
{
    if r.len() > 0 && r[0].at_ms <= at {
        let t = r.drop_first();
        assert forall|i: int, j: int| 0 <= i <= j < t.len() implies #[trigger] t[i].at_ms
            <= #[trigger] t[j].at_ms by {
            assert(t[i] == r[i + 1] && t[j] == r[j + 1]);
        }
        lemma_insert_pos(t, at);
        assert forall|k: int| 0 <= k < insert_pos(r, at) implies #[trigger] r[k].at_ms <= at by {
            if k > 0 {
                assert(r[k] == t[k - 1]);
            }
        }
        assert forall|k: int| insert_pos(r, at) <= k < r.len() implies #[trigger] r[k].at_ms > at by {
            assert(r[k] == t[k - 1]);
        }
    } else if r.len() > 0 {
        assert forall|k: int| 0 <= k < r.len() implies #[trigger] r[k].at_ms > at by {
            assert(r[0].at_ms <= r[k].at_ms);
        }
    }
}

/// Sorting by time gives lines in time order, as many as it was given.
pub proof fn lemma_sort_by_time_sorted(s: Seq<LineView>)
    ensures
        time_sorted(sort_by_time(s)),
        sort_by_time(s).len() == s.len(),
    decreases s.len(),
{
    if s.len() > 0 {
        let r = sort_by_time(s.drop_last());
        lemma_sort_by_time_sorted(s.drop_last());
        let x = s.last();
        let p = insert_pos(r, x.at_ms);
        lemma_insert_pos(r, x.at_ms);
        let q = r.insert(p as int, x);
        assert forall|i: int, j: int| 0 <= i <= j < q.len() implies #[trigger] q[i].at_ms
            <= #[trigger] q[j].at_ms by {
            if i < p && j < p {
                assert(q[i] == r[i] && q[j] == r[j]);
            } else if i < p && j == p {
                assert(q[i] == r[i]);
            } else if i < p && j > p {
                assert(q[i] == r[i] && q[j] == r[j - 1]);
            } else if i == p && j > p {
                assert(q[j] == r[j - 1]);
            } else if i > p {
                assert(q[i] == r[i - 1] && q[j] == r[j - 1]);
            }
        }
    }
}

proof fn lemma_dedup_sorted(s: Seq<LineView>)
    requires
        time_sorted(s),
    ensures
        time_sorted(dedup_lines(s)),
        s.len() > 0 ==> forall|k: int|
            0 <= k < dedup_lines(s).len() ==> #[trigger] dedup_lines(s)[k].at_ms <= s.last().at_ms,
    decreases s.len(),
{
    if s.len() > 0 {
        let t = s.drop_last();
        assert forall|i: int, j: int| 0 <= i <= j < t.len() implies #[trigger] t[i].at_ms
            <= #[trigger] t[j].at_ms by {
            assert(t[i] == s[i] && t[j] == s[j]);
        }
        lemma_dedup_sorted(t);
        let r = dedup_lines(t);
        if t.len() > 0 {
            assert(t.last() == s[s.len() - 2]);
            assert(s[s.len() - 2].at_ms <= s.last().at_ms);
        }
        if !has_line(r, s.last()) {
            let q = r.push(s.last());
            assert forall|i: int, j: int| 0 <= i <= j < q.len() implies #[trigger] q[i].at_ms
                <= #[trigger] q[j].at_ms by {
                if j == q.len() - 1 && i < j {
                    assert(r[i].at_ms <= t.last().at_ms);
                }
            }
            assert forall|k: int| 0 <= k < q.len() implies #[trigger] q[k].at_ms <= s.last().at_ms by {
                if k < r.len() {
                    assert(r[k].at_ms <= t.last().at_ms);
                }
            }
        }
    }
}

/// Parsed lines come out in time order, however the text ordered them.
pub proof fn lemma_parse_sorted(text: Seq<char>)
    ensures
        time_sorted(parse_spec(text).0),
{
    let f = parse_fold(str_lines(normalized_newlines(text)));
    let sh = shift_lines(f.0, f.1.offset_ms);
    lemma_sort_by_time_sorted(sh);
    lemma_dedup_sorted(sort_by_time(sh));
}

/// No two parsed lines share both time and text.
pub proof fn lemma_parse_no_repeats(text: Seq<char>)
    ensures
        forall|i: int, j: int|
            0 <= i < j < parse_spec(text).0.len() ==> (#[trigger] parse_spec(text).0[i]).at_ms
                != (#[trigger] parse_spec(text).0[j]).at_ms || parse_spec(text).0[i].text
                != parse_spec(text).0[j].text,
{
    let f = parse_fold(str_lines(normalized_newlines(text)));
    lemma_dedup_no_repeats(sort_by_time(shift_lines(f.0, f.1.offset_ms)));
}

proof fn lemma_dedup_no_repeats(s: Seq<LineView>)
    ensures
        forall|i: int, j: int|
            0 <= i < j < dedup_lines(s).len() ==> (#[trigger] dedup_lines(s)[i]).at_ms
                != (#[trigger] dedup_lines(s)[j]).at_ms || dedup_lines(s)[i].text
                != dedup_lines(s)[j].text,
    decreases s.len(),
{
    if s.len() > 0 {
        lemma_dedup_no_repeats(s.drop_last());
        let r = dedup_lines(s.drop_last());
        if !has_line(r, s.last()) {
            let q = r.push(s.last());
            assert forall|i: int, j: int| 0 <= i < j < q.len() implies (#[trigger] q[i]).at_ms
                != (#[trigger] q[j]).at_ms || q[i].text != q[j].text by {
                if j < q.len() - 1 {
                    assert(q[i] == r[i] && q[j] == r[j]);
                } else {
                    assert(q[i] == r[i]);
                    if r[i].at_ms == s.last().at_ms && r[i].text == s.last().text {
                        assert(has_line(r, s.last()));
                    }
                }
            }
        }
    }
}

} // verus!
