//! Word-timed lyrics (NetEase YRC).
//!
//! YRC is the only word-timed format that can be fetched anonymously; QQ's QRC
//! needs a login and KuGou's KRC is encrypted, so neither is handled here.
//! Word timing is downgraded to ordinary LRC lines before writing, keeping the
//! millisecond line times.

use vstd::prelude::*;
use crate::domain::lyrics::{
    line_spec, LineView, LyricLine, VLineView, VerbatimData, VerbatimLine, VerbatimWord, WordView,
};
use crate::lrc::parse::{dval, digit_run};
use crate::text::{append_vec, chars_of, lines_of, slice_vec, str_lines, trim, trim_vec};

verus! {

/// The value of `n` digits from index `i`, or zero when it does not fit in a
/// `u64` (`str::parse::<u64>().unwrap_or(0)`).
pub open spec fn u64_or_zero(s: Seq<char>, i: int, n: nat) -> u64 {
    if dval(s, i, n) <= u64::MAX {
        dval(s, i, n) as u64
    } else {
        0
    }
}

/// A YRC line head `[start,duration]` at the start of `s`: both numbers and the
/// index after the head.
pub open spec fn yrc_head(s: Seq<char>) -> Option<(u64, u64, int)> {
    let a: int = digit_run(s, 1) as int;
    let b: int = digit_run(s, 2 + a) as int;
    if s.len() > 0 && s[0] == '[' && a >= 1 && 1 + a < s.len() && s[1 + a] == ',' && b >= 1 && 2
        + a + b < s.len() && s[2 + a + b] == ']' {
        Some((u64_or_zero(s, 1, a as nat), u64_or_zero(s, 2 + a, b as nat), 3 + a + b))
    } else {
        None
    }
}

/// A YRC word tag `(start,duration,flag)` at index `p` of `s`, the flag an
/// optionally negative integer: start, duration and the index after the tag.
pub open spec fn word_tag_at(s: Seq<char>, p: int) -> Option<(u64, u64, int)> {
    let a: int = digit_run(s, p + 1) as int;
    let b: int = digit_run(s, p + 2 + a) as int;
    let q = p + 3 + a + b;
    let neg: int = if 0 <= q < s.len() && s[q] == '-' {
        1
    } else {
        0
    };
    let c: int = digit_run(s, q + neg) as int;
    if 0 <= p < s.len() && s[p] == '(' && a >= 1 && p + 1 + a < s.len() && s[p + 1 + a] == ','
        && b >= 1 && p + 2 + a + b < s.len() && s[p + 2 + a + b] == ',' && c >= 1 && q + neg + c
        < s.len() && s[q + neg + c] == ')' {
        Some((u64_or_zero(s, p + 1, a as nat), u64_or_zero(s, p + 2 + a, b as nat), q + neg + c + 1))
    } else {
        None
    }
}

/// The first word tag at or after index `from`: where it starts, its start time,
/// duration and end index.
pub open spec fn next_word_tag(s: Seq<char>, from: int) -> Option<(int, u64, u64, int)>
    decreases s.len() - from,
{
    if from < 0 || from >= s.len() {
        None
    } else {
        match word_tag_at(s, from) {
            Some((t, d, e)) => Some((from, t, d, e)),
            None => next_word_tag(s, from + 1),
        }
    }
}

/// A word is kept when its text is not blank; its text is trimmed.
pub open spec fn push_word_spec(words: Seq<WordView>, at_ms: u64, dur_ms: u64, text: Seq<char>) -> Seq<
    WordView,
> {
    if trim(text).len() == 0 {
        words
    } else {
        words.push(WordView { at_ms, dur_ms, text: trim(text) })
    }
}

/// Words of a line body from index `from` on: each tag's text runs to the next tag.
pub open spec fn words_from(
    s: Seq<char>,
    from: int,
    pending: Option<(u64, u64)>,
    acc: Seq<WordView>,
) -> Seq<WordView>
    decreases s.len() - from,
{
    if from < 0 || from > s.len() {
        acc
    } else {
        match next_word_tag(s, from) {
            Some((st, t, d, e)) => {
                let acc2 = match pending {
                    Some((ps, pd)) => push_word_spec(acc, ps, pd, s.subrange(from, st)),
                    None => acc,
                };
                if from <= st < e <= s.len() {
                    words_from(s, e, Some((t, d)), acc2)
                } else {
                    acc2
                }
            },
            None => match pending {
                Some((ps, pd)) => push_word_spec(acc, ps, pd, s.subrange(from, s.len() as int)),
                None => acc,
            },
        }
    }
}

/// The line one raw YRC line gives, if any.
pub open spec fn yrc_line(raw: Seq<char>) -> Option<VLineView> {
    let t = trim(raw);
    match yrc_head(t) {
        Some((at, dur, e)) => {
            let body = t.subrange(e, t.len() as int);
            let ws = words_from(body, 0, None, Seq::empty());
            let words = if ws.len() == 0 && trim(body).len() > 0 {
                seq![WordView { at_ms: at, dur_ms: dur, text: trim(body) }]
            } else {
                ws
            };
            if words.len() == 0 {
                None
            } else {
                Some(VLineView { at_ms: at, dur_ms: dur, words })
            }
        },
        None => None,
    }
}

pub open spec fn yrc_fold(ls: Seq<Seq<char>>) -> Seq<VLineView>
    decreases ls.len(),
{
    if ls.len() == 0 {
        Seq::empty()
    } else {
        let r = yrc_fold(ls.drop_last());
        match yrc_line(ls.last()) {
            Some(l) => r.push(l),
            None => r,
        }
    }
}

/// `w` carries the start and duration of some word tag of `s`.
pub open spec fn tagged_word(s: Seq<char>, w: WordView) -> bool {
    exists|p: int| #[trigger] word_tag_at(s, p) matches Some((a, b, _)) && a == w.at_ms && b == w.dur_ms
}

proof fn lemma_next_word_tag(s: Seq<char>, from: int)
    ensures
        next_word_tag(s, from) matches Some((st, t, d, e)) ==> from <= st && word_tag_at(s, st) == Some(
            (t, d, e),
        ),
    decreases s.len() - from,
{
    if 0 <= from < s.len() && word_tag_at(s, from) is None {
        lemma_next_word_tag(s, from + 1);
    }
}

proof fn lemma_words_from_tagged(
    s: Seq<char>,
    from: int,
    pending: Option<(u64, u64)>,
    acc: Seq<WordView>,
)
    requires
        forall|i: int| 0 <= i < acc.len() ==> tagged_word(s, #[trigger] acc[i]),
        pending matches Some((t, d)) ==> exists|p: int| #[trigger] word_tag_at(s, p) matches Some(
            (a, b, _),
        ) && a == t && b == d,
    ensures
        forall|i: int|
            0 <= i < words_from(s, from, pending, acc).len() ==> tagged_word(
                s,
                #[trigger] words_from(s, from, pending, acc)[i],
            ),
    decreases s.len() - from,
{
    if 0 <= from <= s.len() {
        lemma_next_word_tag(s, from);
        match pending {
            Some((ps, pd)) => {
                let wp = choose|p: int| #[trigger] word_tag_at(s, p) matches Some((a, b, _)) && a == ps
                    && b == pd;
                assert forall|text: Seq<char>, i: int|
                    0 <= i < push_word_spec(acc, ps, pd, text).len() implies tagged_word(
                    s,
                    #[trigger] push_word_spec(acc, ps, pd, text)[i],
                ) by {
                    if i < acc.len() {
                        assert(push_word_spec(acc, ps, pd, text)[i] == acc[i]);
                    } else {
                        let w = push_word_spec(acc, ps, pd, text)[i];
                        assert(w.at_ms == ps && w.dur_ms == pd);
                        assert(word_tag_at(s, wp) matches Some((a, b, _)) && a == w.at_ms && b
                            == w.dur_ms);
                    }
                }
            },
            None => {},
        }
        match next_word_tag(s, from) {
            Some((st, t, d, e)) => {
                let acc2 = match pending {
                    Some((ps, pd)) => push_word_spec(acc, ps, pd, s.subrange(from, st)),
                    None => acc,
                };
                assert forall|i: int| 0 <= i < acc2.len() implies tagged_word(s, #[trigger] acc2[i]) by {
                    if pending is None {
                        assert(acc2[i] == acc[i]);
                    }
                }
                if from <= st < e <= s.len() {
                    assert(word_tag_at(s, st) matches Some((a, b, _)) && a == t && b == d);
                    lemma_words_from_tagged(s, e, Some((t, d)), acc2);
                    assert(words_from(s, from, pending, acc) == words_from(s, e, Some((t, d)), acc2));
                } else {
                    assert(words_from(s, from, pending, acc) == acc2);
                }
            },
            None => {
                let r = words_from(s, from, pending, acc);
                assert forall|i: int| 0 <= i < r.len() implies tagged_word(s, #[trigger] r[i]) by {
                    if pending is None {
                        assert(r == acc);
                    }
                }
            },
        }
    }
}

/// Each word of a YRC line carries the start and duration of its own word
/// tag `(start,duration,flag)`, in that order; only a line whose tags give no
/// word keeps its whole body as one word at the line's own time.
pub proof fn lemma_yrc_words_keep_tag_times(raw: Seq<char>)
    ensures
        yrc_line(raw) matches Some(l) ==> yrc_head(trim(raw)) matches Some((_, _, e)) && {
            let body = trim(raw).subrange(e, trim(raw).len() as int);
            ||| forall|i: int| 0 <= i < l.words.len() ==> tagged_word(body, #[trigger] l.words[i])
            ||| l.words == seq![WordView { at_ms: l.at_ms, dur_ms: l.dur_ms, text: trim(body) }]
        },
{
    let t = trim(raw);
    match yrc_head(t) {
        Some((at, dur, e)) => {
            let body = t.subrange(e, t.len() as int);
            lemma_words_from_tagged(body, 0, None, Seq::empty());
        },
        None => {},
    }
}

/// Every line `parse_yrc` gives is what some input line gives on its own.
pub proof fn lemma_yrc_fold_lines(ls: Seq<Seq<char>>)
    ensures
        forall|i: int|
            0 <= i < yrc_fold(ls).len() ==> exists|j: int|
                0 <= j < ls.len() && yrc_line(#[trigger] ls[j]) == Some(#[trigger] yrc_fold(ls)[i]),
    decreases ls.len(),
{
    if ls.len() > 0 {
        lemma_yrc_fold_lines(ls.drop_last());
        let r = yrc_fold(ls.drop_last());
        assert forall|i: int| 0 <= i < yrc_fold(ls).len() implies exists|j: int|
            0 <= j < ls.len() && yrc_line(#[trigger] ls[j]) == Some(#[trigger] yrc_fold(ls)[i]) by {
            if i < r.len() {
                assert(yrc_fold(ls)[i] == r[i]);
                let j = choose|j: int|
                    0 <= j < ls.drop_last().len() && yrc_line(#[trigger] ls.drop_last()[j]) == Some(
                        #[trigger] r[i],
                    );
                assert(ls[j] == ls.drop_last()[j]);
            } else {
                assert(yrc_line(ls[ls.len() - 1]) == Some(yrc_fold(ls)[i]));
            }
        }
    }
}

proof fn lemma_dval_mono(s: Seq<char>, i: int, a: nat, b: nat)
    requires
        a <= b,
    ensures
        dval(s, i, a) <= dval(s, i, b),
    decreases b,
{
    if a < b {
        lemma_dval_mono(s, i, a, (b - 1) as nat);
    }
}

fn run_len(v: &Vec<char>, i: usize) -> (n: usize)
    ensures
        n == digit_run(v@, i as int),
        i <= v.len() ==> i + n <= v.len(),
        i > v.len() ==> n == 0,
{
    if i > v.len() {
        return 0;
    }
    let mut j = i;
    while j < v.len() && '0' <= v[j] && v[j] <= '9'
        invariant
            i <= j <= v.len(),
            digit_run(v@, i as int) == (j - i) + digit_run(v@, j as int),
        decreases v.len() - j,
    {
        j = j + 1;
    }
    j - i
}

/// `n` digits from index `i` as a `u64`, or zero when the value does not fit.
fn digits_u64_or_zero(v: &Vec<char>, i: usize, n: usize) -> (r: u64)
    requires
        i + n <= v.len(),
        forall|k: int| i <= k < i + n ==> crate::text::is_ascii_digit(#[trigger] v@[k]),
    ensures
        r == u64_or_zero(v@, i as int, n as nat),
{
    let mut acc: u128 = 0;
    let mut over = false;
    let mut k: usize = 0;
    while k < n
        invariant
            k <= n,
            i + n <= v.len(),
            forall|q: int| i <= q < i + n ==> crate::text::is_ascii_digit(#[trigger] v@[q]),
            !over ==> acc == dval(v@, i as int, k as nat) && acc <= u64::MAX,
            over ==> dval(v@, i as int, k as nat) > u64::MAX,
        decreases n - k,
    {
        assert(crate::text::is_ascii_digit(v@[i + k]));
        if !over {
            let d = (v[i + k] as u32 - '0' as u32) as u128;
            let next = acc * 10 + d;
            if next > 0xFFFF_FFFF_FFFF_FFFFu128 {
                over = true;
            } else {
                acc = next;
            }
        } else {
            proof {
                lemma_dval_mono(v@, i as int, k as nat, (k + 1) as nat);
            }
        }
        k = k + 1;
    }
    if over {
        0
    } else {
        acc as u64
    }
}

proof fn lemma_run_digits(s: Seq<char>, i: int)
    ensures
        forall|k: int| i <= k < i + digit_run(s, i) ==> crate::text::is_ascii_digit(#[trigger] s[k]),
        digit_run(s, i) > 0 ==> 0 <= i && i + digit_run(s, i) <= s.len(),
    decreases s.len() - i,
{
    if 0 <= i < s.len() && crate::text::is_ascii_digit(s[i]) {
        lemma_run_digits(s, i + 1);
    }
}

fn head_of(t: &Vec<char>) -> (r: Option<(u64, u64, usize)>)
    ensures
        match yrc_head(t@) {
            Some((a, d, e)) => r == Some((a, d, e as usize)) && 0 <= e <= t.len(),
            None => r is None,
        },
{
    let a = run_len(t, 1);
    proof {
        lemma_run_digits(t@, 1);
    }
    if !(t.len() > 0 && t[0] == '[' && a >= 1 && 1 + a < t.len() && t[1 + a] == ',') {
        return None;
    }
    let b = run_len(t, 2 + a);
    proof {
        lemma_run_digits(t@, 2 + a);
    }
    if b >= 1 && 2 + a + b < t.len() && t[2 + a + b] == ']' {
        let x = digits_u64_or_zero(t, 1, a);
        let y = digits_u64_or_zero(t, 2 + a, b);
        Some((x, y, 3 + a + b))
    } else {
        None
    }
}

fn word_tag(s: &Vec<char>, p: usize) -> (r: Option<(u64, u64, usize)>)
    requires
        p < s.len(),
    ensures
        match word_tag_at(s@, p as int) {
            Some((a, d, e)) => r == Some((a, d, e as usize)) && p < e <= s.len(),
            None => r is None,
        },
{
    if s[p] != '(' {
        return None;
    }
    let a = run_len(s, p + 1);
    proof {
        lemma_run_digits(s@, p + 1);
    }
    if !(a >= 1 && p + 1 + a < s.len() && s[p + 1 + a] == ',') {
        return None;
    }
    let b = run_len(s, p + 2 + a);
    proof {
        lemma_run_digits(s@, p + 2 + a);
    }
    if !(b >= 1 && p + 2 + a + b < s.len() && s[p + 2 + a + b] == ',') {
        return None;
    }
    let q = p + 3 + a + b;
    let neg: usize = if q < s.len() && s[q] == '-' {
        1
    } else {
        0
    };
    let c = run_len(s, q + neg);
    proof {
        lemma_run_digits(s@, (q + neg) as int);
    }
    if c >= 1 && q + neg + c < s.len() && s[q + neg + c] == ')' {
        let x = digits_u64_or_zero(s, p + 1, a);
        let y = digits_u64_or_zero(s, p + 2 + a, b);
        Some((x, y, q + neg + c + 1))
    } else {
        None
    }
}

fn next_tag(s: &Vec<char>, from: usize) -> (r: Option<(usize, u64, u64, usize)>)
    ensures
        match next_word_tag(s@, from as int) {
            Some((st, a, d, e)) => r == Some((st as usize, a, d, e as usize)) && from <= st < e
                <= s.len(),
            None => r is None,
        },
{
    let mut p = from;
    while p < s.len()
        invariant
            from <= p,
            next_word_tag(s@, from as int) == next_word_tag(s@, p as int),
        decreases s.len() - p,
    {
        match word_tag(s, p) {
            Some((a, d, e)) => {
                return Some((p, a, d, e));
            },
            None => {},
        }
        p = p + 1;
    }
    None
}

fn push_word(words: &mut Vec<VerbatimWord>, at_ms: u64, dur_ms: u64, text: &Vec<char>)
    ensures
        final(words).deep_view() == push_word_spec(old(words).deep_view(), at_ms, dur_ms, text@),
{
    let t = trim_vec(text);
    if t.len() == 0 {
        return;
    }
    let w = VerbatimWord { at_ms, dur_ms, text: crate::text::string_of(&t) };
    let ghost wv = w.deep_view();
    let ghost before = words.deep_view();
    words.push(w);
    assert(words.deep_view() =~= before.push(wv));
}

fn parse_line_words(body: &Vec<char>) -> (r: Vec<VerbatimWord>)
    ensures
        r.deep_view() == words_from(body@, 0, None, Seq::empty()),
{
    let mut words: Vec<VerbatimWord> = Vec::new();
    assert(words.deep_view() =~= Seq::<WordView>::empty());
    let mut cursor: usize = 0;
    let mut pending: Option<(u64, u64)> = None;
    loop
        invariant
            cursor <= body.len(),
            words_from(body@, 0, None, Seq::empty()) == words_from(
                body@,
                cursor as int,
                pending,
                words.deep_view(),
            ),
        decreases body.len() - cursor,
    {
        match next_tag(body, cursor) {
            Some((st, a, d, e)) => {
                match pending {
                    Some((ps, pd)) => {
                        let chunk = slice_vec(body, cursor, st);
                        push_word(&mut words, ps, pd, &chunk);
                    },
                    None => {},
                }
                pending = Some((a, d));
                cursor = e;
            },
            None => {
                match pending {
                    Some((ps, pd)) => {
                        let chunk = slice_vec(body, cursor, body.len());
                        push_word(&mut words, ps, pd, &chunk);
                    },
                    None => {},
                }
                return words;
            },
        }
    }
}

/// Parses NetEase YRC text, e.g. `[0,1000](0,500,0) 作词 : (500,500,0)周杰伦`.
pub fn parse_yrc(text: &str) -> (r: VerbatimData)
    ensures
        r.lines.deep_view() == yrc_fold(str_lines(text@)),
{
    let v = chars_of(text);
    let ls = lines_of(&v);
    let mut lines: Vec<VerbatimLine> = Vec::new();
    let mut i: usize = 0;
    while i < ls.len()
        invariant
            i <= ls.len(),
            ls.deep_view() == str_lines(text@),
            lines.deep_view() == yrc_fold(ls.deep_view().take(i as int)),
        decreases ls.len() - i,
    {
        assert(ls[i as int].deep_view() =~= ls[i as int]@);
        assert(ls.deep_view().take(i + 1).drop_last() == ls.deep_view().take(i as int));
        let raw = trim_vec(&ls[i]);
        match head_of(&raw) {
            Some((at_ms, dur_ms, e)) => {
                let body = slice_vec(&raw, e, raw.len());
                let mut words = parse_line_words(&body);
                if words.len() == 0 {
                    let t = trim_vec(&body);
                    if t.len() > 0 {
                        let w = VerbatimWord { at_ms, dur_ms, text: crate::text::string_of(&t) };
                        let ghost wv = w.deep_view();
                        words.push(w);
                        assert(words.deep_view() =~= seq![wv]);
                    }
                }
                if words.len() > 0 {
                    let l = VerbatimLine { at_ms, dur_ms, words };
                    let ghost lv = l.deep_view();
                    let ghost before = lines.deep_view();
                    lines.push(l);
                    assert(lines.deep_view() =~= before.push(lv));
                }
            },
            None => {},
        }
        i = i + 1;
    }
    assert(ls.deep_view().take(ls.len() as int) == ls.deep_view());
    VerbatimData { lines }
}

/// Word texts of a line, joined.
pub open spec fn join_words(ws: Seq<WordView>) -> Seq<char>
    decreases ws.len(),
{
    if ws.len() == 0 {
        Seq::empty()
    } else {
        join_words(ws.drop_last()) + ws.last().text
    }
}

pub open spec fn downgrade_spec(ls: Seq<VLineView>) -> Seq<LineView> {
    Seq::new(ls.len(), |i: int| line_spec(ls[i].at_ms, join_words(ls[i].words)))
}

/// Word-timed lines as plain LRC lines: line times kept, word texts joined.
pub fn downgrade_to_lines(data: &VerbatimData) -> (r: Vec<LyricLine>)
    ensures
        r.deep_view() == downgrade_spec(data.lines.deep_view()),
{
    let ghost dv = data.lines.deep_view();
    let mut out: Vec<LyricLine> = Vec::new();
    let mut i: usize = 0;
    while i < data.lines.len()
        invariant
            i <= data.lines.len(),
            dv == data.lines.deep_view(),
            out.deep_view() == downgrade_spec(dv).take(i as int),
        decreases data.lines.len() - i,
    {
        let l = &data.lines[i];
        let ghost wv = l.words.deep_view();
        assert(wv == dv[i as int].words);
        let mut text: Vec<char> = Vec::new();
        let mut k: usize = 0;
        while k < l.words.len()
            invariant
                k <= l.words.len(),
                wv == l.words.deep_view(),
                text@ == join_words(wv.take(k as int)),
            decreases l.words.len() - k,
        {
            let w = chars_of(l.words[k].text.as_str());
            assert(wv.take(k + 1).drop_last() == wv.take(k as int));
            assert(wv.take(k + 1).last().text == w@);
            append_vec(&mut text, &w);
            k = k + 1;
        }
        assert(wv.take(l.words.len() as int) == wv);
        let line = LyricLine::from_chars(l.at_ms, &text);
        let ghost lv = line@;
        let ghost before = out.deep_view();
        out.push(line);
        assert(out.deep_view() =~= before.push(lv));
        assert(downgrade_spec(dv).take(i + 1) =~= downgrade_spec(dv).take(i as int).push(lv));
        i = i + 1;
    }
    assert(downgrade_spec(dv).take(data.lines.len() as int) =~= downgrade_spec(dv));
    out
}

/// Word timing is usable: some lines, times never more than a millisecond
/// backwards, no line longer than five minutes, fewer than 20000 lines.
pub open spec fn sane_spec(ls: Seq<VLineView>) -> bool {
    &&& ls.len() > 0
    &&& forall|k: int| 1 <= k < ls.len() ==> #[trigger] ls[k].at_ms + 1 >= ls[k - 1].at_ms
    &&& forall|k: int| 0 <= k < ls.len() ==> #[trigger] ls[k].dur_ms <= 300_000
    &&& ls.len() < 20000
}

/// Minimal check of word-timed data before it is used.
pub fn looks_sane(data: &VerbatimData) -> (r: bool)
    ensures
        r == sane_spec(data.lines.deep_view()),
{
    let ghost dv = data.lines.deep_view();
    if data.lines.len() == 0 {
        return false;
    }
    let mut last: u64 = 0;
    let mut i: usize = 0;
    while i < data.lines.len()
        invariant
            i <= data.lines.len(),
            dv == data.lines.deep_view(),
            i > 0 ==> last == dv[i - 1].at_ms,
            forall|k: int| 1 <= k < i ==> #[trigger] dv[k].at_ms + 1 >= dv[k - 1].at_ms,
            forall|k: int| 0 <= k < i ==> #[trigger] dv[k].dur_ms <= 300_000,
        decreases data.lines.len() - i,
    {
        let l = &data.lines[i];
        assert(l.at_ms == dv[i as int].at_ms && l.dur_ms == dv[i as int].dur_ms);
        if i > 0 && (l.at_ms as u128) + 1 < last as u128 {
            assert(dv[i as int].at_ms + 1 < dv[i - 1].at_ms);
            return false;
        }
        last = l.at_ms;
        if l.dur_ms > 300_000 {
            return false;
        }
        i = i + 1;
    }
    data.lines.len() < 20000
}

} // verus!
