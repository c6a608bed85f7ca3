//! Text normalisation for matching.
//!
//! Pure functions without I/O: scoring depends on them entirely. This is text
//! used for matching; the lyric format's own clean-up is in `lrc::normalize`.

use vstd::prelude::*;
use crate::text::{
    append_vec, chars_of, contains_char, ends_with, ends_with_vec, is_last_occurrence, is_whitespace,
    is_ws, lower_seq, lower_vec, occurs_at, rfind, rtrim, slice_vec, string_of, trim, trim_vec,
};

verus! {

/// A code point that `char::from_u32` accepts.
pub open spec fn valid_scalar(n: u32) -> bool {
    n < 0xD800 || (0xE000 <= n && n <= 0x10FFFF)
}

/// Calls `char::from_u32`: `Some` exactly for valid scalar values, holding that character.
#[verifier::external_body]
pub fn char_from_u32(n: u32) -> (r: Option<char>)
    ensures
        match r {
            Some(c) => valid_scalar(n) && c as u32 == n && c == n as char,
            None => !valid_scalar(n),
        },
{
    char::from_u32(n)
}

/// What `fast2s::convert` makes of a text (traditional to simplified Chinese).
pub uninterp spec fn simplified(s: Seq<char>) -> Seq<char>;

/// What `html_escape::decode_html_entities` makes of a text.
pub uninterp spec fn html_decoded(s: Seq<char>) -> Seq<char>;

/// What `str::to_lowercase` makes of a text (full Unicode case mapping).
pub uninterp spec fn lowercase(s: Seq<char>) -> Seq<char>;

/// Calls `fast2s::convert`. Its source maps each character to one character,
/// and passes every character whose UTF-8 form is not three bytes long through
/// unchanged; which three-byte characters it replaces is left to the name.
#[verifier::external_body]
fn fast2s_convert(s: &str) -> (r: String)
    ensures
        r@ == simplified(s@),
        r@.len() == s@.len(),
        forall|i: int|
            0 <= i < s@.len() && ((s@[i] as u32) < 0x800 || (s@[i] as u32) > 0xFFFF) ==> r@[i]
                == s@[i],
{
    fast2s::convert(s)
}

/// Calls `html_escape::decode_html_entities`. An entity starts with `&`, so a
/// text without `&` comes back unchanged, as its source shows; other texts are
/// only named.
#[verifier::external_body]
pub fn decode_html(s: &str) -> (r: String)
    ensures
        r@ == html_decoded(s@),
        !s@.contains('&') ==> r@ == s@,
{
    html_escape::decode_html_entities(s).into_owned()
}

/// Calls `str::to_lowercase`; only its name is claimed.
#[verifier::external_body]
pub fn to_lowercase_str(s: &str) -> (r: String)
    ensures
        r@ == lowercase(s@),
{
    s.to_lowercase()
}

pub open spec fn fw_char(c: char) -> char {
    if c == '\u{3000}' {
        ' '
    } else if '\u{FF01}' <= c && c <= '\u{FF5E}' {
        ((c as u32) - 0xFEE0) as char
    } else {
        c
    }
}

pub open spec fn fullwidth_spec(s: Seq<char>) -> Seq<char> {
    s.map_values(|c: char| fw_char(c))
}

pub fn fullwidth_vec(v: &Vec<char>) -> (r: Vec<char>)
    ensures
        r@ == fullwidth_spec(v@),
{
    let mut r: Vec<char> = Vec::new();
    let mut i: usize = 0;
    while i < v.len()
        invariant
            i <= v.len(),
            r@ == fullwidth_spec(v@.take(i as int)),
        decreases v.len() - i,
    {
        let c = v[i];
        let d = if c == '\u{3000}' {
            ' '
        } else if '\u{FF01}' <= c && c <= '\u{FF5E}' {
            match char_from_u32(c as u32 - 0xFEE0) {
                Some(x) => x,
                None => c,
            }
        } else {
            c
        };
        r.push(d);
        assert(fullwidth_spec(v@.take(i + 1)) =~= fullwidth_spec(v@.take(i as int)).push(
            fw_char(c),
        ));
        i = i + 1;
    }
    assert(v@.take(v.len() as int) == v@);
    r
}

/// Full-width to half-width: `ＡＢＣ１２３` becomes `ABC123`, the ideographic space a space.
pub fn fullwidth_to_halfwidth(s: &str) -> (r: String)
    ensures
        r@ == fullwidth_spec(s@),
{
    let v = chars_of(s);
    let w = fullwidth_vec(&v);
    string_of(&w)
}

pub open spec fn is_open_bracket(c: char) -> bool {
    c == '(' || c == '[' || c == '（' || c == '【' || c == '〔' || c == '《'
}

pub open spec fn is_close_bracket(c: char) -> bool {
    c == ')' || c == ']' || c == '）' || c == '】' || c == '〕' || c == '》'
}

/// Nesting depth and kept text after reading `s`.
pub open spec fn bracket_state(s: Seq<char>) -> (nat, Seq<char>)
    decreases s.len(),
{
    if s.len() == 0 {
        (0, Seq::empty())
    } else {
        let st = bracket_state(s.drop_last());
        let c = s.last();
        if is_open_bracket(c) {
            (st.0 + 1, st.1)
        } else if is_close_bracket(c) {
            (if st.0 > 0 {
                (st.0 - 1) as nat
            } else {
                0
            }, st.1)
        } else if st.0 == 0 {
            (st.0, st.1.push(c))
        } else {
            st
        }
    }
}

proof fn lemma_bracket_depth(s: Seq<char>)
    ensures
        bracket_state(s).0 <= s.len(),
    decreases s.len(),
{
    if s.len() > 0 {
        lemma_bracket_depth(s.drop_last());
    }
}

pub fn strip_bracketed_vec(v: &Vec<char>) -> (r: Vec<char>)
    ensures
        r@ == bracket_state(v@).1,
{
    let mut out: Vec<char> = Vec::new();
    let mut depth: usize = 0;
    let mut i: usize = 0;
    while i < v.len()
        invariant
            i <= v.len(),
            (depth as nat, out@) == bracket_state(v@.take(i as int)),
        decreases v.len() - i,
    {
        proof {
            lemma_bracket_depth(v@.take(i as int));
        }
        assert(v@.take(i + 1).drop_last() == v@.take(i as int));
        let c = v[i];
        if c == '(' || c == '[' || c == '（' || c == '【' || c == '〔' || c == '《' {
            depth = depth + 1;
        } else if c == ')' || c == ']' || c == '）' || c == '】' || c == '〕' || c == '》' {
            depth = if depth > 0 {
                depth - 1
            } else {
                0
            };
        } else if depth == 0 {
            out.push(c);
        }
        i = i + 1;
    }
    assert(v@.take(v.len() as int) == v@);
    out
}


/// `a` is `b` with some characters left out: `idx` gives, in increasing
/// order, where each character of `a` stands in `b`.
pub open spec fn picks(a: Seq<char>, b: Seq<char>, idx: Seq<int>) -> bool {
    &&& idx.len() == a.len()
    &&& forall|k: int| 0 <= k < idx.len() ==> 0 <= #[trigger] idx[k] < b.len() && b[idx[k]] == a[k]
    &&& forall|k: int, m: int| 0 <= k < m < idx.len() ==> #[trigger] idx[k] < #[trigger] idx[m]
}

proof fn lemma_bracket_picks(s: Seq<char>) -> (idx: Seq<int>)
    ensures
        picks(bracket_state(s).1, s, idx),
        forall|k: int| 0 <= k < bracket_state(s).1.len() ==> !is_open_bracket(
            #[trigger] bracket_state(s).1[k],
        ) && !is_close_bracket(bracket_state(s).1[k]),
        (forall|k: int| 0 <= k < s.len() ==> !is_open_bracket(#[trigger] s[k]) && !is_close_bracket(
            s[k],
        )) ==> bracket_state(s) == (0nat, s),
    decreases s.len(),
{
    if s.len() == 0 {
        Seq::empty()
    } else {
        let t = s.drop_last();
        let pi = lemma_bracket_picks(t);
        let st = bracket_state(t);
        let c = s.last();
        if (forall|k: int| 0 <= k < s.len() ==> !is_open_bracket(#[trigger] s[k]) && !is_close_bracket(
            s[k],
        )) {
            assert forall|k: int| 0 <= k < t.len() implies !is_open_bracket(#[trigger] t[k])
                && !is_close_bracket(t[k]) by {
                assert(t[k] == s[k]);
            }
            assert(!is_open_bracket(s[s.len() - 1]) && !is_close_bracket(s[s.len() - 1]));
            assert(t.push(c) =~= s);
        }
        if !is_open_bracket(c) && !is_close_bracket(c) && st.0 == 0 {
            let idx = pi.push(t.len() as int);
            let out = st.1.push(c);
            assert forall|k: int| 0 <= k < idx.len() implies 0 <= #[trigger] idx[k] < s.len()
                && s[idx[k]] == out[k] by {
                if k < pi.len() {
                    assert(idx[k] == pi[k]);
                    assert(s[pi[k]] == t[pi[k]]);
                }
            }
            assert forall|k: int| 0 <= k < out.len() implies !is_open_bracket(#[trigger] out[k])
                && !is_close_bracket(out[k]) by {
                if k < st.1.len() {
                    assert(out[k] == st.1[k]);
                }
            }
            idx
        } else {
            assert forall|k: int| 0 <= k < pi.len() implies 0 <= #[trigger] pi[k] < s.len()
                && s[pi[k]] == st.1[k] by {
                assert(s[pi[k]] == t[pi[k]]);
            }
            pi
        }
    }
}

/// What bracket stripping keeps is the text outside brackets: no bracket is
/// left, the kept characters come from the text in their order, and a text
/// without brackets is kept whole.
pub proof fn lemma_strip_bracketed_law(s: Seq<char>)
    ensures
        exists|idx: Seq<int>| picks(bracket_state(s).1, s, idx),
        forall|k: int| 0 <= k < bracket_state(s).1.len() ==> !is_open_bracket(
            #[trigger] bracket_state(s).1[k],
        ) && !is_close_bracket(bracket_state(s).1[k]),
        (forall|k: int| 0 <= k < s.len() ==> !is_open_bracket(#[trigger] s[k]) && !is_close_bracket(
            s[k],
        )) ==> bracket_state(s).1 == s,
{
    let idx = lemma_bracket_picks(s);
}

/// Removes bracketed parts and the brackets: `(Live)`, `[Remastered]`, `【高清】`, `（伴奏）`.
pub fn strip_bracketed(s: &str) -> (r: String)
    ensures
        r@ == bracket_state(s@).1,
        forall|k: int| 0 <= k < r@.len() ==> !is_open_bracket(#[trigger] r@[k]) && !is_close_bracket(r@[k]),
        exists|idx: Seq<int>| picks(r@, s@, idx),
        (forall|k: int| 0 <= k < s@.len() ==> !is_open_bracket(#[trigger] s@[k]) && !is_close_bracket(
            s@[k],
        )) ==> r@ == s@,
{
    proof {
        lemma_strip_bracketed_law(s@);
    }
    let v = chars_of(s);
    let w = strip_bracketed_vec(&v);
    string_of(&w)
}

/// Where `str::rfind` finds `p` in `s`.
pub open spec fn rfind_spec(s: Seq<char>, p: Seq<char>) -> Option<int> {
    if exists|i: int| occurs_at(s, p, i) {
        Some(choose|i: int| is_last_occurrence(s, p, i))
    } else {
        None
    }
}

proof fn lemma_last_occurrence_unique(s: Seq<char>, p: Seq<char>, i: int, j: int)
    requires
        is_last_occurrence(s, p, i),
        is_last_occurrence(s, p, j),
    ensures
        i == j,
{
}

/// The suffixes that downloaders and cloud drives add, in lower case.
pub open spec fn noise_suffixes() -> Seq<Seq<char>> {
    seq![
        "的副本"@,
        "- 副本"@,
        "_副本"@,
        "_official"@,
        "-official"@,
        "_hq"@,
        "_hd"@,
        " 副本"@,
    ]
}

pub open spec fn audio_exts() -> Seq<Seq<char>> {
    seq![
        ".mp3"@,
        ".flac"@,
        ".m4a"@,
        ".ogg"@,
        ".opus"@,
        ".wav"@,
        ".aiff"@,
        ".ape"@,
        ".wv"@,
        ".wma"@,
    ]
}

/// Cuts the last occurrence of `suf` (matched ignoring ASCII case) while nothing
/// but white space follows it, as often as that holds.
pub open spec fn cut_suffix(t: Seq<char>, suf: Seq<char>) -> Seq<char>
    decreases t.len(),
{
    let lower = lower_seq(t);
    match rfind_spec(lower, suf) {
        Some(idx) => if idx + suf.len() >= rtrim(lower).len() && 0 <= idx < t.len() {
            cut_suffix(t.take(idx), suf)
        } else {
            t
        },
        None => t,
    }
}

pub open spec fn cut_suffixes(t: Seq<char>, n: nat) -> Seq<char>
    decreases n,
{
    if n == 0 {
        t
    } else {
        cut_suffix(cut_suffixes(t, (n - 1) as nat), noise_suffixes()[n - 1])
    }
}

/// The first audio extension (in list order) that `t` ends with, ignoring ASCII case.
pub open spec fn first_ext(t: Seq<char>, k: nat) -> Option<nat>
    decreases 10 - k,
{
    if k >= 10 {
        None
    } else if ends_with(lower_seq(t), audio_exts()[k as int]) {
        Some(k)
    } else {
        first_ext(t, k + 1)
    }
}

proof fn lemma_first_ext(t: Seq<char>, k: nat)
    ensures
        first_ext(t, k) matches Some(j) ==> j < 10 && ends_with(lower_seq(t), audio_exts()[j as int]),
    decreases 10 - k,
{
    if k < 10 && !ends_with(lower_seq(t), audio_exts()[k as int]) {
        lemma_first_ext(t, k + 1);
    }
}

proof fn lemma_cut_suffix_absent(x: Seq<char>, suf: Seq<char>)
    requires
        forall|i: int| !#[trigger] occurs_at(lower_seq(x), suf, i),
    ensures
        cut_suffix(x, suf) == x,
{
    assert(rfind_spec(lower_seq(x), suf) is None);
}

proof fn lemma_cut_suffixes_absent(x: Seq<char>, n: nat)
    requires
        n <= 8,
        forall|j: int, i: int| 0 <= j < 8 ==> !#[trigger] occurs_at(lower_seq(x), noise_suffixes()[j], i),
    ensures
        cut_suffixes(x, n) == x,
    decreases n,
{
    if n > 0 {
        lemma_cut_suffixes_absent(x, (n - 1) as nat);
        assert forall|i: int| !#[trigger] occurs_at(lower_seq(x), noise_suffixes()[n - 1], i) by {
            assert(!occurs_at(lower_seq(x), noise_suffixes()[(n - 1) as int], i));
        }
        lemma_cut_suffix_absent(x, noise_suffixes()[n - 1]);
    }
}

proof fn lemma_first_ext_at(x: Seq<char>, j: nat, k: nat)
    requires
        j <= k < 10,
        forall|m: nat| j <= m < k ==> !ends_with(lower_seq(x), #[trigger] audio_exts()[m as int]),
        ends_with(lower_seq(x), audio_exts()[k as int]),
    ensures
        first_ext(x, j) == Some(k),
    decreases k - j,
{
    if j < k {
        assert(!ends_with(lower_seq(x), audio_exts()[j as int]));
        lemma_first_ext_at(x, j + 1, k);
    }
}

/// A title that came with an audio file's extension loses it: for each of
/// the extensions `.mp3 .flac .m4a .ogg .opus .wav .aiff .ape .wv .wma`, a
/// title without download-noise suffixes normalises as if it had none.
pub proof fn lemma_audio_extension_dropped(t: Seq<char>, ext: Seq<char>)
    requires
        ext == ".mp3"@ || ext == ".flac"@ || ext == ".m4a"@ || ext == ".ogg"@ || ext == ".opus"@
            || ext == ".wav"@ || ext == ".aiff"@ || ext == ".ape"@ || ext == ".wv"@ || ext == ".wma"@,
        forall|j: int, i: int|
            0 <= j < 8 ==> !#[trigger] occurs_at(lower_seq(t + ext), noise_suffixes()[j], i),
    ensures
        strip_noise_spec(t + ext) == trim(t),
{
    reveal_strlit(".mp3");
    reveal_strlit(".flac");
    reveal_strlit(".m4a");
    reveal_strlit(".ogg");
    reveal_strlit(".opus");
    reveal_strlit(".wav");
    reveal_strlit(".aiff");
    reveal_strlit(".ape");
    reveal_strlit(".wv");
    reveal_strlit(".wma");
    let exts = audio_exts();
    let k: int = if ext == ".mp3"@ {
        0
    } else if ext == ".flac"@ {
        1
    } else if ext == ".m4a"@ {
        2
    } else if ext == ".ogg"@ {
        3
    } else if ext == ".opus"@ {
        4
    } else if ext == ".wav"@ {
        5
    } else if ext == ".aiff"@ {
        6
    } else if ext == ".ape"@ {
        7
    } else if ext == ".wv"@ {
        8
    } else {
        9
    };
    let e = ext;
    assert(exts[k] == e);
    let x = t + e;
    lemma_cut_suffixes_absent(x, 8);
    assert(lower_seq(e) =~= e);
    let lx = lower_seq(x);
    assert(lx =~= lower_seq(t) + e);
    assert(e.len() >= 3);
    assert(lx.subrange(lx.len() - e.len(), lx.len() as int) =~= e);
    assert(ends_with(lx, audio_exts()[k]));
    assert forall|m: nat| 0 <= m < k implies !ends_with(lx, #[trigger] audio_exts()[m as int]) by {
        let p = exts[m as int];
        assert(p.len() >= 3);
        assert(p[p.len() - 1] != e[e.len() - 1] || p[p.len() - 2] != e[e.len() - 2]);
        if ends_with(lx, p) {
            let i = lx.len() - p.len();
            assert(lx.subrange(i, lx.len() as int)[p.len() - 1] == lx[lx.len() - 1]);
            assert(lx.subrange(i, lx.len() as int)[p.len() - 2] == lx[lx.len() - 2]);
            assert(lx[lx.len() - 1] == e[e.len() - 1]);
            assert(lx[lx.len() - 2] == e[e.len() - 2]);
        }
    }
    lemma_first_ext_at(x, 0, k as nat);
    assert(x.take(x.len() - e.len()) =~= t);
}

pub open spec fn strip_noise_spec(s: Seq<char>) -> Seq<char> {
    let t = cut_suffixes(s, 8);
    let u = match first_ext(t, 0) {
        Some(k) => t.take(t.len() - audio_exts()[k as int].len()),
        None => t,
    };
    trim(u)
}

fn rtrim_len(v: &Vec<char>) -> (n: usize)
    ensures
        n == rtrim(v@).len(),
{
    let mut j = v.len();
    assert(v@.subrange(0, j as int) == v@);
    while j > 0 && is_whitespace(v[j - 1])
        invariant
            j <= v.len(),
            rtrim(v@) == rtrim(v@.subrange(0, j as int)),
        decreases j,
    {
        assert(v@.subrange(0, j as int).drop_last() == v@.subrange(0, j - 1));
        j = j - 1;
    }
    proof {
        crate::text::lemma_rtrim_len(v@.subrange(0, j as int));
        if j > 0 {
            assert(v@.subrange(0, j as int).last() == v@[j - 1]);
        }
    }
    j
}

fn cut_suffix_vec(t: Vec<char>, suf: &Vec<char>) -> (r: Vec<char>)
    ensures
        r@ == cut_suffix(t@, suf@),
    decreases t.len(),
{
    let lower = lower_vec(&t);
    match rfind(&lower, suf) {
        Some(idx) => {
            let ghost l = lower@;
            proof {
                assert(exists|i: int| occurs_at(l, suf@, i));
                let c = choose|i: int| is_last_occurrence(l, suf@, i);
                lemma_last_occurrence_unique(l, suf@, idx as int, c);
            }
            let end = rtrim_len(&lower);
            if idx + suf.len() >= end && idx < t.len() {
                let cut = slice_vec(&t, 0, idx);
                assert(cut@ == t@.take(idx as int));
                cut_suffix_vec(cut, suf)
            } else {
                t
            }
        },
        None => {
            assert(!exists|i: int| occurs_at(lower@, suf@, i));
            t
        },
    }
}

/// Removes noise suffixes (`_Official`, `- 副本`, `.mp3`, ...) and trims.
///
/// Case is folded with the ASCII mapping only, so positions in the folded copy
/// are positions in the original.
pub fn strip_noise(s: &str) -> (r: String)
    ensures
        r@ == strip_noise_spec(s@),
{
    let v = chars_of(s);
    let w = strip_noise_vec(&v);
    string_of(&w)
}

pub fn strip_noise_vec(v: &Vec<char>) -> (r: Vec<char>)
    ensures
        r@ == strip_noise_spec(v@),
{
    let suffixes: [&str; 8] = ["的副本", "- 副本", "_副本", "_official", "-official", "_hq", "_hd", " 副本"];
    assert(forall|k: int| 0 <= k < 8 ==> suffixes@[k]@ == #[trigger] noise_suffixes()[k]);
    let mut t = slice_vec(v, 0, v.len());
    assert(t@ == cut_suffixes(v@, 0));
    let mut k: usize = 0;
    while k < 8
        invariant
            k <= 8,
            forall|j: int| 0 <= j < 8 ==> suffixes@[j]@ == #[trigger] noise_suffixes()[j],
            t@ == cut_suffixes(v@, k as nat),
        decreases 8 - k,
    {
        let suf = chars_of(suffixes[k]);
        assert(suf@ == noise_suffixes()[k as int]);
        t = cut_suffix_vec(t, &suf);
        k = k + 1;
    }
    let exts: [&str; 10] = [".mp3", ".flac", ".m4a", ".ogg", ".opus", ".wav", ".aiff", ".ape", ".wv", ".wma"];
    assert(forall|j: int| 0 <= j < 10 ==> exts@[j]@ == #[trigger] audio_exts()[j]);
    let lower = lower_vec(&t);
    let mut e: usize = 0;
    let mut hit: Option<usize> = None;
    while e < 10
        invariant
            e <= 10,
            forall|j: int| 0 <= j < 10 ==> exts@[j]@ == #[trigger] audio_exts()[j],
            lower@ == lower_seq(t@),
            hit is None ==> first_ext(t@, 0) == first_ext(t@, e as nat),
            hit is Some ==> first_ext(t@, 0) == Some(hit->0 as nat) && hit->0 < 10,
        decreases 10 - e,
    {
        if hit.is_none() {
            let x = chars_of(exts[e]);
            assert(x@ == audio_exts()[e as int]);
            if ends_with_vec(&lower, &x) {
                hit = Some(e);
            }
        }
        e = e + 1;
    }
    let u = match hit {
        Some(k) => {
            let x = chars_of(exts[k]);
            assert(x@ == audio_exts()[k as int]);
            assert(lower@.len() == t@.len());
            proof {
                lemma_first_ext(t@, 0);
            }
            slice_vec(&t, 0, t.len() - x.len())
        },
        None => t,
    };
    trim_vec(&u)
}

/// Traditional to simplified Chinese: `周杰倫` becomes `周杰伦`.
pub fn to_simplified(s: &str) -> (r: String)
    ensures
        r@ == simplified(s@),
        r@.len() == s@.len(),
{
    fast2s_convert(s)
}

/// Words of a text split at white space, as `str::split_whitespace` gives them:
/// the finished words and the one being read.
pub open spec fn ws_state(s: Seq<char>) -> (Seq<Seq<char>>, Seq<char>)
    decreases s.len(),
{
    if s.len() == 0 {
        (Seq::empty(), Seq::empty())
    } else {
        let st = ws_state(s.drop_last());
        if is_ws(s.last()) {
            if st.1.len() > 0 {
                (st.0.push(st.1), Seq::empty())
            } else {
                st
            }
        } else {
            (st.0, st.1.push(s.last()))
        }
    }
}

pub open spec fn split_ws(s: Seq<char>) -> Seq<Seq<char>> {
    let st = ws_state(s);
    if st.1.len() > 0 {
        st.0.push(st.1)
    } else {
        st.0
    }
}

/// Words joined by single spaces.
pub open spec fn join_spaces(ws: Seq<Seq<char>>) -> Seq<char>
    decreases ws.len(),
{
    if ws.len() == 0 {
        Seq::empty()
    } else if ws.len() == 1 {
        ws[0]
    } else {
        join_spaces(ws.drop_last()) + seq![' '] + ws.last()
    }
}

pub open spec fn collapse_spec(s: Seq<char>) -> Seq<char> {
    join_spaces(split_ws(s))
}

pub fn collapse_vec(v: &Vec<char>) -> (r: Vec<char>)
    ensures
        r@ == collapse_spec(v@),
{
    let mut out: Vec<char> = Vec::new();
    let mut cur: Vec<char> = Vec::new();
    let mut n: usize = 0;
    let mut i: usize = 0;
    while i < v.len()
        invariant
            i <= v.len(),
            n == ws_state(v@.take(i as int)).0.len(),
            n <= i,
            out@ == join_spaces(ws_state(v@.take(i as int)).0),
            cur@ == ws_state(v@.take(i as int)).1,
        decreases v.len() - i,
    {
        let ghost st = ws_state(v@.take(i as int));
        assert(v@.take(i + 1).drop_last() == v@.take(i as int));
        let c = v[i];
        if is_whitespace(c) {
            if cur.len() > 0 {
                if n > 0 {
                    out.push(' ');
                }
                append_vec(&mut out, &cur);
                n = n + 1;
                cur = Vec::new();
                proof {
                    assert(st.0.push(st.1).drop_last() == st.0);
                    if st.0.len() == 0 {
                        assert(out@ =~= join_spaces(st.0.push(st.1)));
                    }
                }
            }
        } else {
            cur.push(c);
        }
        i = i + 1;
    }
    assert(v@.take(v.len() as int) == v@);
    if cur.len() > 0 {
        let ghost st = ws_state(v@);
        if n > 0 {
            out.push(' ');
        }
        append_vec(&mut out, &cur);
        proof {
            assert(st.0.push(st.1).drop_last() == st.0);
            if st.0.len() == 0 {
                assert(out@ =~= join_spaces(st.0.push(st.1)));
            }
        }
    }
    out
}


/// A word as white-space splitting gives it: not empty, no white space.
pub open spec fn plain_word(w: Seq<char>) -> bool {
    w.len() > 0 && forall|k: int| 0 <= k < w.len() ==> !is_ws(#[trigger] w[k])
}

proof fn lemma_ws_state_words(s: Seq<char>)
    ensures
        forall|i: int| 0 <= i < ws_state(s).0.len() ==> plain_word(#[trigger] ws_state(s).0[i]),
        forall|k: int| 0 <= k < ws_state(s).1.len() ==> !is_ws(#[trigger] ws_state(s).1[k]),
    decreases s.len(),
{
    if s.len() > 0 {
        lemma_ws_state_words(s.drop_last());
        let st = ws_state(s.drop_last());
        if is_ws(s.last()) {
            if st.1.len() > 0 {
                assert forall|i: int| 0 <= i < st.0.push(st.1).len() implies plain_word(
                    #[trigger] st.0.push(st.1)[i],
                ) by {
                    if i < st.0.len() {
                        assert(st.0.push(st.1)[i] == st.0[i]);
                    }
                }
            }
        } else {
            assert forall|k: int| 0 <= k < st.1.push(s.last()).len() implies !is_ws(
                #[trigger] st.1.push(s.last())[k],
            ) by {
                if k < st.1.len() {
                    assert(st.1.push(s.last())[k] == st.1[k]);
                }
            }
        }
    }
}

/// The words of any text are plain words.
proof fn lemma_split_ws_words(s: Seq<char>)
    ensures
        forall|i: int| 0 <= i < split_ws(s).len() ==> plain_word(#[trigger] split_ws(s)[i]),
{
    lemma_ws_state_words(s);
    let st = ws_state(s);
    if st.1.len() > 0 {
        assert forall|i: int| 0 <= i < split_ws(s).len() implies plain_word(#[trigger] split_ws(s)[i]) by {
            if i < st.0.len() {
                assert(split_ws(s)[i] == st.0[i]);
            }
        }
    }
}

proof fn lemma_ws_state_append_word(p: Seq<char>, w: Seq<char>)
    requires
        forall|k: int| 0 <= k < w.len() ==> !is_ws(#[trigger] w[k]),
    ensures
        ws_state(p + w) == (ws_state(p).0, ws_state(p).1 + w),
    decreases w.len(),
{
    if w.len() == 0 {
        assert(p + w =~= p);
        assert(ws_state(p).1 + w =~= ws_state(p).1);
    } else {
        let u = w.drop_last();
        lemma_ws_state_append_word(p, u);
        assert((p + w).drop_last() =~= p + u);
        assert((p + w).last() == w.last());
        assert(!is_ws(w[w.len() - 1]));
        assert((ws_state(p).1 + u).push(w.last()) =~= ws_state(p).1 + w);
    }
}

proof fn lemma_ws_state_join(ws: Seq<Seq<char>>)
    requires
        ws.len() > 0,
        forall|i: int| 0 <= i < ws.len() ==> plain_word(#[trigger] ws[i]),
    ensures
        ws_state(join_spaces(ws)) == (ws.drop_last(), ws.last()),
    decreases ws.len(),
{
    if ws.len() == 1 {
        assert(plain_word(ws[0]));
        lemma_ws_state_append_word(Seq::empty(), ws[0]);
        assert(Seq::<char>::empty() + ws[0] =~= ws[0]);
        assert(Seq::<char>::empty() + ws[0] =~= ws[0]);
        assert(ws.drop_last() =~= Seq::<Seq<char>>::empty());
    } else {
        let init = ws.drop_last();
        assert forall|i: int| 0 <= i < init.len() implies plain_word(#[trigger] init[i]) by {
            assert(init[i] == ws[i]);
        }
        lemma_ws_state_join(init);
        let j = join_spaces(init);
        let js = j + seq![' '];
        assert(js.drop_last() =~= j);
        assert(is_ws(' '));
        assert(plain_word(init.last()));
        assert(ws_state(js) == (init.drop_last().push(init.last()), Seq::<char>::empty()));
        assert(init.drop_last().push(init.last()) =~= init);
        assert(plain_word(ws[ws.len() - 1]));
        lemma_ws_state_append_word(js, ws.last());
        assert(join_spaces(ws) == js + ws.last());
        assert(Seq::<char>::empty() + ws.last() =~= ws.last());
    }
}

/// Splitting words joined by single spaces gives the words back.
proof fn lemma_split_join(ws: Seq<Seq<char>>)
    requires
        forall|i: int| 0 <= i < ws.len() ==> plain_word(#[trigger] ws[i]),
    ensures
        split_ws(join_spaces(ws)) == ws,
{
    if ws.len() == 0 {
        assert(join_spaces(ws) =~= Seq::<char>::empty());
    } else {
        lemma_ws_state_join(ws);
        assert(plain_word(ws[ws.len() - 1]));
        assert(ws.drop_last().push(ws.last()) =~= ws);
    }
}

/// Collapsing white space twice is collapsing it once, and a collapsed text
/// has the words of the original, in order.
pub proof fn lemma_collapse_idempotent(s: Seq<char>)
    ensures
        collapse_spec(collapse_spec(s)) == collapse_spec(s),
        split_ws(collapse_spec(s)) == split_ws(s),
{
    lemma_split_ws_words(s);
    lemma_split_join(split_ws(s));
}


proof fn lemma_join_shape(ws: Seq<Seq<char>>)
    requires
        forall|i: int| 0 <= i < ws.len() ==> plain_word(#[trigger] ws[i]),
    ensures
        forall|k: int|
            0 <= k < join_spaces(ws).len() && is_ws(#[trigger] join_spaces(ws)[k]) ==> {
                &&& join_spaces(ws)[k] == ' '
                &&& 0 < k < join_spaces(ws).len() - 1
                &&& !is_ws(join_spaces(ws)[k - 1])
                &&& !is_ws(join_spaces(ws)[k + 1])
            },
    decreases ws.len(),
{
    if ws.len() == 1 {
        assert(plain_word(ws[0]));
    } else if ws.len() > 1 {
        let init = ws.drop_last();
        assert forall|i: int| 0 <= i < init.len() implies plain_word(#[trigger] init[i]) by {
            assert(init[i] == ws[i]);
        }
        lemma_join_shape(init);
        let j = join_spaces(init);
        let l = ws.last();
        assert(plain_word(ws[ws.len() - 1]));
        assert(plain_word(init[init.len() - 1]));
        lemma_join_nonempty(init);
        let r = join_spaces(ws);
        assert(r == j + seq![' '] + l);
        assert forall|k: int| 0 <= k < r.len() && is_ws(#[trigger] r[k]) implies {
            &&& r[k] == ' '
            &&& 0 < k < r.len() - 1
            &&& !is_ws(r[k - 1])
            &&& !is_ws(r[k + 1])
        } by {
            if k < j.len() {
                assert(r[k] == j[k]);
                assert(r[k - 1] == j[k - 1]);
                assert(r[k + 1] == j[k + 1]);
            } else if k == j.len() {
                assert(r[k - 1] == j[j.len() - 1]);
                if is_ws(j[j.len() - 1]) {
                    assert(j.len() - 1 < j.len() - 1);
                }
                assert(r[k + 1] == l[0]);
            } else {
                assert(r[k] == l[k - j.len() - 1]);
            }
        }
    }
}

proof fn lemma_join_nonempty(ws: Seq<Seq<char>>)
    requires
        ws.len() > 0,
        forall|i: int| 0 <= i < ws.len() ==> plain_word(#[trigger] ws[i]),
    ensures
        join_spaces(ws).len() > 0,
    decreases ws.len(),
{
    if ws.len() == 1 {
        assert(plain_word(ws[0]));
    } else {
        let init = ws.drop_last();
        assert forall|i: int| 0 <= i < init.len() implies plain_word(#[trigger] init[i]) by {
            assert(init[i] == ws[i]);
        }
        lemma_join_nonempty(init);
    }
}

/// A collapsed text holds white space only as single spaces between other
/// characters: none leads, none trails, no two stand together.
pub proof fn lemma_collapse_shape(s: Seq<char>)
    ensures
        forall|k: int|
            0 <= k < collapse_spec(s).len() && is_ws(#[trigger] collapse_spec(s)[k]) ==> {
                &&& collapse_spec(s)[k] == ' '
                &&& 0 < k < collapse_spec(s).len() - 1
                &&& !is_ws(collapse_spec(s)[k - 1])
                &&& !is_ws(collapse_spec(s)[k + 1])
            },
{
    lemma_split_ws_words(s);
    lemma_join_shape(split_ws(s));
}

/// Runs of white space become one space; leading and trailing white space goes.
pub fn collapse_whitespace(s: &str) -> (r: String)
    ensures
        r@ == collapse_spec(s@),
        collapse_spec(r@) == r@,
        split_ws(r@) == split_ws(s@),
        forall|k: int|
            0 <= k < r@.len() && is_ws(#[trigger] r@[k]) ==> {
                &&& r@[k] == ' '
                &&& 0 < k < r@.len() - 1
                &&& !is_ws(r@[k - 1])
                &&& !is_ws(r@[k + 1])
            },
{
    proof {
        lemma_collapse_idempotent(s@);
        lemma_collapse_shape(s@);
    }
    let v = chars_of(s);
    let w = collapse_vec(&v);
    string_of(&w)
}

pub open spec fn normalize_spec(s: Seq<char>) -> Seq<char> {
    lowercase(collapse_spec(simplified(strip_noise_spec(bracket_state(fullwidth_spec(s)).1))))
}

/// The full normalisation chain for similarity: full-width to half-width,
/// brackets, noise, traditional to simplified, white space, lower case.
pub fn normalize(s: &str) -> (r: String)
    ensures
        r@ == normalize_spec(s@),
{
    let v = chars_of(s);
    let a = fullwidth_vec(&v);
    let b = strip_bracketed_vec(&a);
    let c = strip_noise_vec(&b);
    let cs = string_of(&c);
    let d = fast2s_convert(cs.as_str());
    let dv = chars_of(d.as_str());
    let e = collapse_vec(&dv);
    let es = string_of(&e);
    to_lowercase_str(es.as_str())
}

pub open spec fn display_title_spec(s: Seq<char>) -> Seq<char> {
    collapse_spec(
        unescape_spec(html_decoded(collapse_spec(bracket_state(fullwidth_spec(s)).1))),
    )
}

/// A title cleaned for display: brackets and entity residue removed, the
/// original script kept (no traditional-to-simplified conversion).
pub fn clean_display_title(s: &str) -> (r: String)
    ensures
        r@ == display_title_spec(s@),
{
    let v = chars_of(s);
    let a = fullwidth_vec(&v);
    let b = strip_bracketed_vec(&a);
    let c = collapse_vec(&b);
    let cs = string_of(&c);
    let d = decode_html(cs.as_str());
    let e = unescape_json_escapes(d.as_str());
    collapse_whitespace(e.as_str())
}

/// Unicode control characters (general category Cc).
pub open spec fn is_control(c: char) -> bool {
    (c as u32) <= 0x1F || (0x7F <= (c as u32) && (c as u32) <= 0x9F)
}

pub open spec fn is_suspicious(c: char) -> bool {
    c == '\u{FFFD}' || ('\u{E000}' <= c && c <= '\u{F8FF}') || (is_control(c) && c != '\t') || (
    '\u{80}' <= c && c <= '\u{24F}')
}

pub open spec fn count_suspicious(s: Seq<char>) -> nat
    decreases s.len(),
{
    if s.len() == 0 {
        0
    } else {
        count_suspicious(s.drop_last()) + if is_suspicious(s.last()) {
            1nat
        } else {
            0nat
        }
    }
}

/// More than 30% of the trimmed text is replacement, private-use, control or
/// Latin-extension characters.
pub open spec fn garbled_spec(s: Seq<char>) -> bool {
    let t = trim(s);
    t.len() > 0 && 10 * count_suspicious(t) > 3 * t.len()
}

/// Whether a text is unrecoverable mojibake (some KuGou song names are).
pub fn is_garbled(s: &str) -> (r: bool)
    ensures
        r == garbled_spec(s@),
{
    let v = chars_of(s);
    let t = trim_vec(&v);
    if t.len() == 0 {
        return false;
    }
    let mut n: usize = 0;
    let mut i: usize = 0;
    while i < t.len()
        invariant
            i <= t.len(),
            n == count_suspicious(t@.take(i as int)),
            n <= i,
        decreases t.len() - i,
    {
        assert(t@.take(i + 1).drop_last() == t@.take(i as int));
        let c = t[i];
        let u = c as u32;
        let control = u <= 0x1F || (0x7F <= u && u <= 0x9F);
        if c == '\u{FFFD}' || ('\u{E000}' <= c && c <= '\u{F8FF}') || (control && c != '\t') || (
        '\u{80}' <= c && c <= '\u{24F}') {
            n = n + 1;
        }
        i = i + 1;
    }
    assert(t@.take(t.len() as int) == t@);
    (10 * (n as u128)) > 3 * (t.len() as u128)
}

pub open spec fn hex_digit_val(c: char) -> Option<u32> {
    if '0' <= c && c <= '9' {
        Some(((c as u32) - 48) as u32)
    } else if 'a' <= c && c <= 'f' {
        Some(((c as u32) - 87) as u32)
    } else if 'A' <= c && c <= 'F' {
        Some(((c as u32) - 55) as u32)
    } else {
        None
    }
}

/// Hexadecimal value of `s[from..from + n]`.
pub open spec fn hex_val(s: Seq<char>, from: int, n: nat) -> Option<u32>
    decreases n,
{
    if n == 0 {
        Some(0)
    } else {
        match (hex_val(s, from, (n - 1) as nat), hex_digit_val(s[from + n - 1])) {
            (Some(a), Some(d)) => Some((a * 16 + d) as u32),
            _ => None,
        }
    }
}

/// `u32::from_str_radix(s[at..at + 4], 16)`: four hex digits, or a `+` and three.
pub open spec fn hex4_spec(s: Seq<char>, at: int) -> Option<u32> {
    if at < 0 || at + 4 > s.len() {
        None
    } else if s[at] == '+' {
        hex_val(s, at + 1, 3)
    } else {
        hex_val(s, at, 4)
    }
}

proof fn lemma_hex_val_bound(s: Seq<char>, from: int, n: nat)
    requires
        n <= 4,
    ensures
        hex_val(s, from, n) matches Some(v) ==> v < pow16(n),
    decreases n,
{
    if n > 0 {
        lemma_hex_val_bound(s, from, (n - 1) as nat);
    }
}

pub open spec fn pow16(n: nat) -> nat
    decreases n,
{
    if n == 0 {
        1
    } else {
        16 * pow16((n - 1) as nat)
    }
}

proof fn lemma_hex_val_none(s: Seq<char>, from: int, a: nat, b: nat)
    requires
        a <= b,
        hex_val(s, from, a) is None,
    ensures
        hex_val(s, from, b) is None,
    decreases b,
{
    if a < b {
        lemma_hex_val_none(s, from, a, (b - 1) as nat);
    }
}

fn hex_digits(chars: &[char], from: usize, n: usize) -> (r: Option<u32>)
    requires
        from + n <= chars.len(),
        n <= 4,
    ensures
        r == hex_val(chars@, from as int, n as nat),
{
    let mut acc: u32 = 0;
    let mut k: usize = 0;
    while k < n
        invariant
            k <= n <= 4,
            from + n <= chars.len(),
            hex_val(chars@, from as int, k as nat) == Some(acc),
            acc < pow16(k as nat),
        decreases n - k,
    {
        let c = chars[from + k];
        let d: u32 = if '0' <= c && c <= '9' {
            c as u32 - 48
        } else if 'a' <= c && c <= 'f' {
            c as u32 - 87
        } else if 'A' <= c && c <= 'F' {
            c as u32 - 55
        } else {
            proof {
                lemma_hex_val_none(chars@, from as int, (k + 1) as nat, n as nat);
            }
            return None;
        };
        proof {
            reveal_with_fuel(pow16, 5);
            lemma_pow16_mono(k as nat, 3);
        }
        acc = acc * 16 + d;
        k = k + 1;
    }
    Some(acc)
}

proof fn lemma_pow16_mono(a: nat, b: nat)
    requires
        a <= b,
    ensures
        pow16(a) <= pow16(b),
    decreases b,
{
    if a < b {
        lemma_pow16_mono(a, (b - 1) as nat);
    }
}

/// Four hexadecimal digits at `at` (`u32::from_str_radix` with radix 16).
pub fn hex4(chars: &[char], at: usize) -> (r: Option<u32>)
    ensures
        r == hex4_spec(chars@, at as int),
        r matches Some(v) ==> v <= 0xFFFF,
{
    if at > chars.len() || chars.len() - at < 4 {
        return None;
    }
    proof {
        lemma_hex_val_bound(chars@, at + 1, 3);
        lemma_hex_val_bound(chars@, at as int, 4);
        reveal_with_fuel(pow16, 5);
    }
    if chars[at] == '+' {
        hex_digits(chars, at + 1, 3)
    } else {
        hex_digits(chars, at, 4)
    }
}

/// The character a surrogate pair stands for.
pub open spec fn combine_pair(hi: u32, lo: u32) -> u32 {
    (0x10000 + (hi - 0xD800) * 1024 + (lo - 0xDC00)) as u32
}

/// One decoding step at index `i`: the character produced and the next index.
pub open spec fn unesc_step(s: Seq<char>, i: int) -> (char, int) {
    if s[i] != '\\' || i + 1 >= s.len() {
        (s[i], i + 1)
    } else {
        let n = s[i + 1];
        if n == 'u' {
            match hex4_spec(s, i + 2) {
                None => (s[i], i + 1),
                Some(cp) => {
                    let pair = if 0xD800 <= cp < 0xDC00 && i + 12 <= s.len() && s[i + 6] == '\\'
                        && s[i + 7] == 'u' {
                        match hex4_spec(s, i + 8) {
                            Some(lo) => if 0xDC00 <= lo < 0xE000 && valid_scalar(
                                combine_pair(cp, lo),
                            ) {
                                Some(combine_pair(cp, lo))
                            } else {
                                None
                            },
                            None => None,
                        }
                    } else {
                        None
                    };
                    match pair {
                        Some(c) => (c as char, i + 12),
                        None => if valid_scalar(cp) {
                            (cp as char, i + 6)
                        } else {
                            (s[i], i + 1)
                        },
                    }
                },
            }
        } else if n == '/' || n == '"' || n == '\'' || n == '\\' {
            (n, i + 2)
        } else if n == 'n' {
            ('\n', i + 2)
        } else if n == 't' {
            ('\t', i + 2)
        } else {
            (s[i], i + 1)
        }
    }
}

/// Literal JSON escapes turned back into characters, from index `i` on.
pub open spec fn unesc(s: Seq<char>, i: int) -> Seq<char>
    decreases s.len() - i,
{
    if i < 0 || i >= s.len() {
        Seq::empty()
    } else {
        let st = unesc_step(s, i);
        if i < st.1 <= s.len() {
            seq![st.0] + unesc(s, st.1)
        } else {
            Seq::empty()
        }
    }
}

fn unesc_step_exec(chars: &Vec<char>, i: usize) -> (r: (char, usize))
    requires
        i < chars.len(),
    ensures
        r.0 == unesc_step(chars@, i as int).0,
        r.1 as int == unesc_step(chars@, i as int).1,
        i < r.1 <= chars.len(),
{
    let n = chars.len();
    if chars[i] != '\\' || i + 1 >= n {
        return (chars[i], i + 1);
    }
    let next = chars[i + 1];
    if next == 'u' {
        match hex4(chars.as_slice(), i + 2) {
            None => (chars[i], i + 1),
            Some(cp) => {
                let mut pair: Option<char> = None;
                if 0xD800 <= cp && cp < 0xDC00 && n - i >= 12 && chars[i + 6] == '\\' && chars[i
                    + 7] == 'u' {
                    match hex4(chars.as_slice(), i + 8) {
                        Some(lo) => {
                            if 0xDC00 <= lo && lo < 0xE000 {
                                let combined: u32 = 0x10000 + (cp - 0xD800) * 1024 + (lo - 0xDC00);
                                assert(combined == combine_pair(cp, lo));
                                pair = char_from_u32(combined);
                            }
                        },
                        None => {},
                    }
                }
                match pair {
                    Some(c) => (c, i + 12),
                    None => {
                        match char_from_u32(cp) {
                            Some(c) => (c, i + 6),
                            None => (chars[i], i + 1),
                        }
                    },
                }
            },
        }
    } else if next == '/' || next == '"' || next == '\'' || next == '\\' {
        (next, i + 2)
    } else if next == 'n' {
        ('\n', i + 2)
    } else if next == 't' {
        ('\t', i + 2)
    } else {
        (chars[i], i + 1)
    }
}

pub open spec fn unescape_spec(s: Seq<char>) -> Seq<char> {
    if !s.contains('\\') {
        s
    } else {
        unesc(s, 0)
    }
}

/// Turns literal JSON escape sequences back into characters.
///
/// KuWo's pseudo-JSON fields arrive with escapes such as `\u0026` still in
/// them. Handles `\uXXXX` (surrogate pairs included), `\/`, `\n`, `\t`, `\"`,
/// `\'` and `\\`; anything else is kept as it is.
pub fn unescape_json_escapes(s: &str) -> (r: String)
    ensures
        r@ == unescape_spec(s@),
{
    let chars = chars_of(s);
    if !contains_char(&chars, '\\') {
        return s.to_owned();
    }
    let mut out: Vec<char> = Vec::new();
    let mut i: usize = 0;
    let n = chars.len();
    while i < n
        invariant
            n == chars.len(),
            i <= n,
            out@ + unesc(chars@, i as int) == unesc(chars@, 0),
        decreases n - i,
    {
        let (c, next) = unesc_step_exec(&chars, i);
        let ghost before = out@;
        out.push(c);
        assert(unesc(chars@, i as int) == seq![c] + unesc(chars@, next as int));
        assert(before + (seq![c] + unesc(chars@, next as int)) =~= out@ + unesc(
            chars@,
            next as int,
        ));
        i = next;
    }
    string_of(&out)
}

pub open spec fn artist_trim_char(c: char) -> bool {
    c == '、' || c == '/' || c == '&' || c == ',' || c == ' '
}

/// Characters of the set trimmed from both ends (`str::trim_matches`).
pub open spec fn trim_set_start(s: Seq<char>) -> Seq<char>
    decreases s.len(),
{
    if s.len() > 0 && artist_trim_char(s[0]) {
        trim_set_start(s.drop_first())
    } else {
        s
    }
}

pub open spec fn trim_set_end(s: Seq<char>) -> Seq<char>
    decreases s.len(),
{
    if s.len() > 0 && artist_trim_char(s.last()) {
        trim_set_end(s.drop_last())
    } else {
        s
    }
}

pub open spec fn nbsp_to_space(s: Seq<char>) -> Seq<char> {
    s.map_values(|c: char| if c == '\u{A0}' {
        ' '
    } else {
        c
    })
}

pub open spec fn clean_artist_spec(s: Seq<char>) -> Seq<char> {
    trim_set_end(trim_set_start(collapse_spec(nbsp_to_space(html_decoded(unescape_spec(s))))))
}

/// Cleans an artist string from a source: escapes, entities, no-break spaces,
/// white space runs, and separators at either end.
pub fn clean_artist(s: &str) -> (r: String)
    ensures
        r@ == clean_artist_spec(s@),
{
    let a = unescape_json_escapes(s);
    let b = decode_html(a.as_str());
    let bv = chars_of(b.as_str());
    let mut c: Vec<char> = Vec::new();
    let mut i: usize = 0;
    while i < bv.len()
        invariant
            i <= bv.len(),
            c@ == nbsp_to_space(bv@.take(i as int)),
        decreases bv.len() - i,
    {
        let x = if bv[i] == '\u{A0}' {
            ' '
        } else {
            bv[i]
        };
        c.push(x);
        assert(nbsp_to_space(bv@.take(i + 1)) =~= nbsp_to_space(bv@.take(i as int)).push(x));
        i = i + 1;
    }
    assert(bv@.take(bv.len() as int) == bv@);
    let d = collapse_vec(&c);
    let mut lo: usize = 0;
    assert(d@.subrange(0, d.len() as int) == d@);
    while lo < d.len() && (d[lo] == '、' || d[lo] == '/' || d[lo] == '&' || d[lo] == ',' || d[lo]
        == ' ')
        invariant
            lo <= d.len(),
            trim_set_start(d@) == trim_set_start(d@.subrange(lo as int, d.len() as int)),
        decreases d.len() - lo,
    {
        assert(d@.subrange(lo as int, d.len() as int).drop_first() == d@.subrange(
            lo + 1,
            d.len() as int,
        ));
        lo = lo + 1;
    }
    if lo < d.len() {
        assert(d@.subrange(lo as int, d.len() as int)[0] == d@[lo as int]);
    }
    let mut hi: usize = d.len();
    let ghost mid = d@.subrange(lo as int, d.len() as int);
    assert(mid == d@.subrange(lo as int, hi as int));
    while hi > lo && (d[hi - 1] == '、' || d[hi - 1] == '/' || d[hi - 1] == '&' || d[hi - 1] == ','
        || d[hi - 1] == ' ')
        invariant
            lo <= hi <= d.len(),
            trim_set_end(mid) == trim_set_end(d@.subrange(lo as int, hi as int)),
        decreases hi,
    {
        assert(d@.subrange(lo as int, hi as int).drop_last() == d@.subrange(lo as int, hi - 1));
        hi = hi - 1;
    }
    let e = slice_vec(&d, lo, hi);
    string_of(&e)
}

} // verus!
