//! Character-level helpers shared by the lyric and matching code.
//!
//! Text is handled as sequences of `char`; every helper here states its result
//! over those sequences.

use vstd::prelude::*;

verus! {

/// Unicode `White_Space` characters, as `char::is_whitespace` defines them.
pub open spec fn is_ws(c: char) -> bool {
    ||| c == '\t' || c == '\n' || c == '\u{0B}' || c == '\u{0C}' || c == '\r' || c == ' '
    ||| c == '\u{85}' || c == '\u{A0}' || c == '\u{1680}'
    ||| ('\u{2000}' <= c && c <= '\u{200A}')
    ||| c == '\u{2028}' || c == '\u{2029}' || c == '\u{202F}' || c == '\u{205F}' || c == '\u{3000}'
}

pub fn is_whitespace(c: char) -> (b: bool)
    ensures
        b == is_ws(c),
{
    c == '\t' || c == '\n' || c == '\u{0B}' || c == '\u{0C}' || c == '\r' || c == ' ' || c
        == '\u{85}' || c == '\u{A0}' || c == '\u{1680}' || ('\u{2000}' <= c && c <= '\u{200A}')
        || c == '\u{2028}' || c == '\u{2029}' || c == '\u{202F}' || c == '\u{205F}' || c
        == '\u{3000}'
}

pub open spec fn is_ascii_digit(c: char) -> bool {
    '0' <= c && c <= '9'
}

pub open spec fn is_ascii_alpha(c: char) -> bool {
    ('a' <= c && c <= 'z') || ('A' <= c && c <= 'Z')
}

/// `char::to_ascii_lowercase`: ASCII capitals become small letters, the rest stays.
pub open spec fn ascii_lower(c: char) -> char {
    if 'A' <= c && c <= 'Z' {
        ((c as u32) + 32) as char
    } else {
        c
    }
}

pub fn to_ascii_lower(c: char) -> (r: char)
    ensures
        r == ascii_lower(c),
{
    if 'A' <= c && c <= 'Z' {
        let n: u32 = (c as u32) + 32;
        assert(n < 0xD800);
        char_of_ascii_shift(n)
    } else {
        c
    }
}

/// The character with code point `n`, for a value below the surrogate range.
fn char_of_ascii_shift(n: u32) -> (c: char)
    requires
        n < 0xD800,
    ensures
        c == n as char,
{
    match crate::domain::normalize::char_from_u32(n) {
        Some(c) => c,
        None => {
            assert(crate::domain::normalize::valid_scalar(n));
            ' '
        },
    }
}

pub open spec fn lower_seq(s: Seq<char>) -> Seq<char> {
    s.map_values(|c: char| ascii_lower(c))
}

/// Leading white space removed.
pub open spec fn ltrim(s: Seq<char>) -> Seq<char>
    decreases s.len(),
{
    if s.len() > 0 && is_ws(s[0]) {
        ltrim(s.drop_first())
    } else {
        s
    }
}

/// Trailing white space removed.
pub open spec fn rtrim(s: Seq<char>) -> Seq<char>
    decreases s.len(),
{
    if s.len() > 0 && is_ws(s.last()) {
        rtrim(s.drop_last())
    } else {
        s
    }
}

/// `str::trim`.
pub open spec fn trim(s: Seq<char>) -> Seq<char> {
    rtrim(ltrim(s))
}

pub open spec fn all_ws(s: Seq<char>) -> bool {
    forall|i: int| 0 <= i < s.len() ==> is_ws(#[trigger] s[i])
}

pub proof fn lemma_ltrim_len(s: Seq<char>)
    ensures
        ltrim(s).len() <= s.len(),
        ltrim(s).len() == 0 <==> all_ws(s),
        ltrim(s).len() > 0 ==> !is_ws(ltrim(s)[0]),
        ltrim(s) == s.subrange(s.len() - ltrim(s).len(), s.len() as int),
    decreases s.len(),
{
    if s.len() > 0 && is_ws(s[0]) {
        lemma_ltrim_len(s.drop_first());
        assert(all_ws(s.drop_first()) ==> all_ws(s)) by {
            if all_ws(s.drop_first()) {
                assert forall|i: int| 0 <= i < s.len() implies is_ws(#[trigger] s[i]) by {
                    if i > 0 {
                        assert(s[i] == s.drop_first()[i - 1]);
                    }
                }
            }
        }
        assert(all_ws(s) ==> all_ws(s.drop_first())) by {
            if all_ws(s) {
                assert forall|i: int| 0 <= i < s.drop_first().len() implies is_ws(
                    #[trigger] s.drop_first()[i],
                ) by {
                    assert(s.drop_first()[i] == s[i + 1]);
                }
            }
        }
        assert(s.drop_first().subrange(
            s.drop_first().len() - ltrim(s).len(),
            s.drop_first().len() as int,
        ) == s.subrange(s.len() - ltrim(s).len(), s.len() as int));
    } else {
        if s.len() > 0 {
            assert(!is_ws(s[0]));
        }
        assert(s.subrange(0, s.len() as int) == s);
    }
}

pub proof fn lemma_rtrim_len(s: Seq<char>)
    ensures
        rtrim(s).len() <= s.len(),
        rtrim(s).len() == 0 <==> all_ws(s),
        rtrim(s).len() > 0 ==> !is_ws(rtrim(s).last()),
        rtrim(s) == s.subrange(0, rtrim(s).len() as int),
    decreases s.len(),
{
    if s.len() > 0 && is_ws(s.last()) {
        lemma_rtrim_len(s.drop_last());
        assert(all_ws(s.drop_last()) ==> all_ws(s)) by {
            if all_ws(s.drop_last()) {
                assert forall|i: int| 0 <= i < s.len() implies is_ws(#[trigger] s[i]) by {
                    if i < s.len() - 1 {
                        assert(s[i] == s.drop_last()[i]);
                    }
                }
            }
        }
        assert(all_ws(s) ==> all_ws(s.drop_last())) by {
            if all_ws(s) {
                assert forall|i: int| 0 <= i < s.drop_last().len() implies is_ws(
                    #[trigger] s.drop_last()[i],
                ) by {
                    assert(s.drop_last()[i] == s[i]);
                }
            }
        }
        assert(s.drop_last().subrange(0, rtrim(s).len() as int) == s.subrange(
            0,
            rtrim(s).len() as int,
        ));
    } else {
        assert(s.subrange(0, s.len() as int) == s);
    }
}

pub proof fn lemma_trim_empty(s: Seq<char>)
    ensures
        trim(s).len() == 0 <==> all_ws(s),
        trim(s).len() > 0 ==> !is_ws(trim(s)[0]) && !is_ws(trim(s).last()),
        trim(s).len() <= s.len(),
{
    lemma_ltrim_len(s);
    lemma_rtrim_len(ltrim(s));
    let l = ltrim(s);
    if all_ws(l) {
        assert(all_ws(s)) by {
            assert forall|i: int| 0 <= i < s.len() implies is_ws(#[trigger] s[i]) by {
                let k = s.len() - l.len();
                if i >= k {
                    assert(s[i] == l[i - k]);
                } else {
                    if l.len() > 0 {
                        assert(!is_ws(l[0]));
                    }
                }
            }
        }
    }
    if all_ws(s) {
        assert(l.len() == 0);
        assert(all_ws(l));
    }
    if trim(s).len() > 0 {
        assert(trim(s)[0] == l[0]);
    }
}

/// Index of the first non-white-space character (the length when there is none).
fn first_non_ws(v: &Vec<char>, from: usize) -> (i: usize)
    requires
        from <= v.len(),
    ensures
        from <= i <= v.len(),
        ltrim(v@.subrange(from as int, v.len() as int)) == v@.subrange(i as int, v.len() as int),
{
    let mut i = from;
    while i < v.len() && is_whitespace(v[i])
        invariant
            from <= i <= v.len(),
            ltrim(v@.subrange(from as int, v.len() as int)) == ltrim(
                v@.subrange(i as int, v.len() as int),
            ),
        decreases v.len() - i,
    {
        assert(v@.subrange(i as int, v.len() as int).drop_first() == v@.subrange(
            i + 1,
            v.len() as int,
        ));
        i = i + 1;
    }
    if i < v.len() {
        assert(v@.subrange(i as int, v.len() as int)[0] == v@[i as int]);
    }
    i
}

/// Index just after the last non-white-space character in `v[from..to]`.
fn end_non_ws(v: &Vec<char>, from: usize, to: usize) -> (j: usize)
    requires
        from <= to <= v.len(),
    ensures
        from <= j <= to,
        rtrim(v@.subrange(from as int, to as int)) == v@.subrange(from as int, j as int),
{
    let mut j = to;
    while j > from && is_whitespace(v[j - 1])
        invariant
            from <= j <= to <= v.len(),
            rtrim(v@.subrange(from as int, to as int)) == rtrim(
                v@.subrange(from as int, j as int),
            ),
        decreases j,
    {
        assert(v@.subrange(from as int, j as int).drop_last() == v@.subrange(
            from as int,
            j - 1,
        ));
        j = j - 1;
    }
    j
}

/// A copy of `v[from..to]`.
pub fn slice_vec(v: &Vec<char>, from: usize, to: usize) -> (r: Vec<char>)
    requires
        from <= to <= v.len(),
    ensures
        r@ == v@.subrange(from as int, to as int),
{
    let mut r: Vec<char> = Vec::new();
    let mut k = from;
    while k < to
        invariant
            from <= k <= to <= v.len(),
            r@ == v@.subrange(from as int, k as int),
        decreases to - k,
    {
        r.push(v[k]);
        k = k + 1;
    }
    r
}

/// `str::trim` on a character vector.
pub fn trim_vec(v: &Vec<char>) -> (r: Vec<char>)
    ensures
        r@ == trim(v@),
{
    assert(v@.subrange(0, v.len() as int) == v@);
    let i = first_non_ws(v, 0);
    let j = end_non_ws(v, i, v.len());
    slice_vec(v, i, j)
}

/// Appends one character to a string.
#[verifier::external_body]
pub fn push_char(s: &mut String, c: char)
    ensures
        final(s)@ == old(s)@.push(c),
{
    s.push(c);
}

/// The characters of a string slice, in order.
pub fn chars_of(s: &str) -> (v: Vec<char>)
    ensures
        v@ == s@,
{
    let mut v: Vec<char> = Vec::new();
    for c in it: s.chars()
        invariant
            v@ == it.seq().take(it.index() as int),
            it.seq() == s@,
    {
        v.push(c);
    }
    v
}

/// A string holding the given characters.
pub fn string_of(v: &Vec<char>) -> (s: String)
    ensures
        s@ == v@,
{
    let mut s = String::new();
    let mut i: usize = 0;
    while i < v.len()
        invariant
            i <= v.len(),
            s@ == v@.take(i as int),
        decreases v.len() - i,
    {
        push_char(&mut s, v[i]);
        assert(v@.take(i + 1) == v@.take(i as int).push(v@[i as int]));
        i = i + 1;
    }
    assert(v@.take(v.len() as int) == v@);
    s
}

/// `str::trim`, as an owned string.
pub fn trim_str(s: &str) -> (r: String)
    ensures
        r@ == trim(s@),
{
    let v = chars_of(s);
    let t = trim_vec(&v);
    string_of(&t)
}

/// Whether two character vectors hold the same characters.
pub fn vec_eq(a: &Vec<char>, b: &Vec<char>) -> (r: bool)
    ensures
        r == (a@ == b@),
{
    if a.len() != b.len() {
        return false;
    }
    let mut i: usize = 0;
    while i < a.len()
        invariant
            a.len() == b.len(),
            i <= a.len(),
            a@.take(i as int) == b@.take(i as int),
        decreases a.len() - i,
    {
        if a[i] != b[i] {
            assert(a@[i as int] != b@[i as int]);
            return false;
        }
        assert(a@.take(i + 1) == a@.take(i as int).push(a@[i as int]));
        assert(b@.take(i + 1) == b@.take(i as int).push(b@[i as int]));
        i = i + 1;
    }
    assert(a@.take(a.len() as int) == a@);
    assert(b@.take(b.len() as int) == b@);
    true
}

/// Whether two strings hold the same characters.
pub fn str_eq(a: &str, b: &str) -> (r: bool)
    ensures
        r == (a@ == b@),
{
    let x = chars_of(a);
    let y = chars_of(b);
    vec_eq(&x, &y)
}

/// `p` occurs in `s` starting at index `i`.
pub open spec fn occurs_at(s: Seq<char>, p: Seq<char>, i: int) -> bool {
    0 <= i && i + p.len() <= s.len() && s.subrange(i, i + p.len()) == p
}

pub open spec fn starts_with(s: Seq<char>, p: Seq<char>) -> bool {
    occurs_at(s, p, 0)
}

pub open spec fn ends_with(s: Seq<char>, p: Seq<char>) -> bool {
    occurs_at(s, p, s.len() - p.len())
}

pub open spec fn contains_seq(s: Seq<char>, p: Seq<char>) -> bool {
    exists|i: int| occurs_at(s, p, i)
}

/// Whether `p` occurs in `s` at index `at`.
pub fn matches_at(s: &Vec<char>, p: &Vec<char>, at: usize) -> (r: bool)
    ensures
        r == occurs_at(s@, p@, at as int),
{
    if p.len() > s.len() || at > s.len() - p.len() {
        return false;
    }
    let mut k: usize = 0;
    while k < p.len()
        invariant
            at + p.len() <= s.len(),
            k <= p.len(),
            s@.subrange(at as int, at + k) == p@.take(k as int),
        decreases p.len() - k,
    {
        if s[at + k] != p[k] {
            assert(s@.subrange(at as int, at + p.len())[k as int] == s@[at + k]);
            return false;
        }
        assert(s@.subrange(at as int, at + k + 1) == s@.subrange(at as int, at + k).push(
            s@[at + k],
        ));
        assert(p@.take(k + 1) == p@.take(k as int).push(p@[k as int]));
        k = k + 1;
    }
    assert(p@.take(p.len() as int) == p@);
    true
}

/// First index at or after `from` where `p` occurs in `s` (`str::find`).
pub fn find_from(s: &Vec<char>, p: &Vec<char>, from: usize) -> (r: Option<usize>)
    ensures
        match r {
            Some(i) => from <= i && occurs_at(s@, p@, i as int) && forall|j: int|
                from <= j < i ==> !occurs_at(s@, p@, j),
            None => forall|j: int| from <= j ==> !occurs_at(s@, p@, j),
        },
{
    if from > s.len() {
        return None;
    }
    let mut i = from;
    while i < s.len()
        invariant
            from <= i <= s.len(),
            forall|j: int| from <= j < i ==> !occurs_at(s@, p@, j),
        decreases s.len() - i,
    {
        if matches_at(s, p, i) {
            return Some(i);
        }
        i = i + 1;
    }
    if matches_at(s, p, i) {
        return Some(i);
    }
    None
}

/// Last index where `p` occurs in `s` (`str::rfind`).
pub open spec fn is_last_occurrence(s: Seq<char>, p: Seq<char>, i: int) -> bool {
    occurs_at(s, p, i) && forall|j: int| i < j ==> !occurs_at(s, p, j)
}

pub fn rfind(s: &Vec<char>, p: &Vec<char>) -> (r: Option<usize>)
    ensures
        match r {
            Some(i) => is_last_occurrence(s@, p@, i as int),
            None => forall|j: int| !occurs_at(s@, p@, j),
        },
{
    if p.len() > s.len() {
        return None;
    }
    let mut i = s.len() - p.len();
    loop
        invariant
            i <= s.len() - p.len(),
            p.len() <= s.len(),
            forall|j: int| i < j ==> !occurs_at(s@, p@, j),
        decreases i,
    {
        if matches_at(s, p, i) {
            return Some(i);
        }
        if i == 0 {
            return None;
        }
        i = i - 1;
    }
}

/// Whether `c` occurs in `v`.
pub fn contains_char(v: &Vec<char>, c: char) -> (r: bool)
    ensures
        r == v@.contains(c),
{
    let mut i: usize = 0;
    while i < v.len()
        invariant
            i <= v.len(),
            forall|j: int| 0 <= j < i ==> v@[j] != c,
        decreases v.len() - i,
    {
        if v[i] == c {
            return true;
        }
        i = i + 1;
    }
    false
}

/// The sequence with every character mapped by `ascii_lower`.
pub fn lower_vec(v: &Vec<char>) -> (r: Vec<char>)
    ensures
        r@ == lower_seq(v@),
{
    let mut r: Vec<char> = Vec::new();
    let mut i: usize = 0;
    while i < v.len()
        invariant
            i <= v.len(),
            r@ == lower_seq(v@.take(i as int)),
        decreases v.len() - i,
    {
        let c = to_ascii_lower(v[i]);
        r.push(c);
        assert(lower_seq(v@.take(i + 1)) == lower_seq(v@.take(i as int)).push(c));
        i = i + 1;
    }
    assert(v@.take(v.len() as int) == v@);
    r
}

/// Appends all characters of `b` to `a`.
pub fn append_vec(a: &mut Vec<char>, b: &Vec<char>)
    ensures
        final(a)@ == old(a)@ + b@,
{
    let mut i: usize = 0;
    while i < b.len()
        invariant
            i <= b.len(),
            a@ == old(a)@ + b@.take(i as int),
        decreases b.len() - i,
    {
        a.push(b[i]);
        assert(b@.take(i + 1) == b@.take(i as int).push(b@[i as int]));
        i = i + 1;
    }
    assert(b@.take(b.len() as int) == b@);
}


/// Pieces of `s` split at `\n`: the finished ones and the one still open.
pub open spec fn split_state(s: Seq<char>) -> (Seq<Seq<char>>, Seq<char>)
    decreases s.len(),
{
    if s.len() == 0 {
        (Seq::empty(), Seq::empty())
    } else {
        let st = split_state(s.drop_last());
        if s.last() == '\n' {
            (st.0.push(st.1), Seq::empty())
        } else {
            (st.0, st.1.push(s.last()))
        }
    }
}

pub open spec fn strip_cr(l: Seq<char>) -> Seq<char> {
    if l.len() > 0 && l.last() == '\r' {
        l.drop_last()
    } else {
        l
    }
}

/// `str::lines`: pieces ended by `\n` lose one trailing `\r`; a last piece
/// without `\n` is kept when it is not empty.
pub open spec fn str_lines(s: Seq<char>) -> Seq<Seq<char>> {
    let st = split_state(s);
    st.0.map_values(|l: Seq<char>| strip_cr(l)) + if st.1.len() == 0 {
        Seq::<Seq<char>>::empty()
    } else {
        seq![st.1]
    }
}

fn strip_cr_vec(v: Vec<char>) -> (r: Vec<char>)
    ensures
        r@ == strip_cr(v@),
{
    let mut v = v;
    if v.len() > 0 && v[v.len() - 1] == '\r' {
        v.pop();
    }
    v
}

/// The lines of a text, as `str::lines` gives them.
pub fn lines_of(v: &Vec<char>) -> (r: Vec<Vec<char>>)
    ensures
        r.deep_view() == str_lines(v@),
{
    let mut done: Vec<Vec<char>> = Vec::new();
    let mut cur: Vec<char> = Vec::new();
    let mut i: usize = 0;
    while i < v.len()
        invariant
            i <= v.len(),
            done.deep_view() == split_state(v@.take(i as int)).0.map_values(
                |l: Seq<char>| strip_cr(l),
            ),
            cur@ == split_state(v@.take(i as int)).1,
        decreases v.len() - i,
    {
        let ghost st = split_state(v@.take(i as int));
        assert(v@.take(i + 1).drop_last() == v@.take(i as int));
        if v[i] == '\n' {
            let piece = strip_cr_vec(cur);
            let ghost before = done.deep_view();
            let ghost pv = piece@;
            assert(piece.deep_view() =~= pv);
            done.push(piece);
            cur = Vec::new();
            assert(done.deep_view() =~= before.push(pv));
            assert(st.0.push(st.1).map_values(|l: Seq<char>| strip_cr(l)) =~= st.0.map_values(
                |l: Seq<char>| strip_cr(l),
            ).push(strip_cr(st.1)));
        } else {
            cur.push(v[i]);
        }
        i = i + 1;
    }
    assert(v@.take(v.len() as int) == v@);
    if cur.len() > 0 {
        let ghost before = done.deep_view();
        let ghost cv = cur@;
        assert(cur.deep_view() =~= cv);
        done.push(cur);
        assert(done.deep_view() =~= before.push(cv));
        assert(before.push(cv) =~= before + seq![cv]);
    } else {
        assert(done.deep_view() == done.deep_view() + Seq::<Seq<char>>::empty());
    }
    done
}

/// Whether `p` occurs anywhere in `s` (`str::contains`).
pub fn contains_vec(s: &Vec<char>, p: &Vec<char>) -> (r: bool)
    ensures
        r == contains_seq(s@, p@),
{
    match find_from(s, p, 0) {
        Some(i) => true,
        None => {
            assert(!contains_seq(s@, p@)) by {
                if contains_seq(s@, p@) {
                    let j = choose|j: int| occurs_at(s@, p@, j);
                    assert(0 <= j);
                }
            }
            false
        },
    }
}

/// Whether `s` starts with `p`.
pub fn starts_with_vec(s: &Vec<char>, p: &Vec<char>) -> (r: bool)
    ensures
        r == starts_with(s@, p@),
{
    matches_at(s, p, 0)
}

/// Whether `s` ends with `p`.
pub fn ends_with_vec(s: &Vec<char>, p: &Vec<char>) -> (r: bool)
    ensures
        r == ends_with(s@, p@),
{
    if p.len() > s.len() {
        return false;
    }
    matches_at(s, p, s.len() - p.len())
}


pub open spec fn digit_char(d: nat) -> char {
    (('0' as u32) + d) as char
}

/// Decimal digits of `n`, without leading zeros.
pub open spec fn dec_digits(n: nat) -> Seq<char>
    decreases n,
{
    if n < 10 {
        seq![digit_char(n)]
    } else {
        dec_digits(n / 10).push(digit_char(n % 10))
    }
}

/// Decimal digits of `n`, left-padded with zeros to at least `w` characters (`{:0w}`).
pub open spec fn padded(n: nat, w: nat) -> Seq<char> {
    let d = dec_digits(n);
    if d.len() < w {
        Seq::new((w - d.len()) as nat, |i: int| '0') + d
    } else {
        d
    }
}

/// The digit character for a value below ten.
pub fn digit_of(d: u64) -> (c: char)
    requires
        d < 10,
    ensures
        c == digit_char(d as nat),
{
    let n: u32 = 48 + d as u32;
    char_of_ascii_shift(n)
}

/// Decimal digits of `n`.
pub fn decimal(n: u64) -> (r: Vec<char>)
    ensures
        r@ == dec_digits(n as nat),
    decreases n,
{
    if n < 10 {
        let mut r: Vec<char> = Vec::new();
        r.push(digit_of(n));
        r
    } else {
        let mut r = decimal(n / 10);
        r.push(digit_of(n % 10));
        r
    }
}

/// Appends `n` in decimal, zero-padded to at least `w` digits.
pub fn push_padded(out: &mut Vec<char>, n: u64, w: usize)
    ensures
        final(out)@ == old(out)@ + padded(n as nat, w as nat),
{
    let d = decimal(n);
    let ghost before = out@;
    if d.len() < w {
        let mut k: usize = 0;
        while k < w - d.len()
            invariant
                d.len() < w,
                k <= w - d.len(),
                out@ == before + Seq::new(k as nat, |i: int| '0'),
            decreases w - d.len() - k,
        {
            out.push('0');
            assert(out@ =~= before + Seq::new((k + 1) as nat, |i: int| '0'));
            k = k + 1;
        }
        append_vec(out, &d);
        assert(out@ =~= before + (Seq::new((w - d@.len()) as nat, |i: int| '0') + d@));
    } else {
        append_vec(out, &d);
    }
}

/// Appends the characters of a string slice.
pub fn push_str_vec(out: &mut Vec<char>, s: &str)
    ensures
        final(out)@ == old(out)@ + s@,
{
    let v = chars_of(s);
    append_vec(out, &v);
}

/// Number of white-space characters in `s` from index `i`.
pub open spec fn ws_run(s: Seq<char>, i: int) -> nat
    decreases s.len() - i,
{
    if 0 <= i < s.len() && is_ws(s[i]) {
        1 + ws_run(s, i + 1)
    } else {
        0
    }
}

/// `ws_run` computed.
pub fn ws_run_at(s: &Vec<char>, i: usize) -> (n: usize)
    ensures
        n == ws_run(s@, i as int),
        i <= s.len() ==> i + n <= s.len(),
        i > s.len() ==> n == 0,
{
    if i > s.len() {
        return 0;
    }
    let mut j = i;
    while j < s.len() && is_whitespace(s[j])
        invariant
            i <= j <= s.len(),
            ws_run(s@, i as int) == (j - i) + ws_run(s@, j as int),
        decreases s.len() - j,
    {
        j = j + 1;
    }
    j - i
}


/// Decimal text of a signed number (`i64::to_string`).
pub fn signed_decimal(n: i64) -> (r: Vec<char>)
    ensures
        r@ == if n < 0 {
            seq!['-'] + dec_digits((-n) as nat)
        } else {
            dec_digits(n as nat)
        },
{
    if n < 0 {
        let m: i128 = -(n as i128);
        let u: u64 = m as u64;
        let d = decimal(u);
        let mut out: Vec<char> = Vec::new();
        out.push('-');
        append_vec(&mut out, &d);
        out
    } else {
        decimal(n as u64)
    }
}

} // verus!
