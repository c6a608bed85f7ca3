//! Rendering a line and parsing it back.

use vstd::prelude::*;
use crate::domain::lyrics::{line_spec, LineView};
use crate::lrc::normalize::{is_invisible, normalized_newlines, nl_norm, strip_bom, strip_inv};
use crate::lrc::parse::{
    digit_run, dval, empty_meta, meta_tag_spec, parse_fold, parse_spec, parse_step, pow10,
    stamps_from, ts_at,
};
use crate::lrc::render::timestamp_spec;
use crate::text::{dec_digits, digit_char, is_ascii_digit, is_ws, padded, split_state, str_lines, trim};

verus! {

proof fn lemma_digit_char(d: nat)
    requires
        d < 10,
    ensures
        is_ascii_digit(digit_char(d)),
        (digit_char(d) as u32) - ('0' as u32) == d,
{
}

/// `dval` reads only the characters it covers.
proof fn lemma_dval_agree(s: Seq<char>, t: Seq<char>, i: int, j: int, n: nat)
    requires
        forall|x: int| i <= x < i + n ==> #[trigger] s[x] == t[x - i + j],
    ensures
        dval(s, i, n) == dval(t, j, n),
    decreases n,
{
    if n > 0 {
        lemma_dval_agree(s, t, i, j, (n - 1) as nat);
        assert(s[i + n - 1] == t[(i + n - 1) - i + j]);
    }
}

/// The decimal digits of a number read back as the number.
proof fn lemma_dec_digits(v: nat)
    ensures
        forall|k: int| 0 <= k < dec_digits(v).len() ==> is_ascii_digit(#[trigger] dec_digits(v)[k]),
        dec_digits(v).len() >= 1,
        v < 10 ==> dec_digits(v).len() == 1,
        10 <= v < 100 ==> dec_digits(v).len() == 2,
        100 <= v < 1000 ==> dec_digits(v).len() == 3,
        dval(dec_digits(v), 0, dec_digits(v).len()) == v,
    decreases v,
{
    lemma_digit_char(v % 10);
    if v < 10 {
        let d = dec_digits(v);
        assert(d == seq![digit_char(v)]);
        assert(dval(d, 0, 0) == 0);
    } else {
        lemma_dec_digits(v / 10);
        let p = dec_digits(v / 10);
        let d = dec_digits(v);
        assert(d == p.push(digit_char(v % 10)));
        let n = d.len();
        lemma_dval_agree(d, p, 0, 0, (n - 1) as nat);
        assert(d[n - 1] == digit_char(v % 10));
        assert(dval(d, 0, n) == dval(d, 0, (n - 1) as nat) * 10 + ((d[0 + n - 1] as u32) - ('0' as u32)) as nat);
        assert((v / 10) * 10 + v % 10 == v);
        assert forall|k: int| 0 <= k < d.len() implies is_ascii_digit(#[trigger] d[k]) by {
            if k < p.len() {
                assert(d[k] == p[k]);
            }
        }
    }
}

/// Two-digit padding of a number below a thousand: two or three digits that
/// read back as the number.
proof fn lemma_padded2(v: nat)
    requires
        v < 1000,
    ensures
        forall|k: int| 0 <= k < padded(v, 2).len() ==> is_ascii_digit(#[trigger] padded(v, 2)[k]),
        2 <= padded(v, 2).len() <= 3,
        v < 100 ==> padded(v, 2).len() == 2,
        dval(padded(v, 2), 0, padded(v, 2).len()) == v,
{
    lemma_dec_digits(v);
    let d = dec_digits(v);
    let p = padded(v, 2);
    if v < 10 {
        let z = Seq::new(1, |i: int| '0');
        assert(p == z + d);
        assert(p[0] == '0');
        assert(p[1] == d[0]);
        assert(dval(p, 0, 0) == 0);
        assert(dval(p, 0, 1) == dval(p, 0, 0) * 10 + ((p[0] as u32) - ('0' as u32)) as nat);
        assert(dval(p, 0, 1) == 0);
        assert(dval(d, 0, 1) == dval(d, 0, 0) * 10 + ((d[0] as u32) - ('0' as u32)) as nat);
        assert(dval(p, 0, 2) == dval(p, 0, 1) * 10 + ((p[0 + 2 - 1] as u32) - ('0' as u32)) as nat);
        assert(dval(d, 0, 0) == 0);
        assert forall|k: int| 0 <= k < p.len() implies is_ascii_digit(#[trigger] p[k]) by {
            if k == 1 {
                assert(p[1] == d[0]);
            }
        }
    } else {
        assert(p == d);
    }
}

/// A run of `n` digits followed by a non-digit is a digit run of length `n`.
proof fn lemma_digit_run_exact(s: Seq<char>, i: int, n: nat)
    requires
        0 <= i,
        i + n < s.len(),
        forall|x: int| i <= x < i + n ==> is_ascii_digit(#[trigger] s[x]),
        !is_ascii_digit(s[i + n]),
    ensures
        digit_run(s, i) == n,
    decreases n,
{
    if n > 0 {
        assert(is_ascii_digit(s[i]));
        lemma_digit_run_exact(s, i + 1, (n - 1) as nat);
    }
}


/// A rendered time tag reads back as its time, to the hundredth.
proof fn lemma_ts_at(ms: u64, t: Seq<char>)
    requires
        ms < 60_000_000,
    ensures
        ts_at(timestamp_spec(ms) + t, 0) == Some(((ms - ms % 10) as int, timestamp_spec(ms).len() as int)),
        timestamp_spec(ms).len() >= 8,
        timestamp_spec(ms)[0] == '[',
        forall|x: int| 0 <= x < timestamp_spec(ms).len() ==> !is_invisible(#[trigger] timestamp_spec(ms)[x])
            && timestamp_spec(ms)[x] != '\u{A0}' && timestamp_spec(ms)[x] != '\n'
            && timestamp_spec(ms)[x] != '\r' && !is_ws(timestamp_spec(ms)[x]),
{
    let total = ms / 1000;
    let m = (total / 60) as nat;
    let sec = (total % 60) as nat;
    let f = ((ms % 1000) / 10) as nat;
    assert(m < 1000);
    lemma_padded2(m);
    lemma_padded2(sec);
    lemma_padded2(f);
    let mm = padded(m, 2);
    let ss = padded(sec, 2);
    let ff = padded(f, 2);
    let ts = timestamp_spec(ms);
    let a = mm.len() as int;
    assert(ts == seq!['['] + mm + seq![':'] + ss + seq!['.'] + ff + seq![']']);
    assert(ts.len() == 8 + a);
    let text = ts + t;
    assert forall|x: int| 0 <= x < ts.len() implies #[trigger] text[x] == ts[x] by {}
    assert(text[0] == '[');
    assert forall|x: int| 1 <= x < 1 + a implies #[trigger] text[x] == mm[x - 1 + 0] by {}
    assert(text[1 + a] == ':');
    assert forall|x: int| 2 + a <= x < 4 + a implies #[trigger] text[x] == ss[x - (2 + a) + 0] by {}
    assert(text[4 + a] == '.');
    assert forall|x: int| 5 + a <= x < 7 + a implies #[trigger] text[x] == ff[x - (5 + a) + 0] by {}
    assert(text[7 + a] == ']');
    assert forall|x: int| 1 <= x < 1 + a implies is_ascii_digit(#[trigger] text[x]) by {
        assert(text[x] == mm[x - 1 + 0]);
    }
    assert forall|x: int| 2 + a <= x < 4 + a implies is_ascii_digit(#[trigger] text[x]) by {
        assert(text[x] == ss[x - (2 + a) + 0]);
    }
    assert forall|x: int| 5 + a <= x < 7 + a implies is_ascii_digit(#[trigger] text[x]) by {
        assert(text[x] == ff[x - (5 + a) + 0]);
    }
    lemma_digit_run_exact(text, 1, a as nat);
    lemma_digit_run_exact(text, 2 + a, 2);
    lemma_digit_run_exact(text, 5 + a, 2);
    lemma_dval_agree(text, mm, 1, 0, a as nat);
    lemma_dval_agree(text, ss, 2 + a, 0, 2);
    lemma_dval_agree(text, ff, 5 + a, 0, 2);
    assert(dval(text, 1, a as nat) == m);
    assert(dval(text, 2 + a, 2) == sec);
    assert(dval(text, 5 + a, 2) == f);
    assert(m * 60000 + sec * 1000 + f * 10 == ms - ms % 10) by (nonlinear_arith)
        requires
            total == ms / 1000,
            m == total / 60,
            sec == total % 60,
            f == (ms % 1000) / 10,
    ;
    assert forall|x: int| 0 <= x < ts.len() implies !is_invisible(#[trigger] ts[x]) && ts[x] != '\u{A0}'
        && ts[x] != '\n' && ts[x] != '\r' && !is_ws(ts[x]) by {
        if 1 <= x < 1 + a {
            assert(text[x] == ts[x]);
            assert(is_ascii_digit(text[x]));
        } else if 2 + a <= x < 4 + a {
            assert(text[x] == ts[x]);
            assert(is_ascii_digit(text[x]));
        } else if 5 + a <= x < 7 + a {
            assert(text[x] == ts[x]);
            assert(is_ascii_digit(text[x]));
        } else {
            assert(text[x] == ts[x]);
        }
    }
}


proof fn lemma_nl_norm_plain(s: Seq<char>)
    requires
        forall|x: int| 0 <= x < s.len() ==> #[trigger] s[x] != '\r',
    ensures
        nl_norm(s) == s,
    decreases s.len(),
{
    if s.len() > 0 {
        let r = s.skip(1);
        assert forall|x: int| 0 <= x < r.len() implies #[trigger] r[x] != '\r' by {
            assert(r[x] == s[x + 1]);
        }
        lemma_nl_norm_plain(r);
        assert(seq![s[0]] + r =~= s);
    }
}

proof fn lemma_split_plain(s: Seq<char>)
    requires
        forall|x: int| 0 <= x < s.len() ==> #[trigger] s[x] != '\n',
    ensures
        split_state(s) == (Seq::<Seq<char>>::empty(), s),
    decreases s.len(),
{
    if s.len() > 0 {
        let r = s.drop_last();
        assert forall|x: int| 0 <= x < r.len() implies #[trigger] r[x] != '\n' by {
            assert(r[x] == s[x]);
        }
        lemma_split_plain(r);
        assert(s[s.len() - 1] != '\n');
        assert(r.push(s.last()) =~= s);
    }
}

proof fn lemma_strip_inv_concat(a: Seq<char>, b: Seq<char>)
    ensures
        strip_inv(a + b) == strip_inv(a) + strip_inv(b),
    decreases b.len(),
{
    if b.len() == 0 {
        assert(a + b =~= a);
        assert(strip_inv(a) + strip_inv(b) =~= strip_inv(a));
    } else {
        lemma_strip_inv_concat(a, b.drop_last());
        assert((a + b).drop_last() =~= a + b.drop_last());
        assert((a + b).last() == b.last());
        let r = strip_inv(b.drop_last());
        assert((strip_inv(a) + r).push(' ') =~= strip_inv(a) + r.push(' '));
        assert((strip_inv(a) + r).push(b.last()) =~= strip_inv(a) + r.push(b.last()));
    }
}

proof fn lemma_strip_inv_plain(s: Seq<char>)
    requires
        forall|x: int| 0 <= x < s.len() ==> !is_invisible(#[trigger] s[x]) && s[x] != '\u{A0}',
    ensures
        strip_inv(s) == s,
    decreases s.len(),
{
    if s.len() > 0 {
        let r = s.drop_last();
        assert forall|x: int| 0 <= x < r.len() implies !is_invisible(#[trigger] r[x]) && r[x] != '\u{A0}' by {
            assert(r[x] == s[x]);
        }
        lemma_strip_inv_plain(r);
        assert(!is_invisible(s[s.len() - 1]) && s[s.len() - 1] != '\u{A0}');
        assert(r.push(s.last()) =~= s);
    }
}

/// A line rendered with `format_timestamp` and parsed back gives that line:
/// its time to the hundredth, its text unchanged. The text must be a line as
/// rendering leaves it: not empty, one line, already free of invisible
/// characters and outer white space, and not opening with a tag.
pub proof fn lemma_render_parse_round_trip(ms: u64, t: Seq<char>)
    requires
        ms < 60_000_000,
        t.len() > 0,
        forall|x: int| 0 <= x < t.len() ==> #[trigger] t[x] != '\n' && t[x] != '\r',
        strip_inv(t) == t,
        trim(t) == t,
        t[0] != '[',
    ensures
        parse_spec(timestamp_spec(ms) + t).0 == seq![line_spec((ms - ms % 10) as u64, t)],
        parse_spec(timestamp_spec(ms) + t).1 == empty_meta(),
{
    lemma_ts_at(ms, t);
    let ts = timestamp_spec(ms);
    let text = ts + t;
    let e = ts.len() as int;
    assert forall|x: int| 0 <= x < text.len() implies #[trigger] text[x] != '\r' && text[x] != '\n' by {
        if x < e {
            assert(text[x] == ts[x]);
        } else {
            assert(text[x] == t[x - e]);
        }
    }
    lemma_nl_norm_plain(text);
    assert(text[0] == '[');
    assert(strip_bom(text) == text);
    assert(normalized_newlines(text) == text);
    lemma_split_plain(text);
    assert(str_lines(text) =~= seq![text]);
    assert(seq![text].drop_last() =~= Seq::<Seq<char>>::empty());
    assert(parse_fold(Seq::<Seq<char>>::empty()) == (Seq::<LineView>::empty(), empty_meta()));
    assert(seq![text].last() == text);
    assert(parse_fold(seq![text]) == parse_step(parse_fold(seq![text].drop_last()), seq![text].last()));
    assert(parse_fold(seq![text]) == parse_step((Seq::<LineView>::empty(), empty_meta()), text));
    lemma_strip_inv_plain(ts);
    lemma_strip_inv_concat(ts, t);
    assert(strip_inv(text) == text);
    crate::text::lemma_trim_empty(t);
    assert(!is_ws(t[t.len() - 1]));
    assert(text.last() == t.last());
    assert(!is_ws(text[0]));
    assert(trim(text) == text);
    // the time tags
    assert(text[e] == t[0]);
    assert(ts_at(text, e) is None);
    assert(stamps_from(text, e) == (Seq::<u64>::empty(), e));
    let v = (ms - ms % 10) as int;
    assert(stamps_from(text, 0) == (seq![v as u64] + Seq::<u64>::empty(), e));
    assert(seq![v as u64] + Seq::<u64>::empty() =~= seq![v as u64]);
    assert(text.skip(e) =~= t);
    assert(meta_tag_spec(t) is None);
    assert(crate::lrc::normalize::clean_line_spec(t) == t);
    let lines = Seq::<LineView>::empty() + seq![v as u64].map_values(|at: u64| line_spec(at, t));
    assert(lines =~= seq![line_spec(v as u64, t)]);
    assert(parse_fold(str_lines(normalized_newlines(text))) == (lines, empty_meta()));
    let sh = crate::lrc::parse::shift_lines(lines, 0);
    assert(sh =~= lines);
    let sorted = crate::lrc::parse::sort_by_time(sh);
    assert(sh.drop_last() =~= Seq::<LineView>::empty());
    assert(crate::lrc::parse::sort_by_time(Seq::<LineView>::empty()) == Seq::<LineView>::empty());
    assert(sorted =~= lines);
    let d = crate::lrc::parse::dedup_lines(sorted);
    assert(crate::lrc::parse::dedup_lines(Seq::<LineView>::empty()) == Seq::<LineView>::empty());
    assert(!crate::lrc::parse::has_line(Seq::<LineView>::empty(), lines.last()));
    assert(d =~= lines);
}


/// All characters are ASCII digits.
pub open spec fn digits_only(d: Seq<char>) -> bool {
    forall|k: int| 0 <= k < d.len() ==> is_ascii_digit(#[trigger] d[k])
}

/// The time a tag `[m:s<sep>f]` stands for: minutes and seconds, and the
/// fraction digits read as a decimal fraction of a second.
pub open spec fn tag_time(m: Seq<char>, sec: Seq<char>, f: Seq<char>) -> int {
    (dval(m, 0, m.len()) * 60000 + dval(sec, 0, sec.len()) * 1000 + dval(f, 0, f.len()) * pow10(
        (3 - f.len()) as nat,
    )) as int
}

/// The text of a tag `[m:s<sep>f]`.
pub open spec fn tag_text(m: Seq<char>, sec: Seq<char>, sep: char, f: Seq<char>) -> Seq<char> {
    seq!['['] + m + seq![':'] + sec + seq![sep] + f + seq![']']
}

proof fn lemma_tag_ts_at(m: Seq<char>, sec: Seq<char>, sep: char, f: Seq<char>, t: Seq<char>)
    requires
        1 <= m.len() <= 3,
        1 <= sec.len() <= 2,
        1 <= f.len() <= 3,
        digits_only(m),
        digits_only(sec),
        digits_only(f),
        sep == '.' || sep == ':',
    ensures
        ts_at(tag_text(m, sec, sep, f) + t, 0) == Some(
            (tag_time(m, sec, f), tag_text(m, sec, sep, f).len() as int),
        ),
        tag_text(m, sec, sep, f)[0] == '[',
        forall|x: int| 0 <= x < tag_text(m, sec, sep, f).len() ==> !is_invisible(
            #[trigger] tag_text(m, sec, sep, f)[x],
        ) && tag_text(m, sec, sep, f)[x] != '\u{A0}' && tag_text(m, sec, sep, f)[x] != '\n'
            && tag_text(m, sec, sep, f)[x] != '\r' && !is_ws(tag_text(m, sec, sep, f)[x]),
{
    let ts = tag_text(m, sec, sep, f);
    let a = m.len() as int;
    let b = sec.len() as int;
    let c = f.len() as int;
    assert(ts.len() == 4 + a + b + c);
    let text = ts + t;
    assert forall|x: int| 0 <= x < ts.len() implies #[trigger] text[x] == ts[x] by {}
    assert(text[0] == '[');
    assert forall|x: int| 1 <= x < 1 + a implies #[trigger] text[x] == m[x - 1 + 0] by {}
    assert(text[1 + a] == ':');
    assert forall|x: int| 2 + a <= x < 2 + a + b implies #[trigger] text[x] == sec[x - (2 + a) + 0] by {}
    assert(text[2 + a + b] == sep);
    assert forall|x: int| 3 + a + b <= x < 3 + a + b + c implies #[trigger] text[x] == f[x - (3 + a + b)
        + 0] by {}
    assert(text[3 + a + b + c] == ']');
    assert forall|x: int| 1 <= x < 1 + a implies is_ascii_digit(#[trigger] text[x]) by {
        assert(text[x] == m[x - 1]);
    }
    assert forall|x: int| 2 + a <= x < 2 + a + b implies is_ascii_digit(#[trigger] text[x]) by {
        assert(text[x] == sec[x - (2 + a)]);
    }
    assert forall|x: int| 3 + a + b <= x < 3 + a + b + c implies is_ascii_digit(#[trigger] text[x]) by {
        assert(text[x] == f[x - (3 + a + b)]);
    }
    lemma_digit_run_exact(text, 1, a as nat);
    lemma_digit_run_exact(text, 2 + a, b as nat);
    lemma_digit_run_exact(text, 3 + a + b, c as nat);
    lemma_dval_agree(text, m, 1, 0, a as nat);
    lemma_dval_agree(text, sec, 2 + a, 0, b as nat);
    lemma_dval_agree(text, f, 3 + a + b, 0, c as nat);
    assert(pow10(0) == 1);
    assert(pow10(1) == 10);
    assert(pow10(2) == 100);
    let fv: int = dval(f, 0, c as nat) as int;
    assert(dval(text, 3 + a + b, c as nat) == fv);
    let ms: int = if c == 1 {
        fv * 100
    } else if c == 2 {
        fv * 10
    } else {
        fv
    };
    assert(ms == fv * pow10((3 - c) as nat)) by {
        if c == 1 {
            assert((3 - c) as nat == 2);
            assert(pow10(2) == 100);
            assert(ms == fv * 100);
        } else if c == 2 {
            assert((3 - c) as nat == 1);
            assert(pow10(1) == 10);
            assert(ms == fv * 10);
        } else {
            assert((3 - c) as nat == 0);
            assert(pow10(0) == 1);
        }
    }
    let p = 2 + a + b;
    assert(digit_run(text, 1) == a);
    assert(digit_run(text, 2 + a) == b);
    assert(digit_run(text, p + 1) == c);
    assert(text[p] == '.' || text[p] == ':');
    assert(p + 1 + c < text.len() && text[p + 1 + c] == ']');
    assert(ts_at(text, 0) == Some(
        (((dval(text, 1, a as nat) * 60000 + dval(text, 2 + a, b as nat) * 1000) as int + ms), p + 2 + c),
    ));
    assert forall|x: int| 0 <= x < ts.len() implies !is_invisible(#[trigger] ts[x]) && ts[x] != '\u{A0}'
        && ts[x] != '\n' && ts[x] != '\r' && !is_ws(ts[x]) by {
        assert(text[x] == ts[x]);
        if 1 <= x < 1 + a || 2 + a <= x < 2 + a + b || 3 + a + b <= x < 3 + a + b + c {
            assert(is_ascii_digit(text[x]));
        }
    }
}

/// A timed line parses to one line at its tag's time: minutes, seconds and
/// the fraction as a decimal fraction of a second, whether the fraction
/// follows `.` or `:`. So `[mm:ss:ff]` and `[mm:ss.ff]` read alike. The text
/// must be a line as a tag leaves it: one line, not empty, free of invisible
/// characters and outer white space, not opening with another tag.
pub proof fn lemma_timed_line_parses(m: Seq<char>, sec: Seq<char>, sep: char, f: Seq<char>, t: Seq<char>)
    requires
        1 <= m.len() <= 3,
        1 <= sec.len() <= 2,
        1 <= f.len() <= 3,
        digits_only(m),
        digits_only(sec),
        digits_only(f),
        sep == '.' || sep == ':',
        t.len() > 0,
        forall|x: int| 0 <= x < t.len() ==> #[trigger] t[x] != '\n' && t[x] != '\r',
        strip_inv(t) == t,
        trim(t) == t,
        t[0] != '[',
    ensures
        parse_spec(tag_text(m, sec, sep, f) + t).0 == seq![line_spec(tag_time(m, sec, f) as u64, t)],
        parse_spec(tag_text(m, sec, sep, f) + t).1 == empty_meta(),
        parse_spec(tag_text(m, sec, ':', f) + t) == parse_spec(tag_text(m, sec, '.', f) + t),
{
    lemma_timed_line_one_sep(m, sec, sep, f, t);
    lemma_timed_line_one_sep(m, sec, ':', f, t);
    lemma_timed_line_one_sep(m, sec, '.', f, t);
}

proof fn lemma_timed_line_one_sep(m: Seq<char>, sec: Seq<char>, sep: char, f: Seq<char>, t: Seq<char>)
    requires
        1 <= m.len() <= 3,
        1 <= sec.len() <= 2,
        1 <= f.len() <= 3,
        digits_only(m),
        digits_only(sec),
        digits_only(f),
        sep == '.' || sep == ':',
        t.len() > 0,
        forall|x: int| 0 <= x < t.len() ==> #[trigger] t[x] != '\n' && t[x] != '\r',
        strip_inv(t) == t,
        trim(t) == t,
        t[0] != '[',
    ensures
        parse_spec(tag_text(m, sec, sep, f) + t).0 == seq![line_spec(tag_time(m, sec, f) as u64, t)],
        parse_spec(tag_text(m, sec, sep, f) + t).1 == empty_meta(),
{
    lemma_tag_ts_at(m, sec, sep, f, t);
    let ts = tag_text(m, sec, sep, f);
    let text = ts + t;
    let e = ts.len() as int;
    lemma_dval_bound_digits(m);
    lemma_dval_bound_digits(sec);
    lemma_dval_bound_digits(f);
    assert(0 <= tag_time(m, sec, f) <= u64::MAX) by {
        assert(pow10((3 - f.len()) as nat) <= 100) by {
            assert(pow10(0) == 1);
            assert(pow10(1) == 10);
            assert(pow10(2) == 100);
        }
        assert(dval(f, 0, f.len()) * pow10((3 - f.len()) as nat) <= 1000 * 100) by (nonlinear_arith)
            requires
                dval(f, 0, f.len()) < 1000,
                pow10((3 - f.len()) as nat) <= 100,
        ;
    }
    assert forall|x: int| 0 <= x < text.len() implies #[trigger] text[x] != '\r' && text[x] != '\n' by {
        if x < e {
            assert(text[x] == ts[x]);
        } else {
            assert(text[x] == t[x - e]);
        }
    }
    lemma_nl_norm_plain(text);
    assert(text[0] == '[');
    assert(strip_bom(text) == text);
    assert(normalized_newlines(text) == text);
    lemma_split_plain(text);
    assert(str_lines(text) =~= seq![text]);
    assert(seq![text].drop_last() =~= Seq::<Seq<char>>::empty());
    assert(parse_fold(Seq::<Seq<char>>::empty()) == (Seq::<LineView>::empty(), empty_meta()));
    assert(seq![text].last() == text);
    assert(parse_fold(seq![text]) == parse_step(parse_fold(seq![text].drop_last()), seq![text].last()));
    assert(parse_fold(seq![text]) == parse_step((Seq::<LineView>::empty(), empty_meta()), text));
    lemma_strip_inv_plain(ts);
    lemma_strip_inv_concat(ts, t);
    assert(strip_inv(text) == text);
    crate::text::lemma_trim_empty(t);
    assert(!is_ws(t[t.len() - 1]));
    assert(text.last() == t.last());
    assert(!is_ws(text[0]));
    assert(trim(text) == text);
    assert(text[e] == t[0]);
    assert(ts_at(text, e) is None);
    assert(stamps_from(text, e) == (Seq::<u64>::empty(), e));
    let v = tag_time(m, sec, f);
    assert(stamps_from(text, 0) == (seq![v as u64] + Seq::<u64>::empty(), e));
    assert(seq![v as u64] + Seq::<u64>::empty() =~= seq![v as u64]);
    assert(text.skip(e) =~= t);
    assert(meta_tag_spec(t) is None);
    assert(crate::lrc::normalize::clean_line_spec(t) == t);
    let lines = Seq::<LineView>::empty() + seq![v as u64].map_values(|at: u64| line_spec(at, t));
    assert(lines =~= seq![line_spec(v as u64, t)]);
    assert(parse_fold(str_lines(normalized_newlines(text))) == (lines, empty_meta()));
    let sh = crate::lrc::parse::shift_lines(lines, 0);
    assert(sh =~= lines);
    let sorted = crate::lrc::parse::sort_by_time(sh);
    assert(sh.drop_last() =~= Seq::<LineView>::empty());
    assert(crate::lrc::parse::sort_by_time(Seq::<LineView>::empty()) == Seq::<LineView>::empty());
    assert(sorted =~= lines);
    let d = crate::lrc::parse::dedup_lines(sorted);
    assert(crate::lrc::parse::dedup_lines(Seq::<LineView>::empty()) == Seq::<LineView>::empty());
    assert(!crate::lrc::parse::has_line(Seq::<LineView>::empty(), lines.last()));
    assert(d =~= lines);
}

/// Up to three digits read as less than a thousand.
proof fn lemma_dval_bound_digits(d: Seq<char>)
    requires
        d.len() <= 3,
        digits_only(d),
    ensures
        dval(d, 0, d.len()) < 1000,
{
    lemma_dval_le(d, d.len());
    assert(pow10(3) == 1000) by {
        assert(pow10(0) == 1);
        assert(pow10(1) == 10);
        assert(pow10(2) == 100);
    }
    if d.len() < 3 {
        assert(pow10(d.len()) <= 100) by {
            assert(pow10(0) == 1);
            assert(pow10(1) == 10);
            assert(pow10(2) == 100);
        }
    }
}

proof fn lemma_dval_le(d: Seq<char>, n: nat)
    requires
        n <= d.len(),
        digits_only(d),
    ensures
        dval(d, 0, n) < pow10(n),
    decreases n,
{
    if n > 0 {
        lemma_dval_le(d, (n - 1) as nat);
        assert(is_ascii_digit(d[n - 1]));
        assert(dval(d, 0, n) == dval(d, 0, (n - 1) as nat) * 10 + ((d[0 + n - 1] as u32) - ('0' as u32)) as nat);
        assert(dval(d, 0, (n - 1) as nat) * 10 + 9 < pow10(n)) by (nonlinear_arith)
            requires
                dval(d, 0, (n - 1) as nat) < pow10((n - 1) as nat),
                pow10(n) == 10 * pow10((n - 1) as nat),
        ;
    }
}

} // verus!
