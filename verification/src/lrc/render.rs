//! Rendering lyric lines into the text that gets written.

use vstd::prelude::*;
use crate::domain::lyrics::{any_text, has_text_line, is_text, utf8_len, LineView, LyricLine};
use crate::infra::error::{AppError, MAX_LYRIC_BYTES};
use crate::lrc::parse::{is_pure_metadata_vec, pure_metadata_spec};
use crate::text::{
    append_vec, chars_of, dec_digits, decimal, padded, push_padded, push_str_vec, rtrim,
    string_of, trim, trim_vec,
};

verus! {

/// Whether bilingual lines share one line (`[00:12.34]original  translation`).
pub const MERGE_TRANSLATION_ONE_LINE: bool = true;

/// Most lines a lyric text may have.
pub const MAX_LYRIC_LINES: usize = 20000;

#[derive(Clone, Copy, Debug)]
pub struct RenderOptions {
    /// `true`: original and translation on one line; `false`: two lines with the same time.
    pub one_line: bool,
    /// Whether translations are written (user setting).
    pub include_translation: bool,
    /// Whether credit lines are dropped before writing.
    pub strip_credits: bool,
}

impl Default for RenderOptions {
    fn default() -> (r: Self)
        ensures
            r.one_line && r.include_translation && !r.strip_credits,
    {
        RenderOptions { one_line: true, include_translation: true, strip_credits: false }
    }
}

/// `[mm:ss.xx]`: whole minutes (at least two digits), seconds, hundredths.
pub open spec fn timestamp_spec(ms: u64) -> Seq<char> {
    let total = ms / 1000;
    seq!['['] + padded((total / 60) as nat, 2) + seq![':'] + padded((total % 60) as nat, 2)
        + seq!['.'] + padded(((ms % 1000) / 10) as nat, 2) + seq![']']
}

/// The translation a line shows: present, wanted, and not blank once trimmed.
pub open spec fn shown_trans(l: LineView, o: RenderOptions) -> Option<Seq<char>> {
    if o.include_translation {
        match l.trans {
            Some(t) => if trim(t).len() > 0 {
                Some(trim(t))
            } else {
                None
            },
            None => None,
        }
    } else {
        None
    }
}

/// What one line renders to.
pub open spec fn render_line(l: LineView, o: RenderOptions) -> Seq<char> {
    let text = rtrim(l.text);
    let ts = timestamp_spec(l.at_ms);
    if o.strip_credits && pure_metadata_spec(l.text) {
        Seq::empty()
    } else {
        match shown_trans(l, o) {
            None => if text.len() == 0 {
                Seq::empty()
            } else {
                ts + text + seq!['\n']
            },
            Some(t) => if text.len() == 0 {
                ts + t + seq!['\n']
            } else if o.one_line {
                ts + text + seq![' ', ' '] + t + seq!['\n']
            } else {
                ts + text + seq!['\n'] + ts + t + seq!['\n']
            },
        }
    }
}

pub open spec fn render_spec(s: Seq<LineView>, o: RenderOptions) -> Seq<char>
    decreases s.len(),
{
    if s.len() == 0 {
        Seq::empty()
    } else {
        render_spec(s.drop_last(), o) + render_line(s.last(), o)
    }
}

fn push_timestamp(out: &mut Vec<char>, ms: u64)
    ensures
        final(out)@ == old(out)@ + timestamp_spec(ms),
{
    let total = ms / 1000;
    let ghost before = out@;
    out.push('[');
    push_padded(out, total / 60, 2);
    out.push(':');
    push_padded(out, total % 60, 2);
    out.push('.');
    push_padded(out, (ms % 1000) / 10, 2);
    out.push(']');
    assert(out@ =~= before + timestamp_spec(ms));
}

/// Formats a time as `[mm:ss.xx]`.
pub fn format_timestamp(ms: u64) -> (r: String)
    ensures
        r@ == timestamp_spec(ms),
{
    let mut v: Vec<char> = Vec::new();
    push_timestamp(&mut v, ms);
    assert(v@ =~= timestamp_spec(ms));
    string_of(&v)
}

fn rtrim_vec(v: &Vec<char>) -> (r: Vec<char>)
    ensures
        r@ == rtrim(v@),
{
    let mut j = v.len();
    assert(v@.subrange(0, j as int) == v@);
    while j > 0 && crate::text::is_whitespace(v[j - 1])
        invariant
            j <= v.len(),
            rtrim(v@) == rtrim(v@.subrange(0, j as int)),
        decreases j,
    {
        assert(v@.subrange(0, j as int).drop_last() == v@.subrange(0, j - 1));
        j = j - 1;
    }
    crate::text::slice_vec(v, 0, j)
}

fn render_one(out: &mut Vec<char>, l: &LyricLine, o: RenderOptions)
    ensures
        final(out)@ == old(out)@ + render_line(l@, o),
{
    let ghost before = out@;
    let raw = chars_of(l.text.as_str());
    if o.strip_credits && is_pure_metadata_vec(&raw) {
        assert(out@ == before + Seq::<char>::empty());
        return;
    }
    let text = rtrim_vec(&raw);
    let trans: Option<Vec<char>> = if o.include_translation {
        match &l.trans {
            Some(t) => {
                let tv = chars_of(t.as_str());
                let tt = trim_vec(&tv);
                if tt.len() > 0 {
                    Some(tt)
                } else {
                    None
                }
            },
            None => None,
        }
    } else {
        None
    };
    match trans {
        None => {
            if text.len() == 0 {
                assert(out@ == before + Seq::<char>::empty());
                return;
            }
            push_timestamp(out, l.at_ms);
            append_vec(out, &text);
            out.push('\n');
            assert(out@ =~= before + render_line(l@, o));
        },
        Some(t) => {
            if text.len() == 0 {
                push_timestamp(out, l.at_ms);
                append_vec(out, &t);
                out.push('\n');
                assert(out@ =~= before + render_line(l@, o));
            } else if o.one_line {
                push_timestamp(out, l.at_ms);
                append_vec(out, &text);
                out.push(' ');
                out.push(' ');
                append_vec(out, &t);
                out.push('\n');
                assert(out@ =~= before + render_line(l@, o));
            } else {
                push_timestamp(out, l.at_ms);
                append_vec(out, &text);
                out.push('\n');
                push_timestamp(out, l.at_ms);
                append_vec(out, &t);
                out.push('\n');
                assert(out@ =~= before + render_line(l@, o));
            }
        },
    }
}

/// Renders lines to LRC text.
///
/// A line with neither text nor translation is dropped; a blank line with a
/// translation keeps its time as an interlude marker.
pub fn render_lrc(lines: &[LyricLine], opts: &RenderOptions) -> (r: String)
    ensures
        r@ == render_spec(lines.deep_view(), *opts),
{
    let mut out: Vec<char> = Vec::new();
    let mut i: usize = 0;
    while i < lines.len()
        invariant
            i <= lines.len(),
            out@ == render_spec(lines.deep_view().take(i as int), *opts),
        decreases lines.len() - i,
    {
        assert(lines.deep_view().take(i + 1).drop_last() == lines.deep_view().take(i as int));
        assert(lines.deep_view().take(i + 1).last() == lines[i as int]@);
        render_one(&mut out, &lines[i], *opts);
        i = i + 1;
    }
    assert(lines.deep_view().take(lines.len() as int) == lines.deep_view());
    string_of(&out)
}

/// Non-blank lines, trimmed, joined by `\n`.
pub open spec fn plain_spec(s: Seq<LineView>) -> Seq<char>
    decreases s.len(),
{
    if s.len() == 0 {
        Seq::empty()
    } else {
        let r = plain_spec(s.drop_last());
        let t = trim(s.last().text);
        if t.len() == 0 {
            r
        } else if !has_text_line(s.drop_last()) {
            t
        } else {
            r + seq!['\n'] + t
        }
    }
}

proof fn lemma_plain_empty(s: Seq<LineView>)
    requires
        !has_text_line(s),
    ensures
        plain_spec(s) == Seq::<char>::empty(),
    decreases s.len(),
{
    if s.len() > 0 {
        let p = s.drop_last();
        assert(!has_text_line(p)) by {
            if has_text_line(p) {
                let j = choose|j: int| 0 <= j < p.len() && is_text(#[trigger] p[j]);
                assert(s[j] == p[j]);
            }
        }
        lemma_plain_empty(p);
        assert(!is_text(s[s.len() - 1]));
    }
}

/// Renders lines as plain text without times (for logs and debugging).
pub fn render_plain(lines: &[LyricLine]) -> (r: String)
    ensures
        r@ == plain_spec(lines.deep_view()),
{
    let mut out: Vec<char> = Vec::new();
    let mut any = false;
    let mut i: usize = 0;
    while i < lines.len()
        invariant
            i <= lines.len(),
            out@ == plain_spec(lines.deep_view().take(i as int)),
            any == has_text_line(lines.deep_view().take(i as int)),
        decreases lines.len() - i,
    {
        let ghost prev = lines.deep_view().take(i as int);
        let ghost cur = lines.deep_view().take(i + 1);
        assert(cur.drop_last() == prev);
        assert(cur.last() == lines[i as int]@);
        let v = chars_of(lines[i].text.as_str());
        let t = trim_vec(&v);
        if t.len() > 0 {
            if any {
                out.push('\n');
            }
            append_vec(&mut out, &t);
            any = true;
            assert(is_text(cur[i as int]));
            assert(has_text_line(cur));
            proof {
                if !has_text_line(prev) {
                    lemma_plain_empty(prev);
                    assert(out@ =~= plain_spec(cur));
                }
            }
        } else {
            assert(has_text_line(cur) == has_text_line(prev)) by {
                if has_text_line(cur) {
                    let j = choose|j: int| 0 <= j < cur.len() && is_text(#[trigger] cur[j]);
                    assert(j < i);
                    assert(prev[j] == cur[j]);
                }
                if has_text_line(prev) {
                    let j = choose|j: int| 0 <= j < prev.len() && is_text(#[trigger] prev[j]);
                    assert(prev[j] == cur[j]);
                }
            }
        }
        i = i + 1;
    }
    assert(lines.deep_view().take(lines.len() as int) == lines.deep_view());
    string_of(&out)
}

/// No line is more than a second earlier than the line before it (the first
/// line compares with time zero).
pub open spec fn timeline_ok(s: Seq<LineView>) -> bool {
    forall|k: int|
        1 <= k < s.len() ==> #[trigger] s[k].at_ms + 1000 >= s[k - 1].at_ms
}

pub open spec fn too_many_lines_message(n: nat) -> Seq<char> {
    "歌词行数异常（"@ + dec_digits(n) + " 行）"@
}

/// Outcome of the pre-write check, in the order the checks run.
pub open spec fn validate_spec(lines: Seq<LineView>, rendered: Seq<char>) -> Result<(), AppError> {
    if utf8_len(rendered) > MAX_LYRIC_BYTES {
        Err(AppError::LyricsTooLarge { bytes: utf8_len(rendered) as usize })
    } else if lines.len() > MAX_LYRIC_LINES {
        Err(AppError::MalformedLyrics(arbitrary()))
    } else if !timeline_ok(lines) {
        Err(AppError::MalformedLyrics(arbitrary()))
    } else if !has_text_line(lines) {
        Err(AppError::MalformedLyrics(arbitrary()))
    } else {
        Ok(())
    }
}

/// Which check refused the text, as its message.
pub open spec fn validate_message(lines: Seq<LineView>, rendered: Seq<char>) -> Seq<char> {
    if lines.len() > MAX_LYRIC_LINES {
        too_many_lines_message(lines.len())
    } else if !timeline_ok(lines) {
        "歌词时间轴不按顺序"@
    } else {
        "歌词内容为空"@
    }
}

fn timeline_in_order(lines: &[LyricLine]) -> (r: bool)
    ensures
        r == timeline_ok(lines.deep_view()),
{
    let ghost lv = lines.deep_view();
    let mut last: u64 = 0;
    let mut i: usize = 0;
    while i < lines.len()
        invariant
            i <= lines.len(),
            lv == lines.deep_view(),
            i > 0 ==> last == lv[i - 1].at_ms,
            forall|k: int| 1 <= k < i ==> #[trigger] lv[k].at_ms + 1000 >= lv[k - 1].at_ms,
        decreases lines.len() - i,
    {
        let at = lines[i].at_ms;
        assert(at == lv[i as int].at_ms);
        if i > 0 && (at as u128) + 1000 < last as u128 {
            assert(lv[i as int].at_ms + 1000 < lv[i - 1].at_ms);
            return false;
        }
        last = at;
        i = i + 1;
    }
    true
}

/// Structure check before writing: size, line count, timeline order, content.
///
/// Skipping a song beats writing a tag that players cannot read.
pub fn validate(lines: &[LyricLine], rendered: &str) -> (r: Result<(), AppError>)
    ensures
        match (r, validate_spec(lines.deep_view(), rendered@)) {
            (Ok(()), Ok(())) => true,
            (Err(AppError::LyricsTooLarge { bytes }), Err(AppError::LyricsTooLarge { bytes: b })) =>
                bytes == b,
            (Err(AppError::MalformedLyrics(m)), Err(AppError::MalformedLyrics(_))) => m@
                == validate_message(lines.deep_view(), rendered@),
            _ => false,
        },
{
    let ghost lv = lines.deep_view();
    let size = rendered.as_bytes().len();
    if size > MAX_LYRIC_BYTES {
        return Err(AppError::LyricsTooLarge { bytes: size });
    }
    if lines.len() > MAX_LYRIC_LINES {
        let mut msg: Vec<char> = Vec::new();
        push_str_vec(&mut msg, "歌词行数异常（");
        let d = decimal(lines.len() as u64);
        append_vec(&mut msg, &d);
        push_str_vec(&mut msg, " 行）");
        return Err(AppError::MalformedLyrics(string_of(&msg)));
    }
    if !timeline_in_order(lines) {
        let m = "歌词时间轴不按顺序".to_owned();
        return Err(AppError::MalformedLyrics(m));
    }
    if !any_text(lines) {
        let m = "歌词内容为空".to_owned();
        return Err(AppError::MalformedLyrics(m));
    }
    Ok(())
}

} // verus!
