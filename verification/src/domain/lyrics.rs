//! Lyric model.

use vstd::prelude::*;
use vstd::utf8::*;
use crate::domain::candidate::ProviderId;
use crate::text::{
    append_vec, chars_of, contains_seq, contains_vec, is_whitespace, lines_of, ltrim, slice_vec,
    starts_with, starts_with_vec, str_lines, string_of, trim, trim_vec,
};

verus! {

/// One lyric line. Times are integer milliseconds so merging compares exactly.
#[derive(Clone, Debug, PartialEq, Eq)]
pub struct LyricLine {
    pub at_ms: u64,
    pub text: String,
    /// Translation attached by merging.
    pub trans: Option<String>,
}

/// What a lyric line holds.
pub struct LineView {
    pub at_ms: u64,
    pub text: Seq<char>,
    pub trans: Option<Seq<char>>,
}

impl View for LyricLine {
    type V = LineView;

    open spec fn view(&self) -> LineView {
        LineView {
            at_ms: self.at_ms,
            text: self.text@,
            trans: match self.trans {
                Some(t) => Some(t@),
                None => None,
            },
        }
    }
}

impl DeepView for LyricLine {
    type V = LineView;

    open spec fn deep_view(&self) -> LineView {
        self@
    }
}

pub open spec fn line_spec(at_ms: u64, text: Seq<char>) -> LineView {
    LineView { at_ms, text, trans: None }
}

impl LyricLine {
    pub fn new(at_ms: u64, text: &str) -> (r: Self)
        ensures
            r@ == line_spec(at_ms, text@),
    {
        LyricLine { at_ms, text: text.to_owned(), trans: None }
    }

    /// A line holding the given characters, with no translation.
    pub fn from_chars(at_ms: u64, text: &Vec<char>) -> (r: Self)
        ensures
            r@ == line_spec(at_ms, text@),
    {
        LyricLine { at_ms, text: string_of(text), trans: None }
    }

    /// A copy of this line.
    pub fn duplicate(&self) -> (r: Self)
        ensures
            r@ == self@,
    {
        let trans = match &self.trans {
            Some(t) => Some(t.clone()),
            None => None,
        };
        LyricLine { at_ms: self.at_ms, text: self.text.clone(), trans }
    }
}

/// A copy of every line.
pub fn copy_lines(v: &[LyricLine]) -> (r: Vec<LyricLine>)
    ensures
        r.deep_view() == v.deep_view(),
{
    let mut r: Vec<LyricLine> = Vec::new();
    let mut i: usize = 0;
    while i < v.len()
        invariant
            i <= v.len(),
            r.deep_view() == v.deep_view().take(i as int),
        decreases v.len() - i,
    {
        r.push(v[i].duplicate());
        assert(v.deep_view().take(i + 1) == v.deep_view().take(i as int).push(v[i as int]@));
        i = i + 1;
    }
    assert(v.deep_view().take(v.len() as int) == v.deep_view());
    r
}

/// One word of a word-timed line.
#[derive(Clone, Debug)]
pub struct VerbatimWord {
    pub at_ms: u64,
    pub dur_ms: u64,
    pub text: String,
}

pub struct WordView {
    pub at_ms: u64,
    pub dur_ms: u64,
    pub text: Seq<char>,
}

impl DeepView for VerbatimWord {
    type V = WordView;

    open spec fn deep_view(&self) -> WordView {
        WordView { at_ms: self.at_ms, dur_ms: self.dur_ms, text: self.text@ }
    }
}

/// A word-timed line (NetEase YRC).
#[derive(Clone, Debug)]
pub struct VerbatimLine {
    pub at_ms: u64,
    pub dur_ms: u64,
    pub words: Vec<VerbatimWord>,
}

pub struct VLineView {
    pub at_ms: u64,
    pub dur_ms: u64,
    pub words: Seq<WordView>,
}

impl DeepView for VerbatimLine {
    type V = VLineView;

    open spec fn deep_view(&self) -> VLineView {
        VLineView { at_ms: self.at_ms, dur_ms: self.dur_ms, words: self.words.deep_view() }
    }
}

/// Word-timed lyrics (NetEase YRC only).
#[derive(Clone, Debug)]
pub struct VerbatimData {
    pub lines: Vec<VerbatimLine>,
}

impl Default for VerbatimData {
    fn default() -> (r: Self)
        ensures
            r.lines@.len() == 0,
    {
        VerbatimData { lines: Vec::new() }
    }
}

/// A text line counts as content when it is not blank.
pub open spec fn is_text(l: LineView) -> bool {
    trim(l.text).len() > 0
}

pub open spec fn has_text_line(s: Seq<LineView>) -> bool {
    exists|i: int| 0 <= i < s.len() && is_text(#[trigger] s[i])
}

pub open spec fn count_text_lines(s: Seq<LineView>) -> nat
    decreases s.len(),
{
    if s.len() == 0 {
        0
    } else {
        count_text_lines(s.drop_last()) + if is_text(s.last()) {
            1nat
        } else {
            0nat
        }
    }
}

pub proof fn lemma_count_text_lines_bound(s: Seq<LineView>)
    ensures
        count_text_lines(s) <= s.len(),
    decreases s.len(),
{
    if s.len() > 0 {
        lemma_count_text_lines_bound(s.drop_last());
    }
}

/// UTF-8 length of a text.
pub open spec fn utf8_len(s: Seq<char>) -> nat {
    encode_utf8(s).len()
}

/// The lyrics of one song from one source. Each field holds what the source gave.
#[derive(Clone, Debug)]
pub struct Lyrics {
    pub lines: Vec<LyricLine>,
    pub trans: Vec<LyricLine>,
    /// Romanisation (NetEase only).
    pub roma: Vec<LyricLine>,
    /// Word-timed lyrics (NetEase YRC only).
    pub verbatim: Option<VerbatimData>,
    /// The raw LRC text as received.
    pub raw_lrc: String,
    pub raw_trans: String,
    pub provider: ProviderId,
    pub song_id: String,
    /// Instrumental: nothing to write, counted as a successful skip.
    pub is_instrumental: bool,
}

/// Whether a text counts as non-blank.
fn line_has_text(l: &LyricLine) -> (r: bool)
    ensures
        r == is_text(l@),
{
    let v = chars_of(l.text.as_str());
    let t = trim_vec(&v);
    t.len() > 0
}

/// Number of non-blank lines of `v`.
pub fn text_line_count(v: &[LyricLine]) -> (r: usize)
    ensures
        r == count_text_lines(v.deep_view()),
{
    let mut n: usize = 0;
    let mut i: usize = 0;
    while i < v.len()
        invariant
            i <= v.len(),
            n == count_text_lines(v.deep_view().take(i as int)),
            n <= i,
        decreases v.len() - i,
    {
        assert(v.deep_view().take(i + 1).drop_last() == v.deep_view().take(i as int));
        if line_has_text(&v[i]) {
            n = n + 1;
        }
        i = i + 1;
    }
    assert(v.deep_view().take(v.len() as int) == v.deep_view());
    n
}

/// Whether any line of `v` is non-blank.
pub fn any_text(v: &[LyricLine]) -> (r: bool)
    ensures
        r == has_text_line(v.deep_view()),
{
    let mut i: usize = 0;
    while i < v.len()
        invariant
            i <= v.len(),
            forall|j: int| 0 <= j < i ==> !is_text(#[trigger] v.deep_view()[j]),
        decreases v.len() - i,
    {
        if line_has_text(&v[i]) {
            assert(is_text(v.deep_view()[i as int]));
            return true;
        }
        i = i + 1;
    }
    false
}

impl Default for Lyrics {
    fn default() -> (r: Self)
        ensures
            r.lines@.len() == 0,
            r.trans@.len() == 0,
            r.roma@.len() == 0,
            r.verbatim.is_none(),
            r.raw_lrc@.len() == 0,
            r.raw_trans@.len() == 0,
            r.provider == ProviderId::QQ,
            r.song_id@.len() == 0,
            !r.is_instrumental,
    {
        proof {
            reveal_strlit("");
        }
        Lyrics::new(ProviderId::QQ, "")
    }
}

impl Lyrics {
    pub fn new(provider: ProviderId, song_id: &str) -> (r: Self)
        ensures
            r.lines@.len() == 0,
            r.trans@.len() == 0,
            r.roma@.len() == 0,
            r.verbatim.is_none(),
            r.raw_lrc@.len() == 0,
            r.raw_trans@.len() == 0,
            r.provider == provider,
            r.song_id@ == song_id@,
            !r.is_instrumental,
    {
        Lyrics {
            lines: Vec::new(),
            trans: Vec::new(),
            roma: Vec::new(),
            verbatim: None,
            raw_lrc: String::new(),
            raw_trans: String::new(),
            provider,
            song_id: song_id.to_owned(),
            is_instrumental: false,
        }
    }

    /// Number of non-blank original lines (shown as "42 lines").
    pub fn content_line_count(&self) -> (r: usize)
        ensures
            r == count_text_lines(self.lines.deep_view()),
    {
        text_line_count(self.lines.as_slice())
    }

    /// Whether there are usable original lines.
    pub fn has_content(&self) -> (r: bool)
        ensures
            r == (!self.is_instrumental && has_text_line(self.lines.deep_view())),
    {
        !self.is_instrumental && any_text(self.lines.as_slice())
    }

    pub fn has_translation(&self) -> (r: bool)
        ensures
            r == has_text_line(self.trans.deep_view()),
    {
        any_text(self.trans.as_slice())
    }

    pub fn has_roma(&self) -> (r: bool)
        ensures
            r == has_text_line(self.roma.deep_view()),
    {
        any_text(self.roma.as_slice())
    }

    pub fn has_verbatim(&self) -> (r: bool)
        ensures
            r == (self.verbatim is Some && self.verbatim->0.lines@.len() > 0),
    {
        match &self.verbatim {
            Some(v) => v.lines.len() > 0,
            None => false,
        }
    }

    /// UTF-8 size of the raw original and translation, for the size estimate.
    pub fn estimated_bytes(&self) -> (r: usize)
        requires
            utf8_len(self.raw_lrc@) + utf8_len(self.raw_trans@) <= usize::MAX,
        ensures
            r == utf8_len(self.raw_lrc@) + utf8_len(self.raw_trans@),
    {
        let a: usize = self.raw_lrc.as_str().len();
        let b: usize = self.raw_trans.as_str().len();
        a + b
    }
}

/// An encoded text of `n` characters takes at most four bytes per character.
pub proof fn lemma_utf8_len_bound(s: Seq<char>)
    ensures
        utf8_len(s) <= 4 * s.len(),
    decreases s.len(),
{
    reveal_with_fuel(encode_utf8, 2);
    if s.len() > 0 {
        lemma_utf8_len_bound(s.drop_first());
        assert(encode_utf8(s) == encode_scalar(s[0] as u32) + encode_utf8(s.drop_first()));
    }
}

/// The lines of `t` that survive the instrumental check: those not opening with
/// `[`, and those that mention the instrumental word anyway.
pub open spec fn kept_for_marker(l: Seq<char>) -> bool {
    !starts_with(ltrim(l), "["@) || contains_seq(l, "纯音乐"@)
}

pub open spec fn join_kept(ls: Seq<Seq<char>>) -> Seq<char>
    decreases ls.len(),
{
    if ls.len() == 0 {
        Seq::empty()
    } else {
        join_kept(ls.drop_last()) + if kept_for_marker(ls.last()) {
            ls.last()
        } else {
            Seq::empty()
        }
    }
}

pub open spec fn instrumental_markers() -> Seq<Seq<char>> {
    seq![
        "纯音乐，请欣赏"@,
        "纯音乐,请欣赏"@,
        "此歌曲为没有填词的纯音乐"@,
        "暂无歌词"@,
        "该歌曲为纯音乐"@,
    ]
}

pub open spec fn looks_instrumental_spec(lrc: Seq<char>) -> bool {
    let t = trim(lrc);
    let stripped = join_kept(str_lines(t));
    t.len() > 0 && (exists|k: int|
        0 <= k < 5 && contains_seq(stripped, #[trigger] instrumental_markers()[k]))
        && stripped.len() < 80
}

/// Whether a lyric text is only the "instrumental, enjoy" placeholder.
pub fn looks_instrumental(lrc: &str) -> (r: bool)
    ensures
        r == looks_instrumental_spec(lrc@),
{
    let v = chars_of(lrc);
    let t = trim_vec(&v);
    if t.len() == 0 {
        return false;
    }
    let lines = lines_of(&t);
    let open_bracket = chars_of("[");
    let word = chars_of("纯音乐");
    let mut stripped: Vec<char> = Vec::new();
    let mut i: usize = 0;
    while i < lines.len()
        invariant
            i <= lines.len(),
            lines.deep_view() == str_lines(t@),
            open_bracket@ == "["@,
            word@ == "纯音乐"@,
            stripped@ == join_kept(lines.deep_view().take(i as int)),
        decreases lines.len() - i,
    {
        let l = &lines[i];
        assert(l@ == lines.deep_view()[i as int]);
        let lt = ltrim_vec(l);
        let keep = !starts_with_vec(&lt, &open_bracket) || contains_vec(l, &word);
        assert(lines.deep_view().take(i + 1).drop_last() == lines.deep_view().take(i as int));
        if keep {
            append_vec(&mut stripped, l);
        } else {
            assert(stripped@ == stripped@ + Seq::<char>::empty());
        }
        i = i + 1;
    }
    assert(lines.deep_view().take(lines.len() as int) == lines.deep_view());
    let markers: [&str; 5] = [
        "纯音乐，请欣赏",
        "纯音乐,请欣赏",
        "此歌曲为没有填词的纯音乐",
        "暂无歌词",
        "该歌曲为纯音乐",
    ];
    assert(forall|k: int| 0 <= k < 5 ==> markers@[k]@ == #[trigger] instrumental_markers()[k]);
    let mut found = false;
    let mut k: usize = 0;
    while k < 5
        invariant
            k <= 5,
            forall|j: int| 0 <= j < 5 ==> markers@[j]@ == #[trigger] instrumental_markers()[j],
            found == exists|j: int|
                0 <= j < k && contains_seq(stripped@, #[trigger] instrumental_markers()[j]),
        decreases 5 - k,
    {
        let m = chars_of(markers[k]);
        let c = contains_vec(&stripped, &m);
        assert(m@ == instrumental_markers()[k as int]);
        if c {
            found = true;
        }
        k = k + 1;
    }
    found && stripped.len() < 80
}

/// Leading white space removed.
pub fn ltrim_vec(v: &Vec<char>) -> (r: Vec<char>)
    ensures
        r@ == ltrim(v@),
{
    let mut i: usize = 0;
    assert(v@.subrange(0, v.len() as int) == v@);
    while i < v.len() && is_whitespace(v[i])
        invariant
            i <= v.len(),
            ltrim(v@) == ltrim(v@.subrange(i as int, v.len() as int)),
        decreases v.len() - i,
    {
        assert(v@.subrange(i as int, v.len() as int).drop_first() == v@.subrange(
            i + 1,
            v.len() as int,
        ));
        i = i + 1;
    }
    if i < v.len() {
        assert(v@.subrange(i as int, v.len() as int)[0] == v@[i as int]);
    }
    slice_vec(v, i, v.len())
}

} // verus!
