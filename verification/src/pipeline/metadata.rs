//! Metadata extraction: a fallback chain, each level with a confidence.
//!
//! ```text
//! L1  container tags ................ 0.95, or 0.70 with a title only
//! L2  file name templates ........... 0.60 – 0.85
//! L3  directory structure ........... 0.60 – 0.75, 0.85 when it agrees with L2
//! L4  the file name itself .......... 0.40
//! ```
//!
//! Confidences are kept in hundredths. Songs below [`LOW_CONFIDENCE`] are not
//! written in batch mode but wait for review. Nothing here reads a file: the
//! caller hands in the file stem and the directories between the library root
//! and the song.

use vstd::prelude::*;
use crate::domain::normalize::{
    clean_display_title, collapse_vec, collapse_spec, display_title_spec, lowercase, normalize,
    normalize_spec, strip_noise, strip_noise_vec, strip_noise_spec, to_lowercase_str,
};
use crate::domain::candidate::opt_seq;
use crate::domain::track::{MetaSource, TrackMeta};
use crate::lrc::parse::{digit_run, dval};
use crate::text::{
    chars_of, contains_seq, contains_vec, is_ascii_digit, is_whitespace, slice_vec, string_of,
    trim, trim_vec, vec_eq, ws_run, ws_run_at,
};

verus! {

/// Directory names that say nothing about the artist or album.
pub open spec fn generic_dirs() -> Seq<Seq<char>> {
    seq![
        "music"@, "musics"@, "music-test"@, "songs"@, "song"@, "audio"@, "audios"@, "sound"@,
        "sounds"@, "download"@, "downloads"@, "desktop"@, "documents"@, "media"@, "library"@,
        "my music"@, "新建文件夹"@, "new folder"@, "temp"@, "tmp"@, "test"@, "tests"@, "demo"@,
        "sample"@, "samples"@, "output"@, "曲库"@, "音乐"@, "歌曲"@, "音乐库"@, "我的音乐"@,
        "下载"@, "桌面"@, "文档"@, "缓存"@, "备份"@, "未分类"@, "杂项"@,
    ]
}

pub open spec fn all_ascii(s: Seq<char>) -> bool {
    forall|k: int| 0 <= k < s.len() ==> (#[trigger] s[k] as u32) < 0x80
}

/// A directory name is generic when, trimmed and lower-cased, it is empty, on
/// the list, ASCII containing `test`/`demo`/`sample`, or starts with a digit.
pub open spec fn generic_dir_spec(name: Seq<char>) -> bool {
    let n = lowercase(trim(name));
    ||| n.len() == 0
    ||| generic_dirs().contains(n)
    ||| (all_ascii(n) && (contains_seq(n, "test"@) || contains_seq(n, "demo"@) || contains_seq(
        n,
        "sample"@,
    )))
    ||| (n.len() > 0 && is_ascii_digit(n[0]))
}

/// Whether a directory name is too generic to be an artist or album
/// (otherwise scanning `D:/Music/` would call every album "Music").
pub fn is_generic_dir(name: &str) -> (r: bool)
    ensures
        r == generic_dir_spec(name@),
{
    let v = chars_of(name);
    let t = trim_vec(&v);
    let ts = string_of(&t);
    let lower = to_lowercase_str(ts.as_str());
    let n = chars_of(lower.as_str());
    if n.len() == 0 {
        return true;
    }
    let list: [&str; 38] = [
        "music", "musics", "music-test", "songs", "song", "audio", "audios", "sound", "sounds",
        "download", "downloads", "desktop", "documents", "media", "library", "my music", "新建文件夹",
        "new folder", "temp", "tmp", "test", "tests", "demo", "sample", "samples", "output", "曲库",
        "音乐", "歌曲", "音乐库", "我的音乐", "下载", "桌面", "文档", "缓存", "备份", "未分类", "杂项",
    ];
    assert(forall|k: int| 0 <= k < 38 ==> list@[k]@ == #[trigger] generic_dirs()[k]);
    let mut k: usize = 0;
    while k < 38
        invariant
            k <= 38,
            n@ == lowercase(trim(name@)),
            forall|j: int| 0 <= j < 38 ==> list@[j]@ == #[trigger] generic_dirs()[j],
            forall|j: int| 0 <= j < k ==> generic_dirs()[j] != n@,
        decreases 38 - k,
    {
        let item = chars_of(list[k]);
        if vec_eq(&item, &n) {
            assert(generic_dirs()[k as int] == n@);
            assert(generic_dirs().contains(n@));
            return true;
        }
        k = k + 1;
    }
    assert(!generic_dirs().contains(n@)) by {
        if generic_dirs().contains(n@) {
            let j = choose|j: int| 0 <= j < 38 && generic_dirs()[j] == n@;
            assert(generic_dirs()[j] != n@);
        }
    }
    let mut ascii = true;
    let mut i: usize = 0;
    while i < n.len()
        invariant
            i <= n.len(),
            ascii == forall|q: int| 0 <= q < i ==> (#[trigger] n@[q] as u32) < 0x80,
        decreases n.len() - i,
    {
        if (n[i] as u32) >= 0x80 {
            ascii = false;
        }
        i = i + 1;
    }
    let test = chars_of("test");
    let demo = chars_of("demo");
    let sample = chars_of("sample");
    if ascii && (contains_vec(&n, &test) || contains_vec(&n, &demo) || contains_vec(&n, &sample)) {
        return true;
    }
    '0' <= n[0] && n[0] <= '9'
}

pub open spec fn blank_opt(o: Option<String>) -> bool {
    match o {
        Some(s) => trim(s@).len() == 0,
        None => true,
    }
}

fn is_blank(o: &Option<String>) -> (r: bool)
    ensures
        r == blank_opt(*o),
{
    match o {
        Some(s) => {
            let v = chars_of(s.as_str());
            trim_vec(&v).len() == 0
        },
        None => true,
    }
}

fn copy_opt(o: &Option<String>) -> (r: Option<String>)
    ensures
        crate::domain::candidate::opt_seq(r) == crate::domain::candidate::opt_seq(*o),
{
    match o {
        Some(s) => Some(s.clone()),
        None => None,
    }
}

/// Fills the blank fields of `base` from `other`; never overwrites a value.
pub fn fill_gaps(base: TrackMeta, other: &TrackMeta) -> (r: TrackMeta)
    ensures
        crate::domain::candidate::opt_seq(r.title) == if blank_opt(base.title) {
            crate::domain::candidate::opt_seq(other.title)
        } else {
            crate::domain::candidate::opt_seq(base.title)
        },
        crate::domain::candidate::opt_seq(r.artist) == if blank_opt(base.artist) {
            crate::domain::candidate::opt_seq(other.artist)
        } else {
            crate::domain::candidate::opt_seq(base.artist)
        },
        crate::domain::candidate::opt_seq(r.album) == if blank_opt(base.album) {
            crate::domain::candidate::opt_seq(other.album)
        } else {
            crate::domain::candidate::opt_seq(base.album)
        },
        r.track_no == if base.track_no is None {
            other.track_no
        } else {
            base.track_no
        },
        r.year == if base.year is None {
            other.year
        } else {
            base.year
        },
        r.album_artist == base.album_artist,
        r.has_cover == base.has_cover,
        r.source == base.source,
{
    let mut base = base;
    if is_blank(&base.title) {
        base.title = copy_opt(&other.title);
    }
    if is_blank(&base.artist) {
        base.artist = copy_opt(&other.artist);
    }
    if is_blank(&base.album) {
        base.album = copy_opt(&other.album);
    }
    if base.track_no.is_none() {
        base.track_no = other.track_no;
    }
    if base.year.is_none() {
        base.year = other.year;
    }
    base
}

pub open spec fn field_trim_char(c: char) -> bool {
    c == '-' || c == '–' || c == '—' || c == '.' || c == '_' || c == ' '
}

pub open spec fn trim_field_start(s: Seq<char>) -> Seq<char>
    decreases s.len(),
{
    if s.len() > 0 && field_trim_char(s[0]) {
        trim_field_start(s.drop_first())
    } else {
        s
    }
}

pub open spec fn trim_field_end(s: Seq<char>) -> Seq<char>
    decreases s.len(),
{
    if s.len() > 0 && field_trim_char(s.last()) {
        trim_field_end(s.drop_last())
    } else {
        s
    }
}

pub open spec fn clean_spec(s: Seq<char>) -> Option<Seq<char>> {
    let t = trim(trim_field_end(trim_field_start(collapse_spec(strip_noise_spec(display_title_spec(s))))));
    if t.len() > 0 {
        Some(t)
    } else {
        None
    }
}

/// Cleans one extracted field: entities, noise suffixes, white space, and
/// dashes, dots and underscores at either end.
pub fn clean(s: &str) -> (r: Option<String>)
    ensures
        match clean_spec(s@) {
            Some(t) => r is Some && r->0@ == t,
            None => r is None,
        },
{
    let a = clean_display_title(s);
    let av = chars_of(a.as_str());
    let b = strip_noise_vec(&av);
    let d = collapse_vec(&b);
    let mut lo: usize = 0;
    assert(d@.subrange(0, d.len() as int) == d@);
    while lo < d.len() && (d[lo] == '-' || d[lo] == '–' || d[lo] == '—' || d[lo] == '.' || d[lo]
        == '_' || d[lo] == ' ')
        invariant
            lo <= d.len(),
            trim_field_start(d@) == trim_field_start(d@.subrange(lo as int, d.len() as int)),
        decreases d.len() - lo,
    {
        assert(d@.subrange(lo as int, d.len() as int).drop_first() == d@.subrange(
            lo + 1,
            d.len() as int,
        ));
        lo = lo + 1;
    }
    if lo < d.len() {
        assert(d@.subrange(lo as int, d.len() as int)[0] == d@[lo as int]);
    }
    let ghost mid = d@.subrange(lo as int, d.len() as int);
    let mut hi = d.len();
    while hi > lo && (d[hi - 1] == '-' || d[hi - 1] == '–' || d[hi - 1] == '—' || d[hi - 1] == '.'
        || d[hi - 1] == '_' || d[hi - 1] == ' ')
        invariant
            lo <= hi <= d.len(),
            trim_field_end(mid) == trim_field_end(d@.subrange(lo as int, hi as int)),
        decreases hi,
    {
        assert(d@.subrange(lo as int, hi as int).drop_last() == d@.subrange(lo as int, hi - 1));
        hi = hi - 1;
    }
    let e = crate::text::slice_vec(&d, lo, hi);
    let t = trim_vec(&e);
    if t.len() > 0 {
        Some(string_of(&t))
    } else {
        None
    }
}


/// Confidence (hundredths) below which a song is not taken automatically.
pub const LOW_CONFIDENCE: u32 = 50;

pub open spec fn is_dash(c: char) -> bool {
    c == '-' || c == '–' || c == '—'
}

pub open spec fn no_newline_from(s: Seq<char>, e: int) -> bool {
    forall|k: int| e <= k < s.len() ==> s[k] != '\n'
}

/// `\s+[-–—]` at index `p`: the index after the dash. The white-space run
/// cannot give back characters, since a dash is not white space.
pub open spec fn sep_at(s: Seq<char>, p: int) -> Option<int> {
    let w = ws_run(s, p);
    if 0 <= p && w >= 1 && p + w < s.len() && is_dash(s[p + w]) {
        Some(p + w + 1)
    } else {
        None
    }
}

/// Where `\s*(.+)$` (`min_ws` 0) or `\s+(.+)$` (`min_ws` 1) at index `c`
/// starts its capture: after the whole white-space run, or one character
/// earlier when the run reaches the end (the greedy run gives one back). `.`
/// does not match a line feed.
pub open spec fn tail_at(s: Seq<char>, c: int, min_ws: nat) -> Option<int> {
    let w = ws_run(s, c);
    let e = c + w;
    if c < 0 || w < min_ws {
        None
    } else if e < s.len() {
        if no_newline_from(s, e) {
            Some(e)
        } else {
            None
        }
    } else if w >= min_ws + 1 && s.len() >= 1 && s[s.len() - 1] != '\n' {
        Some(s.len() - 1)
    } else {
        None
    }
}

/// `^(.+?)\s+[-–—]\s+(.+)$` with the first group at least `i` long: the end
/// of the first group and the start of the second.
pub open spec fn pair_from(s: Seq<char>, i: int) -> Option<(int, int)>
    decreases s.len() - i,
{
    if i < 1 || i >= s.len() || s[i - 1] == '\n' {
        None
    } else {
        match sep_at(s, i) {
            Some(c) => match tail_at(s, c, 1) {
                Some(g) => Some((i, g)),
                None => pair_from(s, i + 1),
            },
            None => pair_from(s, i + 1),
        }
    }
}

/// Artist and title: `A - T`, spaces around the dash required.
pub open spec fn pair_spec(s: Seq<char>) -> Option<(int, int)> {
    pair_from(s, 1)
}

/// The lazy middle group from `j`, at least `m` long, then `\s+[-–—]\s+(.+)$`:
/// the end of the middle group and the start of the last.
pub open spec fn mid_from(s: Seq<char>, j: int, m: int) -> Option<(int, int)>
    decreases s.len() - (j + m),
{
    if m < 1 || j < 0 || j + m >= s.len() || s[j + m - 1] == '\n' {
        None
    } else {
        match sep_at(s, j + m) {
            Some(c) => match tail_at(s, c, 1) {
                Some(g) => Some((j + m, g)),
                None => mid_from(s, j, m + 1),
            },
            None => mid_from(s, j, m + 1),
        }
    }
}

/// After the first dash, `\s+` takes `k` white-space characters first and
/// gives them back one by one while the rest fails.
pub open spec fn after_dash(s: Seq<char>, a: int, k: int) -> Option<(int, int, int)>
    decreases k,
{
    if k < 1 {
        None
    } else {
        match mid_from(s, a + k, 1) {
            Some((p, g)) => Some((a + k, p, g)),
            None => after_dash(s, a, k - 1),
        }
    }
}

/// `^(.+?)\s+[-–—]\s+(.+?)\s+[-–—]\s+(.+)$` with the first group at least `i`
/// long: the group bounds.
pub open spec fn triple_from(s: Seq<char>, i: int) -> Option<(int, int, int, int)>
    decreases s.len() - i,
{
    if i < 1 || i >= s.len() || s[i - 1] == '\n' {
        None
    } else {
        match sep_at(s, i) {
            Some(a) => match after_dash(s, a, ws_run(s, a) as int) {
                Some((j, p, g)) => Some((i, j, p, g)),
                None => triple_from(s, i + 1),
            },
            None => triple_from(s, i + 1),
        }
    }
}

/// Artist, album and title: `A - B - T`.
pub open spec fn triple_spec(s: Seq<char>) -> Option<(int, int, int, int)> {
    triple_from(s, 1)
}

pub open spec fn is_index_punct(c: char) -> bool {
    c == '.' || c == '-' || c == '、' || c == ')' || c == '）'
}

/// A track number prefix `^\s*(\d{1,3})\s*[.\-、)）]\s*(.+)$` (`01. T`,
/// `01 - T`, `01、T`): the number and where the rest starts.
pub open spec fn indexed_spec(s: Seq<char>) -> Option<(u32, int)> {
    let a = ws_run(s, 0) as int;
    let d = digit_run(s, a);
    let b = a + d;
    let w = ws_run(s, b);
    if 1 <= d <= 3 && b + w < s.len() && is_index_punct(s[b + w]) {
        match tail_at(s, b + w + 1, 0) {
            Some(g) => Some((dval(s, a, d) as u32, g)),
            None => None,
        }
    } else {
        None
    }
}

fn sep_at_exec(s: &Vec<char>, p: usize) -> (r: Option<usize>)
    requires
        p <= s.len(),
    ensures
        r matches Some(c) ==> sep_at(s@, p as int) == Some(c as int) && c <= s.len(),
        r is None ==> sep_at(s@, p as int) is None,
{
    let w = ws_run_at(s, p);
    if w >= 1 && p + w < s.len() && (s[p + w] == '-' || s[p + w] == '–' || s[p + w] == '—') {
        Some(p + w + 1)
    } else {
        None
    }
}

fn tail_at_exec(s: &Vec<char>, c: usize, min_ws: usize) -> (r: Option<usize>)
    requires
        c <= s.len(),
        min_ws <= 1,
    ensures
        r matches Some(g) ==> tail_at(s@, c as int, min_ws as nat) == Some(g as int) && g < s.len(),
        r is None ==> tail_at(s@, c as int, min_ws as nat) is None,
{
    let w = ws_run_at(s, c);
    let e = c + w;
    if w < min_ws {
        return None;
    }
    if e < s.len() {
        let mut k = e;
        while k < s.len()
            invariant
                e <= k <= s.len(),
                e == c + w,
                c <= s.len(),
                w == ws_run(s@, c as int),
                w >= min_ws,
                e < s.len(),
                forall|q: int| e <= q < k ==> s@[q] != '\n',
            decreases s.len() - k,
        {
            if s[k] == '\n' {
                assert(s@[k as int] == '\n');
                assert(!no_newline_from(s@, e as int));
                return None;
            }
            k = k + 1;
        }
        return Some(e);
    }
    if w >= min_ws + 1 && s.len() >= 1 && s[s.len() - 1] != '\n' {
        Some(s.len() - 1)
    } else {
        None
    }
}

fn pair_exec(s: &Vec<char>) -> (r: Option<(usize, usize)>)
    ensures
        r matches Some((i, g)) ==> pair_spec(s@) == Some((i as int, g as int)) && 1 <= i < s.len()
            && g < s.len(),
        r is None ==> pair_spec(s@) is None,
{
    let mut i: usize = 1;
    while i < s.len()
        invariant
            1 <= i,
            pair_spec(s@) == pair_from(s@, i as int),
        decreases s.len() - i,
    {
        if s[i - 1] == '\n' {
            return None;
        }
        match sep_at_exec(s, i) {
            Some(c) => match tail_at_exec(s, c, 1) {
                Some(g) => {
                    return Some((i, g));
                },
                None => {},
            },
            None => {},
        }
        i = i + 1;
    }
    None
}

fn mid_exec(s: &Vec<char>, j: usize) -> (r: Option<(usize, usize)>)
    requires
        j <= s.len(),
    ensures
        r matches Some((p, g)) ==> mid_from(s@, j as int, 1) == Some((p as int, g as int)) && j < p
            < s.len() && g < s.len(),
        r is None ==> mid_from(s@, j as int, 1) is None,
{
    if j >= s.len() {
        return None;
    }
    let mut m: usize = 1;
    while j + m < s.len()
        invariant
            j <= s.len(),
            1 <= m,
            j + m <= s.len(),
            mid_from(s@, j as int, 1) == mid_from(s@, j as int, m as int),
        decreases s.len() - (j + m),
    {
        if s[j + m - 1] == '\n' {
            return None;
        }
        match sep_at_exec(s, j + m) {
            Some(c) => match tail_at_exec(s, c, 1) {
                Some(g) => {
                    return Some((j + m, g));
                },
                None => {},
            },
            None => {},
        }
        m = m + 1;
    }
    None
}

fn triple_exec(s: &Vec<char>) -> (r: Option<(usize, usize, usize, usize)>)
    ensures
        r matches Some((i, j, p, g)) ==> triple_spec(s@) == Some((i as int, j as int, p as int, g as int))
            && 1 <= i < j < p < s.len() && g < s.len(),
        r is None ==> triple_spec(s@) is None,
{
    let mut i: usize = 1;
    while i < s.len()
        invariant
            1 <= i,
            triple_spec(s@) == triple_from(s@, i as int),
        decreases s.len() - i,
    {
        if s[i - 1] == '\n' {
            return None;
        }
        match sep_at_exec(s, i) {
            Some(a) => {
                let w = ws_run_at(s, a);
                let mut k = w;
                while k >= 1
                    invariant
                        a <= s.len(),
                        a + w <= s.len(),
                        k <= w,
                        a > i,
                        after_dash(s@, a as int, w as int) == after_dash(s@, a as int, k as int),
                        triple_spec(s@) == triple_from(s@, i as int),
                        sep_at(s@, i as int) == Some(a as int),
                        ws_run(s@, a as int) == w,
                        1 <= i < s.len(),
                        s@[i - 1] != '\n',
                    decreases k,
                {
                    match mid_exec(s, a + k) {
                        Some((p, g)) => {
                            return Some((i, a + k, p, g));
                        },
                        None => {},
                    }
                    k = k - 1;
                }
            },
            None => {},
        }
        i = i + 1;
    }
    None
}

fn indexed_exec(s: &Vec<char>) -> (r: Option<(u32, usize)>)
    ensures
        r matches Some((n, g)) ==> indexed_spec(s@) == Some((n, g as int)) && g < s.len(),
        r is None ==> indexed_spec(s@) is None,
{
    let a = ws_run_at(s, 0);
    let mut k = a;
    while k < s.len() && '0' <= s[k] && s[k] <= '9'
        invariant
            a <= k <= s.len(),
            digit_run(s@, a as int) == (k - a) + digit_run(s@, k as int),
            forall|q: int| a <= q < k ==> is_ascii_digit(#[trigger] s@[q]),
        decreases s.len() - k,
    {
        k = k + 1;
    }
    let d = k - a;
    if !(1 <= d && d <= 3) {
        return None;
    }
    let b = a + d;
    let w = ws_run_at(s, b);
    if !(b + w < s.len() && (s[b + w] == '.' || s[b + w] == '-' || s[b + w] == '、' || s[b + w]
        == ')' || s[b + w] == '）')) {
        return None;
    }
    let g = match tail_at_exec(s, b + w + 1, 0) {
        Some(g) => g,
        None => {
            return None;
        },
    };
    let mut v: u32 = 0;
    let mut t: usize = 0;
    while t < d
        invariant
            t <= d <= 3,
            a + d <= s.len(),
            forall|q: int| a <= q < a + d ==> is_ascii_digit(#[trigger] s@[q]),
            v == dval(s@, a as int, t as nat),
            t == 0 ==> v == 0,
            t == 1 ==> v < 10,
            t == 2 ==> v < 100,
            t == 3 ==> v < 1000,
        decreases d - t,
    {
        assert(is_ascii_digit(s@[a + t]));
        let dig = (s[a + t] as u32) - ('0' as u32);
        v = v * 10 + dig;
        t = t + 1;
    }
    Some((v, g))
}


/// Names the `regex` crate's answer to whether `pattern` matches in `text`.
pub uninterp spec fn regex_verdict(pattern: Seq<char>, text: Seq<char>) -> bool;

/// `regex::Regex::is_match` for a pattern compiled on the spot; a pattern that
/// does not compile matches nothing. The contract only names the crate's
/// answer.
#[verifier::external_body]
fn regex_is_match(pattern: &str, text: &str) -> (r: bool)
    ensures
        r == regex_verdict(pattern@, text@),
{
    match regex::Regex::new(pattern) {
        Ok(re) => re.is_match(text),
        Err(_) => false,
    }
}

/// A bilingual title `中文标题-English title`, no spaces needed around the
/// dash. Such a file name is a real title rather than an ad-hoc name, so it
/// scores above a bare name; the whole string is kept, since the platforms
/// list the title in this full form and the subtitle helps tell songs apart.
pub const BILINGUAL_TITLE: &'static str = "^[\\p{Han}\\p{Hiragana}\\p{Katakana}][\\p{Han}\\p{Hiragana}\\p{Katakana}\\s]*\\s*[-–—]\\s*[A-Za-z][\\x20-\\x7E]*$";

/// Metadata as values.
pub struct TagView {
    pub title: Option<Seq<char>>,
    pub artist: Option<Seq<char>>,
    pub album: Option<Seq<char>>,
    pub album_artist: Option<Seq<char>>,
    pub track_no: Option<u32>,
    pub year: Option<u32>,
    pub has_cover: bool,
    pub source: MetaSource,
}

pub open spec fn tag_view(m: TrackMeta) -> TagView {
    TagView {
        title: opt_seq(m.title),
        artist: opt_seq(m.artist),
        album: opt_seq(m.album),
        album_artist: opt_seq(m.album_artist),
        track_no: m.track_no,
        year: m.year,
        has_cover: m.has_cover,
        source: m.source,
    }
}

pub open spec fn blank_v(o: Option<Seq<char>>) -> bool {
    match o {
        Some(s) => trim(s).len() == 0,
        None => true,
    }
}

pub open spec fn fill_gaps_view(b: TagView, o: TagView) -> TagView {
    TagView {
        title: if blank_v(b.title) {
            o.title
        } else {
            b.title
        },
        artist: if blank_v(b.artist) {
            o.artist
        } else {
            b.artist
        },
        album: if blank_v(b.album) {
            o.album
        } else {
            b.album
        },
        track_no: if b.track_no is None {
            o.track_no
        } else {
            b.track_no
        },
        year: if b.year is None {
            o.year
        } else {
            b.year
        },
        ..b
    }
}

pub open spec fn empty_view(source: MetaSource) -> TagView {
    TagView {
        title: None,
        artist: None,
        album: None,
        album_artist: None,
        track_no: None,
        year: None,
        has_cover: false,
        source,
    }
}

pub open spec fn clean_opt(o: Option<Seq<char>>) -> Option<Seq<char>> {
    match o {
        Some(t) => clean_spec(t),
        None => None,
    }
}

/// What the file name templates give, with its confidence: the track number
/// prefix comes off first, then three-part, two-part and bilingual templates
/// are tried in turn; noise suffixes are stripped before any template, or
/// `晴天 - 副本` would read as artist `晴天` and title `副本`.
pub open spec fn from_filename_spec(stem: Seq<char>) -> (TagView, u32) {
    let st = strip_noise_spec(stem);
    let ix = indexed_spec(st);
    let numbered = ix is Some;
    let rest = match ix {
        Some((n, g)) => trim(st.subrange(g, st.len() as int)),
        None => st,
    };
    let track_no: Option<u32> = match ix {
        Some((n, g)) => Some(n),
        None => None,
    };
    let tr = triple_spec(rest);
    let pr = pair_spec(rest);
    let artist = match tr {
        Some((i, j, p, g)) => clean_spec(rest.subrange(0, i)),
        None => match pr {
            Some((i, g)) => clean_spec(rest.subrange(0, i)),
            None => None,
        },
    };
    let album = match tr {
        Some((i, j, p, g)) => clean_spec(rest.subrange(j, p)),
        None => None,
    };
    let title0 = match tr {
        Some((i, j, p, g)) => clean_spec(rest.subrange(g, rest.len() as int)),
        None => match pr {
            Some((i, g)) => clean_spec(rest.subrange(g, rest.len() as int)),
            None => clean_spec(rest),
        },
    };
    let conf0: u32 = if tr is Some {
        80
    } else if pr is Some {
        85
    } else if regex_verdict(BILINGUAL_TITLE@, rest) {
        75
    } else if numbered {
        70
    } else {
        60
    };
    let conf1: u32 = if numbered && title0 is Some {
        if conf0 + 2 <= 85 {
            (conf0 + 2) as u32
        } else {
            85
        }
    } else {
        conf0
    };
    let title = clean_opt(title0);
    (
        TagView {
            title,
            artist,
            album,
            track_no,
            ..empty_view(MetaSource::FileNameRegex)
        },
        if title is None {
            0
        } else {
            conf1
        },
    )
}

/// The directory names that are not blank.
pub open spec fn nonblank_parts(dirs: Seq<Seq<char>>) -> Seq<Seq<char>>
    decreases dirs.len(),
{
    if dirs.len() == 0 {
        Seq::empty()
    } else if trim(dirs.last()).len() > 0 {
        nonblank_parts(dirs.drop_last()).push(dirs.last())
    } else {
        nonblank_parts(dirs.drop_last())
    }
}

/// What the directory structure gives: `<root>/<artist>/<album>/…` or
/// `<root>/<album>/…`, generic names left out; `None` when nothing is left.
pub open spec fn from_directories_spec(dirs: Option<Seq<Seq<char>>>) -> Option<(TagView, u32)> {
    match dirs {
        None => None,
        Some(ds) => {
            let parts = nonblank_parts(ds);
            let artist = if parts.len() >= 2 && !generic_dir_spec(parts[0]) {
                clean_spec(parts[0])
            } else {
                None
            };
            let album = if parts.len() >= 2 {
                if !generic_dir_spec(parts[1]) {
                    clean_spec(parts[1])
                } else {
                    None
                }
            } else if parts.len() == 1 && !generic_dir_spec(parts[0]) {
                clean_spec(parts[0])
            } else {
                None
            };
            let conf: u32 = if parts.len() >= 2 && !generic_dir_spec(parts[0]) {
                70
            } else {
                60
            };
            if parts.len() >= 1 && (artist is Some || album is Some) {
                Some(
                    (
                        TagView { artist, album, ..empty_view(MetaSource::PathPattern) },
                        conf,
                    ),
                )
            } else {
                None
            }
        },
    }
}

/// Container tags as the first level: a title and an artist give 0.95, a
/// title alone 0.70 (the score makes up for the missing artist); without a
/// title the chain falls through to the file name.
pub open spec fn from_tags_spec(t: TagView) -> Option<(TagView, u32)> {
    if !blank_v(t.title) && !blank_v(t.artist) {
        Some((TagView { source: MetaSource::TagLib, ..t }, 95))
    } else if !blank_v(t.title) {
        Some((TagView { source: MetaSource::TagLib, ..t }, 70))
    } else {
        None
    }
}

/// The whole chain: tags, file name, directories, and the bare file name as
/// the last resort. A directory artist that agrees with the file name artist
/// raises the confidence to 0.85.
pub open spec fn extract_spec(stem: Seq<char>, dirs: Option<Seq<Seq<char>>>, tagged: TagView) -> (
    TagView,
    u32,
) {
    let l2 = from_filename_spec(stem);
    match from_tags_spec(tagged) {
        Some((m, c)) => (fill_gaps_view(m, l2.0), c),
        None => {
            let mid: (TagView, u32) = match from_directories_spec(dirs) {
                None => l2,
                Some((dm, dc)) => {
                    let agree = match (l2.0.artist, dm.artist) {
                        (Some(a), Some(b)) => a.len() > 0 && b.len() > 0 && normalize_spec(a)
                            == normalize_spec(b),
                        _ => false,
                    };
                    let c: u32 = if agree {
                        if l2.1 >= 85 {
                            l2.1
                        } else {
                            85
                        }
                    } else if l2.0.artist is None && dm.artist is Some {
                        if l2.1 >= dc {
                            l2.1
                        } else {
                            dc
                        }
                    } else {
                        l2.1
                    };
                    (fill_gaps_view(l2.0, dm), c)
                },
            };
            if blank_v(mid.0.title) {
                let t = trim(stem);
                (
                    TagView {
                        title: if t.len() > 0 {
                            Some(t)
                        } else {
                            None
                        },
                        source: MetaSource::Fallback,
                        ..mid.0
                    },
                    40,
                )
            } else {
                mid
            }
        },
    }
}

/// One extraction: the metadata and its confidence in hundredths.
#[derive(Clone, Debug)]
pub struct Extracted {
    pub meta: TrackMeta,
    pub confidence: u32,
}

fn slice_string(v: &Vec<char>, from: usize, to: usize) -> (r: String)
    requires
        from <= to <= v.len(),
    ensures
        r@ == v@.subrange(from as int, to as int),
{
    let t = slice_vec(v, from, to);
    string_of(&t)
}

fn from_filename(stem: &str) -> (r: Extracted)
    ensures
        tag_view(r.meta) == from_filename_spec(stem@).0,
        r.confidence == from_filename_spec(stem@).1,
{
    let st = strip_noise(stem);
    let sv = chars_of(st.as_str());
    let ix = indexed_exec(&sv);
    let rest: Vec<char> = match ix {
        Some((_, g)) => {
            let tail = slice_vec(&sv, g, sv.len());
            trim_vec(&tail)
        },
        None => sv.clone(),
    };
    let numbered = ix.is_some();
    let track_no: Option<u32> = match ix {
        Some((n, _)) => Some(n),
        None => None,
    };
    let rs = string_of(&rest);
    let mut artist: Option<String> = None;
    let mut album: Option<String> = None;
    let title0: Option<String>;
    let mut conf: u32;
    match triple_exec(&rest) {
        Some((i, j, p, g)) => {
            artist = clean(slice_string(&rest, 0, i).as_str());
            album = clean(slice_string(&rest, j, p).as_str());
            title0 = clean(slice_string(&rest, g, rest.len()).as_str());
            conf = 80;
        },
        None => match pair_exec(&rest) {
            Some((i, g)) => {
                artist = clean(slice_string(&rest, 0, i).as_str());
                title0 = clean(slice_string(&rest, g, rest.len()).as_str());
                conf = 85;
            },
            None => {
                title0 = clean(rs.as_str());
                conf = if regex_is_match(BILINGUAL_TITLE, rs.as_str()) {
                    75
                } else if numbered {
                    70
                } else {
                    60
                };
            },
        },
    }
    if numbered && title0.is_some() {
        conf = if conf + 2 <= 85 {
            conf + 2
        } else {
            85
        };
    }
    let title = match title0 {
        Some(t) => clean(t.as_str()),
        None => None,
    };
    if title.is_none() {
        conf = 0;
    }
    let mut meta = TrackMeta::default();
    meta.title = title;
    meta.artist = artist;
    meta.album = album;
    meta.track_no = track_no;
    meta.source = MetaSource::FileNameRegex;
    Extracted { meta, confidence: conf }
}

fn nonblank_dirs(dirs: &Vec<String>) -> (r: Vec<String>)
    ensures
        r.deep_view() == nonblank_parts(dirs.deep_view()),
{
    let mut out: Vec<String> = Vec::new();
    let mut i: usize = 0;
    while i < dirs.len()
        invariant
            i <= dirs.len(),
            out.deep_view() == nonblank_parts(dirs.deep_view().take(i as int)),
        decreases dirs.len() - i,
    {
        assert(dirs.deep_view().take(i + 1).drop_last() == dirs.deep_view().take(i as int));
        assert(dirs.deep_view().take(i + 1).last() == dirs[i as int]@);
        let v = chars_of(dirs[i].as_str());
        let t = trim_vec(&v);
        if t.len() > 0 {
            let ghost before = out.deep_view();
            out.push(dirs[i].clone());
            assert(out.deep_view() =~= before.push(dirs[i as int]@));
        }
        i = i + 1;
    }
    assert(dirs.deep_view().take(dirs.len() as int) == dirs.deep_view());
    out
}

fn from_directories(dirs: &Option<Vec<String>>) -> (r: Option<Extracted>)
    ensures
        match from_directories_spec(match dirs {
            Some(d) => Some(d.deep_view()),
            None => None,
        }) {
            Some((m, c)) => r matches Some(e) && tag_view(e.meta) == m && e.confidence == c,
            None => r is None,
        },
{
    let ds = match dirs {
        None => {
            return None;
        },
        Some(d) => d,
    };
    let parts = nonblank_dirs(ds);
    let mut meta = TrackMeta::default();
    let mut conf: u32 = 60;
    if parts.len() >= 2 {
        if !is_generic_dir(parts[0].as_str()) {
            meta.artist = clean(parts[0].as_str());
            conf = 70;
        }
        if !is_generic_dir(parts[1].as_str()) {
            meta.album = clean(parts[1].as_str());
        }
    } else if parts.len() == 1 {
        if !is_generic_dir(parts[0].as_str()) {
            meta.album = clean(parts[0].as_str());
        }
    } else {
        return None;
    }
    meta.source = MetaSource::PathPattern;
    if meta.artist.is_some() || meta.album.is_some() {
        Some(Extracted { meta, confidence: conf })
    } else {
        None
    }
}

fn from_tags(tagged: &TrackMeta) -> (r: Option<Extracted>)
    ensures
        match from_tags_spec(tag_view(*tagged)) {
            Some((m, c)) => r matches Some(e) && tag_view(e.meta) == m && e.confidence == c,
            None => r is None,
        },
{
    let title_ok = !is_blank(&tagged.title);
    let artist_ok = !is_blank(&tagged.artist);
    if !title_ok {
        return None;
    }
    let mut m = tagged.duplicate();
    m.source = MetaSource::TagLib;
    Some(Extracted { meta: m, confidence: if artist_ok { 95 } else { 70 } })
}

fn is_nonempty(o: &Option<String>) -> (r: bool)
    ensures
        r == (o matches Some(s) && s@.len() > 0),
{
    match o {
        Some(s) => {
            let v = chars_of(s.as_str());
            v.len() > 0
        },
        None => false,
    }
}

/// Runs the fallback chain for one song. `stem` is the file name without
/// extension; `dirs` the directory names between the library root and the
/// song (`None` when there is no root or the song is outside it).
pub fn extract(stem: &str, dirs: &Option<Vec<String>>, tagged: &TrackMeta) -> (r: Extracted)
    ensures
        tag_view(r.meta) == extract_spec(
            stem@,
            match dirs {
                Some(d) => Some(d.deep_view()),
                None => None,
            },
            tag_view(*tagged),
        ).0,
        r.confidence == extract_spec(
            stem@,
            match dirs {
                Some(d) => Some(d.deep_view()),
                None => None,
            },
            tag_view(*tagged),
        ).1,
{
    let l2 = from_filename(stem);
    match from_tags(tagged) {
        Some(l1) => {
            return Extracted { meta: fill_gaps(l1.meta, &l2.meta), confidence: l1.confidence };
        },
        None => {},
    }
    let mut meta = l2.meta;
    let mut conf = l2.confidence;
    match from_directories(dirs) {
        None => {},
        Some(d) => {
            let agree = if is_nonempty(&meta.artist) && is_nonempty(&d.meta.artist) {
                match (&meta.artist, &d.meta.artist) {
                    (Some(a), Some(b)) => {
                        let na = normalize(a.as_str());
                        let nb = normalize(b.as_str());
                        crate::text::str_eq(na.as_str(), nb.as_str())
                    },
                    _ => false,
                }
            } else {
                false
            };
            if agree {
                if conf < 85 {
                    conf = 85;
                }
            } else if meta.artist.is_none() && d.meta.artist.is_some() {
                if conf < d.confidence {
                    conf = d.confidence;
                }
            }
            meta = fill_gaps(meta, &d.meta);
        },
    }
    if is_blank(&meta.title) {
        let v = chars_of(stem);
        let t = trim_vec(&v);
        meta.title = if t.len() > 0 {
            Some(string_of(&t))
        } else {
            None
        };
        meta.source = MetaSource::Fallback;
        conf = 40;
    }
    Extracted { meta, confidence: conf }
}


proof fn lemma_clean_nonblank(s: Seq<char>)
    ensures
        clean_spec(s) matches Some(t) ==> !blank_v(Some(t)),
{
    let u = trim_field_end(trim_field_start(collapse_spec(strip_noise_spec(display_title_spec(s)))));
    crate::text::lemma_trim_empty(u);
    crate::text::lemma_trim_empty(trim(u));
}

/// A file name yields a confidence between 0.60 and 0.85 when it yields a
/// title, and none otherwise.
pub proof fn lemma_filename_confidence(stem: Seq<char>)
    ensures
        from_filename_spec(stem).0.title is Some ==> 60 <= from_filename_spec(stem).1 <= 85,
        from_filename_spec(stem).0.title is None ==> from_filename_spec(stem).1 == 0,
        from_filename_spec(stem).0.title is Some ==> !blank_v(from_filename_spec(stem).0.title),
{
    let st = strip_noise_spec(stem);
    let rest = match indexed_spec(st) {
        Some((n, g)) => trim(st.subrange(g, st.len() as int)),
        None => st,
    };
    let title0 = match triple_spec(rest) {
        Some((i, j, p, g)) => clean_spec(rest.subrange(g, rest.len() as int)),
        None => match pair_spec(rest) {
            Some((i, g)) => clean_spec(rest.subrange(g, rest.len() as int)),
            None => clean_spec(rest),
        },
    };
    if let Some(t) = title0 {
        lemma_clean_nonblank(t);
    }
}

/// The chain's confidence never exceeds 0.95, and it is either the bare file
/// name's 0.40 or at least 0.60.
pub proof fn lemma_extract_confidence(
    stem: Seq<char>,
    dirs: Option<Seq<Seq<char>>>,
    tagged: TagView,
)
    ensures
        extract_spec(stem, dirs, tagged).1 <= 95,
        extract_spec(stem, dirs, tagged).1 == 40 || extract_spec(stem, dirs, tagged).1 >= 60,
{
    lemma_filename_confidence(stem);
}

} // verus!
