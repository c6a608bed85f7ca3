//! User settings.
//!
//! Only a handful of settings are visible; thresholds, sources and formats are
//! internal constants.

use vstd::prelude::*;
use crate::domain::normalize::lowercase;
use crate::text::{chars_of, string_of, trim, trim_vec};

verus! {

/// Where lyrics are saved: the one write strategy users choose.
#[derive(Clone, Copy, Debug, PartialEq, Eq, Structural)]
pub enum SaveTarget {
    /// Inside the song file (the default).
    File,
    /// A same-named `.lrc` next to the song; the audio file is untouched.
    Sidecar,
}

impl Default for SaveTarget {
    fn default() -> (r: Self)
        ensures
            r == SaveTarget::File,
    {
        SaveTarget::File
    }
}

impl SaveTarget {
    pub fn as_str(&self) -> (r: &'static str)
        ensures
            r@ == match *self {
                SaveTarget::File => "file"@,
                SaveTarget::Sidecar => "sidecar"@,
            },
    {
        match self {
            SaveTarget::File => "file",
            SaveTarget::Sidecar => "sidecar",
        }
    }
}

/// Colour theme.
#[derive(Clone, Copy, Debug, PartialEq, Eq, Structural)]
pub enum Theme {
    System,
    Light,
    Dark,
}

impl Default for Theme {
    fn default() -> (r: Self)
        ensures
            r == Theme::System,
    {
        Theme::System
    }
}

#[derive(Clone, Debug)]
pub struct GeneralConfig {
    pub theme: Theme,
    pub first_run_done: bool,
}

impl Default for GeneralConfig {
    fn default() -> (r: Self)
        ensures
            r.theme == Theme::System && !r.first_run_done,
    {
        GeneralConfig { theme: Theme::System, first_run_done: false }
    }
}

/// Most recent directories kept.
pub const MAX_RECENT_PATHS: usize = 8;

#[derive(Clone, Debug)]
pub struct LibraryConfig {
    /// The last directory scanned.
    pub last_scan_path: String,
    /// Recently used directories, newest first, at most `MAX_RECENT_PATHS`.
    pub recent_paths: Vec<String>,
}

impl Default for LibraryConfig {
    fn default() -> (r: Self)
        ensures
            r.last_scan_path@.len() == 0 && r.recent_paths@.len() == 0,
    {
        LibraryConfig { last_scan_path: String::new(), recent_paths: Vec::new() }
    }
}

#[derive(Clone, Debug)]
pub struct LyricsConfig {
    pub save_target: SaveTarget,
    /// Save official translations too.
    pub include_translation: bool,
    /// When off, songs that already have lyrics are skipped.
    pub overwrite_existing: bool,
}

impl Default for LyricsConfig {
    fn default() -> (r: Self)
        ensures
            r.save_target == SaveTarget::File && r.include_translation && !r.overwrite_existing,
    {
        LyricsConfig {
            save_target: SaveTarget::File,
            include_translation: true,
            overwrite_existing: false,
        }
    }
}

#[derive(Clone, Debug)]
pub struct WriteConfig {
    /// Only fill what is missing; existing values stay.
    pub fill_missing_info: bool,
    /// Embed the album cover (off by default).
    pub embed_cover: bool,
}

impl Default for WriteConfig {
    fn default() -> (r: Self)
        ensures
            r.fill_missing_info && !r.embed_cover,
    {
        WriteConfig { fill_missing_info: true, embed_cover: false }
    }
}

#[derive(Clone, Debug)]
pub struct Settings {
    pub general: GeneralConfig,
    pub library: LibraryConfig,
    pub lyrics: LyricsConfig,
    pub write: WriteConfig,
}

impl Default for Settings {
    fn default() -> (r: Self)
        ensures
            r.general.theme == Theme::System && !r.general.first_run_done,
            r.library.last_scan_path@.len() == 0 && r.library.recent_paths@.len() == 0,
            r.lyrics.save_target == SaveTarget::File && r.lyrics.include_translation
                && !r.lyrics.overwrite_existing,
            r.write.fill_missing_info && !r.write.embed_cover,
    {
        Settings {
            general: GeneralConfig::default(),
            library: LibraryConfig::default(),
            lyrics: LyricsConfig::default(),
            write: WriteConfig::default(),
        }
    }
}

/// `/` turned into `\`.
pub open spec fn backslashes(s: Seq<char>) -> Seq<char> {
    s.map_values(|c: char| if c == '/' {
        '\\'
    } else {
        c
    })
}

/// Trailing `\` removed.
pub open spec fn strip_trailing_sep(s: Seq<char>) -> Seq<char>
    decreases s.len(),
{
    if s.len() > 0 && s.last() == '\\' {
        strip_trailing_sep(s.drop_last())
    } else {
        s
    }
}

/// A path in Windows form before case folding: trimmed, `\` separators, no
/// trailing separator, and a bare drive (`D:`) written as its root (`D:\`).
pub open spec fn path_form(s: Seq<char>) -> Seq<char> {
    let t = strip_trailing_sep(backslashes(trim(s)));
    if t.len() == 2 && (t[0] as u32) < 0x80 && t[1] == ':' {
        t.push('\\')
    } else {
        t
    }
}

/// Two paths name the same directory: equal once put in Windows form and lower-cased.
pub open spec fn same_path_spec(a: Seq<char>, b: Seq<char>) -> bool {
    lowercase(path_form(a)) == lowercase(path_form(b))
}

fn path_form_vec(s: &str) -> (r: String)
    ensures
        r@ == lowercase(path_form(s@)),
{
    let v = chars_of(s);
    let t = trim_vec(&v);
    let mut u: Vec<char> = Vec::new();
    let mut i: usize = 0;
    while i < t.len()
        invariant
            i <= t.len(),
            u@ == backslashes(t@.take(i as int)),
        decreases t.len() - i,
    {
        let c = if t[i] == '/' {
            '\\'
        } else {
            t[i]
        };
        u.push(c);
        assert(backslashes(t@.take(i + 1)) =~= backslashes(t@.take(i as int)).push(c));
        i = i + 1;
    }
    assert(t@.take(t.len() as int) == t@);
    let mut j = u.len();
    assert(u@.subrange(0, j as int) == u@);
    while j > 0 && u[j - 1] == '\\'
        invariant
            j <= u.len(),
            strip_trailing_sep(u@) == strip_trailing_sep(u@.subrange(0, j as int)),
        decreases j,
    {
        assert(u@.subrange(0, j as int).drop_last() == u@.subrange(0, j - 1));
        j = j - 1;
    }
    let mut w = crate::text::slice_vec(&u, 0, j);
    if w.len() == 2 && (w[0] as u32) < 0x80 && w[1] == ':' {
        w.push('\\');
    }
    let ws = string_of(&w);
    crate::domain::normalize::to_lowercase_str(ws.as_str())
}

/// Whether two paths name the same directory (Windows rules: case, slash
/// direction and a trailing separator do not matter).
pub fn same_path(a: &str, b: &str) -> (r: bool)
    ensures
        r == same_path_spec(a@, b@),
{
    let x = path_form_vec(a);
    let y = path_form_vec(b);
    x == y
}

/// `dedup_paths` over the first `n` paths: kept paths, in order.
pub open spec fn dedup_fold(ps: Seq<Seq<char>>) -> Seq<Seq<char>>
    decreases ps.len(),
{
    if ps.len() == 0 {
        Seq::empty()
    } else {
        let r = dedup_fold(ps.drop_last());
        let p = ps.last();
        if r.len() >= MAX_RECENT_PATHS || trim(p).len() == 0 || (exists|k: int|
            0 <= k < r.len() && same_path_spec(#[trigger] r[k], p)) {
            r
        } else {
            r.push(p)
        }
    }
}

proof fn lemma_dedup_fold_len(ps: Seq<Seq<char>>)
    ensures
        dedup_fold(ps).len() <= MAX_RECENT_PATHS,
    decreases ps.len(),
{
    if ps.len() > 0 {
        lemma_dedup_fold_len(ps.drop_last());
    }
}

/// No two kept paths name the same directory.
pub open spec fn pairwise_distinct(r: Seq<Seq<char>>) -> bool {
    forall|i: int, j: int| 0 <= i < j < r.len() ==> !same_path_spec(#[trigger] r[i], #[trigger] r[j])
}

proof fn lemma_dedup_fold_distinct(ps: Seq<Seq<char>>)
    ensures
        pairwise_distinct(dedup_fold(ps)),
        forall|k: int| 0 <= k < dedup_fold(ps).len() ==> trim(#[trigger] dedup_fold(ps)[k]).len() > 0,
    decreases ps.len(),
{
    if ps.len() > 0 {
        lemma_dedup_fold_distinct(ps.drop_last());
    }
}

/// Drops blank and repeated paths, keeping first occurrences in order, at most
/// `MAX_RECENT_PATHS` of them. Also run on load: older settings files may hold
/// two spellings of one directory.
pub fn dedup_paths(paths: &[String]) -> (r: Vec<String>)
    ensures
        r.deep_view() == dedup_fold(paths.deep_view()),
        r@.len() <= MAX_RECENT_PATHS,
        pairwise_distinct(r.deep_view()),
{
    let ghost pv = paths.deep_view();
    let mut out: Vec<String> = Vec::new();
    let mut i: usize = 0;
    while i < paths.len()
        invariant
            i <= paths.len(),
            pv == paths.deep_view(),
            out.deep_view() == dedup_fold(pv.take(i as int)),
        decreases paths.len() - i,
    {
        proof {
            lemma_dedup_fold_len(pv.take(i as int));
        }
        assert(pv.take(i + 1).drop_last() == pv.take(i as int));
        assert(pv.take(i + 1).last() == paths[i as int]@);
        if out.len() >= MAX_RECENT_PATHS {
            i = i + 1;
            continue;
        }
        let p = &paths[i];
        let pc = chars_of(p.as_str());
        let pt = trim_vec(&pc);
        let mut dup = false;
        let mut k: usize = 0;
        while k < out.len()
            invariant
                k <= out.len(),
                dup == exists|j: int| 0 <= j < k && same_path_spec(#[trigger] out.deep_view()[j], p@),
            decreases out.len() - k,
        {
            if same_path(out[k].as_str(), p.as_str()) {
                assert(same_path_spec(out.deep_view()[k as int], p@));
                dup = true;
            }
            k = k + 1;
        }
        if pt.len() > 0 && !dup {
            let ghost before = out.deep_view();
            out.push(p.clone());
            assert(out.deep_view() =~= before.push(p@));
        }
        i = i + 1;
    }
    assert(pv.take(paths.len() as int) == pv);
    proof {
        lemma_dedup_fold_len(pv);
        lemma_dedup_fold_distinct(pv);
    }
    out
}

/// The recent list after choosing `path`: the chosen path first, then the
/// earlier entries naming other directories, deduplicated and capped.
pub open spec fn remembered(recent: Seq<Seq<char>>, path: Seq<char>) -> Seq<Seq<char>> {
    dedup_fold(seq![trim(path)] + other_dirs(recent, trim(path)))
}

/// The entries of `rs` that name a directory other than `p`, in order.
pub open spec fn other_dirs(rs: Seq<Seq<char>>, p: Seq<char>) -> Seq<Seq<char>>
    decreases rs.len(),
{
    if rs.len() == 0 {
        Seq::empty()
    } else {
        let r = other_dirs(rs.drop_last(), p);
        if same_path_spec(rs.last(), p) {
            r
        } else {
            r.push(rs.last())
        }
    }
}

impl Settings {
    /// Records a chosen directory in the recent list (newest first).
    pub fn remember_path(&mut self, path: &str)
        ensures
            trim(path@).len() == 0 ==> *final(self) == *old(self),
            trim(path@).len() > 0 ==> {
                &&& final(self).library.last_scan_path@ == trim(path@)
                &&& final(self).library.recent_paths.deep_view() == remembered(
                    old(self).library.recent_paths.deep_view(),
                    path@,
                )
                &&& final(self).general == old(self).general
                &&& final(self).lyrics == old(self).lyrics
                &&& final(self).write == old(self).write
            },
    {
        let v = chars_of(path);
        let t = trim_vec(&v);
        if t.len() == 0 {
            return;
        }
        let p = string_of(&t);
        self.library.last_scan_path = string_of(&t);
        let ghost old_recent = self.library.recent_paths.deep_view();
        let mut list: Vec<String> = Vec::new();
        list.push(p.clone());
        let ghost head = seq![t@];
        assert(list.deep_view() =~= head);
        let mut i: usize = 0;
        while i < self.library.recent_paths.len()
            invariant
                i <= self.library.recent_paths.len(),
                old_recent == self.library.recent_paths.deep_view(),
                p@ == t@,
                t@ == trim(path@),
                list.deep_view() == head + other_dirs(old_recent.take(i as int), trim(path@)),
            decreases self.library.recent_paths.len() - i,
        {
            let q = &self.library.recent_paths[i];
            let keep = !same_path(q.as_str(), p.as_str());
            assert(old_recent.take(i + 1).drop_last() == old_recent.take(i as int));
            assert(old_recent.take(i + 1).last() == q@);
            if keep {
                let ghost before = list.deep_view();
                list.push(q.clone());
                assert(list.deep_view() =~= before.push(q@));
                assert(head + other_dirs(old_recent.take(i + 1), trim(path@)) =~= (head + other_dirs(
                    old_recent.take(i as int),
                    trim(path@),
                )).push(q@));
            }
            i = i + 1;
        }
        assert(old_recent.take(old_recent.len() as int) == old_recent);
        self.library.recent_paths = dedup_paths(list.as_slice());
    }
}


proof fn lemma_dedup_fold_head(ps: Seq<Seq<char>>)
    requires
        ps.len() > 0,
        trim(ps[0]).len() > 0,
    ensures
        dedup_fold(ps).len() > 0,
        dedup_fold(ps)[0] == ps[0],
    decreases ps.len(),
{
    if ps.len() == 1 {
        assert(ps.drop_last().len() == 0);
        assert(dedup_fold(ps.drop_last()).len() == 0);
    } else {
        assert(ps.drop_last()[0] == ps[0]);
        lemma_dedup_fold_head(ps.drop_last());
    }
}

/// The directory just chosen heads the recent list, spelled as it was given
/// (trimmed).
pub proof fn lemma_remember_newest_first(recent: Seq<Seq<char>>, path: Seq<char>)
    requires
        trim(path).len() > 0,
    ensures
        remembered(recent, path).len() >= 1,
        remembered(recent, path)[0] == trim(path),
{
    crate::text::lemma_trim_empty(path);
    crate::text::lemma_trim_empty(trim(path));
    let ps = seq![trim(path)] + other_dirs(recent, trim(path));
    assert(ps[0] == trim(path));
    lemma_dedup_fold_head(ps);
}

/// Every directory occupies at most one line of the recent list, whatever
/// its spellings, and the list holds at most `MAX_RECENT_PATHS` entries.
pub proof fn lemma_remembered_distinct(recent: Seq<Seq<char>>, path: Seq<char>)
    ensures
        pairwise_distinct(remembered(recent, path)),
        remembered(recent, path).len() <= MAX_RECENT_PATHS,
{
    let ps = seq![trim(path)] + other_dirs(recent, trim(path));
    lemma_dedup_fold_distinct(ps);
    lemma_dedup_fold_len(ps);
}

} // verus!
