//! Candidates and lyric sources.

use vstd::prelude::*;
use crate::domain::normalize::{normalize, normalize_spec};
use crate::domain::track::{opt_text, MetaSource, TrackMeta, TrackState};
use crate::text::{append_vec, chars_of, push_str_vec, string_of, trim, trim_vec};

verus! {

/// Identifier of a lyric source. The keys must match the front end's source table.
#[derive(Clone, Copy, Debug, PartialEq, Eq, Structural, Hash, PartialOrd, Ord)]
pub enum ProviderId {
    NetEase,
    QQ,
    KuGou,
    KuWo,
}

impl Default for ProviderId {
    /// The highest-priority source stands in for an empty lyric record.
    fn default() -> (r: Self)
        ensures
            r == ProviderId::QQ,
    {
        ProviderId::QQ
    }
}

pub open spec fn provider_name_spec(p: ProviderId) -> Seq<char> {
    match p {
        ProviderId::NetEase => "网易云"@,
        ProviderId::QQ => "QQ音乐"@,
        ProviderId::KuGou => "酷狗"@,
        ProviderId::KuWo => "酷我"@,
    }
}

pub open spec fn provider_key_spec(p: ProviderId) -> Seq<char> {
    match p {
        ProviderId::NetEase => "netease"@,
        ProviderId::QQ => "qq"@,
        ProviderId::KuGou => "kugou"@,
        ProviderId::KuWo => "kuwo"@,
    }
}

/// Source priority order, highest first.
pub open spec fn provider_order() -> Seq<ProviderId> {
    seq![ProviderId::QQ, ProviderId::KuGou, ProviderId::NetEase, ProviderId::KuWo]
}

impl ProviderId {
    pub fn display_name(&self) -> (r: &'static str)
        ensures
            r@ == provider_name_spec(*self),
    {
        match self {
            ProviderId::NetEase => "网易云",
            ProviderId::QQ => "QQ音乐",
            ProviderId::KuGou => "酷狗",
            ProviderId::KuWo => "酷我",
        }
    }

    pub fn as_str(&self) -> (r: &'static str)
        ensures
            r@ == provider_key_spec(*self),
    {
        match self {
            ProviderId::NetEase => "netease",
            ProviderId::QQ => "qq",
            ProviderId::KuGou => "kugou",
            ProviderId::KuWo => "kuwo",
        }
    }

    /// All sources in priority order: QQ, KuGou, NetEase, KuWo.
    pub fn all() -> (r: [ProviderId; 4])
        ensures
            r@ == provider_order(),
    {
        let r = [ProviderId::QQ, ProviderId::KuGou, ProviderId::NetEase, ProviderId::KuWo];
        assert(r@ == provider_order());
        r
    }
}


/// Search keywords.
#[derive(Clone, Debug)]
pub struct SearchQuery {
    pub title: String,
    pub artist: String,
    /// Local duration in seconds; KuGou's lyric search uses it.
    pub duration_secs: Option<u32>,
}

pub open spec fn keyword_spec(title: Seq<char>, artist: Seq<char>) -> Seq<char> {
    let t = normalize_spec(title);
    let a = normalize_spec(artist);
    if trim(t).len() == 0 {
        trim(trim(title) + seq![' '] + a)
    } else if trim(a).len() == 0 {
        t
    } else {
        t + seq![' '] + a
    }
}

impl SearchQuery {
    /// The combined search keyword: normalised title, a space, normalised artist.
    ///
    /// Normalising matters most for traditional script: mainland sources index
    /// simplified titles. When normalising empties the title, the raw title is
    /// used instead of an empty search.
    pub fn keyword(&self) -> (r: String)
        ensures
            r@ == keyword_spec(self.title@, self.artist@),
    {
        let title = normalize(self.title.as_str());
        let artist = normalize(self.artist.as_str());
        let tv = chars_of(title.as_str());
        let av = chars_of(artist.as_str());
        let tt = trim_vec(&tv);
        let at = trim_vec(&av);
        if tt.len() == 0 {
            let raw = chars_of(self.title.as_str());
            let mut v = trim_vec(&raw);
            v.push(' ');
            append_vec(&mut v, &av);
            assert(v@ =~= trim(self.title@) + seq![' '] + av@);
            let w = trim_vec(&v);
            string_of(&w)
        } else if at.len() == 0 {
            title
        } else {
            let mut v = tv;
            v.push(' ');
            append_vec(&mut v, &av);
            assert(v@ =~= title@ + seq![' '] + artist@);
            string_of(&v)
        }
    }
}

/// Whole seconds of a duration in milliseconds, saturating at `u32::MAX`.
pub open spec fn whole_secs(ms: u64) -> u32 {
    if ms / 1000 > u32::MAX {
        u32::MAX
    } else {
        (ms / 1000) as u32
    }
}

pub open spec fn secs_of(ms: Option<u64>) -> Option<u32> {
    match ms {
        Some(m) => Some(whole_secs(m)),
        None => None,
    }
}

/// The title a song is searched by: its own, or a placeholder without one.
pub open spec fn display_title_of(meta: TrackMeta) -> Seq<char> {
    match meta.title {
        Some(t) => t@,
        None => "未知标题"@,
    }
}

impl SearchQuery {
    /// The query for a song: its shown title and artist and its length in
    /// whole seconds.
    pub fn from_meta(meta: &TrackMeta, duration_ms: Option<u64>) -> (r: SearchQuery)
        ensures
            r.title@ == display_title_of(*meta),
            r.artist@ == opt_text(meta.artist),
            r.duration_secs == secs_of(duration_ms),
    {
        let duration_secs = match duration_ms {
            Some(ms) => {
                let s = ms / 1000;
                Some(
                    if s > u32::MAX as u64 {
                        u32::MAX
                    } else {
                        s as u32
                    },
                )
            },
            None => None,
        };
        SearchQuery { title: meta.display_title(), artist: meta.display_artist(), duration_secs }
    }
}

/// `m` is candidate `c` as track metadata: its title, its artists joined by
/// `/`, its album, track number and year, a cover when it has a cover URL,
/// and the tags as the source.
pub open spec fn meta_of_candidate(m: TrackMeta, c: Candidate) -> bool {
    &&& m.title matches Some(t) && t@ == c.title@
    &&& m.artist matches Some(a) && a@ == join_with(c.artists.deep_view(), "/"@)
    &&& opt_seq(m.album) == opt_seq(c.album)
    &&& m.album_artist is None
    &&& m.track_no == c.track_no
    &&& m.year == c.year
    &&& m.has_cover == c.cover_url is Some
    &&& m.source == MetaSource::TagLib
}

/// A lyric candidate: one song on one source.
#[derive(Clone, Debug)]
pub struct Candidate {
    pub provider: ProviderId,
    /// The source's song id (KuWo: the rid).
    pub song_id: String,
    /// File hash KuGou needs to fetch lyrics (other sources: none).
    pub access_key: Option<String>,
    pub title: String,
    pub artists: Vec<String>,
    pub album: Option<String>,
    /// Release year; KuWo never gives one.
    pub year: Option<u32>,
    /// Track number; only NetEase gives one.
    pub track_no: Option<u32>,
    /// Duration in milliseconds.
    pub duration_ms: Option<u64>,
    pub cover_url: Option<String>,
}

/// Texts joined with a separator.
pub open spec fn join_with(parts: Seq<Seq<char>>, sep: Seq<char>) -> Seq<char>
    decreases parts.len(),
{
    if parts.len() == 0 {
        Seq::empty()
    } else if parts.len() == 1 {
        parts[0]
    } else {
        join_with(parts.drop_last(), sep) + sep + parts.last()
    }
}

/// Joins strings with a separator (`[String]::join`).
pub fn join_strings(parts: &Vec<String>, sep: &str) -> (r: String)
    ensures
        r@ == join_with(parts.deep_view(), sep@),
{
    let mut out: Vec<char> = Vec::new();
    let mut i: usize = 0;
    while i < parts.len()
        invariant
            i <= parts.len(),
            out@ == join_with(parts.deep_view().take(i as int), sep@),
        decreases parts.len() - i,
    {
        let ghost pre = parts.deep_view().take(i as int);
        assert(parts.deep_view().take(i + 1).drop_last() == pre);
        if i > 0 {
            push_str_vec(&mut out, sep);
        }
        let p = chars_of(parts[i].as_str());
        append_vec(&mut out, &p);
        proof {
            if i == 0 {
                assert(out@ =~= join_with(parts.deep_view().take(1), sep@));
            }
        }
        i = i + 1;
    }
    assert(parts.deep_view().take(parts.len() as int) == parts.deep_view());
    string_of(&out)
}

pub open spec fn opt_seq(o: Option<String>) -> Option<Seq<char>> {
    match o {
        Some(s) => Some(s@),
        None => None,
    }
}

impl Candidate {
    /// Artists joined by `/`.
    pub fn artist_joined(&self) -> (r: String)
        ensures
            r@ == join_with(self.artists.deep_view(), "/"@),
    {
        join_strings(&self.artists, "/")
    }

    /// The candidate as track metadata, for filling in what a song lacks.
    pub fn to_meta(&self) -> (r: TrackMeta)
        ensures
            meta_of_candidate(r, *self),
    {
        TrackMeta {
            title: Some(self.title.clone()),
            artist: Some(self.artist_joined()),
            album: match &self.album {
                Some(a) => Some(a.clone()),
                None => None,
            },
            album_artist: None,
            track_no: self.track_no,
            year: self.year,
            has_cover: self.cover_url.is_some(),
            source: MetaSource::TagLib,
        }
    }

    /// UI text: `title · artists`, and ` · album` when there is a non-empty album.
    pub fn display(&self) -> (r: String)
        ensures
            r@ == self.title@ + " · "@ + join_with(self.artists.deep_view(), "/"@) + match self.album {
                Some(a) => if a@.len() > 0 {
                    " · "@ + a@
                } else {
                    Seq::empty()
                },
                None => Seq::empty(),
            },
    {
        let mut v = chars_of(self.title.as_str());
        push_str_vec(&mut v, " · ");
        let a = self.artist_joined();
        push_str_vec(&mut v, a.as_str());
        let ghost head = v@;
        match &self.album {
            Some(al) => {
                if !al.as_str().is_empty() {
                    push_str_vec(&mut v, " · ");
                    push_str_vec(&mut v, al.as_str());
                    assert(v@ =~= head + (" · "@ + al@));
                } else {
                    assert(v@ =~= head + Seq::<char>::empty());
                }
            },
            None => {
                assert(v@ =~= head + Seq::<char>::empty());
            },
        }
        string_of(&v)
    }
}


/// Each source has its own key, so a key names one source and reading a
/// source's key back gives that source.
pub proof fn lemma_provider_keys_distinct(p: ProviderId, q: ProviderId)
    requires
        provider_key_spec(p) == provider_key_spec(q),
    ensures
        p == q,
{
    reveal_strlit("netease");
    reveal_strlit("qq");
    reveal_strlit("kugou");
    reveal_strlit("kuwo");
    assert("netease"@.len() == 7);
    assert("qq"@.len() == 2);
    assert("kugou"@.len() == 5);
    assert("kuwo"@.len() == 4);
    assert(provider_key_spec(p).len() == provider_key_spec(q).len());
}


/// Two candidates holding the same values.
pub open spec fn same_candidate(a: Candidate, b: Candidate) -> bool {
    &&& a.provider == b.provider
    &&& a.song_id@ == b.song_id@
    &&& opt_seq(a.access_key) == opt_seq(b.access_key)
    &&& a.title@ == b.title@
    &&& a.artists.deep_view() == b.artists.deep_view()
    &&& opt_seq(a.album) == opt_seq(b.album)
    &&& a.year == b.year
    &&& a.track_no == b.track_no
    &&& a.duration_ms == b.duration_ms
    &&& opt_seq(a.cover_url) == opt_seq(b.cover_url)
}

pub(crate) fn copy_text(o: &Option<String>) -> (r: Option<String>)
    ensures
        opt_seq(r) == opt_seq(*o),
{
    match o {
        Some(s) => Some(s.clone()),
        None => None,
    }
}

pub(crate) fn copy_all(v: &Vec<String>) -> (r: Vec<String>)
    ensures
        r.deep_view() == v.deep_view(),
{
    let mut out: Vec<String> = Vec::new();
    let mut i: usize = 0;
    while i < v.len()
        invariant
            i <= v.len(),
            out.deep_view() == v.deep_view().take(i as int),
        decreases v.len() - i,
    {
        let ghost before = out.deep_view();
        out.push(v[i].clone());
        assert(out.deep_view() =~= before.push(v[i as int]@));
        assert(v.deep_view().take(i + 1) =~= v.deep_view().take(i as int).push(v[i as int]@));
        i = i + 1;
    }
    assert(v.deep_view().take(v.len() as int) == v.deep_view());
    out
}

impl Candidate {
    /// A copy holding the same values.
    pub fn duplicate(&self) -> (r: Candidate)
        ensures
            same_candidate(r, *self),
    {
        Candidate {
            provider: self.provider,
            song_id: self.song_id.clone(),
            access_key: copy_text(&self.access_key),
            title: self.title.clone(),
            artists: copy_all(&self.artists),
            album: copy_text(&self.album),
            year: self.year,
            track_no: self.track_no,
            duration_ms: self.duration_ms,
            cover_url: copy_text(&self.cover_url),
        }
    }
}

/// How sure a match is, in the three grades users see: taken as it is, to be
/// confirmed, or not found.
#[derive(Clone, Copy, Debug, PartialEq, Eq, Structural)]
pub enum Grade {
    Auto,
    Confirm,
    Rejected,
}

impl Grade {
    /// The state a track takes for a match of this grade.
    pub fn state(&self) -> (r: TrackState)
        ensures
            r == match *self {
                Grade::Auto => TrackState::Matched,
                Grade::Confirm => TrackState::Confirm,
                Grade::Rejected => TrackState::Failed,
            },
    {
        match self {
            Grade::Auto => TrackState::Matched,
            Grade::Confirm => TrackState::Confirm,
            Grade::Rejected => TrackState::Failed,
        }
    }

    /// The sentence shown with a grade; only a match to confirm needs one.
    pub fn state_message(&self) -> (r: Option<String>)
        ensures
            match *self {
                Grade::Confirm => r matches Some(m) && m@ == "找到几个可能的歌词，需要你确认一下"@,
                _ => r is None,
            },
    {
        match self {
            Grade::Confirm => Some("找到几个可能的歌词，需要你确认一下".to_owned()),
            _ => None,
        }
    }
}

/// Whether a track's match may be shown as its lyrics. Having found
/// candidates is not having matched: a rejected match, and any match of a
/// failed or skipped track, shows nothing, or the user would take a guess
/// for a result ready to save.
pub open spec fn displayable_spec(state: TrackState, grade: Option<Grade>) -> bool {
    !(state is Failed || state is Skip) && (grade matches Some(g) && g != Grade::Rejected)
}

pub fn displayable(state: TrackState, grade: Option<Grade>) -> (r: bool)
    ensures
        r == displayable_spec(state, grade),
{
    match state {
        TrackState::Failed | TrackState::Skip => false,
        _ => match grade {
            Some(Grade::Rejected) | None => false,
            Some(_) => true,
        },
    }
}

/// The position of the selected candidate: the pick, or the last candidate
/// when the pick lies beyond the list; none for an empty list.
pub fn selected_index(len: usize, pick: usize) -> (r: Option<usize>)
    ensures
        len == 0 ==> r is None,
        len > 0 ==> r == Some(if pick < len {
            pick
        } else {
            (len - 1) as usize
        }),
{
    if len == 0 {
        None
    } else if pick < len {
        Some(pick)
    } else {
        Some(len - 1)
    }
}

/// Whether a candidate's title or artists differ from the song's own once
/// both are normalised; script, brackets and case are no difference.
pub open spec fn mismatched_spec(c: Candidate, meta: TrackMeta) -> bool {
    normalize_spec(c.title@) != normalize_spec(opt_text(meta.title)) || normalize_spec(
        join_with(c.artists.deep_view(), "/"@),
    ) != normalize_spec(opt_text(meta.artist))
}

pub fn is_mismatched(c: &Candidate, meta: &TrackMeta) -> (r: bool)
    ensures
        r == mismatched_spec(*c, *meta),
{
    let local_title = match &meta.title {
        Some(t) => t.clone(),
        None => String::new(),
    };
    let local_artist = match &meta.artist {
        Some(a) => a.clone(),
        None => String::new(),
    };
    let a = normalize(c.title.as_str());
    let b = normalize(local_title.as_str());
    if !crate::text::str_eq(a.as_str(), b.as_str()) {
        return true;
    }
    let joined = c.artist_joined();
    let x = normalize(joined.as_str());
    let y = normalize(local_artist.as_str());
    !crate::text::str_eq(x.as_str(), y.as_str())
}

/// A candidate with its match score, in thousandths.
#[derive(Clone, Debug)]
pub struct Scored {
    pub candidate: Candidate,
    pub score: u32,
}

} // verus!
