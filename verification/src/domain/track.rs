//! Track model.

use vstd::prelude::*;
use vstd::utf8::*;
use crate::domain::candidate::{displayable_spec, is_mismatched, mismatched_spec, Grade, Scored};
use crate::domain::plan::MatchResult;
use crate::text::{
    append_vec, chars_of, find_from, is_ws, lower_seq, lower_vec, occurs_at, slice_vec,
    string_of, trim, trim_vec, vec_eq,
};

verus! {

/// Largest integer a JavaScript `Number` holds exactly (`2^53 - 1`).
///
/// Identifiers cross the front end as JSON numbers; larger ones would be rounded.
pub const JS_MAX_SAFE_INTEGER: u64 = 9007199254740991;

/// The 32-byte BLAKE3 digest of the given bytes.
pub uninterp spec fn blake3_digest(bytes: Seq<u8>) -> Seq<u8>;

/// Calls `blake3::hash`; the digest is named and is 32 bytes long, as its type shows.
#[verifier::external_body]
pub(crate) fn blake3_hash(bytes: &[u8]) -> (r: Vec<u8>)
    ensures
        r@ == blake3_digest(bytes@),
        r@.len() == 32,
{
    blake3::hash(bytes).as_bytes().to_vec()
}

/// Little-endian value of the first eight bytes.
pub open spec fn le8(b: Seq<u8>) -> nat {
    b[0] as nat + 256 * (b[1] as nat + 256 * (b[2] as nat + 256 * (b[3] as nat + 256 * (
    b[4] as nat + 256 * (b[5] as nat + 256 * (b[6] as nat + 256 * (b[7] as nat)))))))
}

/// Stable identifier assigned at scan time: the top 53 bits of a hash of the path.
#[derive(Clone, Copy, Debug, PartialEq, Eq, Structural, Hash, PartialOrd, Ord)]
pub struct TrackId(pub u64);

pub open spec fn track_id_spec(path: Seq<char>) -> u64 {
    (le8(blake3_digest(encode_utf8(path))) / 2048) as u64
}

impl TrackId {
    /// Identifier of the file at `path` (the path as text).
    pub fn from_path(path: &str) -> (r: Self)
        ensures
            r.0 == track_id_spec(path@),
            r.0 <= JS_MAX_SAFE_INTEGER,
    {
        let bytes = path.as_bytes();
        let h = blake3_hash(bytes);
        let mut v: u64 = 0;
        let mut k: usize = 8;
        let ghost b = h@;
        assert(b == blake3_digest(encode_utf8(path@)));
        while k > 0
            invariant
                k <= 8,
                b == h@,
                b.len() == 32,
                v as nat == le_tail(b, k as nat),
                le_tail(b, k as nat) < pow256((8 - k) as nat),
            decreases k,
        {
            let byte = h[k - 1];
            proof {
                lemma_le_tail_step(b, k as nat);
                lemma_pow256_le(((8 - k) + 1) as nat);
            }
            v = v * 256 + byte as u64;
            k = k - 1;
        }
        proof {
            lemma_le_tail_full(b);
        }
        let id = (v >> 11) & JS_MAX_SAFE_INTEGER;
        assert(id == v / 2048) by (bit_vector)
            requires
                id == (v >> 11) & 9007199254740991u64,
        ;
        assert(id <= 9007199254740991u64) by (bit_vector)
            requires
                id == (v >> 11) & 9007199254740991u64,
        ;
        TrackId(id)
    }
}

pub open spec fn pow256(n: nat) -> nat
    decreases n,
{
    if n == 0 {
        1
    } else {
        256 * pow256((n - 1) as nat)
    }
}

/// Value of bytes `k-1, k-2, ..., 0`... read from the top: bytes `k..8` taken big end first.
pub open spec fn le_tail(b: Seq<u8>, k: nat) -> nat
    decreases 8 - k,
{
    if k >= 8 {
        0
    } else {
        le_tail(b, k + 1) * 256 + b[k as int] as nat
    }
}

proof fn lemma_le_tail_step(b: Seq<u8>, k: nat)
    requires
        1 <= k <= 8,
        b.len() == 32,
        le_tail(b, k) < pow256((8 - k) as nat),
    ensures
        le_tail(b, (k - 1) as nat) == le_tail(b, k) * 256 + b[k - 1] as nat,
        le_tail(b, (k - 1) as nat) < pow256((8 - k + 1) as nat),
{
    assert(b[k - 1] < 256);
    assert(pow256((8 - k + 1) as nat) == 256 * pow256((8 - k) as nat));
    assert(le_tail(b, k) * 256 + (b[k - 1] as nat) < pow256((8 - k + 1) as nat)) by (nonlinear_arith)
        requires
            le_tail(b, k) < pow256((8 - k) as nat),
            b[k - 1] < 256,
            pow256((8 - k + 1) as nat) == 256 * pow256((8 - k) as nat),
    ;
}

proof fn lemma_pow256_le(n: nat)
    requires
        n <= 8,
    ensures
        pow256(n) <= 0x1_0000_0000_0000_0000,
    decreases n,
{
    reveal_with_fuel(pow256, 9);
    if n > 0 {
        lemma_pow256_le((n - 1) as nat);
    }
}

proof fn lemma_le_tail_full(b: Seq<u8>)
    requires
        b.len() == 32,
    ensures
        le_tail(b, 0) == le8(b),
{
    reveal_with_fuel(le_tail, 9);
}

/// Container formats; two of them can only be read.
#[derive(Clone, Copy, Debug, PartialEq, Eq, Structural)]
pub enum AudioFormat {
    Mp3,
    Flac,
    M4a,
    Ogg,
    Opus,
    Wav,
    Aiff,
    Ape,
    Wv,
    Wma,
    Dsf,
    Unknown,
}

/// The format an extension names, ignoring ASCII case.
pub open spec fn format_of_ext(e: Seq<char>) -> AudioFormat {
    if e == "mp3"@ {
        AudioFormat::Mp3
    } else if e == "flac"@ {
        AudioFormat::Flac
    } else if e == "m4a"@ || e == "mp4"@ || e == "m4b"@ || e == "aac"@ {
        AudioFormat::M4a
    } else if e == "ogg"@ || e == "oga"@ {
        AudioFormat::Ogg
    } else if e == "opus"@ {
        AudioFormat::Opus
    } else if e == "wav"@ || e == "wave"@ {
        AudioFormat::Wav
    } else if e == "aiff"@ || e == "aif"@ || e == "aifc"@ {
        AudioFormat::Aiff
    } else if e == "ape"@ {
        AudioFormat::Ape
    } else if e == "wv"@ {
        AudioFormat::Wv
    } else if e == "wma"@ || e == "asf"@ {
        AudioFormat::Wma
    } else if e == "dsf"@ {
        AudioFormat::Dsf
    } else {
        AudioFormat::Unknown
    }
}

/// The extensions a scan treats as music files.
pub open spec fn audio_ext_list() -> Seq<Seq<char>> {
    seq![
        "mp3"@,
        "flac"@,
        "m4a"@,
        "mp4"@,
        "m4b"@,
        "aac"@,
        "ogg"@,
        "oga"@,
        "opus"@,
        "wav"@,
        "wave"@,
        "aiff"@,
        "aif"@,
        "aifc"@,
        "ape"@,
        "wv"@,
        "wma"@,
        "asf"@,
        "dsf"@,
        "dff"@,
    ]
}

pub open spec fn format_label_spec(f: AudioFormat) -> Seq<char> {
    match f {
        AudioFormat::Mp3 => "MP3"@,
        AudioFormat::Flac => "FLAC"@,
        AudioFormat::M4a => "M4A"@,
        AudioFormat::Ogg => "OGG"@,
        AudioFormat::Opus => "OPUS"@,
        AudioFormat::Wav => "WAV"@,
        AudioFormat::Aiff => "AIFF"@,
        AudioFormat::Ape => "APE"@,
        AudioFormat::Wv => "WV"@,
        AudioFormat::Wma => "WMA"@,
        AudioFormat::Dsf => "DSF"@,
        AudioFormat::Unknown => "未知"@,
    }
}

fn eq_lit(v: &Vec<char>, lit: &str) -> (r: bool)
    ensures
        r == (v@ == lit@),
{
    let l = chars_of(lit);
    vec_eq(v, &l)
}

impl AudioFormat {
    pub fn from_extension(ext: &str) -> (r: Self)
        ensures
            r == format_of_ext(lower_seq(ext@)),
    {
        let raw = chars_of(ext);
        let e = lower_vec(&raw);
        if eq_lit(&e, "mp3") {
            AudioFormat::Mp3
        } else if eq_lit(&e, "flac") {
            AudioFormat::Flac
        } else if eq_lit(&e, "m4a") || eq_lit(&e, "mp4") || eq_lit(&e, "m4b") || eq_lit(&e, "aac") {
            AudioFormat::M4a
        } else if eq_lit(&e, "ogg") || eq_lit(&e, "oga") {
            AudioFormat::Ogg
        } else if eq_lit(&e, "opus") {
            AudioFormat::Opus
        } else if eq_lit(&e, "wav") || eq_lit(&e, "wave") {
            AudioFormat::Wav
        } else if eq_lit(&e, "aiff") || eq_lit(&e, "aif") || eq_lit(&e, "aifc") {
            AudioFormat::Aiff
        } else if eq_lit(&e, "ape") {
            AudioFormat::Ape
        } else if eq_lit(&e, "wv") {
            AudioFormat::Wv
        } else if eq_lit(&e, "wma") || eq_lit(&e, "asf") {
            AudioFormat::Wma
        } else if eq_lit(&e, "dsf") {
            AudioFormat::Dsf
        } else {
            AudioFormat::Unknown
        }
    }

    /// Whether an extension is one a scan picks up as music.
    pub fn is_audio_extension(ext: &str) -> (r: bool)
        ensures
            r == audio_ext_list().contains(lower_seq(ext@)),
    {
        let raw = chars_of(ext);
        let e = lower_vec(&raw);
        let list: [&str; 20] = [
            "mp3",
            "flac",
            "m4a",
            "mp4",
            "m4b",
            "aac",
            "ogg",
            "oga",
            "opus",
            "wav",
            "wave",
            "aiff",
            "aif",
            "aifc",
            "ape",
            "wv",
            "wma",
            "asf",
            "dsf",
            "dff",
        ];
        assert(forall|k: int| 0 <= k < 20 ==> list@[k]@ == #[trigger] audio_ext_list()[k]);
        let mut k: usize = 0;
        while k < 20
            invariant
                k <= 20,
                e@ == lower_seq(ext@),
                forall|j: int| 0 <= j < 20 ==> list@[j]@ == #[trigger] audio_ext_list()[j],
                forall|j: int| 0 <= j < k ==> audio_ext_list()[j] != e@,
            decreases 20 - k,
        {
            if eq_lit(&e, list[k]) {
                assert(audio_ext_list()[k as int] == e@);
                return true;
            }
            k = k + 1;
        }
        assert(!audio_ext_list().contains(e@)) by {
            if audio_ext_list().contains(e@) {
                let j = choose|j: int| 0 <= j < 20 && audio_ext_list()[j] == e@;
                assert(audio_ext_list()[j] != e@);
            }
        }
        false
    }

    pub fn label(&self) -> (r: &'static str)
        ensures
            r@ == format_label_spec(*self),
    {
        match self {
            AudioFormat::Mp3 => "MP3",
            AudioFormat::Flac => "FLAC",
            AudioFormat::M4a => "M4A",
            AudioFormat::Ogg => "OGG",
            AudioFormat::Opus => "OPUS",
            AudioFormat::Wav => "WAV",
            AudioFormat::Aiff => "AIFF",
            AudioFormat::Ape => "APE",
            AudioFormat::Wv => "WV",
            AudioFormat::Wma => "WMA",
            AudioFormat::Dsf => "DSF",
            AudioFormat::Unknown => "未知",
        }
    }
}

/// Lyrics a file already has.
#[derive(Clone, Copy, Debug, PartialEq, Eq, Structural)]
pub enum LyricsPresence {
    /// No lyrics yet.
    Absent,
    /// A same-named `.lrc` next to the song.
    SidecarLrc,
    /// Inside the audio tags.
    EmbeddedTag,
    Both,
}

impl Default for LyricsPresence {
    fn default() -> (r: Self)
        ensures
            r == LyricsPresence::Absent,
    {
        LyricsPresence::Absent
    }
}

pub open spec fn presence_label_spec(p: LyricsPresence) -> Seq<char> {
    match p {
        LyricsPresence::Absent => "尚未保存"@,
        LyricsPresence::SidecarLrc => "已保存到同名文件"@,
        LyricsPresence::EmbeddedTag => "已保存到歌曲"@,
        LyricsPresence::Both => "已保存到歌曲"@,
    }
}

impl LyricsPresence {
    pub fn has_any(&self) -> (r: bool)
        ensures
            r == !(*self is Absent),
    {
        !matches!(self, LyricsPresence::Absent)
    }

    /// The song file itself holds lyrics (what writing into the file replaces).
    pub fn has_embedded(&self) -> (r: bool)
        ensures
            r == (*self is EmbeddedTag || *self is Both),
    {
        matches!(self, LyricsPresence::EmbeddedTag | LyricsPresence::Both)
    }

    /// A same-named `.lrc` has content (what saving as `.lrc` replaces).
    pub fn has_sidecar(&self) -> (r: bool)
        ensures
            r == (*self is SidecarLrc || *self is Both),
    {
        matches!(self, LyricsPresence::SidecarLrc | LyricsPresence::Both)
    }

    pub fn label(&self) -> (r: &'static str)
        ensures
            r@ == presence_label_spec(*self),
    {
        match self {
            LyricsPresence::Absent => "尚未保存",
            LyricsPresence::SidecarLrc => "已保存到同名文件",
            LyricsPresence::EmbeddedTag => "已保存到歌曲",
            LyricsPresence::Both => "已保存到歌曲",
        }
    }
}

/// Processing state of a track in this run. Matched and written are separate
/// states: writing cannot be undone.
#[derive(Clone, Copy, Debug, PartialEq, Eq, Structural)]
pub enum TrackState {
    Idle,
    Matching,
    Matched,
    Confirm,
    Writing,
    Done,
    Failed,
    Skip,
}

impl Default for TrackState {
    fn default() -> (r: Self)
        ensures
            r == TrackState::Idle,
    {
        TrackState::Idle
    }
}

pub open spec fn state_label_spec(s: TrackState) -> Seq<char> {
    match s {
        TrackState::Idle => "未处理"@,
        TrackState::Matching => "匹配中"@,
        TrackState::Matched => "已匹配"@,
        TrackState::Confirm => "待确认"@,
        TrackState::Writing => "写入中"@,
        TrackState::Done => "已写入"@,
        TrackState::Failed => "失败"@,
        TrackState::Skip => "跳过"@,
    }
}

impl TrackState {
    pub fn label(&self) -> (r: &'static str)
        ensures
            r@ == state_label_spec(*self),
    {
        match self {
            TrackState::Idle => "未处理",
            TrackState::Matching => "匹配中",
            TrackState::Matched => "已匹配",
            TrackState::Confirm => "待确认",
            TrackState::Writing => "写入中",
            TrackState::Done => "已写入",
            TrackState::Failed => "失败",
            TrackState::Skip => "跳过",
        }
    }

    /// Whether the track counts as pending (matched or awaiting confirmation).
    pub fn is_pending(&self) -> (r: bool)
        ensures
            r == (*self is Matched || *self is Confirm),
    {
        matches!(self, TrackState::Matched | TrackState::Confirm)
    }
}

/// Which step of the fallback chain metadata came from.
#[derive(Clone, Copy, Debug, PartialEq, Eq, Structural)]
pub enum MetaSource {
    /// Container tags.
    TagLib,
    /// File name pattern.
    FileNameRegex,
    /// Directory structure.
    PathPattern,
    /// File name without extension.
    Fallback,
}

impl Default for MetaSource {
    fn default() -> (r: Self)
        ensures
            r == MetaSource::Fallback,
    {
        MetaSource::Fallback
    }
}

#[derive(Clone, Debug)]
pub struct TrackMeta {
    pub title: Option<String>,
    pub artist: Option<String>,
    pub album: Option<String>,
    pub album_artist: Option<String>,
    pub track_no: Option<u32>,
    pub year: Option<u32>,
    pub has_cover: bool,
    pub source: MetaSource,
}

impl Default for TrackMeta {
    fn default() -> (r: Self)
        ensures
            r.title is None && r.artist is None && r.album is None && r.album_artist is None
                && r.track_no is None && r.year is None && !r.has_cover && r.source
                == MetaSource::Fallback,
    {
        TrackMeta {
            title: None,
            artist: None,
            album: None,
            album_artist: None,
            track_no: None,
            year: None,
            has_cover: false,
            source: MetaSource::Fallback,
        }
    }
}

pub open spec fn opt_text(o: Option<String>) -> Seq<char> {
    match o {
        Some(s) => s@,
        None => Seq::empty(),
    }
}

/// Two metadata records that hold the same values.
pub open spec fn same_meta(a: TrackMeta, b: TrackMeta) -> bool {
    &&& opt_text_eq(a.title, b.title)
    &&& opt_text_eq(a.artist, b.artist)
    &&& opt_text_eq(a.album, b.album)
    &&& opt_text_eq(a.album_artist, b.album_artist)
    &&& a.track_no == b.track_no
    &&& a.year == b.year
    &&& a.has_cover == b.has_cover
    &&& a.source == b.source
}

pub open spec fn opt_text_eq(a: Option<String>, b: Option<String>) -> bool {
    match (a, b) {
        (Some(x), Some(y)) => x@ == y@,
        (None, None) => true,
        _ => false,
    }
}

fn copy_text(o: &Option<String>) -> (r: Option<String>)
    ensures
        opt_text_eq(r, *o),
{
    match o {
        Some(s) => Some(s.clone()),
        None => None,
    }
}

impl TrackMeta {
    /// A copy holding the same values.
    pub fn duplicate(&self) -> (r: TrackMeta)
        ensures
            same_meta(r, *self),
    {
        TrackMeta {
            title: copy_text(&self.title),
            artist: copy_text(&self.artist),
            album: copy_text(&self.album),
            album_artist: copy_text(&self.album_artist),
            track_no: self.track_no,
            year: self.year,
            has_cover: self.has_cover,
            source: self.source,
        }
    }

    /// The artist field split into single artists.
    pub fn artists(&self) -> (r: Vec<String>)
        ensures
            r.deep_view() == split_artists_spec(opt_text(self.artist)),
    {
        match &self.artist {
            Some(a) => split_artists(a.as_str()),
            None => {
                proof {
                    reveal_strlit("");
                }
                split_artists("")
            },
        }
    }

    pub fn display_title(&self) -> (r: String)
        ensures
            r@ == match self.title {
                Some(t) => t@,
                None => "未知标题"@,
            },
    {
        match &self.title {
            Some(t) => t.clone(),
            None => "未知标题".to_owned(),
        }
    }

    pub fn display_artist(&self) -> (r: String)
        ensures
            r@ == opt_text(self.artist),
    {
        match &self.artist {
            Some(a) => a.clone(),
            None => String::new(),
        }
    }
}

pub open spec fn feat_tokens() -> Seq<Seq<char>> {
    seq!["feat."@, "feat"@, "ft."@, "with"@]
}

/// Where `str::find` finds `p` in `s`: the first occurrence.
#[verifier::opaque]
pub open spec fn find_spec(s: Seq<char>, p: Seq<char>) -> Option<int> {
    if exists|i: int| occurs_at(s, p, i) {
        Some(choose|i: int| occurs_at(s, p, i) && forall|j: int| 0 <= j < i ==> !occurs_at(s, p, j))
    } else {
        None
    }
}

/// The connecting word `tokens[k..]` that splits the text, if any: the first
/// occurrence of a token (ASCII case ignored) that follows a space or bracket.
pub open spec fn feat_split(raw: Seq<char>, k: nat) -> Option<Seq<char>>
    decreases 4 - k,
{
    if k >= 4 {
        None
    } else {
        let tok = feat_tokens()[k as int];
        match find_spec(lower_seq(raw), tok) {
            Some(idx) => {
                let before = raw.take(idx);
                if before.len() > 0 && (before.last() == ' ' || before.last() == '('
                    || before.last() == '（') {
                    Some(before + seq![' '] + raw.skip(idx + tok.len()))
                } else {
                    feat_split(raw, k + 1)
                }
            },
            None => feat_split(raw, k + 1),
        }
    }
}

pub open spec fn is_artist_sep(c: char) -> bool {
    c == '/' || c == '&' || c == '、' || c == ',' || c == '，' || c == ';' || c == '；' || c == '·'
}

pub open spec fn is_artist_bracket(c: char) -> bool {
    c == '(' || c == ')' || c == '（' || c == '）' || c == '[' || c == ']'
}

/// Pieces of a text split at artist separators (`str::split`, empty pieces included).
pub open spec fn sep_state(s: Seq<char>) -> (Seq<Seq<char>>, Seq<char>)
    decreases s.len(),
{
    if s.len() == 0 {
        (Seq::empty(), Seq::empty())
    } else {
        let st = sep_state(s.drop_last());
        if is_artist_sep(s.last()) {
            (st.0.push(st.1), Seq::empty())
        } else {
            (st.0, st.1.push(s.last()))
        }
    }
}

pub open spec fn strip_brackets_start(s: Seq<char>) -> Seq<char>
    decreases s.len(),
{
    if s.len() > 0 && is_artist_bracket(s[0]) {
        strip_brackets_start(s.drop_first())
    } else {
        s
    }
}

pub open spec fn strip_brackets_end(s: Seq<char>) -> Seq<char>
    decreases s.len(),
{
    if s.len() > 0 && is_artist_bracket(s.last()) {
        strip_brackets_end(s.drop_last())
    } else {
        s
    }
}

/// One artist piece cleaned: trimmed, brackets trimmed off the ends, trimmed again.
pub open spec fn clean_piece(p: Seq<char>) -> Seq<char> {
    trim(strip_brackets_end(strip_brackets_start(trim(p))))
}

pub open spec fn keep_pieces(ps: Seq<Seq<char>>) -> Seq<Seq<char>>
    decreases ps.len(),
{
    if ps.len() == 0 {
        Seq::empty()
    } else {
        let r = keep_pieces(ps.drop_last());
        let c = clean_piece(ps.last());
        if c.len() > 0 {
            r.push(c)
        } else {
            r
        }
    }
}

pub open spec fn split_artists_spec(raw: Seq<char>) -> Seq<Seq<char>> {
    if trim(raw).len() == 0 {
        Seq::empty()
    } else {
        let text = match feat_split(raw, 0) {
            Some(t) => t,
            None => raw,
        };
        let st = sep_state(text);
        keep_pieces(st.0.push(st.1))
    }
}

fn find_first(s: &Vec<char>, p: &Vec<char>) -> (r: Option<usize>)
    ensures
        match find_spec(s@, p@) {
            Some(i) => r == Some(i as usize),
            None => r is None,
        },
        r matches Some(i) ==> occurs_at(s@, p@, i as int),
        find_spec(s@, p@) matches Some(i) ==> 0 <= i <= s@.len(),
{
    proof {
        reveal(find_spec);
    }
    match find_from(s, p, 0) {
        Some(i) => {
            proof {
                let c = choose|j: int|
                    occurs_at(s@, p@, j) && forall|k: int| 0 <= k < j ==> !occurs_at(s@, p@, k);
                assert(occurs_at(s@, p@, i as int) && forall|k: int|
                    0 <= k < i ==> !occurs_at(s@, p@, k));
                if c < i {
                } else if c > i {
                }
            }
            Some(i)
        },
        None => {
            assert(!exists|i: int| occurs_at(s@, p@, i)) by {
                if exists|i: int| occurs_at(s@, p@, i) {
                    let j = choose|i: int| occurs_at(s@, p@, i);
                    assert(0 <= j);
                }
            }
            None
        },
    }
}

fn clean_piece_vec(p: &Vec<char>) -> (r: Vec<char>)
    ensures
        r@ == clean_piece(p@),
{
    let t = trim_vec(p);
    let mut lo: usize = 0;
    assert(t@.subrange(0, t.len() as int) == t@);
    while lo < t.len() && (t[lo] == '(' || t[lo] == ')' || t[lo] == '（' || t[lo] == '）' || t[lo]
        == '[' || t[lo] == ']')
        invariant
            lo <= t.len(),
            strip_brackets_start(t@) == strip_brackets_start(t@.subrange(lo as int, t.len() as int)),
        decreases t.len() - lo,
    {
        assert(t@.subrange(lo as int, t.len() as int).drop_first() == t@.subrange(
            lo + 1,
            t.len() as int,
        ));
        lo = lo + 1;
    }
    if lo < t.len() {
        assert(t@.subrange(lo as int, t.len() as int)[0] == t@[lo as int]);
    }
    let ghost mid = t@.subrange(lo as int, t.len() as int);
    let mut hi = t.len();
    while hi > lo && (t[hi - 1] == '(' || t[hi - 1] == ')' || t[hi - 1] == '（' || t[hi - 1] == '）'
        || t[hi - 1] == '[' || t[hi - 1] == ']')
        invariant
            lo <= hi <= t.len(),
            strip_brackets_end(mid) == strip_brackets_end(t@.subrange(lo as int, hi as int)),
        decreases hi,
    {
        assert(t@.subrange(lo as int, hi as int).drop_last() == t@.subrange(lo as int, hi - 1));
        hi = hi - 1;
    }
    let m = slice_vec(&t, lo, hi);
    trim_vec(&m)
}

/// The text a connecting token splits into, for token `tok` (see `feat_split`).
fn try_token(rv: &Vec<char>, lowered: &Vec<char>, tok: &Vec<char>) -> (r: Option<Vec<char>>)
    requires
        lowered@ == lower_seq(rv@),
    ensures
        match find_spec(lower_seq(rv@), tok@) {
            Some(idx) => {
                let before = rv@.take(idx);
                if before.len() > 0 && (before.last() == ' ' || before.last() == '('
                    || before.last() == '（') {
                    r is Some && r->0@ == before + seq![' '] + rv@.skip(idx + tok@.len())
                } else {
                    r is None
                }
            },
            None => r is None,
        },
{
    match find_first(lowered, tok) {
        Some(idx) => {
            assert(idx + tok.len() <= lowered.len());
            let before = slice_vec(rv, 0, idx);
            let n = before.len();
            if n > 0 && (before[n - 1] == ' ' || before[n - 1] == '(' || before[n - 1] == '（') {
                let mut t = before;
                t.push(' ');
                let after = slice_vec(rv, idx + tok.len(), rv.len());
                append_vec(&mut t, &after);
                assert(t@ =~= rv@.take(idx as int) + seq![' '] + rv@.skip(idx + tok@.len()));
                Some(t)
            } else {
                None
            }
        },
        None => None,
    }
}

fn feat_text(rv: &Vec<char>) -> (r: Option<Vec<char>>)
    ensures
        match feat_split(rv@, 0) {
            Some(t) => r is Some && r->0@ == t,
            None => r is None,
        },
{
    let lowered = lower_vec(rv);
    let tokens: [&str; 4] = ["feat.", "feat", "ft.", "with"];
    assert(forall|k: int| 0 <= k < 4 ==> tokens@[k]@ == #[trigger] feat_tokens()[k]);
    let mut k: usize = 0;
    while k < 4
        invariant
            k <= 4,
            lowered@ == lower_seq(rv@),
            forall|j: int| 0 <= j < 4 ==> tokens@[j]@ == #[trigger] feat_tokens()[j],
            feat_split(rv@, 0) == feat_split(rv@, k as nat),
        decreases 4 - k,
    {
        let tok = chars_of(tokens[k]);
        assert(tok@ == feat_tokens()[k as int]);
        match try_token(rv, &lowered, &tok) {
            Some(t) => {
                return Some(t);
            },
            None => {},
        }
        k = k + 1;
    }
    None
}

fn split_at_seps(src: &Vec<char>) -> (r: Vec<Vec<char>>)
    ensures
        r.deep_view() == sep_state(src@).0.push(sep_state(src@).1),
{
    let mut pieces: Vec<Vec<char>> = Vec::new();
    let mut cur: Vec<char> = Vec::new();
    let mut i: usize = 0;
    while i < src.len()
        invariant
            i <= src.len(),
            pieces.deep_view() == sep_state(src@.take(i as int)).0,
            cur@ == sep_state(src@.take(i as int)).1,
        decreases src.len() - i,
    {
        assert(src@.take(i + 1).drop_last() == src@.take(i as int));
        let c = src[i];
        if c == '/' || c == '&' || c == '、' || c == ',' || c == '，' || c == ';' || c == '；' || c
            == '·' {
            let ghost before = pieces.deep_view();
            let ghost cv = cur@;
            assert(cur.deep_view() =~= cv);
            pieces.push(cur);
            assert(pieces.deep_view() =~= before.push(cv));
            cur = Vec::new();
        } else {
            cur.push(c);
        }
        i = i + 1;
    }
    assert(src@.take(src.len() as int) == src@);
    let ghost before = pieces.deep_view();
    let ghost cv = cur@;
    assert(cur.deep_view() =~= cv);
    pieces.push(cur);
    assert(pieces.deep_view() =~= before.push(cv));
    pieces
}

fn keep_clean(pieces: &Vec<Vec<char>>) -> (r: Vec<String>)
    ensures
        r.deep_view() == keep_pieces(pieces.deep_view()),
{
    let mut out: Vec<String> = Vec::new();
    let mut j: usize = 0;
    while j < pieces.len()
        invariant
            j <= pieces.len(),
            out.deep_view() == keep_pieces(pieces.deep_view().take(j as int)),
        decreases pieces.len() - j,
    {
        assert(pieces.deep_view().take(j + 1).drop_last() == pieces.deep_view().take(j as int));
        assert(pieces[j as int].deep_view() =~= pieces[j as int]@);
        let c = clean_piece_vec(&pieces[j]);
        if c.len() > 0 {
            let s = string_of(&c);
            let ghost b2 = out.deep_view();
            out.push(s);
            assert(out.deep_view() =~= b2.push(c@));
        }
        j = j + 1;
    }
    assert(pieces.deep_view().take(pieces.len() as int) == pieces.deep_view());
    out
}


/// No artist separator in `s`.
pub open spec fn no_artist_sep(s: Seq<char>) -> bool {
    forall|k: int| 0 <= k < s.len() ==> !is_artist_sep(#[trigger] s[k])
}

proof fn lemma_sep_state_pieces(s: Seq<char>)
    ensures
        forall|i: int| 0 <= i < sep_state(s).0.len() ==> no_artist_sep(#[trigger] sep_state(s).0[i]),
        no_artist_sep(sep_state(s).1),
    decreases s.len(),
{
    if s.len() > 0 {
        lemma_sep_state_pieces(s.drop_last());
        let st = sep_state(s.drop_last());
        if is_artist_sep(s.last()) {
            assert forall|i: int| 0 <= i < st.0.push(st.1).len() implies no_artist_sep(
                #[trigger] st.0.push(st.1)[i],
            ) by {
                if i < st.0.len() {
                    assert(st.0.push(st.1)[i] == st.0[i]);
                }
            }
        } else {
            let w = st.1.push(s.last());
            assert forall|k: int| 0 <= k < w.len() implies !is_artist_sep(#[trigger] w[k]) by {
                if k < st.1.len() {
                    assert(w[k] == st.1[k]);
                }
            }
        }
    }
}

proof fn lemma_no_sep_subrange(s: Seq<char>, a: int, b: int)
    requires
        no_artist_sep(s),
        0 <= a <= b <= s.len(),
    ensures
        no_artist_sep(s.subrange(a, b)),
{
    assert forall|k: int| 0 <= k < s.subrange(a, b).len() implies !is_artist_sep(
        #[trigger] s.subrange(a, b)[k],
    ) by {
        assert(s.subrange(a, b)[k] == s[a + k]);
    }
}

proof fn lemma_trim_no_sep(s: Seq<char>)
    requires
        no_artist_sep(s),
    ensures
        no_artist_sep(trim(s)),
{
    crate::text::lemma_ltrim_len(s);
    let l = crate::text::ltrim(s);
    lemma_no_sep_subrange(s, s.len() - l.len(), s.len() as int);
    crate::text::lemma_rtrim_len(l);
    lemma_no_sep_subrange(l, 0, crate::text::rtrim(l).len() as int);
}

proof fn lemma_strip_start_no_sep(s: Seq<char>)
    requires
        no_artist_sep(s),
    ensures
        no_artist_sep(strip_brackets_start(s)),
    decreases s.len(),
{
    if s.len() > 0 && is_artist_bracket(s[0]) {
        lemma_no_sep_subrange(s, 1, s.len() as int);
        assert(s.drop_first() == s.subrange(1, s.len() as int));
        lemma_strip_start_no_sep(s.drop_first());
    }
}

proof fn lemma_strip_end_no_sep(s: Seq<char>)
    requires
        no_artist_sep(s),
    ensures
        no_artist_sep(strip_brackets_end(s)),
    decreases s.len(),
{
    if s.len() > 0 && is_artist_bracket(s.last()) {
        lemma_no_sep_subrange(s, 0, s.len() - 1);
        assert(s.drop_last() == s.subrange(0, s.len() - 1));
        lemma_strip_end_no_sep(s.drop_last());
    }
}

/// A non-empty text whose ends are not white space is its own trim.
proof fn lemma_trim_fixed(c: Seq<char>)
    requires
        c.len() > 0,
        !crate::text::is_ws(c[0]),
        !crate::text::is_ws(c.last()),
    ensures
        trim(c) == c,
{
}

proof fn lemma_keep_pieces(ps: Seq<Seq<char>>)
    requires
        forall|i: int| 0 <= i < ps.len() ==> no_artist_sep(#[trigger] ps[i]),
    ensures
        forall|i: int|
            0 <= i < keep_pieces(ps).len() ==> {
                &&& (#[trigger] keep_pieces(ps)[i]).len() > 0
                &&& trim(keep_pieces(ps)[i]) == keep_pieces(ps)[i]
                &&& no_artist_sep(keep_pieces(ps)[i])
            },
    decreases ps.len(),
{
    if ps.len() > 0 {
        let init = ps.drop_last();
        assert forall|i: int| 0 <= i < init.len() implies no_artist_sep(#[trigger] init[i]) by {
            assert(init[i] == ps[i]);
        }
        lemma_keep_pieces(init);
        let p = ps.last();
        assert(no_artist_sep(ps[ps.len() - 1]));
        let c = clean_piece(p);
        if c.len() > 0 {
            lemma_trim_no_sep(p);
            lemma_strip_start_no_sep(trim(p));
            lemma_strip_end_no_sep(strip_brackets_start(trim(p)));
            lemma_trim_no_sep(strip_brackets_end(strip_brackets_start(trim(p))));
            crate::text::lemma_trim_empty(strip_brackets_end(strip_brackets_start(trim(p))));
            lemma_trim_fixed(c);
            let r = keep_pieces(init);
            assert forall|i: int| 0 <= i < r.push(c).len() implies {
                &&& (#[trigger] r.push(c)[i]).len() > 0
                &&& trim(r.push(c)[i]) == r.push(c)[i]
                &&& no_artist_sep(r.push(c)[i])
            } by {
                if i < r.len() {
                    assert(r.push(c)[i] == r[i]);
                }
            }
        }
    }
}

/// Each artist `split_artists` gives is non-empty, is its own trim and
/// holds no separator; a blank field gives none.
pub proof fn lemma_split_artists_items(raw: Seq<char>)
    ensures
        trim(raw).len() == 0 ==> split_artists_spec(raw).len() == 0,
        forall|i: int|
            0 <= i < split_artists_spec(raw).len() ==> {
                &&& (#[trigger] split_artists_spec(raw)[i]).len() > 0
                &&& trim(split_artists_spec(raw)[i]) == split_artists_spec(raw)[i]
                &&& no_artist_sep(split_artists_spec(raw)[i])
            },
{
    if trim(raw).len() > 0 {
        let text = match feat_split(raw, 0) {
            Some(t) => t,
            None => raw,
        };
        lemma_sep_state_pieces(text);
        let st = sep_state(text);
        let ps = st.0.push(st.1);
        assert forall|i: int| 0 <= i < ps.len() implies no_artist_sep(#[trigger] ps[i]) by {
            if i < st.0.len() {
                assert(ps[i] == st.0[i]);
            }
        }
        lemma_keep_pieces(ps);
    }
}

/// Splits an artist field into artists: `/ & 、 , ; ·` (and full-width forms)
/// separate, and so does a connecting `feat.`/`ft.`/`with` after a space or
/// bracket. Case is folded with the ASCII mapping only, so positions in the
/// folded copy are positions in the original.
pub fn split_artists(raw: &str) -> (r: Vec<String>)
    ensures
        r.deep_view() == split_artists_spec(raw@),
        trim(raw@).len() == 0 ==> r@.len() == 0,
        forall|i: int|
            0 <= i < r@.len() ==> {
                &&& (#[trigger] r.deep_view()[i]).len() > 0
                &&& trim(r.deep_view()[i]) == r.deep_view()[i]
                &&& no_artist_sep(r.deep_view()[i])
            },
{
    proof {
        lemma_split_artists_items(raw@);
    }
    let rv = chars_of(raw);
    let rt = trim_vec(&rv);
    if rt.len() == 0 {
        let r: Vec<String> = Vec::new();
        assert(r.deep_view() =~= Seq::<Seq<char>>::empty());
        return r;
    }
    let src = match feat_text(&rv) {
        Some(t) => t,
        None => rv,
    };
    let pieces = split_at_seps(&src);
    keep_clean(&pieces)
}

/// A song in the library.
#[derive(Clone, Debug)]
pub struct Track {
    pub id: TrackId,
    /// The file's path, as text.
    pub path: String,
    pub format: AudioFormat,
    /// Length in milliseconds.
    pub duration_ms: Option<u64>,
    pub file_size: u64,
    pub meta: TrackMeta,
    /// Confidence in the metadata, in hundredths; it decides whether the
    /// song needs a look from the user.
    pub meta_confidence: u32,
    pub existing_lyrics: LyricsPresence,
    pub state: TrackState,
    /// The match with its lyrics. Not saved: lyrics go to the cache.
    pub matched: Option<MatchResult>,
    /// The candidates of the last search, for the detail panel and a manual pick.
    pub candidates: Vec<Scored>,
    /// The candidate the user picked.
    pub candidate_pick: usize,
    /// One sentence for the user (why it failed, why it was skipped).
    pub message: Option<String>,
    /// The same-named `.lrc` next to the song, when there is one.
    pub sidecar_path: Option<String>,
}

/// The position the pick selects in a list of `len`: the pick, or the last
/// entry when the pick lies beyond; none for an empty list.
pub open spec fn pick_position(len: int, pick: int) -> Option<int> {
    if len <= 0 {
        None
    } else if pick < len {
        Some(pick)
    } else {
        Some(len - 1)
    }
}

/// The selected candidate disagrees with the song's own information.
pub open spec fn track_mismatched(t: Track) -> bool {
    match pick_position(t.candidates@.len() as int, t.candidate_pick as int) {
        Some(i) => mismatched_spec(t.candidates@[i].candidate, t.meta),
        None => false,
    }
}

pub open spec fn match_grade(m: Option<MatchResult>) -> Option<Grade> {
    match m {
        Some(r) => Some(r.grade),
        None => None,
    }
}

impl Track {
    /// The candidate currently selected.
    pub fn selected_candidate(&self) -> (r: Option<&Scored>)
        ensures
            match pick_position(self.candidates@.len() as int, self.candidate_pick as int) {
                Some(i) => r matches Some(c) && *c == self.candidates@[i],
                None => r is None,
            },
    {
        let n = self.candidates.len();
        if n == 0 {
            None
        } else if self.candidate_pick < n {
            Some(&self.candidates[self.candidate_pick])
        } else {
            Some(&self.candidates[n - 1])
        }
    }

    /// Whether the selected candidate's title or artists differ from the
    /// song's own once normalised; the list flags such rows.
    pub fn is_mismatched(&self) -> (r: bool)
        ensures
            r == track_mismatched(*self),
    {
        match self.selected_candidate() {
            Some(c) => is_mismatched(&c.candidate, &self.meta),
            None => false,
        }
    }

    /// The match that may be shown as the song's lyrics: none for a failed
    /// or skipped song, nor for a rejected match.
    pub fn displayable_match(&self) -> (r: Option<&MatchResult>)
        ensures
            displayable_spec(self.state, match_grade(self.matched)) ==> (r matches Some(m) && Some(
                *m,
            ) == self.matched),
            !displayable_spec(self.state, match_grade(self.matched)) ==> r is None,
    {
        match self.state {
            TrackState::Failed | TrackState::Skip => None,
            _ => match &self.matched {
                Some(m) => {
                    if m.grade == Grade::Rejected {
                        None
                    } else {
                        Some(m)
                    }
                },
                None => None,
            },
        }
    }
}

} // verus!
