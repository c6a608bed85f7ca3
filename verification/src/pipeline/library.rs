//! The saved library index: what survives a restart. Lyrics are not in it
//! (they would swell it to tens of megabytes); they go to the cache and are
//! fetched back by source and song id.

use vstd::prelude::*;
use vstd::utf8::*;
use crate::domain::candidate::{provider_key_spec, ProviderId};
use crate::domain::plan::MatchSummary;
use crate::domain::track::{blake3_digest, blake3_hash};
use crate::text::{chars_of, push_str_vec, string_of};
use crate::domain::track::{AudioFormat, LyricsPresence, TrackMeta, TrackState};
use crate::infra::time::now_string;

verus! {

/// Version of the index layout; an index of another version is ignored.
pub const INDEX_VERSION: u32 = 1;

/// One saved track. It holds no id: the id comes from the path, and a saved
/// copy could only disagree with it.
#[derive(Clone, Debug)]
pub struct TrackIndexEntry {
    pub path: String,
    pub format: AudioFormat,
    pub duration_ms: Option<u64>,
    pub file_size: u64,
    pub meta: TrackMeta,
    /// Confidence in the metadata, in hundredths.
    pub meta_confidence: u32,
    pub existing_lyrics: LyricsPresence,
    pub state: TrackState,
    pub message: Option<String>,
    /// The match, without its lyrics.
    pub matched: Option<MatchSummary>,
}

#[derive(Clone, Debug)]
pub struct LibraryIndex {
    pub version: u32,
    pub root: String,
    pub saved_at: String,
    pub tracks: Vec<TrackIndexEntry>,
}

impl LibraryIndex {
    /// An empty index for `root`, stamped with the current time.
    pub fn new(root: &str) -> (r: Self)
        ensures
            r.version == INDEX_VERSION,
            r.root@ == root@,
            r.tracks@.len() == 0,
    {
        LibraryIndex {
            version: INDEX_VERSION,
            root: root.to_owned(),
            saved_at: now_string(),
            tracks: Vec::new(),
        }
    }
}

/// Lowercase hex digit of `n` (below 16).
pub open spec fn hex_char(n: nat) -> char {
    if n < 10 {
        (n + 48) as char
    } else {
        (n + 87) as char
    }
}

/// Bytes as lowercase hex, two digits each.
pub open spec fn hex_text(b: Seq<u8>) -> Seq<char>
    decreases b.len(),
{
    if b.len() == 0 {
        Seq::empty()
    } else {
        hex_text(b.drop_last()) + seq![hex_char((b.last() / 16) as nat), hex_char((b.last() % 16) as nat)]
    }
}

/// The cache file name of a song's lyrics: the source key, a hyphen, the
/// first twelve bytes of the BLAKE3 digest of `key:song_id` in hex, and
/// `.json`. Song ids may hold `/` or `:`; the digest keeps them out.
pub open spec fn cache_name_spec(p: ProviderId, song_id: Seq<char>) -> Seq<char> {
    let key = provider_key_spec(p);
    key + seq!['-'] + hex_text(blake3_digest(encode_utf8(key + seq![':'] + song_id)).take(12))
        + ".json"@
}

fn hex_of(n: u8) -> (c: char)
    requires
        n < 16,
    ensures
        c == hex_char(n as nat),
{
    if n < 10 {
        (n + 48) as char
    } else {
        (n + 87) as char
    }
}

/// The name of the cache file that holds a song's lyrics.
pub fn cache_file_name(provider: ProviderId, song_id: &str) -> (r: String)
    ensures
        r@ == cache_name_spec(provider, song_id@),
{
    let key = provider.as_str();
    let mut src: Vec<char> = chars_of(key);
    src.push(':');
    push_str_vec(&mut src, song_id);
    let joined = string_of(&src);
    assert(joined@ == key@ + seq![':'] + song_id@);
    let d = blake3_hash(joined.as_str().as_bytes());
    let mut out: Vec<char> = chars_of(key);
    out.push('-');
    let ghost head = out@;
    let mut i: usize = 0;
    while i < 12
        invariant
            i <= 12,
            d@.len() == 32,
            out@ == head + hex_text(d@.take(i as int)),
        decreases 12 - i,
    {
        let b = d[i];
        out.push(hex_of(b / 16));
        out.push(hex_of(b % 16));
        assert(d@.take(i + 1).drop_last() == d@.take(i as int));
        assert(d@.take(i + 1).last() == b);
        i = i + 1;
    }
    push_str_vec(&mut out, ".json");
    string_of(&out)
}

/// A cache file name holds no path separator, whatever the song id: the
/// cache cannot be made to write outside its directory.
pub proof fn lemma_cache_name_has_no_separator(p: ProviderId, song_id: Seq<char>)
    ensures
        forall|i: int|
            0 <= i < cache_name_spec(p, song_id).len() ==> #[trigger] cache_name_spec(p, song_id)[i]
                != '/' && cache_name_spec(p, song_id)[i] != '\\',
{
    reveal_strlit("netease");
    reveal_strlit("qq");
    reveal_strlit("kugou");
    reveal_strlit("kuwo");
    reveal_strlit(".json");
    let key = provider_key_spec(p);
    let h = hex_text(blake3_digest(encode_utf8(key + seq![':'] + song_id)).take(12));
    lemma_hex_text_digits(blake3_digest(encode_utf8(key + seq![':'] + song_id)).take(12));
    lemma_key_letters(p);
    let name = cache_name_spec(p, song_id);
    assert(".json"@ == seq!['.', 'j', 's', 'o', 'n']);
    assert forall|i: int| 0 <= i < name.len() implies #[trigger] name[i] != '/' && name[i] != '\\' by {
        if i < key.len() {
            assert(name[i] == key[i]);
        } else if i == key.len() {
            assert(name[i] == '-');
        } else if i < key.len() + 1 + h.len() {
            assert(name[i] == h[i - key.len() - 1]);
            assert(is_hex_digit(h[i - key.len() - 1]));
        } else {
            let k = i - key.len() - 1 - h.len();
            assert(name[i] == ".json"@[k]);
            assert(k == 0 || k == 1 || k == 2 || k == 3 || k == 4);
        }
    }
}

pub open spec fn is_hex_digit(c: char) -> bool {
    (48 <= (c as u32) <= 57) || (97 <= (c as u32) <= 102)
}

proof fn lemma_hex_text_digits(b: Seq<u8>)
    ensures
        forall|i: int| 0 <= i < hex_text(b).len() ==> is_hex_digit(#[trigger] hex_text(b)[i]),
    decreases b.len(),
{
    if b.len() > 0 {
        lemma_hex_text_digits(b.drop_last());
        let r = hex_text(b.drop_last());
        let hi = (b.last() / 16) as nat;
        let lo = (b.last() % 16) as nat;
        assert(hex_text(b) == r + seq![hex_char(hi), hex_char(lo)]);
        assert forall|i: int| 0 <= i < hex_text(b).len() implies is_hex_digit(
            #[trigger] hex_text(b)[i],
        ) by {
            if i < r.len() {
                assert(hex_text(b)[i] == r[i]);
            } else if i == r.len() {
                assert(hex_text(b)[i] == hex_char(hi));
            } else {
                assert(hex_text(b)[i] == hex_char(lo));
            }
        }
    }
}

/// Each source key is made of lowercase letters.
proof fn lemma_key_letters(p: ProviderId)
    ensures
        forall|i: int|
            0 <= i < provider_key_spec(p).len() ==> 97 <= (#[trigger] provider_key_spec(p)[i] as u32)
                <= 122,
        provider_key_spec(p).len() >= 2,
{
    reveal_strlit("netease");
    reveal_strlit("qq");
    reveal_strlit("kugou");
    reveal_strlit("kuwo");
    assert forall|i: int|
        0 <= i < provider_key_spec(p).len() implies 97 <= (#[trigger] provider_key_spec(p)[i] as u32)
        <= 122 by {
        match p {
            ProviderId::NetEase => {
                assert(i == 0 || i == 1 || i == 2 || i == 3 || i == 4 || i == 5 || i == 6);
            },
            ProviderId::QQ => {
                assert(i == 0 || i == 1);
            },
            ProviderId::KuGou => {
                assert(i == 0 || i == 1 || i == 2 || i == 3 || i == 4);
            },
            ProviderId::KuWo => {
                assert(i == 0 || i == 1 || i == 2 || i == 3);
            },
        }
    }
}

/// Lyrics from different sources never share a cache file.
pub proof fn lemma_cache_names_differ_by_source(
    p: ProviderId,
    q: ProviderId,
    a: Seq<char>,
    b: Seq<char>,
)
    requires
        p != q,
    ensures
        cache_name_spec(p, a) != cache_name_spec(q, b),
{
    reveal_strlit("netease");
    reveal_strlit("qq");
    reveal_strlit("kugou");
    reveal_strlit("kuwo");
    let x = cache_name_spec(p, a);
    let y = cache_name_spec(q, b);
    let kp = provider_key_spec(p);
    let kq = provider_key_spec(q);
    lemma_key_letters(p);
    lemma_key_letters(q);
    assert(x[0] == kp[0] && y[0] == kq[0]);
    match (p, q) {
        (ProviderId::KuGou, ProviderId::KuWo) | (ProviderId::KuWo, ProviderId::KuGou) => {
            assert(x[2] == kp[2] && y[2] == kq[2]);
        },
        _ => {},
    }
}

/// Most the lyric cache may hold, in MiB.
pub const CACHE_MAX_MB: u64 = 128;

/// The same limit in bytes.
pub const CACHE_MAX_BYTES: u64 = CACHE_MAX_MB * 1024 * 1024;

/// Total size of the cache files, each given as (modification time, size).
pub open spec fn cache_bytes(entries: Seq<(u64, u64)>) -> nat
    decreases entries.len(),
{
    if entries.len() == 0 {
        0
    } else {
        cache_bytes(entries.drop_last()) + entries.last().1 as nat
    }
}

/// File `a` goes before file `b`: older, or as old and listed earlier.
pub open spec fn older_first(entries: Seq<(u64, u64)>, a: usize, b: usize) -> bool {
    entries[a as int].0 < entries[b as int].0 || (entries[a as int].0 == entries[b as int].0 && a
        < b)
}

/// `order` lists each index below `n` exactly once.
pub open spec fn lists_each_index(order: Seq<usize>, n: nat) -> bool {
    &&& order.len() == n
    &&& forall|i: int| 0 <= i < n ==> #[trigger] order[i] < n
    &&& forall|i: int, j: int| 0 <= i < j < n ==> order[i] != order[j]
}

/// The order in which the cache gives up its files: oldest first, files of
/// the same age in the order they were listed.
pub fn eviction_order(entries: &[(u64, u64)]) -> (r: Vec<usize>)
    ensures
        lists_each_index(r@, entries@.len()),
        forall|i: int, j: int|
            0 <= i < j < r@.len() ==> older_first(entries@, #[trigger] r@[i], #[trigger] r@[j]),
{
    let n = entries.len();
    let mut order: Vec<usize> = Vec::new();
    let mut k: usize = 0;
    while k < n
        invariant
            k <= n == entries@.len(),
            order@.len() == k,
            forall|i: int| 0 <= i < k ==> #[trigger] order@[i] < k,
            forall|i: int, j: int| 0 <= i < j < k ==> order@[i] != order@[j],
            forall|i: int, j: int|
                0 <= i < j < k ==> older_first(entries@, #[trigger] order@[i], #[trigger] order@[j]),
        decreases n - k,
    {
        let age = entries[k].0;
        let mut p: usize = 0;
        while p < order.len() && entries[order[p]].0 <= age
            invariant
                p <= order@.len() == k < n == entries@.len(),
                forall|i: int| 0 <= i < k ==> #[trigger] order@[i] < k,
                forall|i: int| 0 <= i < p ==> entries@[#[trigger] order@[i] as int].0 <= age,
            decreases k - p,
        {
            p = p + 1;
        }
        proof {
            if p < k {
                assert(entries@[order@[p as int] as int].0 > age);
            }
        }
        let ghost before = order@;
        order.insert(p, k);
        proof {
            assert forall|i: int| 0 <= i < k + 1 implies #[trigger] order@[i] < k + 1 by {
                if i < p {
                    assert(order@[i] == before[i]);
                } else if i > p {
                    assert(order@[i] == before[i - 1]);
                }
            }
            assert forall|i: int, j: int| 0 <= i < j < k + 1 implies order@[i] != order@[j] by {
                if j < p {
                    assert(order@[j] == before[j]);
                    assert(order@[i] == before[i]);
                } else if j == p {
                    assert(order@[i] == before[i]);
                } else if i < p {
                    assert(order@[j] == before[j - 1]);
                    assert(order@[i] == before[i]);
                } else if i == p {
                    assert(order@[j] == before[j - 1]);
                } else {
                    assert(order@[j] == before[j - 1]);
                    assert(order@[i] == before[i - 1]);
                }
            }
            assert forall|i: int, j: int| 0 <= i < j < k + 1 implies older_first(
                entries@,
                #[trigger] order@[i],
                #[trigger] order@[j],
            ) by {
                if j < p {
                    assert(order@[j] == before[j]);
                    assert(order@[i] == before[i]);
                } else if j == p {
                    assert(order@[i] == before[i]);
                    assert(entries@[before[i] as int].0 <= age);
                } else if i < p {
                    assert(order@[j] == before[j - 1]);
                    assert(order@[i] == before[i]);
                } else if i == p {
                    assert(order@[j] == before[j - 1]);
                    if j - 1 > p {
                        assert(older_first(entries@, before[p as int], before[j - 1]));
                    }
                    assert(entries@[before[p as int] as int].0 > age);
                } else {
                    assert(order@[j] == before[j - 1]);
                    assert(order@[i] == before[i - 1]);
                }
            }
        }
        k = k + 1;
    }
    order
}

/// Where a cache clean-up stands: the bytes still in the cache, the bytes
/// freed so far (what the clean-up reports when it ends), and the limit.
pub struct Eviction {
    pub total: u64,
    pub freed: u64,
    pub limit: u64,
}

impl Eviction {
    /// Starts a clean-up of the cache whose files are `entries`; `None` when
    /// their sizes add up to more than a `u64` holds.
    pub fn new(entries: &[(u64, u64)], limit: u64) -> (r: Option<Eviction>)
        ensures
            r is None <==> cache_bytes(entries@) > u64::MAX,
            r matches Some(e) ==> {
                &&& e.total == cache_bytes(entries@)
                &&& e.freed == 0
                &&& e.limit == limit
            },
    {
        let mut total: u64 = 0;
        let mut i: usize = 0;
        while i < entries.len()
            invariant
                i <= entries@.len(),
                total == cache_bytes(entries@.take(i as int)),
            decreases entries@.len() - i,
        {
            assert(entries@.take(i + 1).drop_last() == entries@.take(i as int));
            match total.checked_add(entries[i].1) {
                Some(t) => total = t,
                None => {
                    proof {
                        lemma_cache_bytes_grows(entries@, i + 1);
                    }
                    return None;
                },
            }
            i = i + 1;
        }
        assert(entries@.take(i as int) == entries@);
        Some(Eviction { total, freed: 0, limit })
    }

    /// Whether another file should go.
    pub fn needed(&self) -> (r: bool)
        ensures
            r == (self.total > self.limit),
    {
        self.total > self.limit
    }

    /// A file of `len` bytes was removed.
    pub fn removed(&mut self, len: u64)
        requires
            old(self).freed + len <= u64::MAX,
        ensures
            final(self).total == (if old(self).total >= len { old(self).total - len } else { 0 }),
            final(self).freed == old(self).freed + len,
            final(self).limit == old(self).limit,
            old(self).total >= len ==> final(self).total + final(self).freed == old(self).total
                + old(self).freed,
    {
        self.total = self.total.saturating_sub(len);
        self.freed = self.freed + len;
    }
}

proof fn lemma_cache_bytes_grows(entries: Seq<(u64, u64)>, k: int)
    requires
        0 <= k <= entries.len(),
    ensures
        cache_bytes(entries.take(k)) <= cache_bytes(entries),
    decreases entries.len() - k,
{
    if k < entries.len() {
        lemma_cache_bytes_grows(entries, k + 1);
        assert(entries.take(k + 1).drop_last() == entries.take(k));
    } else {
        assert(entries.take(k) == entries);
    }
}

} // verus!
