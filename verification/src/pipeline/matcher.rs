//! Candidate ordering and the short list shown to the user.

use vstd::prelude::*;
use crate::domain::candidate::{
    display_title_of, join_with, provider_order, same_candidate, secs_of, Candidate, ProviderId,
    SearchQuery,
};
use crate::domain::track::{opt_text, TrackMeta};
use crate::text::{chars_of, string_of, trim, trim_vec};

verus! {

/// Priority of a source (smaller goes first): its place in the source order.
pub fn source_rank(id: ProviderId) -> (r: usize)
    ensures
        r < 4,
        provider_order()[r as int] == id,
{
    let all = ProviderId::all();
    let mut i: usize = 0;
    while i < 4
        invariant
            i <= 4,
            all@ == provider_order(),
            forall|j: int| 0 <= j < i ==> provider_order()[j] != id,
        decreases 4 - i,
    {
        if all[i] == id {
            return i;
        }
        i = i + 1;
    }
    assert(match id {
        ProviderId::QQ => provider_order()[0] == id,
        ProviderId::KuGou => provider_order()[1] == id,
        ProviderId::NetEase => provider_order()[2] == id,
        ProviderId::KuWo => provider_order()[3] == id,
    });
    usize::MAX
}


/// At most this many candidates are shown: the list must be readable at a
/// glance.
pub const MAX_VISIBLE: usize = 8;

/// What the user sees of a candidate: source, title, artists and duration.
pub open spec fn visible_key(c: Candidate) -> (ProviderId, Seq<char>, Seq<char>, Option<u64>) {
    (c.provider, c.title@, join_with(c.artists.deep_view(), "/"@), c.duration_ms)
}

/// The indices of the first `n` candidates that make the short list: the
/// first of each visible identity, until the list is full. Identity is what
/// the user sees, not the source's id: KuGou returns several lyric versions
/// with the same title, singer and duration under different ids.
pub open spec fn shortlist_spec(cs: Seq<Candidate>, n: int) -> Seq<int>
    decreases n,
{
    if n <= 0 {
        Seq::empty()
    } else {
        let r = shortlist_spec(cs, n - 1);
        if r.len() >= MAX_VISIBLE || (exists|k: int|
            0 <= k < r.len() && visible_key(cs[#[trigger] r[k]]) == visible_key(cs[n - 1])) {
            r
        } else {
            r.push(n - 1)
        }
    }
}

proof fn lemma_shortlist_bounds(cs: Seq<Candidate>, n: int)
    requires
        n <= cs.len(),
    ensures
        shortlist_spec(cs, n).len() <= MAX_VISIBLE,
        forall|k: int|
            0 <= k < shortlist_spec(cs, n).len() ==> 0 <= #[trigger] shortlist_spec(cs, n)[k] < n,
    decreases n,
{
    if n > 0 {
        lemma_shortlist_bounds(cs, n - 1);
    }
}

/// The short list keeps the ranking's order and never shows two candidates
/// the user could not tell apart; a candidate left out either looks like one
/// shown or came after the list was full.
pub proof fn lemma_shortlist_shape(cs: Seq<Candidate>, n: int)
    requires
        0 <= n <= cs.len(),
    ensures
        forall|a: int, b: int|
            0 <= a < b < shortlist_spec(cs, n).len() ==> #[trigger] shortlist_spec(cs, n)[a]
                < #[trigger] shortlist_spec(cs, n)[b] && visible_key(cs[shortlist_spec(cs, n)[a]])
                != visible_key(cs[shortlist_spec(cs, n)[b]]),
        forall|i: int|
            0 <= i < n ==> shortlist_spec(cs, n).len() == MAX_VISIBLE || exists|k: int|
                0 <= k < shortlist_spec(cs, n).len() && visible_key(
                    cs[#[trigger] shortlist_spec(cs, n)[k]],
                ) == visible_key(#[trigger] cs[i]),
    decreases n,
{
    if n > 0 {
        lemma_shortlist_shape(cs, n - 1);
        lemma_shortlist_bounds(cs, n - 1);
        let r = shortlist_spec(cs, n - 1);
        let s = shortlist_spec(cs, n);
        if r.len() >= MAX_VISIBLE || (exists|k: int|
            0 <= k < r.len() && visible_key(cs[#[trigger] r[k]]) == visible_key(cs[n - 1])) {
            assert(s == r);
            assert forall|i: int| 0 <= i < n implies s.len() == MAX_VISIBLE || exists|k: int|
                0 <= k < s.len() && visible_key(cs[#[trigger] s[k]]) == visible_key(
                    #[trigger] cs[i],
                ) by {
                if i == n - 1 && r.len() < MAX_VISIBLE {
                    let k = choose|k: int|
                        0 <= k < r.len() && visible_key(cs[#[trigger] r[k]]) == visible_key(cs[n - 1]);
                    assert(s[k] == r[k]);
                }
            }
        } else {
            assert(s == r.push(n - 1));
            assert forall|a: int, b: int| 0 <= a < b < s.len() implies #[trigger] s[a]
                < #[trigger] s[b] && visible_key(cs[s[a]]) != visible_key(cs[s[b]]) by {
                assert(s[a] == r[a]);
                if b < r.len() {
                    assert(s[b] == r[b]);
                } else {
                    assert(s[b] == n - 1);
                    assert(0 <= r[a] < n - 1);
                }
            }
            assert forall|i: int| 0 <= i < n implies s.len() == MAX_VISIBLE || exists|k: int|
                0 <= k < s.len() && visible_key(cs[#[trigger] s[k]]) == visible_key(
                    #[trigger] cs[i],
                ) by {
                if i == n - 1 {
                    assert(s[r.len() as int] == n - 1);
                } else if r.len() == MAX_VISIBLE {
                } else {
                    let k = choose|k: int|
                        0 <= k < r.len() && visible_key(cs[#[trigger] r[k]]) == visible_key(cs[i]);
                    assert(s[k] == r[k]);
                }
            }
        }
    }
}

/// The positions of the candidates that make the short list, in order.
pub fn shortlist_indices(candidates: &[Candidate]) -> (r: Vec<usize>)
    ensures
        r@.len() == shortlist_spec(candidates@, candidates@.len() as int).len(),
        forall|k: int|
            0 <= k < r@.len() ==> #[trigger] r@[k] as int == shortlist_spec(
                candidates@,
                candidates@.len() as int,
            )[k],
{
    let mut kept: Vec<usize> = Vec::new();
    let mut keys: Vec<String> = Vec::new();
    let mut i: usize = 0;
    while i < candidates.len()
        invariant
            i <= candidates@.len(),
            kept@.len() == keys@.len(),
            kept@.len() == shortlist_spec(candidates@, i as int).len(),
            forall|k: int|
                0 <= k < kept@.len() ==> #[trigger] kept@[k] as int == shortlist_spec(
                    candidates@,
                    i as int,
                )[k],
            forall|k: int|
                0 <= k < kept@.len() ==> keys@[k]@ == join_with(
                    candidates@[#[trigger] kept@[k] as int].artists.deep_view(),
                    "/"@,
                ),
            forall|k: int| 0 <= k < kept@.len() ==> #[trigger] kept@[k] < i,
        decreases candidates.len() - i,
    {
        proof {
            lemma_shortlist_bounds(candidates@, i as int);
        }
        if kept.len() >= MAX_VISIBLE {
            i = i + 1;
            continue;
        }
        let c = &candidates[i];
        let joined = c.artist_joined();
        let mut dup = false;
        let mut k: usize = 0;
        while k < kept.len()
            invariant
                k <= kept@.len(),
                kept@.len() == keys@.len(),
                forall|q: int| 0 <= q < kept@.len() ==> #[trigger] kept@[q] < i,
                i < candidates@.len(),
                forall|q: int|
                    0 <= q < kept@.len() ==> keys@[q]@ == join_with(
                        candidates@[#[trigger] kept@[q] as int].artists.deep_view(),
                        "/"@,
                    ),
                joined@ == join_with(candidates@[i as int].artists.deep_view(), "/"@),
                *c == candidates@[i as int],
                dup == exists|q: int|
                    0 <= q < k && visible_key(candidates@[#[trigger] kept@[q] as int])
                        == visible_key(candidates@[i as int]),
            decreases kept.len() - k,
        {
            let o = &candidates[kept[k]];
            let eq = o.provider == c.provider && crate::text::str_eq(
                o.title.as_str(),
                c.title.as_str(),
            ) && crate::text::str_eq(keys[k].as_str(), joined.as_str()) && o.duration_ms
                == c.duration_ms;
            proof {
                let a = candidates@[kept@[k as int] as int];
                let b = candidates@[i as int];
                assert(*o == a);
                assert(*c == b);
                assert(eq == (a.provider == b.provider && a.title@ == b.title@ && join_with(
                    a.artists.deep_view(),
                    "/"@,
                ) == join_with(b.artists.deep_view(), "/"@) && a.duration_ms == b.duration_ms));
                assert(eq == (visible_key(a) == visible_key(b)));
            }
            if eq {
                dup = true;
            }
            k = k + 1;
        }
        proof {
            let r = shortlist_spec(candidates@, i as int);
            assert(forall|q: int| 0 <= q < r.len() ==> r[q] == kept@[q] as int);
            if dup {
                let q = choose|q: int|
                    0 <= q < kept@.len() && visible_key(candidates@[#[trigger] kept@[q] as int])
                        == visible_key(candidates@[i as int]);
                assert(visible_key(candidates@[r[q]]) == visible_key(candidates@[i as int]));
            } else {
                assert forall|q: int| 0 <= q < r.len() implies visible_key(
                    candidates@[#[trigger] r[q]],
                ) != visible_key(candidates@[i as int]) by {
                    assert(r[q] == kept@[q] as int);
                }
            }
        }
        if !dup {
            kept.push(i);
            keys.push(joined);
        }
        i = i + 1;
    }
    kept
}

/// Cuts the ranked candidates down to what is worth showing: the first of
/// each visible identity, at most [`MAX_VISIBLE`] of them.
pub fn shortlist(candidates: &[Candidate]) -> (r: Vec<Candidate>)
    ensures
        r@.len() == shortlist_spec(candidates@, candidates@.len() as int).len(),
        r@.len() <= MAX_VISIBLE,
        forall|k: int|
            0 <= k < r@.len() ==> same_candidate(
                #[trigger] r@[k],
                candidates@[shortlist_spec(candidates@, candidates@.len() as int)[k]],
            ),
{
    let idx = shortlist_indices(candidates);
    proof {
        lemma_shortlist_bounds(candidates@, candidates@.len() as int);
    }
    let mut out: Vec<Candidate> = Vec::new();
    let mut k: usize = 0;
    while k < idx.len()
        invariant
            k <= idx@.len(),
            idx@.len() == shortlist_spec(candidates@, candidates@.len() as int).len(),
            idx@.len() <= MAX_VISIBLE,
            forall|q: int|
                0 <= q < idx@.len() ==> #[trigger] idx@[q] as int == shortlist_spec(
                    candidates@,
                    candidates@.len() as int,
                )[q],
            forall|q: int|
                0 <= q < shortlist_spec(candidates@, candidates@.len() as int).len() ==> 0
                    <= #[trigger] shortlist_spec(candidates@, candidates@.len() as int)[q]
                    < candidates@.len(),
            out@.len() == k,
            forall|q: int|
                0 <= q < k ==> same_candidate(
                    #[trigger] out@[q],
                    candidates@[shortlist_spec(candidates@, candidates@.len() as int)[q]],
                ),
        decreases idx.len() - k,
    {
        assert(idx@[k as int] as int == shortlist_spec(candidates@, candidates@.len() as int)[k as int]);
        out.push(candidates[idx[k]].duplicate());
        k = k + 1;
    }
    out
}

/// The query of a manual search: the user's keyword, trimmed and otherwise
/// as typed, with the song's length; without a keyword (or a blank one), the
/// song's own query.
pub fn manual_query(meta: &TrackMeta, duration_ms: Option<u64>, keyword: Option<&str>) -> (r:
    SearchQuery)
    ensures
        match keyword {
            Some(k) if trim(k@).len() > 0 => {
                &&& r.title@ == trim(k@)
                &&& r.artist@.len() == 0
                &&& r.duration_secs == secs_of(duration_ms)
            },
            _ => {
                &&& r.title@ == display_title_of(*meta)
                &&& r.artist@ == opt_text(meta.artist)
                &&& r.duration_secs == secs_of(duration_ms)
            },
        },
{
    match keyword {
        Some(k) => {
            let v = chars_of(k);
            let t = trim_vec(&v);
            if t.len() > 0 {
                let base = SearchQuery::from_meta(meta, duration_ms);
                return SearchQuery {
                    title: string_of(&t),
                    artist: String::new(),
                    duration_secs: base.duration_secs,
                };
            }
        },
        None => {},
    }
    SearchQuery::from_meta(meta, duration_ms)
}

/// Which sources answered a cross-source search, and which failed with the
/// reason shown to the user.
pub struct SourceTally {
    pub responded: Vec<ProviderId>,
    pub failed: Vec<(ProviderId, String)>,
}

impl SourceTally {
    pub fn new() -> (r: Self)
        ensures
            r.responded@.len() == 0,
            r.failed@.len() == 0,
    {
        SourceTally { responded: Vec::new(), failed: Vec::new() }
    }

    /// Every source failed: none answered and each reported a failure. A
    /// match run then stops rather than mark every song as not found.
    pub fn all_sources_failed(&self, total_sources: usize) -> (r: bool)
        ensures
            r == (self.responded@.len() == 0 && self.failed@.len() >= total_sources),
    {
        self.responded.len() == 0 && self.failed.len() >= total_sources
    }
}

} // verus!
