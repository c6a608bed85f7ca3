//! The in-memory library: the tracks of the current folder, found by id.
//!
//! Restoring a saved index, rescanning and matching all go through here;
//! every operation keeps the id index in step with the tracks.

use vstd::prelude::*;
use std::collections::HashMap;
use crate::domain::candidate::{
    copy_text, meta_of_candidate, opt_seq, Candidate, Grade, ProviderId, Scored,
};
use crate::domain::lyrics::Lyrics;
use crate::domain::plan::{summarises, summary_candidate, MatchResult, MatchSummary};
use crate::domain::track::{
    same_meta, track_id_spec, LyricsPresence, Track, TrackId, TrackMeta, TrackState,
};
use crate::infra::config::SaveTarget;
use crate::pipeline::library::{LibraryIndex, TrackIndexEntry, INDEX_VERSION};
use crate::pipeline::orchestrator::presence_after_write;

verus! {

/// Counts of one restore from the saved index.
#[derive(Clone, Copy, Debug, Default)]
pub struct RestoreStats {
    /// Tracks whose lyrics came back from the cache.
    pub restored: usize,
    /// Tracks set back to unprocessed because their cached lyrics were gone.
    pub downgraded: usize,
    /// Entries whose file no longer exists.
    pub missing: usize,
}

/// What happens to one saved entry on restore.
#[derive(Clone, Copy, Debug, PartialEq, Eq, Structural)]
pub enum RestoreOutcome {
    /// The file is gone: the entry is dropped.
    Missing,
    /// The match came back with its cached lyrics; the state is kept.
    Restored,
    /// The cached lyrics are gone: the track starts over as unprocessed, so
    /// it does not sit in a state nothing can act on.
    Downgraded,
    /// No match was saved: the track is unprocessed.
    Unmatched,
}

pub open spec fn restore_outcome_spec(file_exists: bool, had_match: bool, cache_hit: bool) -> RestoreOutcome {
    if !file_exists {
        RestoreOutcome::Missing
    } else if had_match {
        if cache_hit {
            RestoreOutcome::Restored
        } else {
            RestoreOutcome::Downgraded
        }
    } else {
        RestoreOutcome::Unmatched
    }
}

/// The fate of a saved entry, given whether its file still exists, whether a
/// match was saved with it and whether the match's lyrics are still cached.
pub fn restore_outcome(file_exists: bool, had_match: bool, cache_hit: bool) -> (r: RestoreOutcome)
    ensures
        r == restore_outcome_spec(file_exists, had_match, cache_hit),
{
    if !file_exists {
        RestoreOutcome::Missing
    } else if had_match {
        if cache_hit {
            RestoreOutcome::Restored
        } else {
            RestoreOutcome::Downgraded
        }
    } else {
        RestoreOutcome::Unmatched
    }
}

/// The state a restored track takes, and whether its message is cleared.
pub fn restored_state(saved: TrackState, outcome: RestoreOutcome) -> (r: (TrackState, bool))
    ensures
        r == match outcome {
            RestoreOutcome::Restored => (saved, false),
            RestoreOutcome::Downgraded => (TrackState::Idle, true),
            _ => (TrackState::Idle, false),
        },
{
    match outcome {
        RestoreOutcome::Restored => (saved, false),
        RestoreOutcome::Downgraded => (TrackState::Idle, true),
        _ => (TrackState::Idle, false),
    }
}

impl RestoreStats {
    pub fn new() -> (r: Self)
        ensures
            r.restored == 0 && r.downgraded == 0 && r.missing == 0,
    {
        RestoreStats { restored: 0, downgraded: 0, missing: 0 }
    }

    /// Counts one restored entry.
    pub fn count(&mut self, outcome: RestoreOutcome)
        requires
            old(self).restored < usize::MAX,
            old(self).downgraded < usize::MAX,
            old(self).missing < usize::MAX,
        ensures
            final(self).restored == old(self).restored + if outcome == RestoreOutcome::Restored {
                1int
            } else {
                0
            },
            final(self).downgraded == old(self).downgraded + if outcome
                == RestoreOutcome::Downgraded {
                1int
            } else {
                0
            },
            final(self).missing == old(self).missing + if outcome == RestoreOutcome::Missing {
                1int
            } else {
                0
            },
    {
        match outcome {
            RestoreOutcome::Restored => {
                self.restored = self.restored + 1;
            },
            RestoreOutcome::Downgraded => {
                self.downgraded = self.downgraded + 1;
            },
            RestoreOutcome::Missing => {
                self.missing = self.missing + 1;
            },
            RestoreOutcome::Unmatched => {},
        }
    }
}

/// The candidate the user picked, kept only when it is in the list.
pub fn clamp_pick(current: usize, pick: usize, count: usize) -> (r: usize)
    ensures
        r == if pick < count {
            pick
        } else {
            current
        },
{
    if pick < count {
        pick
    } else {
        current
    }
}

/// The state of a rescanned track: songs already written stay written, so
/// choosing the folder again does not wipe out finished work; any other
/// state starts from the fresh scan.
pub fn rescanned_state(scanned: TrackState, was_done: bool) -> (r: TrackState)
    ensures
        r == if was_done {
            TrackState::Done
        } else {
            scanned
        },
{
    if was_done {
        TrackState::Done
    } else {
        scanned
    }
}

/// The library of the current folder.
pub struct TrackStore {
    tracks: Vec<Track>,
    /// Track id to position.
    index: HashMap<u64, usize>,
    root: String,
}

/// Some track in `ts` has id `id`.
pub open spec fn holds_id(ts: Seq<Track>, id: u64) -> bool {
    exists|i: int| 0 <= i < ts.len() && (#[trigger] ts[i]).id.0 == id
}

/// `t` with a new state and message.
pub open spec fn with_state(t: Track, state: TrackState, message: Option<String>) -> Track {
    Track { state, message, ..t }
}

/// `a` and `b` are the same file as scanned: identity, format, size and
/// metadata, and the lyrics it holds.
pub open spec fn same_file(a: Track, b: Track) -> bool {
    &&& a.id == b.id
    &&& a.path == b.path
    &&& a.format == b.format
    &&& a.duration_ms == b.duration_ms
    &&& a.file_size == b.file_size
    &&& a.meta == b.meta
    &&& a.meta_confidence == b.meta_confidence
    &&& a.existing_lyrics == b.existing_lyrics
    &&& a.sidecar_path == b.sidecar_path
}

/// The short list as a match leaves it: its first entry shows the match's
/// source and score.
pub open spec fn with_first(s: Seq<Scored>, score: u32, provider: ProviderId) -> Seq<Scored> {
    if s.len() > 0 {
        s.update(0, Scored { candidate: Candidate { provider, ..s[0].candidate }, score })
    } else {
        s
    }
}

pub open spec fn grade_state(g: Grade) -> TrackState {
    match g {
        Grade::Auto => TrackState::Matched,
        Grade::Confirm => TrackState::Confirm,
        Grade::Rejected => TrackState::Failed,
    }
}

impl TrackStore {
    /// The tracks, in order.
    pub closed spec fn tracks_view(&self) -> Seq<Track> {
        self.tracks@
    }

    pub closed spec fn root_view(&self) -> Seq<char> {
        self.root@
    }

    /// Where the index places the track with id `id`, if any.
    pub closed spec fn slot(&self, id: u64) -> Option<int> {
        if self.index@.contains_key(id) {
            Some(self.index@[id] as int)
        } else {
            None
        }
    }

    /// The index places each id on a track with that id and holds the id of
    /// every track.
    pub closed spec fn wf(&self) -> bool {
        &&& forall|id: u64| #[trigger]
            self.index@.contains_key(id) ==> (self.index@[id] as int) < self.tracks@.len()
                && self.tracks@[self.index@[id] as int].id.0 == id
        &&& forall|i: int|
            0 <= i < self.tracks@.len() ==> self.index@.contains_key(#[trigger] self.tracks@[i].id.0)
    }

    /// The index finds exactly the ids the library holds, each on a track
    /// that has it.
    pub proof fn lemma_slot(&self, id: u64)
        requires
            self.wf(),
        ensures
            self.slot(id) is Some <==> holds_id(self.tracks_view(), id),
            self.slot(id) matches Some(p) ==> 0 <= p < self.tracks_view().len()
                && self.tracks_view()[p].id.0 == id,
    {
        if holds_id(self.tracks_view(), id) {
            let i = choose|i: int| 0 <= i < self.tracks@.len() && (#[trigger] self.tracks@[i]).id.0 == id;
            assert(self.index@.contains_key(self.tracks@[i].id.0));
        }
        if self.index@.contains_key(id) {
            assert(self.tracks@[self.index@[id] as int].id.0 == id);
        }
    }

    pub fn new() -> (r: Self)
        ensures
            r.wf(),
            r.tracks_view().len() == 0,
            r.root_view().len() == 0,
    {
        TrackStore { tracks: Vec::new(), index: HashMap::new(), root: String::new() }
    }

    pub fn root(&self) -> (r: &str)
        ensures
            r@ == self.root_view(),
    {
        self.root.as_str()
    }

    pub fn len(&self) -> (r: usize)
        ensures
            r == self.tracks_view().len(),
    {
        self.tracks.len()
    }

    pub fn is_empty(&self) -> (r: bool)
        ensures
            r == (self.tracks_view().len() == 0),
    {
        self.tracks.len() == 0
    }

    pub fn all(&self) -> (r: &[Track])
        ensures
            r@ == self.tracks_view(),
    {
        self.tracks.as_slice()
    }

    fn position(&self, id: u64) -> (r: Option<usize>)
        requires
            self.wf(),
        ensures
            match r {
                Some(p) => self.slot(id) == Some(p as int) && p < self.tracks@.len()
                    && self.tracks@[p as int].id.0 == id,
                None => self.slot(id) is None,
            },
    {
        broadcast use vstd::std_specs::hash::group_hash_axioms;
        match self.index.get(&id) {
            Some(p) => Some(*p),
            None => None,
        }
    }

    /// The track with id `id`.
    pub fn get(&self, id: u64) -> (r: Option<&Track>)
        requires
            self.wf(),
        ensures
            match self.slot(id) {
                Some(p) => r matches Some(t) && *t == self.tracks_view()[p],
                None => r is None,
            },
    {
        match self.position(id) {
            Some(p) => Some(&self.tracks[p]),
            None => None,
        }
    }

    /// Rebuilds the index from the tracks.
    fn reindex(&mut self)
        ensures
            final(self).wf(),
            final(self).tracks@ == old(self).tracks@,
            final(self).root@ == old(self).root@,
    {
        broadcast use vstd::std_specs::hash::group_hash_axioms;
        self.index.clear();
        let mut i: usize = 0;
        while i < self.tracks.len()
            invariant
                i <= self.tracks@.len(),
                self.tracks@ == old(self).tracks@,
                self.root@ == old(self).root@,
                forall|id: u64| #[trigger]
                    self.index@.contains_key(id) ==> (self.index@[id] as int) < i
                        && self.tracks@[self.index@[id] as int].id.0 == id,
                forall|j: int| 0 <= j < i ==> self.index@.contains_key(#[trigger] self.tracks@[j].id.0),
            decreases self.tracks@.len() - i,
        {
            let id = self.tracks[i].id.0;
            self.index.insert(id, i);
            i = i + 1;
        }
    }

    /// Sets a track's state and message; nothing happens for an unknown id.
    pub fn set_state(&mut self, id: u64, state: TrackState, message: Option<String>)
        requires
            old(self).wf(),
        ensures
            final(self).wf(),
            final(self).root_view() == old(self).root_view(),
            final(self).slot(id) == old(self).slot(id),
            final(self).tracks_view() == match old(self).slot(id) {
                Some(p) => old(self).tracks_view().update(
                    p,
                    with_state(old(self).tracks_view()[p], state, message),
                ),
                None => old(self).tracks_view(),
            },
    {
        match self.position(id) {
            Some(p) => {
                self.tracks[p].state = state;
                self.tracks[p].message = message;
                assert(self.tracks@ =~= old(self).tracks@.update(
                    p as int,
                    with_state(old(self).tracks@[p as int], state, message),
                ));
                assert forall|i: int| 0 <= i < self.tracks@.len() implies self.tracks@[i].id
                    == old(self).tracks@[i].id by {}
            },
            None => {},
        }
    }

    /// Replaces a track's candidates; the pick goes back to the first.
    pub fn set_candidates(&mut self, id: u64, candidates: Vec<Scored>)
        requires
            old(self).wf(),
        ensures
            final(self).wf(),
            final(self).root_view() == old(self).root_view(),
            final(self).slot(id) == old(self).slot(id),
            final(self).tracks_view() == match old(self).slot(id) {
                Some(p) => old(self).tracks_view().update(
                    p,
                    Track { candidates, candidate_pick: 0, ..old(self).tracks_view()[p] },
                ),
                None => old(self).tracks_view(),
            },
    {
        match self.position(id) {
            Some(p) => {
                self.tracks[p].candidate_pick = 0;
                self.tracks[p].candidates = candidates;
                assert forall|i: int| 0 <= i < self.tracks@.len() implies self.tracks@[i].id
                    == old(self).tracks@[i].id by {}
            },
            None => {},
        }
    }

    /// Applies a match decision: the match, the short list (its first entry
    /// showing the match's source and score), the pick back to the first,
    /// the state the grade calls for, and no message.
    pub fn apply_match(&mut self, id: u64, result: MatchResult, shortlist: Vec<Scored>)
        requires
            old(self).wf(),
        ensures
            final(self).wf(),
            final(self).root_view() == old(self).root_view(),
            final(self).slot(id) == old(self).slot(id),
            final(self).tracks_view().len() == old(self).tracks_view().len(),
            match old(self).slot(id) {
                Some(p) => {
                    let t = final(self).tracks_view()[p];
                    &&& forall|i: int|
                        0 <= i < old(self).tracks_view().len() && i != p ==> final(self).tracks_view()[i]
                            == old(self).tracks_view()[i]
                    &&& same_file(t, old(self).tracks_view()[p])
                    &&& t.matched == Some(result)
                    &&& t.candidates@ == with_first(
                        shortlist@,
                        result.score,
                        result.candidate.provider,
                    )
                    &&& t.candidate_pick == 0
                    &&& t.state == grade_state(result.grade)
                    &&& t.message is None
                },
                None => final(self).tracks_view() == old(self).tracks_view(),
            },
    {
        let state = result.grade.state();
        let score = result.score;
        let provider = result.candidate.provider;
        match self.position(id) {
            Some(p) => {
                let mut list = shortlist;
                if list.len() > 0 {
                    list[0].score = score;
                    list[0].candidate.provider = provider;
                }
                self.tracks[p].matched = Some(result);
                self.tracks[p].candidates = list;
                self.tracks[p].candidate_pick = 0;
                self.tracks[p].state = state;
                self.tracks[p].message = None;
                assert forall|i: int| 0 <= i < self.tracks@.len() implies self.tracks@[i].id
                    == old(self).tracks@[i].id by {}
            },
            None => {},
        }
    }

    /// The user picked candidate `pick` of a track; a pick beyond the list
    /// leaves the previous choice.
    pub fn pick_candidate(&mut self, id: u64, pick: usize)
        requires
            old(self).wf(),
        ensures
            final(self).wf(),
            final(self).root_view() == old(self).root_view(),
            final(self).slot(id) == old(self).slot(id),
            final(self).tracks_view() == match old(self).slot(id) {
                Some(p) => {
                    let t = old(self).tracks_view()[p];
                    old(self).tracks_view().update(
                        p,
                        Track {
                            candidate_pick: if pick < t.candidates@.len() {
                                pick
                            } else {
                                t.candidate_pick
                            },
                            ..t
                        },
                    )
                },
                None => old(self).tracks_view(),
            },
    {
        match self.position(id) {
            Some(p) => {
                let current = self.tracks[p].candidate_pick;
                let count = self.tracks[p].candidates.len();
                self.tracks[p].candidate_pick = clamp_pick(current, pick, count);
                assert forall|i: int| 0 <= i < self.tracks@.len() implies self.tracks@[i].id
                    == old(self).tracks@[i].id by {}
            },
            None => {},
        }
    }

    /// A track was written: it is done, its message cleared, and it now
    /// holds the lyrics the write put where `target` says.
    pub fn mark_done(&mut self, id: u64, target: SaveTarget)
        requires
            old(self).wf(),
        ensures
            final(self).wf(),
            final(self).root_view() == old(self).root_view(),
            final(self).slot(id) == old(self).slot(id),
            final(self).tracks_view() == match old(self).slot(id) {
                Some(p) => {
                    let t = old(self).tracks_view()[p];
                    old(self).tracks_view().update(
                        p,
                        Track {
                            state: TrackState::Done,
                            message: None,
                            existing_lyrics: match target {
                                SaveTarget::Sidecar => LyricsPresence::Both,
                                SaveTarget::File => match t.existing_lyrics {
                                    LyricsPresence::SidecarLrc => LyricsPresence::Both,
                                    _ => LyricsPresence::EmbeddedTag,
                                },
                            },
                            ..t
                        },
                    )
                },
                None => old(self).tracks_view(),
            },
    {
        match self.position(id) {
            Some(p) => {
                let before = self.tracks[p].existing_lyrics;
                self.tracks[p].state = TrackState::Done;
                self.tracks[p].message = None;
                self.tracks[p].existing_lyrics = presence_after_write(target, before);
                assert forall|i: int| 0 <= i < self.tracks@.len() implies self.tracks@[i].id
                    == old(self).tracks@[i].id by {}
            },
            None => {},
        }
    }

    /// Replaces the library with a fresh scan of `root`. Songs already
    /// written keep that state: choosing the folder again must not wipe out
    /// finished work. Every other state comes from the scan.
    pub fn replace_from_scan(&mut self, root: &str, scanned: Vec<Track>)
        requires
            old(self).wf(),
        ensures
            final(self).wf(),
            final(self).root_view() == root@,
            final(self).tracks_view().len() == scanned@.len(),
            forall|i: int|
                0 <= i < scanned@.len() ==> #[trigger] final(self).tracks_view()[i] == rescanned(
                    scanned@[i],
                    was_done(old(self).tracks_view(), scanned@[i].id.0),
                ),
    {
        let ghost before = self.tracks@;
        let mut done: Vec<u64> = Vec::new();
        let mut i: usize = 0;
        while i < self.tracks.len()
            invariant
                i <= self.tracks@.len(),
                self.tracks@ == before,
                forall|id: u64| done@.contains(id) <==> was_done(before.take(i as int), id),
            decreases self.tracks@.len() - i,
        {
            let ghost d = done@;
            let ghost pre = before.take(i as int);
            let ghost post = before.take(i + 1);
            assert forall|id: u64| was_done(post, id) <==> was_done(pre, id) || (before[i as int].id.0
                == id && before[i as int].state == TrackState::Done) by {
                if was_done(post, id) {
                    let j = choose|j: int|
                        0 <= j < post.len() && (#[trigger] post[j]).id.0 == id && post[j].state
                            == TrackState::Done;
                    if j < i {
                        assert(pre[j] == post[j]);
                    }
                }
                if was_done(pre, id) {
                    let j = choose|j: int|
                        0 <= j < pre.len() && (#[trigger] pre[j]).id.0 == id && pre[j].state
                            == TrackState::Done;
                    assert(post[j] == pre[j]);
                }
                if before[i as int].id.0 == id && before[i as int].state == TrackState::Done {
                    assert(post[i as int] == before[i as int]);
                }
            }
            if self.tracks[i].state == TrackState::Done {
                done.push(self.tracks[i].id.0);
                assert forall|id: u64| done@.contains(id) <==> d.contains(id) || id
                    == self.tracks@[i as int].id.0 by {
                    if done@.contains(id) {
                        let k = choose|k: int| 0 <= k < done@.len() && done@[k] == id;
                        if k < d.len() {
                            assert(d[k] == id);
                        }
                    }
                    if d.contains(id) {
                        let k = choose|k: int| 0 <= k < d.len() && d[k] == id;
                        assert(done@[k] == id);
                    }
                    if id == self.tracks@[i as int].id.0 {
                        assert(done@[d.len() as int] == id);
                    }
                }
            }
            assert forall|id: u64| done@.contains(id) <==> was_done(post, id) by {
                assert(d.contains(id) <==> was_done(pre, id));
            }
            i = i + 1;
        }
        assert(before.take(before.len() as int) == before);
        let mut tracks = scanned;
        let ghost fresh = tracks@;
        let mut k: usize = 0;
        while k < tracks.len()
            invariant
                k <= tracks@.len() == fresh.len(),
                forall|id: u64| done@.contains(id) <==> was_done(before, id),
                forall|j: int|
                    0 <= j < tracks@.len() ==> #[trigger] tracks@[j] == (if j < k {
                        rescanned(fresh[j], was_done(before, fresh[j].id.0))
                    } else {
                        fresh[j]
                    }),
            decreases fresh.len() - k,
        {
            let id = tracks[k].id.0;
            let mut seen = false;
            let mut q: usize = 0;
            while q < done.len()
                invariant
                    q <= done@.len(),
                    seen == exists|r: int| 0 <= r < q && done@[r] == id,
                decreases done@.len() - q,
            {
                if done[q] == id {
                    seen = true;
                }
                q = q + 1;
            }
            assert(seen == done@.contains(id));
            let s = tracks[k].state;
            tracks[k].state = rescanned_state(s, seen);
            k = k + 1;
        }
        self.tracks = tracks;
        self.root = root.to_owned();
        self.reindex();
    }
    /// The library as saved: its root and every track but the lyrics.
    pub fn to_index(&self) -> (r: LibraryIndex)
        ensures
            r.version == INDEX_VERSION,
            r.root@ == self.root_view(),
            r.tracks@.len() == self.tracks_view().len(),
            forall|i: int| 0 <= i < r.tracks@.len() ==> entry_of(#[trigger] r.tracks@[i], self.tracks_view()[i]),
    {
        let mut idx = LibraryIndex::new(self.root.as_str());
        let mut i: usize = 0;
        while i < self.tracks.len()
            invariant
                i <= self.tracks@.len(),
                idx.version == INDEX_VERSION,
                idx.root@ == self.root@,
                idx.tracks@.len() == i,
                forall|j: int| 0 <= j < i ==> entry_of(#[trigger] idx.tracks@[j], self.tracks@[j]),
            decreases self.tracks@.len() - i,
        {
            let t = &self.tracks[i];
            let matched = match &t.matched {
                Some(m) => Some(MatchSummary::from_result(m)),
                None => None,
            };
            let e = TrackIndexEntry {
                path: t.path.clone(),
                format: t.format,
                duration_ms: t.duration_ms,
                file_size: t.file_size,
                meta: t.meta.duplicate(),
                meta_confidence: t.meta_confidence,
                existing_lyrics: t.existing_lyrics,
                state: t.state,
                message: copy_text(&t.message),
                matched,
            };
            idx.tracks.push(e);
            i = i + 1;
        }
        idx
    }

    /// Loads a saved index, replacing whatever the library held (loading
    /// twice must not list a song twice). `present[i]` says whether entry
    /// `i`'s file still exists; entries whose file is gone are dropped.
    /// `cached[i]` holds the lyrics the cache still has for entry `i`'s match.
    pub fn restore_from_index(
        &mut self,
        index: LibraryIndex,
        present: &[bool],
        cached: Vec<Option<Lyrics>>,
    ) -> (r: RestoreStats)
        ensures
            final(self).wf(),
            final(self).root_view() == index.root@,
            final(self).tracks_view().len() == kept_entries(index.tracks@.len() as int, present@).len(),
            forall|k: int|
                0 <= k < final(self).tracks_view().len() ==> restored_from(
                    #[trigger] final(self).tracks_view()[k],
                    index.tracks@[kept_entries(index.tracks@.len() as int, present@)[k]],
                    cached_at(cached@, kept_entries(index.tracks@.len() as int, present@)[k]),
                ),
            r.restored == outcome_count(
                index.tracks@,
                present@,
                cached@,
                index.tracks@.len() as int,
                RestoreOutcome::Restored,
            ),
            r.downgraded == outcome_count(
                index.tracks@,
                present@,
                cached@,
                index.tracks@.len() as int,
                RestoreOutcome::Downgraded,
            ),
            r.missing == outcome_count(
                index.tracks@,
                present@,
                cached@,
                index.tracks@.len() as int,
                RestoreOutcome::Missing,
            ),
    {
        let ghost es = index.tracks@;
        let ghost orig = cached@;
        let mut cached = cached;
        let mut stats = RestoreStats::new();
        let mut tracks: Vec<Track> = Vec::new();
        let mut i: usize = 0;
        while i < index.tracks.len()
            invariant
                i <= es.len(),
                es == index.tracks@,
                cached@.len() == orig.len(),
                forall|j: int| i <= j < orig.len() ==> #[trigger] cached@[j] == orig[j],
                stats.restored == outcome_count(es, present@, orig, i as int, RestoreOutcome::Restored),
                stats.downgraded == outcome_count(es, present@, orig, i as int, RestoreOutcome::Downgraded),
                stats.missing == outcome_count(es, present@, orig, i as int, RestoreOutcome::Missing),
                stats.restored + stats.downgraded + stats.missing <= i,
                tracks@.len() == kept_entries(i as int, present@).len(),
                forall|k: int|
                    0 <= k < tracks@.len() ==> restored_from(
                        #[trigger] tracks@[k],
                        es[kept_entries(i as int, present@)[k]],
                        cached_at(orig, kept_entries(i as int, present@)[k]),
                    ),
            decreases es.len() - i,
        {
            proof {
                lemma_outcome_count_sum(es, present@, orig, i as int);
            }
            let e = &index.tracks[i];
            let exists = i < present.len() && present[i];
            let lyrics: Option<Lyrics> = if i < cached.len() {
                cached[i].take()
            } else {
                None
            };
            assert(lyrics == cached_at(orig, i as int));
            let outcome = restore_outcome(exists, e.matched.is_some(), lyrics.is_some());
            stats.count(outcome);
            if outcome != RestoreOutcome::Missing {
                let (state, clear) = restored_state(e.state, outcome);
                let message = if clear {
                    None
                } else {
                    copy_text(&e.message)
                };
                let (matched, candidates) = match &e.matched {
                    None => (None, Vec::new()),
                    Some(s) => {
                        let mut cs: Vec<Scored> = Vec::new();
                        cs.push(Scored { candidate: s.candidate(), score: 0 });
                        let m = match lyrics {
                            Some(l) => {
                                let c = s.candidate();
                                let metadata = c.to_meta();
                                Some(
                                    MatchResult {
                                        candidate: c,
                                        lyrics: l,
                                        metadata,
                                        cover_url: copy_text(&s.cover_url),
                                        grade: s.grade,
                                        score: s.score,
                                    },
                                )
                            },
                            None => None,
                        };
                        (m, cs)
                    },
                };
                let t = Track {
                    id: TrackId::from_path(e.path.as_str()),
                    path: e.path.clone(),
                    format: e.format,
                    duration_ms: e.duration_ms,
                    file_size: e.file_size,
                    meta: e.meta.duplicate(),
                    meta_confidence: e.meta_confidence,
                    existing_lyrics: e.existing_lyrics,
                    state,
                    matched,
                    candidates,
                    candidate_pick: 0,
                    message,
                    sidecar_path: None,
                };
                assert(restored_from(t, es[i as int], cached_at(orig, i as int)));
                let ghost before = tracks@;
                tracks.push(t);
                assert forall|k: int|
                    0 <= k < tracks@.len() implies restored_from(
                        #[trigger] tracks@[k],
                        es[kept_entries(i + 1, present@)[k]],
                        cached_at(orig, kept_entries(i + 1, present@)[k]),
                    ) by {
                    if k < before.len() {
                        assert(kept_entries(i + 1, present@)[k] == kept_entries(i as int, present@)[k]);
                    }
                }
            }
            i = i + 1;
        }
        self.tracks = tracks;
        self.root = index.root;
        self.reindex();
        stats
    }

    /// Puts a fresh reading of a track's file in place, keeping what this run
    /// did with it (state, match, message). Nothing happens, and `false`
    /// comes back, for an unknown id, a failed reading, or a reading of
    /// another file.
    pub fn refresh_track(&mut self, id: u64, fresh: Option<Track>) -> (r: bool)
        requires
            old(self).wf(),
        ensures
            final(self).wf(),
            final(self).root_view() == old(self).root_view(),
            r == (old(self).slot(id) is Some && (fresh matches Some(f) && f.id.0 == id)),
            r ==> ({
                let p = old(self).slot(id)->0;
                let f = fresh->0;
                let t = old(self).tracks_view()[p];
                &&& final(self).tracks_view() == old(self).tracks_view().update(
                    p,
                    Track { state: t.state, matched: t.matched, message: t.message, ..f },
                )
            }),
            !r ==> final(self).tracks_view() == old(self).tracks_view(),
    {
        let p = match self.position(id) {
            Some(p) => p,
            None => {
                return false;
            },
        };
        let mut f = match fresh {
            Some(f) => f,
            None => {
                return false;
            },
        };
        if f.id.0 != id {
            return false;
        }
        let ghost t = self.tracks@[p as int];
        f.state = self.tracks[p].state;
        f.matched = self.tracks[p].matched.take();
        f.message = self.tracks[p].message.take();
        self.tracks[p] = f;
        assert(self.tracks@ =~= old(self).tracks@.update(
            p as int,
            Track { state: t.state, matched: t.matched, message: t.message, ..fresh->0 },
        ));
        assert forall|i: int| 0 <= i < self.tracks@.len() implies self.tracks@[i].id
            == old(self).tracks@[i].id by {}
        true
    }
}

/// `e` is track `t` as saved: everything but the lyrics, and the match as
/// its summary.
pub open spec fn entry_of(e: TrackIndexEntry, t: Track) -> bool {
    &&& e.path@ == t.path@
    &&& e.format == t.format
    &&& e.duration_ms == t.duration_ms
    &&& e.file_size == t.file_size
    &&& same_meta(e.meta, t.meta)
    &&& e.meta_confidence == t.meta_confidence
    &&& e.existing_lyrics == t.existing_lyrics
    &&& e.state == t.state
    &&& opt_seq(e.message) == opt_seq(t.message)
    &&& match (e.matched, t.matched) {
        (Some(s), Some(m)) => summarises(s, m),
        (None, None) => true,
        _ => false,
    }
}

/// Whether entry `i`'s file still exists; an entry without an answer counts
/// as gone.
pub open spec fn present_at(present: Seq<bool>, i: int) -> bool {
    0 <= i < present.len() && present[i]
}

/// The cached lyrics found for entry `i`'s match.
pub open spec fn cached_at(cached: Seq<Option<Lyrics>>, i: int) -> Option<Lyrics> {
    if 0 <= i < cached.len() {
        cached[i]
    } else {
        None
    }
}

/// The positions, among the first `n` entries, of those whose file exists.
pub open spec fn kept_entries(n: int, present: Seq<bool>) -> Seq<int>
    decreases n,
{
    if n <= 0 {
        Seq::empty()
    } else if present_at(present, n - 1) {
        kept_entries(n - 1, present).push(n - 1)
    } else {
        kept_entries(n - 1, present)
    }
}

/// How many of the first `n` entries meet `outcome` on restore.
pub open spec fn outcome_count(
    es: Seq<TrackIndexEntry>,
    present: Seq<bool>,
    cached: Seq<Option<Lyrics>>,
    n: int,
    outcome: RestoreOutcome,
) -> nat
    decreases n,
{
    if n <= 0 {
        0
    } else {
        outcome_count(es, present, cached, n - 1, outcome) + if restore_outcome_spec(
            present_at(present, n - 1),
            es[n - 1].matched is Some,
            cached_at(cached, n - 1) is Some,
        ) == outcome {
            1nat
        } else {
            0nat
        }
    }
}

/// `t` is saved entry `e` brought back, `cached` being the lyrics the cache
/// still has for its match. The id comes from the path. A match whose lyrics
/// are gone is dropped and the song starts over as unprocessed; a song
/// without a saved match is unprocessed too.
pub open spec fn restored_from(t: Track, e: TrackIndexEntry, cached: Option<Lyrics>) -> bool {
    let outcome = restore_outcome_spec(true, e.matched is Some, cached is Some);
    &&& t.id.0 == track_id_spec(e.path@)
    &&& t.path@ == e.path@
    &&& t.format == e.format
    &&& t.duration_ms == e.duration_ms
    &&& t.file_size == e.file_size
    &&& same_meta(t.meta, e.meta)
    &&& t.meta_confidence == e.meta_confidence
    &&& t.existing_lyrics == e.existing_lyrics
    &&& t.state == (if outcome == RestoreOutcome::Restored {
        e.state
    } else {
        TrackState::Idle
    })
    &&& (if outcome == RestoreOutcome::Downgraded {
        t.message is None
    } else {
        opt_seq(t.message) == opt_seq(e.message)
    })
    &&& t.candidate_pick == 0
    &&& t.sidecar_path is None
    &&& match e.matched {
        None => t.candidates@.len() == 0 && t.matched is None,
        Some(s) => {
            &&& t.candidates@.len() == 1
            &&& summary_candidate(t.candidates@[0].candidate, s)
            &&& t.candidates@[0].score == 0
            &&& match cached {
                Some(l) => t.matched matches Some(m) && summary_candidate(m.candidate, s)
                    && m.lyrics == l && meta_of_candidate(m.metadata, m.candidate) && opt_seq(
                    m.cover_url,
                ) == opt_seq(s.cover_url) && m.grade == s.grade && m.score == s.score,
                None => t.matched is None,
            }
        },
    }
}

/// A freshly scanned track, kept written when it was.
pub open spec fn rescanned(t: Track, was_written: bool) -> Track {
    Track {
        state: if was_written {
            TrackState::Done
        } else {
            t.state
        },
        ..t
    }

}

/// Some track of `ts` with id `id` was written.
pub open spec fn was_done(ts: Seq<Track>, id: u64) -> bool {
    exists|j: int| 0 <= j < ts.len() && (#[trigger] ts[j]).id.0 == id && ts[j].state == TrackState::Done
}

proof fn lemma_outcome_count_sum(
    es: Seq<TrackIndexEntry>,
    present: Seq<bool>,
    cached: Seq<Option<Lyrics>>,
    n: int,
)
    requires
        0 <= n <= es.len(),
    ensures
        outcome_count(es, present, cached, n, RestoreOutcome::Restored) + outcome_count(
            es,
            present,
            cached,
            n,
            RestoreOutcome::Downgraded,
        ) + outcome_count(es, present, cached, n, RestoreOutcome::Missing) <= n,
    decreases n,
{
    if n > 0 {
        lemma_outcome_count_sum(es, present, cached, n - 1);
    }
}

/// Saving a track and loading it back, with its file still there and its
/// match's lyrics still cached, gives back the track: its file data,
/// metadata, message and match (all but the source's access key, which is
/// not saved). A track without a match comes back unprocessed; one with a
/// match keeps its state.
pub proof fn lemma_index_round_trip(
    t: Track,
    e: TrackIndexEntry,
    cached: Option<Lyrics>,
    back: Track,
)
    requires
        entry_of(e, t),
        t.matched matches Some(m) ==> cached == Some(m.lyrics),
        restored_from(back, e, cached),
    ensures
        back.path@ == t.path@,
        back.id.0 == track_id_spec(t.path@),
        back.format == t.format,
        back.duration_ms == t.duration_ms,
        back.file_size == t.file_size,
        same_meta(back.meta, t.meta),
        back.meta_confidence == t.meta_confidence,
        back.existing_lyrics == t.existing_lyrics,
        opt_seq(back.message) == opt_seq(t.message),
        back.state == (if t.matched is Some {
            t.state
        } else {
            TrackState::Idle
        }),
        match t.matched {
            Some(m) => back.matched matches Some(b) && b.lyrics == m.lyrics && b.grade == m.grade
                && b.score == m.score && b.candidate.provider == m.candidate.provider
                && b.candidate.song_id@ == m.candidate.song_id@ && b.candidate.title@
                == m.candidate.title@ && b.candidate.artists.deep_view()
                == m.candidate.artists.deep_view() && opt_seq(b.candidate.album) == opt_seq(
                m.candidate.album,
            ) && b.candidate.year == m.candidate.year && b.candidate.track_no
                == m.candidate.track_no && b.candidate.duration_ms == m.candidate.duration_ms
                && opt_seq(b.cover_url) == opt_seq(m.cover_url),
            None => back.matched is None,
        },
{
}

} // verus!
