//! Manual search arguments.

use vstd::prelude::*;
use crate::domain::candidate::{
    copy_text, lemma_provider_keys_distinct, meta_of_candidate, opt_seq, provider_key_spec,
    same_candidate, Candidate, Grade, ProviderId, Scored,
};
use crate::cmd::dto::{preview, preview_of, CandidateDto, PreviewDto};
use crate::domain::lyrics::{has_text_line, Lyrics};
use crate::domain::plan::MatchResult;
use crate::domain::track::{split_artists, split_artists_spec, TrackState};
use crate::infra::config::Settings;
use crate::pipeline::store::{same_file, with_first, with_state, TrackStore};
use crate::text::{append_vec, chars_of, push_str_vec, string_of, str_eq};

verus! {

/// Arguments of a manual search.
#[derive(Clone, Debug)]
pub struct SearchArgs {
    pub track_id: u64,
    pub keyword: Option<String>,
}

/// What reading a key gives: the source with that key, or, for a key no
/// source has, a refusal naming the key.
pub open spec fn provider_parse_spec(key: Seq<char>, r: Result<ProviderId, String>) -> bool {
    match r {
        Ok(p) => provider_key_spec(p) == key,
        Err(m) => m@ == "未知的歌词来源："@ + key && forall|p: ProviderId|
            provider_key_spec(p) != key,
    }
}

/// The source a front-end key names; unknown keys are refused with a message.
pub fn parse_provider(key: &str) -> (r: Result<ProviderId, String>)
    ensures
        provider_parse_spec(key@, r),
{
    if str_eq(key, "netease") {
        Ok(ProviderId::NetEase)
    } else if str_eq(key, "qq") {
        Ok(ProviderId::QQ)
    } else if str_eq(key, "kugou") {
        Ok(ProviderId::KuGou)
    } else if str_eq(key, "kuwo") {
        Ok(ProviderId::KuWo)
    } else {
        let mut m: Vec<char> = Vec::new();
        push_str_vec(&mut m, "未知的歌词来源：");
        push_str_vec(&mut m, key);
        proof {
            assert forall|p: ProviderId| provider_key_spec(p) != key@ by {
                match p {
                    ProviderId::NetEase => {},
                    ProviderId::QQ => {},
                    ProviderId::KuGou => {},
                    ProviderId::KuWo => {},
                }
            }
        }
        Err(string_of(&m))
    }
}

/// A source's key reads back as that source.
pub proof fn lemma_provider_key_round_trip(p: ProviderId, r: Result<ProviderId, String>)
    requires
        provider_parse_spec(provider_key_spec(p), r),
    ensures
        r == Ok::<ProviderId, String>(p),
{
    match r {
        Ok(q) => lemma_provider_keys_distinct(p, q),
        Err(_) => {},
    }
}

/// The most candidates a manual search returns: more than the automatic
/// short list, since the user came looking.
pub const MANUAL_LIMIT: usize = 20;

/// `c` is candidate `d` from the front end read back.
pub open spec fn candidate_from(c: Scored, d: CandidateDto) -> bool {
    &&& provider_key_spec(c.candidate.provider) == d.provider@
    &&& c.candidate.song_id == d.song_id
    &&& c.candidate.access_key == d.access_key
    &&& c.candidate.title == d.title
    &&& c.candidate.artists.deep_view() == if d.artist@.len() == 0 {
        Seq::empty()
    } else {
        split_artists_spec(d.artist@)
    }
    &&& c.candidate.album == if d.album@.len() == 0 {
        None
    } else {
        Some(d.album)
    }
    &&& c.candidate.year == d.year
    &&& c.candidate.track_no == d.track_no
    &&& c.candidate.duration_ms == if d.duration > 0 {
        Some((d.duration * 1000) as u64)
    } else {
        None
    }
    &&& c.candidate.cover_url == d.cover_url
    &&& c.score == d.score
}

/// A candidate coming back from the front end. The access key comes along:
/// KuGou cannot fetch lyrics without it.
pub fn into_candidate(dto: CandidateDto) -> (r: Result<Scored, String>)
    requires
        dto.duration * 1000 <= u64::MAX,
    ensures
        match r {
            Ok(c) => candidate_from(c, dto),
            Err(m) => provider_parse_spec(dto.provider@, Err(m)),
        },
{
    let provider = match parse_provider(dto.provider.as_str()) {
        Ok(p) => p,
        Err(m) => {
            return Err(m);
        },
    };
    let artists = if dto.artist.as_str().is_empty() {
        let v: Vec<String> = Vec::new();
        assert(v.deep_view() =~= Seq::<Seq<char>>::empty());
        v
    } else {
        split_artists(dto.artist.as_str())
    };
    let album = if dto.album.as_str().is_empty() {
        None
    } else {
        Some(dto.album)
    };
    let duration_ms = if dto.duration > 0 {
        Some(dto.duration * 1000)
    } else {
        None
    };
    Ok(
        Scored {
            candidate: Candidate {
                provider,
                song_id: dto.song_id,
                access_key: dto.access_key,
                title: dto.title,
                artists,
                album,
                year: dto.year,
                track_no: dto.track_no,
                duration_ms,
                cover_url: dto.cover_url,
            },
            score: dto.score,
        },
    )
}

/// The preview of a candidate's fetched lyrics; nothing changes until the
/// user confirms. A source with no lines to write is refused.
pub fn preview_lyrics(lyrics: &Lyrics, settings: &Settings) -> (r: Result<PreviewDto, String>)
    ensures
        (!lyrics.is_instrumental && has_text_line(lyrics.lines.deep_view())) ==> (r matches Ok(p)
            && preview_of(p, *lyrics, *settings)),
        !(!lyrics.is_instrumental && has_text_line(lyrics.lines.deep_view())) ==> (r matches Err(m)
            && m@ == "这个来源没有可用的歌词"@),
{
    if !lyrics.has_content() {
        return Err("这个来源没有可用的歌词".to_owned());
    }
    Ok(preview(lyrics, settings))
}

pub open spec fn same_scored(a: Scored, b: Scored) -> bool {
    same_candidate(a.candidate, b.candidate) && a.score == b.score
}

/// The entries of `s` other than song `id` of source `p`.
pub open spec fn other_songs(s: Seq<Scored>, p: ProviderId, id: Seq<char>) -> Seq<Scored>
    decreases s.len(),
{
    if s.len() == 0 {
        s
    } else {
        let r = other_songs(s.drop_last(), p, id);
        let x = s.last();
        if x.candidate.provider == p && x.candidate.song_id@ == id {
            r
        } else {
            r.push(x)
        }
    }
}

fn copy_others(s: &Vec<Scored>, p: ProviderId, id: &str) -> (r: Vec<Scored>)
    ensures
        r@.len() == other_songs(s@, p, id@).len(),
        forall|i: int| 0 <= i < r@.len() ==> same_scored(#[trigger] r@[i], other_songs(s@, p, id@)[i]),
{
    let mut out: Vec<Scored> = Vec::new();
    let mut i: usize = 0;
    while i < s.len()
        invariant
            i <= s@.len(),
            out@.len() == other_songs(s@.take(i as int), p, id@).len(),
            forall|k: int|
                0 <= k < out@.len() ==> same_scored(
                    #[trigger] out@[k],
                    other_songs(s@.take(i as int), p, id@)[k],
                ),
        decreases s@.len() - i,
    {
        assert(s@.take(i + 1).drop_last() == s@.take(i as int));
        assert(s@.take(i + 1).last() == s@[i as int]);
        let c = &s[i];
        if !(c.candidate.provider == p && str_eq(c.candidate.song_id.as_str(), id)) {
            out.push(Scored { candidate: c.candidate.duplicate(), score: c.score });
        }
        i = i + 1;
    }
    assert(s@.take(s@.len() as int) == s@);
    out
}

/// The score a picked candidate keeps: its own, or full marks when it has
/// none (a song found by hand).
pub open spec fn picked_score(s: u32) -> u32 {
    if s > 0 {
        s
    } else {
        1000
    }
}

/// "Use this one": applies the candidate the user picked, with the lyrics
/// fetched for it. The user decided, so no threshold applies: the match is
/// taken as it is. Instrumental lyrics mark the song as skipped instead;
/// lyrics with no lines are refused. The pick heads the candidate list,
/// without a second copy of it.
pub fn pick_candidate(store: &mut TrackStore, track_id: u64, picked: Scored, lyrics: Lyrics) -> (r:
    Result<(), String>)
    requires
        old(store).wf(),
    ensures
        final(store).wf(),
        final(store).root_view() == old(store).root_view(),
        final(store).tracks_view().len() == old(store).tracks_view().len(),
        r matches Err(m) ==> m@ == "这首歌已不在曲库中"@ || m@ == "这个来源没有可用的歌词"@,
        lyrics.is_instrumental ==> {
            &&& (r is Ok <==> old(store).slot(track_id) is Some)
            &&& final(store).tracks_view() == match old(store).slot(track_id) {
                Some(p) => old(store).tracks_view().update(
                    p,
                    with_state(
                        old(store).tracks_view()[p],
                        TrackState::Skip,
                        final(store).tracks_view()[p].message,
                    ),
                ),
                None => old(store).tracks_view(),
            }
            &&& old(store).slot(track_id) matches Some(p) ==> final(store).tracks_view()[p].message
                matches Some(m) && m@ == "纯音乐，无需歌词"@
        },
        (!lyrics.is_instrumental && !has_text_line(lyrics.lines.deep_view())) ==> {
            &&& r matches Err(m) && m@ == "这个来源没有可用的歌词"@
            &&& final(store).tracks_view() == old(store).tracks_view()
        },
        (!lyrics.is_instrumental && has_text_line(lyrics.lines.deep_view())) ==> {
            &&& (r is Ok <==> old(store).slot(track_id) is Some)
            &&& match old(store).slot(track_id) {
                Some(p) => {
                    let t = final(store).tracks_view()[p];
                    let before = old(store).tracks_view()[p];
                    let others = other_songs(
                        before.candidates@,
                        picked.candidate.provider,
                        picked.candidate.song_id@,
                    );
                    &&& forall|i: int|
                        0 <= i < old(store).tracks_view().len() && i != p ==> final(store).tracks_view()[i]
                            == old(store).tracks_view()[i]
                    &&& same_file(t, before)
                    &&& t.matched matches Some(m) && m.candidate == picked.candidate && m.lyrics
                        == lyrics && meta_of_candidate(m.metadata, picked.candidate) && opt_seq(
                        m.cover_url,
                    ) == opt_seq(picked.candidate.cover_url) && m.grade == Grade::Auto
                        && m.score == picked_score(picked.score)
                    &&& t.candidates@.len() == others.len() + 1
                    &&& same_candidate(t.candidates@[0].candidate, picked.candidate)
                    &&& t.candidates@[0].score == picked_score(picked.score)
                    &&& forall|i: int|
                        0 <= i < others.len() ==> same_scored(#[trigger] t.candidates@[i + 1], others[i])
                    &&& t.candidate_pick == 0
                    &&& t.state == TrackState::Matched
                    &&& t.message is None
                },
                None => final(store).tracks_view() == old(store).tracks_view(),
            }
        },
{
    proof {
        store.lemma_slot(track_id);
    }
    if lyrics.is_instrumental {
        store.set_state(track_id, TrackState::Skip, Some("纯音乐，无需歌词".to_owned()));
        proof {
            store.lemma_slot(track_id);
        }
        return match store.get(track_id) {
            Some(_) => Ok(()),
            None => Err("这首歌已不在曲库中".to_owned()),
        };
    }
    if !lyrics.has_content() {
        return Err("这个来源没有可用的歌词".to_owned());
    }
    let score = if picked.score > 0 {
        picked.score
    } else {
        1000
    };
    let ghost pc = picked.candidate;
    let others = match store.get(track_id) {
        Some(t) => copy_others(&t.candidates, picked.candidate.provider, picked.candidate.song_id.as_str()),
        None => Vec::new(),
    };
    let mut list: Vec<Scored> = Vec::new();
    let first = Scored { candidate: picked.candidate.duplicate(), score: picked.score };
    let ghost head = first;
    list.push(first);
    let ghost rest = others@;
    let mut more = others;
    list.append(&mut more);
    assert(list@ == seq![head] + rest);
    let metadata = picked.candidate.to_meta();
    let cover_url = copy_text(&picked.candidate.cover_url);
    let result = MatchResult {
        candidate: picked.candidate,
        lyrics,
        metadata,
        cover_url,
        grade: Grade::Auto,
        score,
    };
    let ghost mid_list = list@;
    let ghost before_store = store.tracks_view();
    store.apply_match(track_id, result, list);
    proof {
        store.lemma_slot(track_id);
        if let Some(p) = store.slot(track_id) {
            let t = store.tracks_view()[p];
            let w = with_first(mid_list, score, pc.provider);
            assert(t.candidates@ == w);
            assert(same_candidate(w[0].candidate, pc));
            assert forall|i: int| 0 <= i < rest.len() implies #[trigger] w[i + 1] == rest[i] by {
                assert(mid_list[i + 1] == rest[i]);
            }
        }
    }
    store.pick_candidate(track_id, 0);
    match store.get(track_id) {
        Some(_) => Ok(()),
        None => Err("这首歌已不在曲库中".to_owned()),
    }
}

/// Moves a track's selection to candidate `pick`; refused for a song no
/// longer in the library.
pub fn set_candidate_pick(store: &mut TrackStore, track_id: u64, pick: usize) -> (r: Result<(), String>)
    requires
        old(store).wf(),
    ensures
        final(store).wf(),
        final(store).tracks_view() == match old(store).slot(track_id) {
            Some(p) => {
                let t = old(store).tracks_view()[p];
                old(store).tracks_view().update(
                    p,
                    crate::domain::track::Track {
                        candidate_pick: if pick < t.candidates@.len() {
                            pick
                        } else {
                            t.candidate_pick
                        },
                        ..t
                    },
                )
            },
            None => old(store).tracks_view(),
        },
        r is Ok <==> old(store).slot(track_id) is Some,
        r matches Err(m) ==> m@ == "这首歌已不在曲库中"@,
{
    store.pick_candidate(track_id, pick);
    match store.get(track_id) {
        Some(_) => Ok(()),
        None => Err("这首歌已不在曲库中".to_owned()),
    }
}

} // verus!
