use lyrictag::cmd::dto::{detail, row, stats, CandidateDto};
use lyrictag::cmd::search::{into_candidate, parse_provider, pick_candidate, preview_lyrics, set_candidate_pick};
use lyrictag::pipeline::store::TrackStore;
use lyrictag::domain::candidate::{Candidate, Grade, ProviderId, Scored};
use lyrictag::domain::lyrics::{LyricLine, Lyrics};
use lyrictag::domain::plan::MatchResult;
use lyrictag::domain::track::{
    AudioFormat, LyricsPresence, MetaSource, Track, TrackId, TrackMeta, TrackState,
};
use lyrictag::infra::config::Settings;

#[test]
fn provider_keys_round_trip() {
    for (key, id) in [
        ("netease", ProviderId::NetEase),
        ("qq", ProviderId::QQ),
        ("kugou", ProviderId::KuGou),
        ("kuwo", ProviderId::KuWo),
    ] {
        assert_eq!(parse_provider(key).unwrap(), id);
        assert_eq!(id.as_str(), key);
    }
    assert!(parse_provider("spotify").is_err());
}

#[test]
fn unknown_provider_error_names_the_key() {
    assert_eq!(parse_provider("spotify").unwrap_err(), "未知的歌词来源：spotify");
}

fn sample_candidate() -> Candidate {
    Candidate {
        provider: ProviderId::NetEase,
        song_id: "1".into(),
        access_key: None,
        title: "夜曲".into(),
        artists: vec!["周杰伦".into()],
        album: Some("十一月的萧邦".into()),
        year: Some(2005),
        track_no: Some(3),
        duration_ms: Some(227_000),
        cover_url: None,
    }
}

fn track(state: TrackState) -> Track {
    let mut lyrics = Lyrics::new(ProviderId::NetEase, "1");
    lyrics.lines = vec![LyricLine::new(1000, "一群嗜血的蚂蚁")];
    Track {
        id: TrackId(7),
        path: "D:/M/夜曲.flac".into(),
        format: AudioFormat::Flac,
        duration_ms: Some(227_000),
        file_size: 3_100_000,
        meta: TrackMeta {
            title: Some("夜曲".into()),
            artist: Some("周杰伦".into()),
            album: Some("十一月的萧邦".into()),
            year: Some(2005),
            // A tagged file: the metadata source label follows from it.
            source: MetaSource::TagLib,
            ..Default::default()
        },
        meta_confidence: 95,
        existing_lyrics: LyricsPresence::Absent,
        state,
        matched: Some(MatchResult {
            candidate: sample_candidate(),
            lyrics,
            metadata: TrackMeta::default(),
            cover_url: None,
            grade: Grade::Auto,
            score: 960,
        }),
        candidates: vec![Scored { candidate: sample_candidate(), score: 960 }],
        candidate_pick: 0,
        message: None,
        sidecar_path: None,
    }
}

#[test]
fn row_carries_match_column_data() {
    let r = row(&track(TrackState::Matched));
    assert_eq!(r.state, "matched");
    assert_eq!(r.state_label, "已匹配");
    assert_eq!(r.duration, 227, "durations reach the front end in seconds");
    assert_eq!(r.format, "FLAC");
    let m = r.matched.expect("a match to show");
    assert_eq!(m.provider, "netease");
    assert_eq!(m.provider_name, "网易云");
    assert_eq!(m.score, 960);
    assert!(!r.mismatch);
}

#[test]
fn detail_exposes_candidates_and_preview() {
    let d = detail(&track(TrackState::Matched), &Settings::default(), true);
    assert_eq!(d.candidates.len(), 1);
    assert_eq!(d.candidates[0].provider_name, "网易云");
    assert_eq!(d.file_name, "夜曲.flac");
    assert_eq!(d.lyrics_label, "尚未保存");
    assert_eq!(d.meta_source, "歌曲自带信息");
    assert_eq!(d.provider.as_deref(), Some("netease"));
    let p = d.preview.expect("a preview");
    assert_eq!(p.text, "[00:01.00]一群嗜血的蚂蚁\n");
    assert_eq!(p.lines, 1);
    assert_eq!(p.bytes, p.text.len());
    assert!(!d.needs_review);
}

#[test]
fn stats_split_todo_from_problem() {
    let tracks = vec![
        track(TrackState::Matched),
        track(TrackState::Confirm),
        track(TrackState::Done),
        track(TrackState::Failed),
        track(TrackState::Skip),
    ];
    let s = stats(&tracks);
    assert_eq!(s.all, 5);
    assert_eq!(s.todo, 2);
    assert_eq!(s.problem, 1);
    assert_eq!(s.completed, 1);
}

#[test]
fn row_carries_existing_lyrics_presence() {
    for presence in [
        LyricsPresence::Absent,
        LyricsPresence::SidecarLrc,
        LyricsPresence::EmbeddedTag,
        LyricsPresence::Both,
    ] {
        let mut t = track(TrackState::Matched);
        t.existing_lyrics = presence;
        assert_eq!(row(&t).existing_lyrics, presence);
    }
}

#[test]
fn failed_and_skipped_tracks_expose_no_match() {
    for state in [TrackState::Failed, TrackState::Skip] {
        let t = track(state);
        assert!(row(&t).matched.is_none(), "{state:?}");
        let d = detail(&t, &Settings::default(), true);
        assert!(d.preview.is_none(), "{state:?}");
        // The candidates stay: the user needs to see what was found.
        assert_eq!(d.candidates.len(), 1, "{state:?}");
    }
}

#[test]
fn the_picked_candidate_drives_the_match_column() {
    let mut t = track(TrackState::Confirm);
    let mut other = sample_candidate();
    other.song_id = "2".into();
    other.title = "七里香".into();
    other.provider = ProviderId::QQ;
    t.candidates.push(Scored { candidate: other, score: 700 });
    t.candidate_pick = 5;
    let m = row(&t).matched.unwrap();
    assert_eq!(m.title, "七里香");
    assert_eq!(m.score, 700);
    assert!(row(&t).mismatch);
    let d = detail(&t, &Settings::default(), false);
    assert_eq!(d.provider.as_deref(), Some("qq"));
    assert!(d.capabilities.no_track_no && !d.capabilities.no_year);
}

#[test]
fn dto_converts_back_to_domain() {
    let d = CandidateDto {
        provider: "kugou".into(),
        provider_name: "酷狗".into(),
        song_id: "abc".into(),
        access_key: Some("KEY".into()),
        title: "晴天".into(),
        artist: "周杰伦".into(),
        album: "叶惠美".into(),
        year: Some(2003),
        track_no: None,
        duration: 269,
        score: 800,
        cover_url: None,
    };
    let c = into_candidate(d).unwrap();
    assert_eq!(c.candidate.provider, ProviderId::KuGou);
    // The access key must reach the lyric step: KuGou cannot fetch without it.
    assert_eq!(c.candidate.access_key.as_deref(), Some("KEY"));
    assert_eq!(c.candidate.artists, vec!["周杰伦"]);
    assert_eq!(c.candidate.duration_ms, Some(269_000));
    assert_eq!(c.score, 800);
}

#[test]
fn empty_artist_becomes_empty_list_not_a_blank_entry() {
    let d = CandidateDto {
        provider: "qq".into(),
        provider_name: "QQ音乐".into(),
        song_id: "1".into(),
        access_key: None,
        title: "x".into(),
        artist: String::new(),
        album: String::new(),
        year: None,
        track_no: None,
        duration: 0,
        score: 0,
        cover_url: None,
    };
    let c = into_candidate(d).unwrap();
    assert!(c.candidate.artists.is_empty());
    assert_eq!(c.candidate.album, None);
    assert_eq!(c.candidate.duration_ms, None);
}

#[test]
fn unknown_source_in_a_candidate_is_refused() {
    let d = CandidateDto {
        provider: "spotify".into(),
        provider_name: String::new(),
        song_id: "1".into(),
        access_key: None,
        title: "x".into(),
        artist: String::new(),
        album: String::new(),
        year: None,
        track_no: None,
        duration: 0,
        score: 0,
        cover_url: None,
    };
    assert_eq!(into_candidate(d).unwrap_err(), "未知的歌词来源：spotify");
}

fn library_with(t: Track) -> TrackStore {
    let mut s = TrackStore::new();
    s.replace_from_scan("D:/M", vec![t]);
    s
}

#[test]
fn picking_a_candidate_takes_it_as_the_match() {
    let mut t = track(TrackState::Confirm);
    let mut other = sample_candidate();
    other.song_id = "2".into();
    t.candidates.push(Scored { candidate: other, score: 500 });
    let mut store = library_with(t);
    let mut chosen = sample_candidate();
    chosen.song_id = "2".into();
    let mut lyrics = Lyrics::new(ProviderId::NetEase, "2");
    lyrics.lines = vec![LyricLine::new(0, "词")];
    assert!(pick_candidate(&mut store, 7, Scored { candidate: chosen, score: 0 }, lyrics).is_ok());
    let t = store.get(7).unwrap();
    assert_eq!(t.state, TrackState::Matched);
    assert_eq!(t.candidates.len(), 2, "the pick heads the list once");
    assert_eq!(t.candidates[0].candidate.song_id, "2");
    assert_eq!(t.candidates[0].score, 1000);
    assert_eq!(t.candidates[1].candidate.song_id, "1");
    assert_eq!(t.matched.as_ref().unwrap().grade, Grade::Auto);
}

#[test]
fn picking_instrumental_lyrics_skips_the_song() {
    let mut store = library_with(track(TrackState::Failed));
    let mut lyrics = Lyrics::new(ProviderId::QQ, "1");
    lyrics.is_instrumental = true;
    assert!(pick_candidate(&mut store, 7, Scored { candidate: sample_candidate(), score: 900 }, lyrics).is_ok());
    let t = store.get(7).unwrap();
    assert_eq!(t.state, TrackState::Skip);
    assert_eq!(t.message.as_deref(), Some("纯音乐，无需歌词"));
    let empty = Lyrics::new(ProviderId::QQ, "1");
    assert_eq!(
        pick_candidate(&mut store, 7, Scored { candidate: sample_candidate(), score: 900 }, empty).unwrap_err(),
        "这个来源没有可用的歌词"
    );
    assert_eq!(
        set_candidate_pick(&mut store, 8, 0).unwrap_err(),
        "这首歌已不在曲库中"
    );
    assert!(preview_lyrics(&Lyrics::new(ProviderId::QQ, "1"), &Settings::default()).is_err());
}
