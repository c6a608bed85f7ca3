use lyrictag::domain::candidate::{Grade, ProviderId, Scored};
use lyrictag::domain::plan::{MatchResult, MatchSummary};
use lyrictag::domain::track::{AudioFormat, Track, TrackId};
use lyrictag::pipeline::library::{
    cache_file_name, eviction_order, Eviction, LibraryIndex, TrackIndexEntry, CACHE_MAX_BYTES,
};
use lyrictag::pipeline::store::TrackStore;
use lyrictag::pipeline::orchestrator::{sources_verdict, source_down_notice, write_start_log, write_summary};
use lyrictag::infra::events::ProgressEvent;
use lyrictag::pipeline::orchestrator::{collect_targets, cover_to_fetch, finish_match, track_updated, write_targets};
use lyrictag::domain::score::decide;
use lyrictag::pipeline::writer::needs_review;
use lyrictag::domain::lyrics::{LyricLine, Lyrics};
use lyrictag::domain::normalize::normalize;
use lyrictag::domain::plan::{WriteAction, WriteOutcome, WritePlanItem, WrittenTarget};
use lyrictag::domain::track::{LyricsPresence, MetaSource, TrackMeta, TrackState};
use lyrictag::infra::config::{SaveTarget, Settings};
use lyrictag::infra::error::AppError;
use lyrictag::infra::events::Phase;
use lyrictag::pipeline::downloader::capability_hint;
use lyrictag::pipeline::metadata::{extract, fill_gaps, is_generic_dir, Extracted, LOW_CONFIDENCE};
use lyrictag::pipeline::orchestrator::{
    count_states, fetch_verdict, final_phase, judged_solid_state, presence_after_write,
    probe_offsets, skip_message, state_key, write_concurrency, MatchReport, OneOutcome, Throttle,
    WriteReport, WriteResult, WriteStep, PROBE_SEED,
};
use lyrictag::infra::http::retry_after;
use lyrictag::pipeline::matcher::{manual_query, shortlist, shortlist_indices, source_rank, SourceTally};
use lyrictag::pipeline::store::{
    clamp_pick, rescanned_state, restore_outcome, restored_state, RestoreOutcome, RestoreStats,
};
use lyrictag::pipeline::writer::{
    build_payload, decide_action, plan, plan_fits, render_lyrics, MatchedLyrics, WriteSubject,
};

// ── metadata ────────────────────────────────────────────────────────────

fn conf(e: &Extracted) -> f32 {
    e.confidence as f32 / 100.0
}

fn tags(title: Option<&str>, artist: Option<&str>, album: Option<&str>) -> TrackMeta {
    let mut m = TrackMeta::default();
    m.title = title.map(|s| s.to_string());
    m.artist = artist.map(|s| s.to_string());
    m.album = album.map(|s| s.to_string());
    m
}

fn dirs(parts: &[&str]) -> Option<Vec<String>> {
    Some(parts.iter().map(|s| s.to_string()).collect())
}

#[test]
fn l1_full_tags_win() {
    let tagged = tags(Some("晴天"), Some("周杰伦"), Some("叶惠美"));
    let e = extract("whatever-name", &None, &tagged);
    assert_eq!(e.meta.title.as_deref(), Some("晴天"));
    assert_eq!(e.meta.artist.as_deref(), Some("周杰伦"));
    assert_eq!(conf(&e), 0.95);
}

#[test]
fn l1_title_only_scores_070_and_fills_artist_from_filename() {
    let tagged = tags(Some("晴天"), None, None);
    let e = extract("周杰伦 - 晴天", &None, &tagged);
    assert_eq!(conf(&e), 0.7);
    assert_eq!(e.meta.title.as_deref(), Some("晴天"));
    assert_eq!(e.meta.artist.as_deref(), Some("周杰伦"));
}

#[test]
fn test_library_file_ying() {
    let e = extract("10. 贏-I always win", &None, &TrackMeta::default());
    assert_eq!(e.meta.track_no, Some(10));
    assert_eq!(e.meta.title.as_deref(), Some("贏-I always win"));
    assert!((0.7..=0.85).contains(&conf(&e)), "{}", conf(&e));
    assert_eq!(normalize(e.meta.title.as_deref().unwrap()), "赢-i always win");
}

#[test]
fn test_library_file_xingmeng() {
    let e = extract("12. 星夢-XingMeng", &None, &TrackMeta::default());
    assert_eq!(e.meta.track_no, Some(12));
    assert_eq!(e.meta.title.as_deref(), Some("星夢-XingMeng"));
    assert_eq!(normalize(e.meta.title.as_deref().unwrap()), "星梦-xingmeng");
}

#[test]
fn l2_pair_with_spaced_dash() {
    let e = extract("周杰伦 - 晴天", &None, &TrackMeta::default());
    assert_eq!(e.meta.artist.as_deref(), Some("周杰伦"));
    assert_eq!(e.meta.title.as_deref(), Some("晴天"));
    assert_eq!(conf(&e), 0.85);
}

#[test]
fn l2_triple() {
    let e = extract("周杰伦 - 叶惠美 - 晴天", &None, &TrackMeta::default());
    assert_eq!(e.meta.artist.as_deref(), Some("周杰伦"));
    assert_eq!(e.meta.album.as_deref(), Some("叶惠美"));
    assert_eq!(e.meta.title.as_deref(), Some("晴天"));
    assert_eq!(conf(&e), 0.80);
}

#[test]
fn l2_indexed_then_pair() {
    let e = extract("01. 周杰伦 - 晴天", &None, &TrackMeta::default());
    assert_eq!(e.meta.track_no, Some(1));
    assert_eq!(e.meta.artist.as_deref(), Some("周杰伦"));
    assert_eq!(e.meta.title.as_deref(), Some("晴天"));
}

#[test]
fn l2_indexed_only() {
    let e = extract("07. 七里香", &None, &TrackMeta::default());
    assert_eq!(e.meta.track_no, Some(7));
    assert_eq!(e.meta.title.as_deref(), Some("七里香"));
    assert_eq!(e.meta.artist, None);
}

#[test]
fn l2_plain_title() {
    let e = extract("晴天", &None, &TrackMeta::default());
    assert_eq!(e.meta.title.as_deref(), Some("晴天"));
    assert_eq!(conf(&e), 0.60);
}

#[test]
fn l2_strips_noise_from_title() {
    let e = extract("晴天 - 副本", &None, &TrackMeta::default());
    assert_eq!(e.meta.title.as_deref(), Some("晴天"));
}

#[test]
fn l3_infers_artist_and_album_from_two_levels() {
    let e = extract("01. 晴天", &dirs(&["周杰伦", "叶惠美"]), &TrackMeta::default());
    assert_eq!(e.meta.artist.as_deref(), Some("周杰伦"));
    assert_eq!(e.meta.album.as_deref(), Some("叶惠美"));
    assert_eq!(e.meta.title.as_deref(), Some("晴天"));
}

#[test]
fn l3_ignores_generic_directory_names() {
    let e = extract("晴天", &dirs(&["music-test"]), &TrackMeta::default());
    assert_eq!(e.meta.album, None);
    assert_eq!(e.meta.title.as_deref(), Some("晴天"));
}

#[test]
fn l3_fills_album_only_when_missing() {
    let e = extract("周杰伦 - 晴天", &dirs(&["周杰伦", "叶惠美"]), &TrackMeta::default());
    assert_eq!(e.meta.album.as_deref(), Some("叶惠美"));
    assert_eq!(e.meta.artist.as_deref(), Some("周杰伦"));
}

#[test]
fn l3_cross_validation_raises_confidence() {
    let e = extract("周杰伦 - 晴天", &dirs(&["周杰伦", "叶惠美"]), &TrackMeta::default());
    assert_eq!(conf(&e), 0.85);
}

#[test]
fn l3_is_disabled_when_root_is_none() {
    let e = extract("晴天", &None, &TrackMeta::default());
    assert_eq!(e.meta.artist, None);
}

#[test]
fn l4_fallback_uses_file_stem() {
    let e = extract("- - -", &None, &TrackMeta::default());
    assert!(e.meta.title.is_some());
    assert_eq!(e.meta.source, MetaSource::Fallback);
    assert_eq!(e.confidence, 40);
}

#[test]
fn generic_dir_detection() {
    for name in ["Music", "music-test", "Downloads", "音乐", "曲库", "2024精选"] {
        assert!(is_generic_dir(name), "{name}");
    }
    for name in ["周杰伦", "Jay Chou", "叶惠美"] {
        assert!(!is_generic_dir(name), "{name}");
    }
}

#[test]
fn fill_gaps_never_overwrites() {
    let base = tags(Some("A"), None, None);
    let other = tags(Some("B"), Some("C"), None);
    let out = fill_gaps(base, &other);
    assert_eq!(out.title.as_deref(), Some("A"));
    assert_eq!(out.artist.as_deref(), Some("C"));
}

#[test]
fn filename_templates_keep_their_confidence_steps() {
    // a bilingual title scores above a bare name
    let e = extract("星夢-XingMeng", &None, &TrackMeta::default());
    assert_eq!(e.confidence, 75);
    assert_eq!(e.meta.source, MetaSource::FileNameRegex);
    // a number prefix adds two hundredths, capped at 0.85
    let e = extract("01. 周杰伦 - 晴天", &None, &TrackMeta::default());
    assert_eq!(e.confidence, 85);
    let e = extract("03. 七里香", &None, &TrackMeta::default());
    assert_eq!(e.confidence, 72);
    // a four-digit prefix is no track number
    let e = extract("2024. 七里香", &None, &TrackMeta::default());
    assert_eq!(e.meta.track_no, None);
    assert!(LOW_CONFIDENCE < e.confidence);
}

#[test]
fn directory_artist_lifts_a_title_only_name() {
    let e = extract("晴天", &dirs(&["周杰伦", "叶惠美"]), &TrackMeta::default());
    assert_eq!(e.meta.artist.as_deref(), Some("周杰伦"));
    assert_eq!(e.confidence, 70);
}

// ── writer ──────────────────────────────────────────────────────────────

fn subject(presence: LyricsPresence) -> WriteSubject {
    WriteSubject {
        track_id: 1,
        meta: tags(Some("夜曲"), Some("周杰伦"), None),
        existing_lyrics: presence,
        matched: None,
        displayable: false,
        // the fixture path does not exist, so the format probe says no
        writable: false,
        locked: false,
    }
}

fn with_match(mut t: WriteSubject) -> WriteSubject {
    let mut lyrics = Lyrics::new(ProviderId::QQ, "1");
    lyrics.lines = vec![LyricLine::new(1000, "一群嗜血的蚂蚁"), LyricLine::new(3000, "被腐肉所吸引")];
    lyrics.trans = vec![LyricLine::new(1000, "A group of bloodthirsty ants")];
    lyrics.raw_lrc = "[00:01.00]一群嗜血的蚂蚁".into();
    t.matched = Some(MatchedLyrics { lyrics, metadata: TrackMeta::default() });
    t.displayable = true;
    t
}

#[test]
fn existing_lyrics_without_overwrite_is_skipped() {
    let t = with_match(subject(LyricsPresence::EmbeddedTag));
    let p = plan(&[t], SaveTarget::File, &Settings::default());
    assert_eq!(p.items[0].action, WriteAction::SkipExistingLyrics);
    assert_eq!(p.writable(), 0);
    assert_eq!(p.total_delta, 0);
}

#[test]
fn sidecar_does_not_block_writing_into_the_file() {
    let t = with_match(subject(LyricsPresence::SidecarLrc));
    let p = plan(&[t], SaveTarget::File, &Settings::default());
    assert_ne!(p.items[0].action, WriteAction::SkipExistingLyrics);
}

#[test]
fn embedded_lyrics_do_not_block_writing_a_sidecar() {
    let t = with_match(subject(LyricsPresence::EmbeddedTag));
    let p = plan(&[t], SaveTarget::Sidecar, &Settings::default());
    assert_eq!(p.items[0].action, WriteAction::WriteSidecarOnly);
}

#[test]
fn existing_sidecar_blocks_sidecar_writing() {
    let t = with_match(subject(LyricsPresence::SidecarLrc));
    let p = plan(&[t], SaveTarget::Sidecar, &Settings::default());
    assert_eq!(p.items[0].action, WriteAction::SkipExistingLyrics);
}

#[test]
fn track_without_match_is_skipped_not_failed() {
    let t = subject(LyricsPresence::Absent);
    let p = plan(&[t], SaveTarget::File, &Settings::default());
    assert_eq!(p.items[0].action, WriteAction::SkipNoMatch);
    assert_eq!(p.writable(), 0);
    assert_eq!(p.skipped(), 1);
    assert_eq!(p.skipped_no_match(), 1);
}

#[test]
fn overwrite_setting_allows_reprocessing() {
    let t = with_match(subject(LyricsPresence::EmbeddedTag));
    let mut s = Settings::default();
    s.lyrics.overwrite_existing = true;
    let p = plan(&[t], SaveTarget::File, &s);
    assert!(matches!(p.items[0].action, WriteAction::Write | WriteAction::SkipUnsupportedFormat));
}

#[test]
fn sidecar_mode_skips_metadata_and_cover() {
    let t = with_match(subject(LyricsPresence::Absent));
    let mut s = Settings::default();
    s.write.fill_missing_info = true;
    s.write.embed_cover = true;
    let payload = build_payload(&t, SaveTarget::Sidecar, &s, None).unwrap();
    assert!(!payload.fill_missing_metadata);
    assert!(!payload.embed_cover);
    let p = plan(&[t], SaveTarget::Sidecar, &s);
    assert_eq!(p.items[0].action, WriteAction::WriteSidecarOnly);
    assert_eq!(p.items[0].expected_delta, 0);
}

#[test]
fn file_mode_defaults_match_the_spec() {
    let t = with_match(subject(LyricsPresence::Absent));
    let payload = build_payload(&t, SaveTarget::File, &Settings::default(), None).unwrap();
    assert!(payload.fill_missing_metadata);
    assert!(!payload.embed_cover);
    assert!(payload.lrc.contains("[00:01.00]"));
}

#[test]
fn translation_is_merged_onto_one_line() {
    let t = with_match(subject(LyricsPresence::Absent));
    let payload = build_payload(&t, SaveTarget::File, &Settings::default(), None).unwrap();
    assert!(
        payload.lrc.contains("[00:01.00]一群嗜血的蚂蚁  A group of bloodthirsty ants"),
        "{}",
        payload.lrc
    );
}

#[test]
fn translation_can_be_disabled_via_settings() {
    let t = with_match(subject(LyricsPresence::Absent));
    let mut s = Settings::default();
    s.lyrics.include_translation = false;
    let payload = build_payload(&t, SaveTarget::File, &s, None).unwrap();
    assert!(!payload.lrc.contains("bloodthirsty"));
}

#[test]
fn payload_without_match_result_is_an_error() {
    let t = subject(LyricsPresence::Absent);
    assert!(build_payload(&t, SaveTarget::File, &Settings::default(), None).is_err());
}

#[test]
fn payload_size_tracks_lyric_content() {
    let t = with_match(subject(LyricsPresence::Absent));
    let payload = build_payload(&t, SaveTarget::File, &Settings::default(), None).unwrap();
    assert!(payload.lrc.len() > 20, "{:?}", payload.lrc);
    assert!(payload.lrc.lines().count() >= 2);
    let p = plan(&[t], SaveTarget::Sidecar, &Settings::default());
    assert_eq!(p.items[0].expected_delta, 0);
}

#[test]
fn skipped_tracks_do_not_count_towards_the_size_estimate() {
    let mut s = Settings::default();
    s.write.embed_cover = true;
    let t = subject(LyricsPresence::Absent);
    let p = plan(&[t], SaveTarget::File, &s);
    assert_eq!(p.items[0].action, WriteAction::SkipNoMatch);
    assert_eq!(p.items[0].expected_delta, 0);
    assert_eq!(p.total_delta, 0);
}

#[test]
fn preview_rendering_matches_the_written_payload() {
    let t = with_match(subject(LyricsPresence::Absent));
    let payload = build_payload(&t, SaveTarget::File, &Settings::default(), None).unwrap();
    let (_, text) = render_lyrics(&t.matched.as_ref().unwrap().lyrics, &Settings::default());
    assert_eq!(payload.lrc, text);
}

#[test]
fn writable_file_counts_lyrics_and_cover_bytes() {
    let mut t = with_match(subject(LyricsPresence::Absent));
    t.writable = true;
    let mut s = Settings::default();
    s.write.embed_cover = true;
    let (_, text) = render_lyrics(&t.matched.as_ref().unwrap().lyrics, &s);
    assert!(plan_fits(std::slice::from_ref(&t), SaveTarget::File, &s));
    let p = plan(std::slice::from_ref(&t), SaveTarget::File, &s);
    assert_eq!(p.items[0].action, WriteAction::Write);
    assert_eq!(p.items[0].expected_delta, text.len() as i64 + 256_000);
    assert_eq!(p.total_delta, text.len() as i64 + 256_000);
    assert_eq!(p.items[0].title, "夜曲");
    t.locked = true;
    assert_eq!(decide_action(&t, SaveTarget::File, &s), WriteAction::SkipLocked);
}

// ── orchestrator ────────────────────────────────────────────────────────

#[test]
fn throttle_limits_event_rate() {
    let mut t = Throttle::new();
    assert!(t.allow(5_000));
    assert!(!t.allow(5_000));
}

#[test]
fn throttle_lets_later_events_through() {
    // The clock is the caller's: a first event, then one 20 ms past the interval.
    let mut t = Throttle::new();
    assert!(t.allow(0));
    assert!(t.allow(lyrictag::pipeline::orchestrator::PROGRESS_THROTTLE_MS + 20));
}

#[test]
fn throttle_lets_events_through_after_the_interval() {
    let mut t = Throttle::new();
    assert!(t.allow(1_000));
    assert!(!t.allow(1_099));
    assert!(t.allow(1_100));
}

#[test]
fn concurrency_defaults_to_two_without_sample() {
    assert_eq!(write_concurrency(None), 2);
}

#[test]
fn concurrency_is_two_for_missing_file() {
    // the probe finds no file and answers "not solid state"
    assert_eq!(write_concurrency(Some(false)), 2);
    assert_eq!(write_concurrency(Some(true)), 8);
}

#[test]
fn state_keys_match_frontend_contract() {
    assert_eq!(state_key(TrackState::Idle), "idle");
    assert_eq!(state_key(TrackState::Matching), "matching");
    assert_eq!(state_key(TrackState::Matched), "matched");
    assert_eq!(state_key(TrackState::Confirm), "confirm");
    assert_eq!(state_key(TrackState::Writing), "writing");
    assert_eq!(state_key(TrackState::Done), "done");
    assert_eq!(state_key(TrackState::Failed), "failed");
    assert_eq!(state_key(TrackState::Skip), "skip");
}

#[test]
fn probe_offsets_follow_the_xorshift_sequence() {
    let len: u64 = 2 * 1024 * 1024;
    let offs = probe_offsets(len);
    assert_eq!(offs.len(), 12);
    let mut s = PROBE_SEED;
    for o in &offs {
        s ^= s << 13;
        s ^= s >> 7;
        s ^= s << 17;
        assert_eq!(*o, s % (len - 4096));
        assert!(*o + 4096 <= len);
    }
}

#[test]
fn median_latency_decides_solid_state() {
    let fast = [200_000u64; 12];
    assert!(judged_solid_state(&fast));
    let mut mixed = [8_000_000u64; 12];
    for x in mixed.iter_mut().take(6) {
        *x = 100_000;
    }
    // six fast, six slow: the middle of the sorted twelve is slow
    assert!(!judged_solid_state(&mixed));
    mixed[6] = 100_000;
    assert!(judged_solid_state(&mixed));
}

#[test]
fn status_counts_and_final_phase() {
    let states = [
        TrackState::Done,
        TrackState::Confirm,
        TrackState::Failed,
        TrackState::Skip,
        TrackState::Done,
        TrackState::Idle,
    ];
    let tracks: Vec<Track> = states.iter().enumerate().map(|(i, st)| store_track(i as u64, *st)).collect();
    assert_eq!(count_states(&tracks), (2, 1, 1, 1));
    assert_eq!(final_phase(true), Phase::Cancelled);
    assert_eq!(final_phase(false), Phase::Done);
}

#[test]
fn fetch_verdicts_name_the_reason() {
    let v = fetch_verdict(false, &Ok(Lyrics::default())).unwrap();
    assert_eq!(v.0, OneOutcome::Failed);
    assert_eq!(v.2, "没有找到歌词，可以试试手动搜索");
    let mut inst = Lyrics::default();
    inst.is_instrumental = true;
    let v = fetch_verdict(true, &Ok(inst)).unwrap();
    assert_eq!((v.0, v.1), (OneOutcome::Skipped, TrackState::Skip));
    let v = fetch_verdict(true, &Ok(Lyrics::default())).unwrap();
    assert_eq!(v.2, "这个来源没有可用的歌词");
    let v = fetch_verdict(true, &Err(AppError::Http("x".into()))).unwrap();
    assert_eq!(v.2, "网络不可用或歌词服务暂时无法访问，请稍后重试");
    let mut good = Lyrics::default();
    good.lines = vec![LyricLine::new(0, "a")];
    assert!(fetch_verdict(true, &Ok(good)).is_none());
    let mut r = MatchReport::new(3);
    r.count(OneOutcome::Matched);
    r.count(OneOutcome::Failed);
    assert_eq!((r.total, r.matched, r.failed, r.confirm), (3, 1, 1, 0));
}

fn item(id: u64, title: &str, action: WriteAction) -> WritePlanItem {
    WritePlanItem { track_id: id, title: title.into(), action, expected_delta: 0 }
}

#[test]
fn plan_skips_are_counted_by_reason() {
    let mut r = WriteReport::new(5, SaveTarget::File);
    assert_eq!(r.target, "file");
    let notes = r.count_skips(&[
        item(1, "a", WriteAction::Write),
        item(2, "b", WriteAction::SkipLocked),
        item(3, "c", WriteAction::SkipExistingLyrics),
        item(4, "d", WriteAction::SkipNoMatch),
        item(5, "e", WriteAction::SkipUnsupportedFormat),
    ]);
    assert_eq!(r.skipped, 4);
    assert_eq!(r.locked, 1);
    assert_eq!(r.skipped_existing, 1);
    assert_eq!(r.skipped_no_match, 1);
    assert_eq!(r.skipped_unsupported, 1);
    assert_eq!(r.failures.len(), 1);
    assert_eq!(r.failures[0].reason, "正被其他程序使用");
    assert_eq!(notes.len(), 4);
    assert_eq!(notes[0].track_id, 2);
    assert_eq!(notes[0].log.message, "[b] 这个文件正被其他程序使用，已跳过");
    assert_eq!(notes[2].message, "还没有匹配到歌词，先点「开始匹配」");
    assert_eq!(skip_message(WriteAction::Write), None);
}

#[test]
fn write_results_update_the_report() {
    let mut r = WriteReport::new(3, SaveTarget::Sidecar);
    let outcome = WriteOutcome {
        bytes_delta: 0,
        target: WrittenTarget::Sidecar("D:/m/x.lrc".into()),
        filled_fields: Vec::new(),
        cover_written: false,
    };
    let (step, log) = r.record_write(
        "夜曲",
        WriteResult::Written { outcome, shown_name: Some("x.lrc".into()) },
    );
    assert!(matches!(step, WriteStep::Done));
    assert_eq!(log.unwrap().message, "[夜曲] 已生成 x.lrc");
    let (step, _) =
        r.record_write("晴天", WriteResult::Failed(AppError::FileLocked { path: "p".into() }));
    assert!(matches!(step, WriteStep::Mark { state: TrackState::Skip, .. }));
    let (step, log) = r.record_write("七里香", WriteResult::Crashed);
    assert!(matches!(step, WriteStep::Mark { state: TrackState::Failed, .. }));
    assert!(log.is_none());
    assert_eq!((r.ok, r.locked, r.skipped, r.failed), (1, 1, 1, 1));
    assert_eq!(r.failures.len(), 1);
    assert_eq!(
        presence_after_write(SaveTarget::File, LyricsPresence::SidecarLrc),
        LyricsPresence::Both
    );
    assert_eq!(
        presence_after_write(SaveTarget::File, LyricsPresence::Absent),
        LyricsPresence::EmbeddedTag
    );
    assert_eq!(
        presence_after_write(SaveTarget::Sidecar, LyricsPresence::Absent),
        LyricsPresence::Both
    );
}

// ── downloader ──────────────────────────────────────────────────────────

#[test]
fn kuwo_reports_missing_year() {
    assert!(capability_hint(ProviderId::KuWo).no_year);
    assert!(!capability_hint(ProviderId::NetEase).no_year);
    assert!(!capability_hint(ProviderId::QQ).no_year);
    assert!(!capability_hint(ProviderId::KuGou).no_year);
}

#[test]
fn only_netease_offers_track_number() {
    assert!(!capability_hint(ProviderId::NetEase).no_track_no);
    for p in [ProviderId::QQ, ProviderId::KuGou, ProviderId::KuWo] {
        assert!(capability_hint(p).no_track_no, "{}", p.as_str());
    }
}

#[test]
fn only_netease_offers_verbatim() {
    assert!(!capability_hint(ProviderId::NetEase).no_verbatim);
    for p in [ProviderId::QQ, ProviderId::KuGou, ProviderId::KuWo] {
        assert!(capability_hint(p).no_verbatim, "{}", p.as_str());
    }
}

// ── matcher ─────────────────────────────────────────────────────────────

fn cand(provider: ProviderId, title: &str, artists: &[&str], dur: u64) -> lyrictag::domain::candidate::Candidate {
    lyrictag::domain::candidate::Candidate {
        provider,
        song_id: format!("{}-{title}", provider.as_str()),
        access_key: None,
        title: title.into(),
        artists: artists.iter().map(|s| s.to_string()).collect(),
        album: None,
        year: None,
        track_no: None,
        duration_ms: Some(dur),
        cover_url: None,
    }
}

#[test]
fn shortlist_is_capped() {
    let cands: Vec<_> = (0..30).map(|i| cand(ProviderId::QQ, &format!("t{i}"), &["a"], 200_000)).collect();
    let s = shortlist(&cands);
    assert!(s.len() <= 8);
    assert_eq!(s.len(), 8);
    assert_eq!(s[7].title, "t7");
}

#[test]
fn shortlist_collapses_visually_identical_candidates() {
    let mut cands = Vec::new();
    for i in 0..5 {
        let mut c = cand(ProviderId::KuGou, "星梦", &["GAI周延"], 305_000);
        c.song_id = format!("id{i}");
        cands.push(c);
    }
    let s = shortlist(&cands);
    assert_eq!(s.len(), 1);
    assert_eq!(s[0].song_id, "id0");
}

#[test]
fn shortlist_keeps_different_versions() {
    let cands = vec![
        cand(ProviderId::QQ, "晴天", &["周杰伦"], 269_000),
        cand(ProviderId::QQ, "晴天", &["周杰伦"], 295_000),
    ];
    assert_eq!(shortlist(&cands).len(), 2);
    assert_eq!(shortlist_indices(&cands), vec![0, 1]);
}

#[test]
fn shortlist_separates_sources_and_artists() {
    let cands = vec![
        cand(ProviderId::QQ, "晴天", &["周杰伦"], 269_000),
        cand(ProviderId::KuGou, "晴天", &["周杰伦"], 269_000),
        cand(ProviderId::QQ, "晴天", &["周杰伦", "x"], 269_000),
        cand(ProviderId::QQ, "晴天", &["周杰伦"], 269_000),
    ];
    assert_eq!(shortlist_indices(&cands), vec![0, 1, 2]);
    assert_eq!(source_rank(ProviderId::QQ), 0);
    assert_eq!(source_rank(ProviderId::KuWo), 3);
}

// ── store and retries ───────────────────────────────────────────────────

#[test]
fn restore_outcomes_follow_file_and_cache() {
    assert_eq!(restore_outcome(false, true, true), RestoreOutcome::Missing);
    assert_eq!(restore_outcome(true, true, true), RestoreOutcome::Restored);
    assert_eq!(restore_outcome(true, true, false), RestoreOutcome::Downgraded);
    assert_eq!(restore_outcome(true, false, false), RestoreOutcome::Unmatched);
    assert_eq!(restored_state(TrackState::Matched, RestoreOutcome::Restored), (TrackState::Matched, false));
    assert_eq!(restored_state(TrackState::Matched, RestoreOutcome::Downgraded), (TrackState::Idle, true));
    assert_eq!(restored_state(TrackState::Failed, RestoreOutcome::Unmatched), (TrackState::Idle, false));
    let mut st = RestoreStats::new();
    st.count(RestoreOutcome::Missing);
    st.count(RestoreOutcome::Restored);
    st.count(RestoreOutcome::Downgraded);
    st.count(RestoreOutcome::Unmatched);
    assert_eq!((st.restored, st.downgraded, st.missing), (1, 1, 1));
}

fn store_track(id: u64, state: TrackState) -> Track {
    Track {
        id: TrackId(id),
        path: format!("D:/M/{id}.mp3"),
        format: AudioFormat::Mp3,
        duration_ms: Some(200_000),
        file_size: 100,
        meta: TrackMeta { title: Some(format!("t{id}")), ..Default::default() },
        meta_confidence: 90,
        existing_lyrics: LyricsPresence::Absent,
        state,
        matched: None,
        candidates: Vec::new(),
        candidate_pick: 0,
        message: None,
        sidecar_path: None,
    }
}

#[test]
fn rescanned_state_keeps_written_songs() {
    assert_eq!(rescanned_state(TrackState::Idle, true), TrackState::Done);
    assert_eq!(rescanned_state(TrackState::Idle, false), TrackState::Idle);
    assert_eq!(clamp_pick(0, 1, 2), 1);
    assert_eq!(clamp_pick(1, 5, 2), 1);
}

#[test]
fn lookup_by_id() {
    let mut s = TrackStore::new();
    s.replace_from_scan("D:/M", vec![store_track(1, TrackState::Idle), store_track(2, TrackState::Done)]);
    assert_eq!(s.len(), 2);
    assert_eq!(s.get(1).unwrap().meta.title.as_deref(), Some("t1"));
    assert!(s.get(99).is_none());
}

#[test]
fn rescan_preserves_done_state() {
    let mut s = TrackStore::new();
    s.replace_from_scan("D:/M", vec![store_track(1, TrackState::Done), store_track(2, TrackState::Idle)]);
    s.replace_from_scan("D:/M", vec![store_track(1, TrackState::Idle), store_track(2, TrackState::Idle)]);
    assert_eq!(s.get(1).unwrap().state, TrackState::Done);
    assert_eq!(s.get(2).unwrap().state, TrackState::Idle);
}

#[test]
fn rescan_does_not_preserve_matched_state() {
    let mut s = TrackStore::new();
    s.replace_from_scan("D:/M", vec![store_track(1, TrackState::Matched)]);
    s.replace_from_scan("D:/M", vec![store_track(1, TrackState::Idle)]);
    assert_eq!(s.get(1).unwrap().state, TrackState::Idle);
}

#[test]
fn set_state_and_message() {
    let mut s = TrackStore::new();
    s.replace_from_scan("D:/M", vec![store_track(1, TrackState::Idle)]);
    s.set_state(1, TrackState::Failed, Some("没有找到歌词".into()));
    assert_eq!(s.get(1).unwrap().state, TrackState::Failed);
    assert_eq!(s.get(1).unwrap().message.as_deref(), Some("没有找到歌词"));
}

fn scored(n: &str) -> Scored {
    Scored {
        candidate: lyrictag::domain::candidate::Candidate {
            provider: ProviderId::QQ,
            song_id: n.into(),
            access_key: None,
            title: n.into(),
            artists: vec![],
            album: None,
            year: None,
            track_no: None,
            duration_ms: None,
            cover_url: None,
        },
        score: 0,
    }
}

#[test]
fn pick_candidate_is_clamped() {
    let mut s = TrackStore::new();
    s.replace_from_scan("D:/M", vec![store_track(1, TrackState::Idle)]);
    s.set_candidates(1, vec![scored("a"), scored("b")]);
    s.pick_candidate(1, 1);
    assert_eq!(s.get(1).unwrap().candidate_pick, 1);
    // A pick beyond the list leaves the choice as it was.
    s.pick_candidate(1, 99);
    assert_eq!(s.get(1).unwrap().candidate_pick, 1);
}

#[test]
fn index_roundtrip_without_lyrics() {
    let mut s = TrackStore::new();
    s.replace_from_scan("D:/M", vec![store_track(1, TrackState::Failed)]);
    let idx = s.to_index();
    assert_eq!(idx.root, "D:/M");
    assert_eq!(idx.tracks.len(), 1);
    assert!(idx.tracks[0].matched.is_none());
}

#[test]
fn restore_skips_missing_files() {
    let mut s = TrackStore::new();
    s.replace_from_scan("D:/M", vec![store_track(1, TrackState::Done)]);
    let idx = s.to_index();
    let mut restored = TrackStore::new();
    // The file is gone.
    let stats = restored.restore_from_index(idx, &[false], vec![None]);
    assert_eq!(stats.missing, 1);
    assert_eq!(restored.len(), 0);
}

#[test]
fn restore_replaces_instead_of_appending() {
    let idx = LibraryIndex {
        version: 1,
        root: "D:/M".into(),
        saved_at: String::new(),
        tracks: vec![TrackIndexEntry {
            path: "D:/M/a.mp3".into(),
            format: AudioFormat::Mp3,
            duration_ms: Some(1000),
            file_size: 1,
            meta: TrackMeta::default(),
            meta_confidence: 0,
            existing_lyrics: LyricsPresence::Absent,
            state: TrackState::Idle,
            message: None,
            matched: None,
        }],
    };
    let mut store = TrackStore::new();
    store.restore_from_index(idx.clone(), &[true], vec![None]);
    assert_eq!(store.len(), 1);
    // The id comes from the path; the index holds nothing that could override it.
    assert_eq!(store.all()[0].id, TrackId::from_path("D:/M/a.mp3"));
    store.restore_from_index(idx, &[true], vec![None]);
    assert_eq!(store.len(), 1, "loading twice must not add the song again");
}

#[test]
fn restore_keeps_a_match_only_with_its_cached_lyrics() {
    let summary = MatchSummary {
        provider: ProviderId::NetEase,
        song_id: "7".into(),
        title: "晴天".into(),
        artists: vec!["周杰伦".into()],
        album: None,
        year: Some(2003),
        track_no: None,
        duration_ms: Some(269_000),
        cover_url: None,
        score: 930,
        grade: Grade::Auto,
    };
    let entry = |state| TrackIndexEntry {
        path: "D:/M/b.mp3".into(),
        format: AudioFormat::Mp3,
        duration_ms: None,
        file_size: 1,
        meta: TrackMeta::default(),
        meta_confidence: 40,
        existing_lyrics: LyricsPresence::Absent,
        state,
        message: Some("note".into()),
        matched: Some(summary.clone()),
    };
    let idx = LibraryIndex {
        version: 1,
        root: "D:/M".into(),
        saved_at: String::new(),
        tracks: vec![entry(TrackState::Matched), entry(TrackState::Matched)],
    };
    let mut store = TrackStore::new();
    let lyrics = Lyrics::new(ProviderId::NetEase, "7");
    let stats = store.restore_from_index(idx, &[true, true], vec![Some(lyrics), None]);
    assert_eq!((stats.restored, stats.downgraded, stats.missing), (1, 1, 0));
    let kept = &store.all()[0];
    assert_eq!(kept.state, TrackState::Matched);
    assert_eq!(kept.matched.as_ref().unwrap().score, 930);
    assert_eq!(kept.candidates[0].candidate.title, "晴天");
    let dropped = &store.all()[1];
    assert_eq!(dropped.state, TrackState::Idle);
    assert!(dropped.matched.is_none());
    assert!(dropped.message.is_none());
}

#[test]
fn apply_match_and_mark_done_update_the_row() {
    let mut s = TrackStore::new();
    s.replace_from_scan("D:/M", vec![store_track(1, TrackState::Matching)]);
    let mut chosen = scored("x").candidate;
    chosen.provider = ProviderId::KuGou;
    let result = MatchResult {
        candidate: chosen,
        lyrics: Lyrics::new(ProviderId::KuGou, "x"),
        metadata: TrackMeta::default(),
        cover_url: None,
        grade: Grade::Confirm,
        score: 720,
    };
    let mut first = scored("y");
    first.candidate.provider = ProviderId::KuWo;
    s.apply_match(1, result, vec![first, scored("z")]);
    let t = s.get(1).unwrap();
    assert_eq!(t.state, TrackState::Confirm);
    assert_eq!(t.candidates[0].score, 720);
    assert_eq!(t.candidates[0].candidate.provider, ProviderId::KuGou);
    s.mark_done(1, SaveTarget::File);
    let t = s.get(1).unwrap();
    assert_eq!(t.state, TrackState::Done);
    assert_eq!(t.existing_lyrics, LyricsPresence::EmbeddedTag);
}

#[test]
fn refresh_keeps_what_this_run_did() {
    let mut s = TrackStore::new();
    s.replace_from_scan("D:/M", vec![store_track(1, TrackState::Failed)]);
    s.set_state(1, TrackState::Failed, Some("x".into()));
    let mut fresh = store_track(1, TrackState::Idle);
    fresh.file_size = 555;
    assert!(s.refresh_track(1, Some(fresh)));
    let t = s.get(1).unwrap();
    assert_eq!((t.file_size, t.state), (555, TrackState::Failed));
    assert_eq!(t.message.as_deref(), Some("x"));
    assert!(!s.refresh_track(1, Some(store_track(2, TrackState::Idle))));
    assert!(!s.refresh_track(9, None));
}

#[test]
fn low_confidence_meta_needs_review() {
    let mut t = store_track(1, TrackState::Idle);
    t.meta_confidence = 40;
    assert!(needs_review(&t));
    t.meta_confidence = 95;
    assert!(!needs_review(&t));
}

#[test]
fn retries_back_off_for_network_errors_only() {
    assert_eq!(retry_after(0, &AppError::Http("x".into())), Some(1));
    assert_eq!(retry_after(1, &AppError::Http("x".into())), Some(3));
    assert_eq!(retry_after(2, &AppError::Http("x".into())), Some(9));
    assert_eq!(retry_after(3, &AppError::Http("x".into())), None);
    assert_eq!(retry_after(0, &AppError::BadResponse("x".into())), Some(1));
    assert_eq!(retry_after(0, &AppError::Io("x".into())), None);
}

#[test]
fn manual_query_uses_track_metadata_by_default() {
    let meta = TrackMeta { title: Some("晴天".into()), artist: Some("周杰伦".into()), ..Default::default() };
    let q = manual_query(&meta, Some(269_000), None);
    assert_eq!(q.title, "晴天");
    assert_eq!(q.artist, "周杰伦");
    assert_eq!(q.duration_secs, Some(269));

    // A keyword the user typed is searched as it is.
    let q = manual_query(&meta, Some(269_000), Some("  夜曲 周杰伦  "));
    assert_eq!(q.title, "夜曲 周杰伦");
    assert!(q.artist.is_empty());
}

#[test]
fn blank_keyword_and_missing_title_fall_back_to_the_song() {
    let meta = TrackMeta::default();
    let q = manual_query(&meta, Some(1_999), Some("   "));
    assert_eq!(q.title, "未知标题");
    assert_eq!(q.artist, "");
    assert_eq!(q.duration_secs, Some(1));
    assert_eq!(manual_query(&meta, None, None).duration_secs, None);
}

#[test]
fn all_sources_failed_detection() {
    let mut o = SourceTally::new();
    o.failed.push((ProviderId::QQ, "x".into()));
    o.failed.push((ProviderId::KuGou, "x".into()));
    o.failed.push((ProviderId::NetEase, "x".into()));
    o.failed.push((ProviderId::KuWo, "x".into()));
    assert!(o.all_sources_failed(4));

    o.responded.push(ProviderId::QQ);
    assert!(!o.all_sources_failed(4));
}

#[test]
fn match_run_skips_written_and_unknown_songs() {
    let mut s = TrackStore::new();
    let mut a = store_track(1, TrackState::Idle);
    a.meta.artist = Some("周杰伦".into());
    s.replace_from_scan("D:/M", vec![a, store_track(2, TrackState::Done), store_track(3, TrackState::Failed)]);
    let targets = collect_targets(&s, &[3, 2, 9, 1]);
    let ids: Vec<u64> = targets.iter().map(|(id, _)| *id).collect();
    assert_eq!(ids, vec![3, 1]);
    assert_eq!(targets[1].1.title, "t1");
    assert_eq!(targets[1].1.artist, "周杰伦");
    assert_eq!(targets[1].1.duration_secs, Some(200));
}

#[test]
fn track_update_clears_a_match_that_may_not_be_shown() {
    let mut t = store_track(4, TrackState::Matched);
    t.matched = Some(MatchResult {
        candidate: scored("m").candidate,
        lyrics: Lyrics::new(ProviderId::QQ, "m"),
        metadata: TrackMeta::default(),
        cover_url: None,
        grade: Grade::Auto,
        score: 910,
    });
    let u = track_updated(&t);
    assert_eq!(u.state, "matched");
    assert_eq!(u.score, Some(910));
    assert_eq!(u.matched.as_ref().unwrap().song_id, "m");
    t.state = TrackState::Failed;
    let u = track_updated(&t);
    assert!(u.score.is_none() && u.matched.is_none());
}

#[test]
fn thresholds_route_correctly() {
    // Scores in thousandths: 0.90, 0.70, 0.30.
    assert_eq!(decide(900), Grade::Auto);
    assert_eq!(decide(700), Grade::Confirm);
    assert_eq!(decide(300), Grade::Rejected);
    assert_eq!(decide(850), Grade::Auto);
    assert_eq!(decide(649), Grade::Rejected);
}

#[test]
fn finishing_a_match_sets_state_by_grade() {
    let mut s = TrackStore::new();
    s.replace_from_scan("D:/M", vec![store_track(1, TrackState::Matching), store_track(2, TrackState::Matching)]);
    let mut best = scored("b");
    best.score = 720;
    let mut lyrics = Lyrics::new(ProviderId::QQ, "b");
    lyrics.lines = vec![LyricLine::new(0, "词")];
    let o = finish_match(&mut s, 1, vec![best, scored("c")], Ok(lyrics));
    assert_eq!(o, OneOutcome::Confirm);
    let t = s.get(1).unwrap();
    assert_eq!(t.state, TrackState::Confirm);
    assert_eq!(t.message.as_deref(), Some("找到几个可能的歌词，需要你确认一下"));
    assert_eq!(t.matched.as_ref().unwrap().score, 720);
    assert_eq!(t.candidates.len(), 2);

    // No candidate left: not found, with the hint to search by hand.
    let o = finish_match(&mut s, 2, Vec::new(), Err(AppError::Cancelled));
    assert_eq!(o, OneOutcome::Failed);
    assert_eq!(s.get(2).unwrap().message.as_deref(), Some("没有找到歌词，可以试试手动搜索"));
}

#[test]
fn covers_are_fetched_only_when_wanted_and_missing() {
    let mut t = store_track(1, TrackState::Matched);
    let mut m_candidate = scored("c").candidate;
    m_candidate.cover_url = Some("http://x/c.jpg".into());
    t.matched = Some(MatchResult {
        candidate: m_candidate,
        lyrics: Lyrics::new(ProviderId::QQ, "c"),
        metadata: TrackMeta::default(),
        cover_url: Some("http://x/c.jpg".into()),
        grade: Grade::Auto,
        score: 900,
    });
    let mut settings = Settings::default();
    assert_eq!(cover_to_fetch(&settings, &t), None);
    settings.write.embed_cover = true;
    assert_eq!(cover_to_fetch(&settings, &t).as_deref(), Some("http://x/c.jpg"));
    t.meta.has_cover = true;
    assert_eq!(cover_to_fetch(&settings, &t), None);
}

#[test]
fn write_run_takes_the_planned_writes_in_order() {
    let item = |id, action| WritePlanItem { track_id: id, title: String::new(), action, expected_delta: 0 };
    let plan = lyrictag::domain::plan::WritePlan {
        items: vec![
            item(3, WriteAction::Write),
            item(1, WriteAction::SkipLocked),
            item(2, WriteAction::WriteSidecarOnly),
        ],
        total_delta: 0,
    };
    assert_eq!(write_targets(&plan), vec![3, 2]);
}

#[test]
fn cache_keys_are_isolated() {
    let a = cache_file_name(ProviderId::QQ, "1");
    let b = cache_file_name(ProviderId::NetEase, "1");
    let c = cache_file_name(ProviderId::QQ, "2");
    assert_ne!(a, b);
    assert_ne!(a, c);
    assert!(a.starts_with("qq-") && a.ends_with(".json"));
    assert_eq!(a.len(), "qq-".len() + 24 + ".json".len());
}

#[test]
fn hostile_song_id_cannot_escape_cache_dir() {
    let name = cache_file_name(ProviderId::KuGou, "../../evil");
    assert!(!name.contains('/') && !name.contains('\\'), "{name}");
    assert!(name.starts_with("kugou-"));
}

#[test]
fn cache_name_is_the_digest_of_source_and_song() {
    let digest = blake3::hash(b"netease:186016");
    let hex: String = digest.as_bytes()[..12].iter().map(|b| format!("{b:02x}")).collect();
    assert_eq!(cache_file_name(ProviderId::NetEase, "186016"), format!("netease-{hex}.json"));
}

#[test]
fn eviction_takes_oldest_first_and_keeps_listing_order_for_ties() {
    let entries = vec![(30u64, 5u64), (10, 7), (20, 1), (10, 2)];
    assert_eq!(eviction_order(&entries), vec![1, 3, 2, 0]);
    assert_eq!(eviction_order(&[]), Vec::<usize>::new());
}

#[test]
fn eviction_stops_once_under_the_limit() {
    let entries = vec![(3u64, 40u64), (1, 50), (2, 30)];
    let mut ev = Eviction::new(&entries, 60).expect("sizes fit");
    assert_eq!(ev.total, 120);
    let mut removed = Vec::new();
    for i in eviction_order(&entries) {
        if !ev.needed() {
            break;
        }
        ev.removed(entries[i].1);
        removed.push(i);
    }
    assert_eq!(removed, vec![1, 2]);
    assert_eq!(ev.total, 40);
    assert_eq!(ev.freed, 80);
}

#[test]
fn cache_under_the_limit_frees_nothing() {
    let entries = vec![(1u64, 10u64), (2, 20)];
    let ev = Eviction::new(&entries, CACHE_MAX_BYTES).expect("sizes fit");
    assert!(!ev.needed());
    assert_eq!(ev.freed, 0);
    assert_eq!(ev.total, 30);
    assert_eq!(CACHE_MAX_BYTES, 128 * 1024 * 1024);
}

#[test]
fn cache_sizes_past_u64_are_refused() {
    assert!(Eviction::new(&[(1, u64::MAX), (2, 1)], 10).is_none());
}

#[test]
fn skipped_song_with_a_match_is_not_written() {
    let mut t = with_match(subject(LyricsPresence::Absent));
    t.displayable = false;
    let p = plan(&[t], SaveTarget::Sidecar, &Settings::default());
    assert_eq!(p.items[0].action, WriteAction::SkipNoMatch);
    assert!(!p.items[0].action.is_write());
    assert_eq!(p.items[0].expected_delta, 0);
    assert_eq!(p.writable(), 0);
}

#[test]
fn match_stops_when_every_source_is_down() {
    let (report, ev, log) = sources_verdict(7, 0).expect("all down");
    assert!(report.sources_down);
    assert_eq!(report.total, 7);
    assert_eq!(report.matched + report.confirm + report.failed + report.skipped, 0);
    match ev {
        ProgressEvent::Progress { phase, done, total, ok, warn, err, skip } => {
            assert_eq!(phase, Phase::Failed);
            assert_eq!((done, total, ok, warn, err, skip), (0, 7, 0, 0, 0, 0));
        }
    }
    assert_eq!(log.level, "err");
    assert_eq!(log.message, "网络不可用或歌词服务暂时无法访问，请稍后重试");
    assert!(sources_verdict(7, 1).is_none());
    let w = source_down_notice(ProviderId::KuWo);
    assert_eq!((w.level.as_str(), w.message.as_str()), ("warn", "kuwo 暂时无法访问，本次匹配会跳过该来源"));
}

#[test]
fn write_summary_names_skip_reasons_and_failures() {
    let mut r = WriteReport::new(10, SaveTarget::File);
    r.ok = 5;
    r.skipped = 3;
    r.skipped_existing = 1;
    r.locked = 2;
    r.failed = 2;
    let e = write_summary(&r);
    assert_eq!(e.level, "warn");
    assert_eq!(e.message, "5 首保存成功，3 首跳过（1 首已有歌词、2 首正被其他程序使用），2 首失败");
    r.failed = 0;
    r.skipped = 0;
    let e = write_summary(&r);
    assert_eq!((e.level.as_str(), e.message.as_str()), ("ok", "5 首保存成功"));
    r.cancelled = true;
    assert_eq!(write_summary(&r).message, "已停止，本次保存了 5 首");
}

#[test]
fn write_start_log_names_the_target_and_covers() {
    let l = write_start_log(3, SaveTarget::File, true);
    assert_eq!(l.len(), 2);
    assert_eq!(l[0].message, "开始把歌词保存到 3 首歌里…");
    assert_eq!(l[1].message, "同时会下载并保存专辑封面");
    let l = write_start_log(12, SaveTarget::Sidecar, false);
    assert_eq!(l.len(), 1);
    assert_eq!(l[0].level, "info");
    assert_eq!(l[0].message, "开始为 12 首歌生成 .lrc 文件…");
}
