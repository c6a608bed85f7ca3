use lyrictag::domain::candidate::{
    displayable, is_mismatched, selected_index, Candidate, Grade, ProviderId, SearchQuery,
};
use lyrictag::domain::lyrics::{looks_instrumental, LyricLine, Lyrics};
use lyrictag::domain::normalize::{
    clean_artist, clean_display_title, collapse_whitespace, fullwidth_to_halfwidth, is_garbled,
    normalize, strip_bracketed, strip_noise, to_simplified, unescape_json_escapes,
};
use lyrictag::domain::plan::{WriteAction, WritePlan, WritePlanItem};
use lyrictag::domain::track::{
    split_artists, AudioFormat, LyricsPresence, TrackId, TrackMeta, TrackState,
    JS_MAX_SAFE_INTEGER,
};

fn q(title: &str, artist: &str) -> SearchQuery {
    SearchQuery { title: title.into(), artist: artist.into(), duration_secs: None }
}

#[test]
fn keyword_converts_traditional_to_simplified() {
    assert_eq!(q("贏", "").keyword(), "赢");
    assert_eq!(q("星夢", "").keyword(), "星梦");
    assert_eq!(q("夜曲", "周杰倫").keyword(), "夜曲 周杰伦");
}

#[test]
fn keyword_strips_bracketed_suffixes() {
    assert_eq!(q("慢慢喜欢你 (Live)", "马嘉祺").keyword(), "慢慢喜欢你 马嘉祺");
}

#[test]
fn keyword_handles_missing_artist() {
    assert_eq!(q("晴天", "").keyword(), "晴天");
    assert_eq!(q("  晴天  ", "").keyword(), "晴天");
}

#[test]
fn keyword_falls_back_to_raw_title_when_normalisation_empties_it() {
    let k = q("(Live)", "").keyword();
    assert!(!k.trim().is_empty(), "{k}");
}

#[test]
fn search_query_keyword_joins_title_and_artist() {
    let q = SearchQuery { title: "晴天".into(), artist: "周杰伦".into(), duration_secs: None };
    assert_eq!(q.keyword(), "晴天 周杰伦");
    let q = SearchQuery { title: "晴天".into(), artist: String::new(), duration_secs: None };
    assert_eq!(q.keyword(), "晴天");
}

#[test]
fn provider_keys_are_stable() {
    assert_eq!(ProviderId::NetEase.as_str(), "netease");
    assert_eq!(ProviderId::QQ.as_str(), "qq");
    assert_eq!(ProviderId::KuGou.as_str(), "kugou");
    assert_eq!(ProviderId::KuWo.as_str(), "kuwo");
}

#[test]
fn provider_order_and_names() {
    assert_eq!(
        ProviderId::all(),
        [ProviderId::QQ, ProviderId::KuGou, ProviderId::NetEase, ProviderId::KuWo]
    );
    assert_eq!(ProviderId::NetEase.display_name(), "网易云");
    assert_eq!(ProviderId::default(), ProviderId::QQ);
}

fn cand(title: &str, artists: &[&str], album: Option<&str>) -> Candidate {
    Candidate {
        provider: ProviderId::NetEase,
        song_id: "1".into(),
        access_key: None,
        title: title.into(),
        artists: artists.iter().map(|s| s.to_string()).collect(),
        album: album.map(|s| s.to_string()),
        year: Some(2003),
        track_no: None,
        duration_ms: Some(269_000),
        cover_url: None,
    }
}

#[test]
fn candidate_display_and_meta() {
    let c = cand("晴天", &["周杰伦", "某人"], Some("叶惠美"));
    assert_eq!(c.artist_joined(), "周杰伦/某人");
    assert_eq!(c.display(), "晴天 · 周杰伦/某人 · 叶惠美");
    assert_eq!(cand("晴天", &["周杰伦"], Some("")).display(), "晴天 · 周杰伦");
    let m = c.to_meta();
    assert_eq!(m.title.as_deref(), Some("晴天"));
    assert_eq!(m.artist.as_deref(), Some("周杰伦/某人"));
    assert_eq!(m.year, Some(2003));
    assert!(!m.has_cover);
}

// ── normalize ──

#[test]
fn fullwidth_converts() {
    assert_eq!(fullwidth_to_halfwidth("ＡＢＣ１２３"), "ABC123");
    assert_eq!(fullwidth_to_halfwidth("ａ　ｂ"), "a b");
}

#[test]
fn brackets_are_stripped() {
    assert_eq!(strip_bracketed("晴天 (Live)"), "晴天 ");
    assert_eq!(strip_bracketed("慢慢喜欢你（伴奏）"), "慢慢喜欢你");
    assert_eq!(strip_bracketed("夜曲【高清】"), "夜曲");
    assert_eq!(normalize("慢慢喜欢你（Live）"), "慢慢喜欢你");
}

#[test]
fn noise_is_stripped() {
    assert_eq!(strip_noise("夜曲.mp3"), "夜曲");
    assert_eq!(strip_noise("晴天 - 副本"), "晴天");
    assert_eq!(normalize("告白气球_Official"), "告白气球");
}

#[test]
fn noise_stripping_survives_length_changing_case_folds() {
    assert_eq!(strip_noise("İ的副本"), "İ");
    assert_eq!(strip_noise("\u{212A}晴天的副本"), "\u{212A}晴天");
    assert_eq!(strip_noise("İstanbul_Official"), "İstanbul");
}

#[test]
fn traditional_becomes_simplified() {
    assert_eq!(to_simplified("贏"), "赢");
    assert_eq!(to_simplified("星夢"), "星梦");
    assert_eq!(to_simplified("周杰倫"), "周杰伦");
    assert_eq!(to_simplified("周杰伦"), "周杰伦");
}

#[test]
fn garbled_is_detected() {
    assert!(is_garbled("\u{FFFD}\u{FFFD}\u{FFFD}abc"));
    assert!(!is_garbled("晴天"));
    assert!(!is_garbled("Bohemian Rhapsody"));
}

#[test]
fn json_escapes_are_decoded() {
    let bs = '\\';
    let amp = format!("{bs}u0026");
    assert_eq!(unescape_json_escapes(&amp), "&");
    assert_eq!(unescape_json_escapes(&format!("卓依婷{amp}林正桦")), "卓依婷&林正桦");
    assert_eq!(clean_artist(&format!("卓依婷{amp}林正桦")), "卓依婷&林正桦");
    assert_eq!(unescape_json_escapes(&format!("a{bs}/b")), "a/b");
    let emoji = format!("{bs}uD83D{bs}uDE00");
    assert_eq!(unescape_json_escapes(&emoji), char::from_u32(0x1F600).unwrap().to_string());
    assert_eq!(unescape_json_escapes("夜曲"), "夜曲");
    let bogus = format!("a{bs}uZZZZb");
    assert_eq!(unescape_json_escapes(&bogus), bogus);
    assert_eq!(unescape_json_escapes(&format!("a{bs}")), format!("a{bs}"));
}

#[test]
fn collapse_and_display_titles() {
    assert_eq!(collapse_whitespace("  a \t b\n"), "a b");
    assert_eq!(clean_display_title("那一年那一天&nbsp;(cover:&nbsp;朱海波)"), "那一年那一天");
    assert_eq!(clean_artist("、赵荣光&nbsp;/"), "赵荣光");
}

// ── lyrics ──

#[test]
fn lyrics_counts_and_flags() {
    let mut l = Lyrics::new(ProviderId::NetEase, "42");
    l.lines = vec![LyricLine::new(0, "a"), LyricLine::new(1, "  "), LyricLine::new(2, "b")];
    assert_eq!(l.content_line_count(), 2);
    assert!(l.has_content());
    assert!(!l.has_translation());
    assert!(!l.has_roma());
    assert!(!l.has_verbatim());
    l.is_instrumental = true;
    assert!(!l.has_content());
    l.raw_lrc = "ab".into();
    l.raw_trans = "夜".into();
    assert_eq!(l.estimated_bytes(), 5);
}

#[test]
fn instrumental_marker_is_detected() {
    assert!(looks_instrumental("[00:00.00]纯音乐，请欣赏"));
    assert!(looks_instrumental("纯音乐,请欣赏"));
    assert!(!looks_instrumental("[00:01.00]晴天"));
    assert!(!looks_instrumental("   "));
}

// ── plan ──

fn item(action: WriteAction) -> WritePlanItem {
    WritePlanItem { track_id: 1, title: "x".into(), action, expected_delta: 0 }
}

#[test]
fn plan_counts_by_reason() {
    let plan = WritePlan {
        items: vec![
            item(WriteAction::Write),
            item(WriteAction::WriteSidecarOnly),
            item(WriteAction::SkipLocked),
            item(WriteAction::SkipNoMatch),
            item(WriteAction::SkipExistingLyrics),
            item(WriteAction::SkipUnsupportedFormat),
            item(WriteAction::SkipNoMatch),
        ],
        total_delta: 0,
    };
    assert_eq!(plan.writable(), 2);
    assert_eq!(plan.skipped(), 5);
    assert_eq!(plan.locked(), 1);
    assert_eq!(plan.skipped_no_match(), 2);
    assert_eq!(plan.skipped_existing(), 1);
    assert_eq!(plan.skipped_unsupported(), 1);
    assert!(WriteAction::WriteSidecarOnly.is_write());
    assert!(!WriteAction::SkipLocked.is_write());
}

// ── track ──

#[test]
fn path_id_stays_within_js_safe_integer() {
    for path in ["D:/Music/晴天.flac", "D:/Music/10. 贏-I always win.m4a", "D:/音乐库/日本語のフォルダ/曲.mp3"] {
        let id = TrackId::from_path(path);
        assert!(id.0 <= JS_MAX_SAFE_INTEGER, "{path}: {}", id.0);
    }
}

#[test]
fn path_id_is_stable_and_distinct() {
    let a = TrackId::from_path("D:/M/a.mp3");
    let again = TrackId::from_path("D:/M/a.mp3");
    let b = TrackId::from_path("D:/M/b.mp3");
    assert_eq!(a, again);
    assert_ne!(a, b);
}

#[test]
fn split_artists_survives_length_changing_case_folds() {
    let out = split_artists("\u{212A}晴 feat. X");
    assert_eq!(out.len(), 1, "{out:?}");
    assert!(out[0].starts_with("\u{212A}晴"), "{out:?}");
}

#[test]
fn split_artists_on_separators_and_feat() {
    assert_eq!(split_artists("A/B&C、D"), vec!["A", "B", "C", "D"]);
    assert_eq!(split_artists("Soft Cell"), vec!["Soft Cell"]);
    assert_eq!(split_artists("A (feat. B)"), vec!["A (  B"]);
    assert!(split_artists("   ").is_empty());
}

#[test]
fn formats_and_labels() {
    assert_eq!(AudioFormat::from_extension("FLAC"), AudioFormat::Flac);
    assert_eq!(AudioFormat::from_extension("m4b"), AudioFormat::M4a);
    assert_eq!(AudioFormat::from_extension("dff"), AudioFormat::Unknown);
    assert!(AudioFormat::is_audio_extension("Mp3"));
    assert!(!AudioFormat::is_audio_extension("txt"));
    assert_eq!(AudioFormat::Unknown.label(), "未知");
    assert!(LyricsPresence::Both.has_embedded() && LyricsPresence::Both.has_sidecar());
    assert!(!LyricsPresence::Absent.has_any());
    assert_eq!(LyricsPresence::SidecarLrc.label(), "已保存到同名文件");
    assert!(TrackState::Confirm.is_pending());
    assert_eq!(TrackState::Done.label(), "已写入");
}

#[test]
fn track_meta_display() {
    let m = TrackMeta { artist: Some("A/B".into()), ..Default::default() };
    assert_eq!(m.display_title(), "未知标题");
    assert_eq!(m.display_artist(), "A/B");
    assert_eq!(m.artists(), vec!["A", "B"]);
}

#[test]
fn rejected_match_is_not_displayable() {
    assert!(!displayable(TrackState::Failed, Some(Grade::Rejected)));
}

#[test]
fn failed_or_skipped_rows_never_display_a_match() {
    for state in [TrackState::Failed, TrackState::Skip] {
        assert!(!displayable(state, Some(Grade::Auto)), "{state:?}");
    }
}

#[test]
fn rows_that_can_be_saved_display_their_match() {
    for state in [TrackState::Matched, TrackState::Confirm, TrackState::Done] {
        assert!(displayable(state, Some(Grade::Auto)), "{state:?}");
        assert!(displayable(state, Some(Grade::Confirm)), "{state:?}");
    }
}

#[test]
fn without_a_match_result_there_is_nothing_to_display() {
    assert!(!displayable(TrackState::Matched, None));
}

#[test]
fn grades_map_to_states_and_messages() {
    assert_eq!(Grade::Auto.state(), TrackState::Matched);
    assert_eq!(Grade::Confirm.state(), TrackState::Confirm);
    assert_eq!(Grade::Rejected.state(), TrackState::Failed);
    assert_eq!(Grade::Confirm.state_message().as_deref(), Some("找到几个可能的歌词，需要你确认一下"));
    assert!(Grade::Auto.state_message().is_none());
}

#[test]
fn selection_is_clamped_to_the_list() {
    assert_eq!(selected_index(0, 0), None);
    assert_eq!(selected_index(3, 1), Some(1));
    assert_eq!(selected_index(3, 7), Some(2));
}

#[test]
fn mismatch_ignores_script_and_brackets() {
    let meta = TrackMeta { title: Some("晴天".into()), artist: Some("周杰倫".into()), ..Default::default() };
    assert!(!is_mismatched(&cand("晴天 (Live)", &["周杰伦"], None), &meta));
    assert!(is_mismatched(&cand("七里香", &["周杰伦"], None), &meta));
    assert!(is_mismatched(&cand("晴天", &["蔡依林"], None), &meta));
}

#[test]
fn collapsing_whitespace_twice_changes_nothing() {
    let once = lyrictag::domain::normalize::collapse_whitespace("  夜曲 \t  周杰伦\n ");
    assert_eq!(once, "夜曲 周杰伦");
    assert_eq!(lyrictag::domain::normalize::collapse_whitespace(&once), once);
}

#[test]
fn stripping_brackets_leaves_no_bracket() {
    assert_eq!(lyrictag::domain::normalize::strip_bracketed("晴天 (Live)"), "晴天 ");
    assert_eq!(lyrictag::domain::normalize::strip_bracketed("夜曲【高清】"), "夜曲");
    assert_eq!(lyrictag::domain::normalize::strip_bracketed("夜曲"), "夜曲");
}

#[test]
fn split_artists_items_are_clean() {
    let v = lyrictag::domain::track::split_artists("A/B&C、D");
    assert_eq!(v, vec!["A", "B", "C", "D"]);
    assert!(lyrictag::domain::track::split_artists("   ").is_empty());
    for a in lyrictag::domain::track::split_artists(" 周杰伦 , (费玉清) ;") {
        assert!(!a.is_empty());
        assert_eq!(a.trim(), a);
    }
}

#[test]
fn version_markers_match_whole_words_or_chinese_substrings() {
    let strong = ["live", "cover", "现场", "伴奏"];
    assert!(lyrictag::domain::score::has_marker("晴天 (Live)", &strong));
    assert!(!lyrictag::domain::score::has_marker("Discovery", &strong));
    assert!(lyrictag::domain::score::has_marker("夜曲 现场版", &strong));
    assert!(lyrictag::domain::score::has_marker("夜曲-COVER", &strong));
    assert!(!lyrictag::domain::score::has_marker("夜曲", &strong));
}
