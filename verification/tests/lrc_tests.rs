use lyrictag::domain::lyrics::{LyricLine, VerbatimData};
use lyrictag::infra::error::MAX_LYRIC_BYTES;
use lyrictag::lrc::merge::merge_translation;
use lyrictag::lrc::normalize::{decode_bytes, normalize_newlines, strip_invisible};
use lyrictag::lrc::parse::{is_pure_metadata, parse};
use lyrictag::lrc::render::{format_timestamp, render_lrc, render_plain, validate, RenderOptions};
use lyrictag::lrc::verbatim::{downgrade_to_lines, looks_sane, parse_yrc};

fn line(ms: u64, t: &str) -> LyricLine {
    LyricLine::new(ms, t)
}

fn tline(ms: u64, t: &str, tr: Option<&str>) -> LyricLine {
    LyricLine { at_ms: ms, text: t.into(), trans: tr.map(|s| s.to_string()) }
}

// ── parse ──

#[test]
fn parses_basic_lines() {
    let p = parse("[00:12.34]故事的小黄花\n[00:16.72]从出生那年就飘着\n");
    assert_eq!(p.lines.len(), 2);
    assert_eq!(p.lines[0].at_ms, 12_340);
    assert_eq!(p.lines[0].text, "故事的小黄花");
    assert_eq!(p.lines[1].at_ms, 16_720);
}

#[test]
fn parses_multiple_stamps_on_one_line() {
    let p = parse("[00:01.00][00:05.00]副歌\n");
    assert_eq!(p.lines.len(), 2);
    assert_eq!(p.lines[0].at_ms, 1_000);
    assert_eq!(p.lines[1].at_ms, 5_000);
    assert_eq!(p.lines[0].text, "副歌");
}

#[test]
fn parses_metadata_tags() {
    let p = parse("[ti:夜曲]\n[ar:周杰伦]\n[al:十一月的萧邦]\n[00:01.00]词\n");
    assert_eq!(p.meta.title.as_deref(), Some("夜曲"));
    assert_eq!(p.meta.artist.as_deref(), Some("周杰伦"));
    assert_eq!(p.lines.len(), 1);
}

#[test]
fn offset_shifts_timeline() {
    let p = parse("[offset:500]\n[00:10.00]词\n");
    assert_eq!(p.lines[0].at_ms, 9_500);
}

#[test]
fn three_digit_fraction_is_milliseconds() {
    let p = parse("[00:01.234]词\n");
    assert_eq!(p.lines[0].at_ms, 1_234);
}

#[test]
fn recognises_credit_lines() {
    assert!(is_pure_metadata("作词 : 方文山"));
    assert!(is_pure_metadata("作曲 : 周杰伦"));
    assert!(!is_pure_metadata("故事的小黄花"));
}

#[test]
fn parse_empty_input_is_safe() {
    assert!(parse("").lines.is_empty());
    assert!(parse("\r\n\r\n").lines.is_empty());
}

#[test]
fn timed_empty_metadata_tag_is_dropped() {
    let p = parse("[00:00.00][by:]\n[00:00.00]赢 - GAI周延\n[00:08.67]词：GAI周延\n");
    assert_eq!(p.lines.len(), 2, "{:?}", p.lines);
    assert_eq!(p.lines[0].text, "赢 - GAI周延");
    assert!(!p.lines.iter().any(|l| l.text.contains("[by:]")));
}

#[test]
fn timed_metadata_tag_with_value_is_also_dropped() {
    let p = parse("[00:00.00][ti:夜曲]\n[00:01.00]词\n");
    assert_eq!(p.meta.title.as_deref(), Some("夜曲"));
    assert_eq!(p.lines.len(), 1);
    assert_eq!(p.lines[0].text, "词");
}

#[test]
fn bracketed_lyric_markers_are_kept() {
    let p = parse("[00:01.00][Chorus] 副歌开始\n");
    assert_eq!(p.lines.len(), 1);
    assert_eq!(p.lines[0].text, "[Chorus] 副歌开始");
}

#[test]
fn platform_private_tags_are_dropped() {
    let p = parse("[00:00.00][id:$00000000]\n[00:00.00]赢-I always win - GAI周延\n");
    assert_eq!(p.lines.len(), 1, "{:?}", p.lines);
    assert_eq!(p.lines[0].text, "赢-I always win - GAI周延");
    assert!(!p.lines.iter().any(|l| l.text.contains("$00000000")));
}

#[test]
fn other_private_tags_are_dropped_and_not_stored() {
    let p = parse("[sign:abc]\n[total:1234]\n[00:01.00]词\n");
    assert_eq!(p.lines.len(), 1);
    assert_eq!(p.lines[0].text, "词");
    assert!(p.meta.is_empty());
}

#[test]
fn parse_sorts_and_collapses_repeats() {
    let p = parse("[00:03.00]c\n[00:01.00]a\n[00:01.00]a\n[00:02.00]b\n");
    let times: Vec<u64> = p.lines.iter().map(|l| l.at_ms).collect();
    assert_eq!(times, vec![1_000, 2_000, 3_000]);
}

#[test]
fn negative_offset_moves_later_and_clamps_at_zero() {
    let p = parse("[offset:-250]\n[00:01.00]a\n");
    assert_eq!(p.lines[0].at_ms, 1_250);
    let p = parse("[offset:5000]\n[00:01.00]a\n");
    assert_eq!(p.lines[0].at_ms, 0);
}

#[test]
fn untimed_text_gets_time_zero_and_credits_are_dropped() {
    let p = parse("just words\n作词：某人\n");
    assert_eq!(p.lines.len(), 1);
    assert_eq!(p.lines[0].at_ms, 0);
    assert_eq!(p.lines[0].text, "just words");
}

// ── merge ──

#[test]
fn equal_counts_merge_by_index() {
    let o = vec![line(1000, "a"), line(2000, "b")];
    let t = vec![line(1000, "A"), line(2000, "B")];
    let m = merge_translation(&o, &t);
    assert_eq!(m.len(), 2);
    assert_eq!(m[0].trans.as_deref(), Some("A"));
    assert_eq!(m[1].trans.as_deref(), Some("B"));
}

#[test]
fn unequal_counts_match_on_timeline() {
    let o = vec![line(1000, "a"), line(2000, "b"), line(3000, "c")];
    let t = vec![line(2000, "B"), line(3000, "C")];
    let m = merge_translation(&o, &t);
    assert_eq!(m.len(), 3);
    assert_eq!(m.iter().find(|l| l.at_ms == 1000).unwrap().trans, None);
    assert_eq!(m.iter().find(|l| l.at_ms == 2000).unwrap().trans.as_deref(), Some("B"));
}

#[test]
fn unmatched_translation_lines_are_appended_not_lost() {
    let o = vec![line(1000, "a")];
    let t = vec![line(1000, "A"), line(9000, "extra")];
    let m = merge_translation(&o, &t);
    assert_eq!(m.len(), 2);
    assert!(m.iter().any(|l| l.at_ms == 9000));
}

#[test]
fn empty_translation_is_a_noop() {
    let o = vec![line(1000, "a")];
    assert_eq!(merge_translation(&o, &[]), o);
}

#[test]
fn result_is_sorted() {
    let o = vec![line(3000, "c"), line(1000, "a")];
    let t = vec![line(1500, "x")];
    let m = merge_translation(&o, &t);
    assert!(m.windows(2).all(|w| w[0].at_ms <= w[1].at_ms));
}

#[test]
fn translation_within_one_millisecond_pairs() {
    let o = vec![line(1000, "a"), line(2000, "b"), line(3000, "c")];
    let t = vec![line(1001, "A"), line(2500, "X")];
    let m = merge_translation(&o, &t);
    assert_eq!(m.len(), 4);
    assert_eq!(m[0].trans.as_deref(), Some("A"));
    assert_eq!(m[2].text, "X");
    assert_eq!(m[2].trans, None);
}

// ── normalize ──

#[test]
fn utf8_bom_is_removed() {
    let bytes = b"\xEF\xBB\xBF[00:01.00]abc";
    assert_eq!(decode_bytes(bytes), "[00:01.00]abc");
}

#[test]
fn gbk_falls_back_correctly() {
    let gbk = [0xD2, 0xB9, 0xC7, 0xFA];
    assert_eq!(decode_bytes(&gbk), "夜曲");
}

#[test]
fn newlines_are_unified() {
    assert_eq!(normalize_newlines("a\r\nb\rc"), "a\nb\nc");
}

#[test]
fn zero_width_chars_are_dropped() {
    assert_eq!(strip_invisible("晴\u{200B}天"), "晴天");
}

#[test]
fn byte_order_marks_and_no_break_spaces() {
    assert_eq!(normalize_newlines("\u{FEFF}\u{FEFF}a\r\r\nb"), "a\n\nb");
    assert_eq!(strip_invisible("a\u{00A0}b\u{202E}"), "a b");
}

// ── render ──

#[test]
fn timestamp_format_is_mm_ss_xx() {
    assert_eq!(format_timestamp(0), "[00:00.00]");
    assert_eq!(format_timestamp(12_340), "[00:12.34]");
    assert_eq!(format_timestamp(227_000), "[03:47.00]");
    assert_eq!(format_timestamp(3_599_990), "[59:59.99]");
}

#[test]
fn long_timestamps_keep_all_minute_digits() {
    assert_eq!(format_timestamp(6_000_000), "[100:00.00]");
}

#[test]
fn one_line_merges_with_double_space() {
    let lines = vec![tline(1000, "原文", Some("译文"))];
    let text = render_lrc(&lines, &RenderOptions::default());
    assert_eq!(text, "[00:01.00]原文  译文\n");
}

#[test]
fn two_line_mode_repeats_timestamp() {
    let lines = vec![tline(1000, "原文", Some("译文"))];
    let opts = RenderOptions { one_line: false, ..Default::default() };
    assert_eq!(render_lrc(&lines, &opts), "[00:01.00]原文\n[00:01.00]译文\n");
}

#[test]
fn translation_can_be_excluded() {
    let lines = vec![tline(1000, "原文", Some("译文"))];
    let opts = RenderOptions { include_translation: false, ..Default::default() };
    assert_eq!(render_lrc(&lines, &opts), "[00:01.00]原文\n");
}

#[test]
fn empty_lines_are_dropped() {
    let lines = vec![tline(0, "", None), tline(1000, "词", None)];
    assert_eq!(render_lrc(&lines, &RenderOptions::default()), "[00:01.00]词\n");
}

#[test]
fn blank_line_with_translation_keeps_its_time() {
    let lines = vec![tline(2000, "  ", Some(" 间奏 "))];
    assert_eq!(render_lrc(&lines, &RenderOptions::default()), "[00:02.00]间奏\n");
}

#[test]
fn credits_can_be_stripped() {
    let lines = vec![tline(0, "作词：某人", None), tline(1000, "词", None)];
    let opts = RenderOptions { strip_credits: true, ..Default::default() };
    assert_eq!(render_lrc(&lines, &opts), "[00:01.00]词\n");
}

#[test]
fn plain_rendering_trims_and_joins() {
    let lines = vec![tline(0, " a ", None), tline(1, "  ", None), tline(2, "b", None)];
    assert_eq!(render_plain(&lines), "a\nb");
}

#[test]
fn validation_rejects_backwards_timeline() {
    let lines = vec![tline(10_000, "a", None), tline(1_000, "b", None)];
    assert!(validate(&lines, "x").is_err());
}

#[test]
fn validation_rejects_empty_content() {
    assert!(validate(&[], "").is_err());
}

#[test]
fn validation_rejects_oversized_payload() {
    let lines = vec![tline(0, "a", None)];
    let big = "x".repeat(MAX_LYRIC_BYTES + 1);
    assert!(validate(&lines, &big).is_err());
}

#[test]
fn validation_accepts_small_backwards_steps() {
    let lines = vec![tline(2_000, "a", None), tline(1_500, "b", None)];
    assert!(validate(&lines, "x").is_ok());
}

// ── verbatim ──

#[test]
fn parses_real_yrc_shape() {
    let yrc = "[0,1000](0,500,0) 作词 : (500,500,0)周杰伦\n[1000,2000](1000,1000,0)故事的小黄花";
    let d = parse_yrc(yrc);
    assert_eq!(d.lines.len(), 2);
    assert_eq!(d.lines[0].at_ms, 0);
    assert_eq!(d.lines[0].words.len(), 2);
    assert_eq!(d.lines[0].words[1].text, "周杰伦");
    assert_eq!(d.lines[1].at_ms, 1000);
    assert_eq!(d.lines[1].words.last().unwrap().text, "故事的小黄花");
}

#[test]
fn downgrade_keeps_timeline_and_joins_words() {
    let d = parse_yrc("[1000,2000](1000,1000,0)故事的小(2000,1000,0)黄花");
    let lines = downgrade_to_lines(&d);
    assert_eq!(lines.len(), 1);
    assert_eq!(lines[0].at_ms, 1000);
    assert_eq!(lines[0].text, "故事的小黄花");
}

#[test]
fn sanity_check_rejects_non_monotonic() {
    let d = parse_yrc("[5000,100](5000,100,0)a\n[1000,100](1000,100,0)b");
    assert!(!looks_sane(&d));
}

#[test]
fn verbatim_empty_input_is_safe() {
    assert!(parse_yrc("").lines.is_empty());
    assert!(!looks_sane(&VerbatimData::default()));
}

#[test]
fn yrc_line_without_word_tags_is_one_word() {
    let d = parse_yrc("[100,200] 整行 ");
    assert_eq!(d.lines.len(), 1);
    assert_eq!(d.lines[0].words.len(), 1);
    assert_eq!(d.lines[0].words[0].text, "整行");
    assert!(looks_sane(&d));
}

#[test]
fn parse_drops_repeats_that_are_not_adjacent() {
    let p = parse("[00:01.00]a\n[00:01.00]b\n[00:01.00]a\n");
    let texts: Vec<&str> = p.lines.iter().map(|l| l.text.as_str()).collect();
    assert_eq!(texts, vec!["a", "b"]);
    assert!(p.lines.iter().all(|l| l.at_ms == 1_000));
}

#[test]
fn rendered_line_parses_back_to_the_hundredth() {
    let text = format!("{}{}", lyrictag::lrc::render::format_timestamp(61_234), "晴天 (Live)");
    let p = parse(&text);
    assert_eq!(p.lines.len(), 1);
    assert_eq!(p.lines[0].at_ms, 61_230);
    assert_eq!(p.lines[0].text, "晴天 (Live)");
    assert!(p.meta.is_empty());
}
