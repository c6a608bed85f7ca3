use lyrictag::infra::error::AppError;
use lyrictag::provider::cover::{cover_plan, scaled_cover, CoverPlan, ImageKind};
use lyrictag::provider::kugou::model::pick_best_song;
use lyrictag::provider::cover::normalize as cover_normalize;
use lyrictag::provider::kugou::api::{CLIENT_DOWNLOAD, CLIENT_SEARCH};
use lyrictag::provider::kuwo::api::KW_TOKEN;
use lyrictag::provider::kuwo::model::{
    cover_url as kuwo_cover_url, field as kuwo_field, parse_search as kuwo_parse_search,
    split_objects,
};
use lyrictag::provider::qq::model::cover_url_from_pmid;
use lyrictag::domain::candidate::ProviderId;
use lyrictag::domain::lyrics::LyricLine;
use lyrictag::provider::util::{
    build_lyrics, decode_base64, looks_like_lrc, normalize_lyric_payload, render_lines,
    render_preview, strip_xml_comments, to_ms, unescape_twice,
};

fn b64(s: &str) -> String {
    base64::Engine::encode(&base64::engine::general_purpose::STANDARD, s)
}

#[test]
fn base64_roundtrip() {
    let encoded = b64("[00:01.00]测试");
    assert_eq!(decode_base64(&encoded).unwrap(), "[00:01.00]测试");
    assert!(decode_base64("!!!").is_err());
}

#[test]
fn double_unescape_is_applied() {
    assert_eq!(unescape_twice("&amp;amp;"), "&");
    assert_eq!(unescape_twice("a &amp;lt; b"), "a < b");
}

#[test]
fn xml_comments_are_removed() {
    let xml = "<!-- c1 --><content>abc</content><!-- c2 -->";
    assert_eq!(strip_xml_comments(xml), "<content>abc</content>");
}

#[test]
fn unclosed_xml_comment_drops_the_rest() {
    assert_eq!(strip_xml_comments("a<!-- b"), "a");
    assert_eq!(strip_xml_comments("plain"), "plain");
}

#[test]
fn lrc_detection() {
    assert!(looks_like_lrc("[00:12.34]abc"));
    assert!(looks_like_lrc("[03:47.00]abc"));
    assert!(!looks_like_lrc("just text"));
    assert!(!looks_like_lrc("[ti:标题]"));
}

#[test]
fn base64_payload_is_unwrapped() {
    let encoded = b64("[00:01.00]你好\n[00:02.00]世界");
    let out = normalize_lyric_payload(&encoded);
    assert!(looks_like_lrc(&out), "{out}");
}

#[test]
fn escaped_newlines_are_decoded() {
    let out = normalize_lyric_payload("[00:01.00]a\\n[00:02.00]b");
    assert_eq!(out.lines().count(), 2, "{out:?}");
}

#[test]
fn durations_become_milliseconds() {
    assert_eq!(to_ms(0), 0);
    assert_eq!(to_ms(241), 241_000);
    assert_eq!(to_ms(9_999), 9_999_000);
    assert_eq!(to_ms(10_000), 10_000);
    assert_eq!(to_ms(227_000), 227_000);
}

#[test]
fn build_and_preview() {
    let l = build_lyrics(ProviderId::QQ, "7", "[00:01.00]原文\n", "[00:01.00]译文\n");
    assert_eq!(l.lines.len(), 1);
    assert_eq!(l.trans.len(), 1);
    assert_eq!(l.song_id, "7");
    assert!(!l.is_instrumental);
    assert_eq!(render_preview(&l, true), "[00:01.00]原文  译文\n");
    assert_eq!(render_preview(&l, false), "[00:01.00]原文\n");
    assert_eq!(render_lines(&[LyricLine::new(1000, "词")]), "[00:01.00]词\n");
}

// ── KuWo ────────────────────────────────────────────────────────────────

const KUWO_SAMPLE: &str = r#"{'abslist':[{
    'SONGNAME':'那一年那一天&nbsp;(cover:&nbsp;朱海波)',
    'ARTIST':'赵荣光',
    'ALBUM':'那一年那一天，',
    'ALBUMID':'36756038',
    'DURATION':'241',
    'DC_TARGETID':'268780364',
    'MUSICRID':'MUSIC_268780364',
    'web_albumpic_short':'120/47/90/2417553615.jpg',
    'FORMATS':'AAC48|MP3128'
}]}"#;

#[test]
fn parses_pseudo_json_search_response() {
    let c = kuwo_parse_search(KUWO_SAMPLE);
    assert_eq!(c.len(), 1);
    assert_eq!(c[0].song_id, "268780364");
    assert_eq!(c[0].artists, vec!["赵荣光"]);
    assert!(!c[0].title.contains("&nbsp;"), "{}", c[0].title);
    assert!(c[0].title.contains("那一年那一天"), "{}", c[0].title);
    assert_eq!(c[0].album.as_deref(), Some("那一年那一天"));
    assert_eq!(c[0].duration_ms, Some(241_000));
    assert_eq!(c[0].provider, ProviderId::KuWo);
}

#[test]
fn kuwo_never_reports_a_year() {
    let c = kuwo_parse_search(KUWO_SAMPLE);
    assert_eq!(c[0].year, None);
}

#[test]
fn builds_cover_url_from_path_fragment() {
    let c = kuwo_parse_search(KUWO_SAMPLE);
    assert_eq!(
        c[0].cover_url.as_deref(),
        Some("https://img1.kuwo.cn/star/albumcover/120/47/90/2417553615.jpg")
    );
}

#[test]
fn numeric_target_id_preferred_over_musicrid() {
    let c = kuwo_parse_search(KUWO_SAMPLE);
    assert_eq!(c[0].song_id, "268780364");
}

#[test]
fn falls_back_to_musicrid_when_target_id_absent() {
    let body = r#"{'abslist':[{'SONGNAME':'x','ARTIST':'y','MUSICRID':'MUSIC_999'}]}"#;
    let c = kuwo_parse_search(body);
    assert_eq!(c[0].song_id, "999");
}

#[test]
fn malformed_response_is_empty_not_panic() {
    assert!(kuwo_parse_search("").is_empty());
    assert!(kuwo_parse_search("{'abslist':").is_empty());
    assert!(kuwo_parse_search("complete garbage").is_empty());
}

#[test]
fn braces_inside_quotes_do_not_break_object_split() {
    let body = r#"{'abslist':[{'SONGNAME':'a{b}c','ARTIST':'x','DC_TARGETID':'1'}]}"#;
    let c = kuwo_parse_search(body);
    assert_eq!(c.len(), 1);
    assert_eq!(c[0].title, "a{b}c");
}

#[test]
fn quoted_keys_are_matched() {
    let obj = "{'SONGNAME':'x','DC_TARGETID':'268780364','ALBUMID':'1'}";
    assert_eq!(kuwo_field(obj, "SONGNAME").as_deref(), Some("x"));
    assert_eq!(kuwo_field(obj, "DC_TARGETID").as_deref(), Some("268780364"));
    assert_eq!(kuwo_field(obj, "ALBUM"), None);
}

#[test]
fn kuwo_fields_take_every_value_form() {
    let obj = r#"{"A" : "dq", 'B':  42 , 'C':'  ', 'D':'http://x/y.jpg'}"#;
    assert_eq!(kuwo_field(obj, "A").as_deref(), Some("dq"));
    assert_eq!(kuwo_field(obj, "B").as_deref(), Some("42"));
    assert_eq!(kuwo_field(obj, "C"), None);
    assert_eq!(kuwo_cover_url("{'hts_MVPIC':'http://x/y.jpg'}").as_deref(), Some("http://x/y.jpg"));
    assert_eq!(kuwo_cover_url("{'SONGNAME':'x'}"), None);
    let parts = split_objects("{'a':'}'},{x{y}z} trailing }");
    assert_eq!(parts, vec!["{'a':'}'}".to_string(), "{x{y}z}".to_string()]);
}

#[test]
fn kuwo_objects_without_id_or_name_are_dropped() {
    let body = "{'abslist':[{'SONGNAME':'x'},{'DC_TARGETID':'5'},{'SONGNAME':'ok','DC_TARGETID':'7','DURATION':'+9x'}]}";
    let c = kuwo_parse_search(body);
    assert_eq!(c.len(), 1);
    assert_eq!(c[0].song_id, "7");
    assert_eq!(c[0].duration_ms, None);
    assert!(c[0].artists.is_empty());
}

#[test]
fn anonymous_token_is_a_fixed_public_value() {
    assert_eq!(KW_TOKEN, "ABCDE12345");
}

#[test]
fn client_values_differ_between_steps() {
    assert_ne!(CLIENT_SEARCH, CLIENT_DOWNLOAD);
    assert_eq!(CLIENT_SEARCH, "mobi");
    assert_eq!(CLIENT_DOWNLOAD, "iphone");
}

#[test]
fn cover_url_rule() {
    assert_eq!(
        cover_url_from_pmid("001ULa5R3AZudL_3"),
        "https://y.qq.com/music/photo_new/T002R500x500M000001ULa5R3AZudL_3.jpg"
    );
}

// ── cover ───────────────────────────────────────────────────────────────

fn tiny_png() -> Vec<u8> {
    vec![
        0x89, 0x50, 0x4E, 0x47, 0x0D, 0x0A, 0x1A, 0x0A, 0x00, 0x00, 0x00, 0x0D, 0x49, 0x48, 0x44,
        0x52, 0x00, 0x00, 0x00, 0x01, 0x00, 0x00, 0x00, 0x01, 0x08, 0x02, 0x00, 0x00, 0x00, 0x90,
        0x77, 0x53, 0xDE, 0x00, 0x00, 0x00, 0x0C, 0x49, 0x44, 0x41, 0x54, 0x08, 0xD7, 0x63, 0xF8,
        0xCF, 0xC0, 0x00, 0x00, 0x03, 0x01, 0x01, 0x00, 0x18, 0xDD, 0x8D, 0xB0, 0x00, 0x00, 0x00,
        0x00, 0x49, 0x45, 0x4E, 0x44, 0xAE, 0x42, 0x60, 0x82,
    ]
}

#[test]
fn accepts_a_real_png() {
    let c = cover_normalize(tiny_png()).unwrap();
    assert_eq!(c.mime, "image/png");
    assert_eq!(c.bytes, tiny_png());
}

#[test]
fn rejects_html_error_page() {
    let html = b"<html><body>404 Not Found</body></html>".to_vec();
    assert!(cover_normalize(html).is_err());
}

#[test]
fn rejects_empty_and_garbage() {
    assert!(cover_normalize(Vec::new()).is_err());
    assert!(cover_normalize(vec![0u8; 64]).is_err());
}

fn kugou_song(title: &str, secs: u64, hash: &str) -> lyrictag::provider::kugou::model::KugouSong {
    lyrictag::provider::kugou::model::KugouSong {
        candidate: lyrictag::domain::candidate::Candidate {
            provider: ProviderId::KuGou,
            song_id: hash.into(),
            access_key: None,
            title: title.into(),
            artists: vec!["测试".into()],
            album: None,
            year: None,
            track_no: None,
            duration_ms: Some(secs * 1000),
            cover_url: None,
        },
        file_hash: hash.into(),
    }
}

#[test]
fn picks_song_by_duration_not_title() {
    let songs = vec![kugou_song("乱码标题", 164, "H1"), kugou_song("晴天", 269, "H2")];
    let i = pick_best_song(&songs, Some(268)).unwrap();
    assert_eq!(songs[i].file_hash, "H2");
}

#[test]
fn falls_back_to_first_without_local_duration() {
    let songs = vec![kugou_song("a", 100, "H1"), kugou_song("b", 200, "H2")];
    let i = pick_best_song(&songs, None).unwrap();
    assert_eq!(songs[i].file_hash, "H1");
}

#[test]
fn empty_song_list_yields_none() {
    assert!(pick_best_song(&[], None).is_none());
}

#[test]
fn kugou_pick_prefers_a_known_duration_and_the_first_of_equals() {
    let mut none = kugou_song("x", 0, "H0");
    none.candidate.duration_ms = None;
    // 200 s and 240 s both lie 20 s from 220 s: the first of them wins.
    let songs = vec![none, kugou_song("a", 200, "H1"), kugou_song("b", 240, "H2")];
    let i = pick_best_song(&songs, Some(220)).unwrap();
    assert_eq!(songs[i].file_hash, "H1");
}

#[test]
fn cover_plan_keeps_small_and_scales_large_covers() {
    assert_eq!(cover_plan(Some(ImageKind::Jpeg), Some((1000, 800))), Ok(CoverPlan::Keep(ImageKind::Jpeg)));
    assert_eq!(cover_plan(Some(ImageKind::Png), Some((1001, 10))), Ok(CoverPlan::Scale { png: true }));
    assert_eq!(cover_plan(Some(ImageKind::WebP), Some((10, 2000))), Ok(CoverPlan::Scale { png: false }));
    assert_eq!(cover_plan(None, None), Err("封面内容不是有效的图片".to_string()));
    assert_eq!(cover_plan(Some(ImageKind::Other), None), Err("封面图片格式不受支持".to_string()));
    assert_eq!(cover_plan(Some(ImageKind::Gif), None), Err("封面图片无法解析".to_string()));
}

#[test]
fn scaled_cover_takes_the_scaled_bytes_or_reports_the_failure() {
    let c = scaled_cover(false, Ok(vec![1, 2, 3])).expect("scaled");
    assert_eq!(c.bytes, vec![1, 2, 3]);
    assert_eq!(c.mime, "image/jpeg");
    assert_eq!(scaled_cover(true, Ok(vec![9])).expect("scaled").mime, "image/png");
    match scaled_cover(true, Err("boom".into())) {
        Err(AppError::BadResponse(m)) => assert_eq!(m, "封面缩放失败：boom"),
        _ => panic!("expected a refusal"),
    }
}
