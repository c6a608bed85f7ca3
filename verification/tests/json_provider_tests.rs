use lyrictag::provider::qq::model::primary_lyrics;
use lyrictag::provider::qq::model::fallback_lyrics;
use lyrictag::provider::kugou::model::search_candidates;
use lyrictag::provider::kugou::model::download_key;
use lyrictag::domain::candidate::{Candidate, ProviderId};
use lyrictag::domain::normalize::is_garbled;
use lyrictag::provider::json::Json;
use lyrictag::provider::kugou::model::{
    fill_cover_size, parse_lyric as kugou_parse_lyric, parse_lyric_candidates, parse_song_search,
};
use lyrictag::provider::kuwo::model::parse_lyric as kuwo_parse_lyric;
use lyrictag::provider::netease::crypto::{rsa_encode, secret_key_from_seed, weapi_form};
use lyrictag::infra::error::AppError;
use lyrictag::provider::netease::model::{
    enrich_from_detail, ensure_ok, parse_lyric as netease_parse_lyric, parse_search as netease_parse_search,
};
use lyrictag::provider::qq::model::{
    parse_lyric as qq_parse_lyric, parse_lyric_xml, parse_search as qq_parse_search,
};
use lyrictag::provider::util::{str_at, u64_at};

/// Reads JSON text into the library's value, as the application does.
fn json(text: &str) -> Json {
    fn conv(v: &serde_json::Value) -> Json {
        match v {
            serde_json::Value::Null => Json::Null,
            serde_json::Value::Bool(b) => Json::Bool(*b),
            serde_json::Value::Number(n) => Json::Num {
                text: n.to_string(),
                whole: n.as_u64().or_else(|| n.as_f64().map(|f| f as u64)),
            },
            serde_json::Value::String(s) => Json::Str {
                text: s.clone(),
                float_whole: s.trim().parse::<f64>().ok().map(|f| f as u64),
            },
            serde_json::Value::Array(a) => Json::Arr(a.iter().map(conv).collect()),
            serde_json::Value::Object(o) => {
                Json::Obj(o.iter().map(|(k, x)| (k.clone(), conv(x))).collect())
            }
        }
    }
    conv(&serde_json::from_str(text).unwrap())
}

fn b64(s: &str) -> String {
    base64::Engine::encode(&base64::engine::general_purpose::STANDARD, s)
}

fn base(title: &str, artists: &[&str], album: Option<&str>, year: Option<u32>, ms: Option<u64>) -> Candidate {
    Candidate {
        provider: ProviderId::KuGou,
        song_id: "HASH".into(),
        access_key: None,
        title: title.into(),
        artists: artists.iter().map(|a| a.to_string()).collect(),
        album: album.map(|a| a.to_string()),
        year,
        track_no: None,
        duration_ms: ms,
        cover_url: Some("http://x/y.jpg".into()),
    }
}

// ── util ────────────────────────────────────────────────────────────────

#[test]
fn nested_lookup_and_flexible_numbers() {
    let v = json(r#"{"a":{"b":{"id":123,"name":"x","d":"456"}}}"#);
    assert_eq!(str_at(&v, &["a", "b", "id"]).as_deref(), Some("123"));
    assert_eq!(u64_at(&v, &["a", "b", "d"]), Some(456));
    assert_eq!(str_at(&v, &["a", "b", "missing"]), None);
}

#[test]
fn empty_strings_are_none() {
    let v = json(r#"{"n": "   "}"#);
    assert_eq!(str_at(&v, &["n"]), None);
}

#[test]
fn fractional_numbers_read_as_whole_numbers() {
    let v = json(r#"{"a":"227.5","b":227.9,"c":" 12 ","d":true}"#);
    assert_eq!(u64_at(&v, &["a"]), Some(227));
    assert_eq!(u64_at(&v, &["b"]), Some(227));
    assert_eq!(u64_at(&v, &["c"]), Some(12));
    assert_eq!(u64_at(&v, &["d"]), None);
    assert_eq!(str_at(&v, &["c"]).as_deref(), Some("12"));
}

// ── QQ ──────────────────────────────────────────────────────────────────

#[test]
fn qq_parses_search_result() {
    let v = json(
        r#"{"code":0,"req_1":{"code":0,"data":{"body":{"song":{"list":[{
        "id": 123456, "mid": "003jsz8b1bD48v", "name": "多情的海", "interval": 241,
        "singer": [{"name":"祖海"}],
        "album": {"name":"飘动的红丝带","pmid":"001ULa5R3AZudL_3"},
        "time_public": "2004-03-01"}]}}}}}"#,
    );
    let c = qq_parse_search(&v);
    assert_eq!(c.len(), 1);
    assert_eq!(c[0].song_id, "123456");
    assert_eq!(c[0].access_key.as_deref(), Some("003jsz8b1bD48v"));
    assert_eq!(c[0].title, "多情的海");
    assert_eq!(c[0].artists, vec!["祖海"]);
    assert_eq!(c[0].year, Some(2004));
    assert_eq!(c[0].duration_ms, Some(241_000));
    assert!(c[0].cover_url.as_ref().unwrap().contains("001ULa5R3AZudL_3"));
    assert_eq!(c[0].track_no, None);
}

#[test]
fn tolerant_to_alternative_paths() {
    let v = json(r#"{"data":{"song":{"list":[{"id":1,"mid":"m","name":"x","interval":100,"singer":[],"album":{}}]}}}"#);
    assert_eq!(qq_parse_search(&v).len(), 1);
}

#[test]
fn empty_response_is_empty_not_error() {
    assert!(qq_parse_search(&json(r#"{"code":0,"req_1":{"code":0,"data":{}}}"#)).is_empty());
}

#[test]
fn parses_json_lyric_payload() {
    let v = json(r#"{"lyric": "[00:01.00]a&amp;#10;[00:02.00]b", "trans": ""}"#);
    let l = qq_parse_lyric(&v, "1").unwrap();
    assert_eq!(l.provider, ProviderId::QQ);
    assert_eq!(l.lines.len(), 2);
}

#[test]
fn parses_xml_lyric_payload_with_comments() {
    let xml = format!("<!-- junk --><content>{}</content><!-- more -->", b64("[00:01.00]你好"));
    let l = parse_lyric_xml(&xml, "1").unwrap();
    assert_eq!(l.lines.len(), 1);
    assert_eq!(l.lines[0].text, "你好");
    assert!(!l.raw_lrc.contains("junk"));
}

// ── KuGou ───────────────────────────────────────────────────────────────

#[test]
fn parses_song_search() {
    let v = json(
        r#"{"data":{"lists":[{"SongName": "晴天", "SingerName": "周杰伦", "AlbumName": "叶惠美",
        "Duration": 164, "FileHash": "18008576BCFBA9750C2C60EB6C204270",
        "Image": "http://imge.kugou.com/stdmusic/{size}/20210801/20210801101350300002.jpg",
        "PublishDate": "2021-06-20"}]}}"#,
    );
    let songs = parse_song_search(&v);
    assert_eq!(songs.len(), 1);
    assert_eq!(songs[0].file_hash, "18008576BCFBA9750C2C60EB6C204270");
    let c = &songs[0].candidate;
    assert_eq!(c.title, "晴天");
    assert_eq!(c.artists, vec!["周杰伦"]);
    assert_eq!(c.year, Some(2021));
    assert_eq!(c.duration_ms, Some(164_000));
    let cover = c.cover_url.as_ref().unwrap();
    assert!(!cover.contains("{size}"), "{cover}");
    assert!(cover.contains("/480/"), "{cover}");
}

#[test]
fn parses_lyric_candidates() {
    let b = base("晴天", &["周杰伦"], Some("叶惠美"), Some(2003), Some(269_000));
    let v = json(r#"{"candidates":[{"id": "abc123","accesskey": "KEY456","song": "晴天","singer": "周杰伦","duration": 269000,"score": 95}]}"#);
    let out = parse_lyric_candidates(&v, &b);
    assert_eq!(out.len(), 1);
    assert_eq!(out[0].song_id, "abc123");
    assert_eq!(out[0].access_key.as_deref(), Some("KEY456"));
    assert_eq!(out[0].album.as_deref(), Some("叶惠美"));
}

#[test]
fn lyric_candidate_falls_back_to_song_duration() {
    let b = base("星梦-XingMeng", &["GAI周延"], None, Some(2026), Some(305_000));
    let with_zero = json(r#"{"candidates":[{"id":"1","accesskey":"K","song":"星梦-XingMeng","singer":"GAI周延","duration":0}]}"#);
    assert_eq!(parse_lyric_candidates(&with_zero, &b)[0].duration_ms, Some(305_000));
    let with_own = json(r#"{"candidates":[{"id":"1","accesskey":"K","song":"星梦-XingMeng","singer":"GAI周延","duration":310000}]}"#);
    assert_eq!(parse_lyric_candidates(&with_own, &b)[0].duration_ms, Some(310_000));
}

#[test]
fn zero_candidates_is_empty_not_error() {
    let b = base("x", &[], None, None, None);
    assert!(parse_lyric_candidates(&json(r#"{"status":200,"candidates":[]}"#), &b).is_empty());
    assert!(parse_lyric_candidates(&json(r#"{"status":200}"#), &b).is_empty());
}

#[test]
fn lyric_candidate_without_singer_keeps_the_song_artists() {
    let b = base("晴天", &["周杰伦"], None, None, None);
    let v = json(r#"{"candidates":[{"id":"1","accesskey":"K"},{"id":"2"}]}"#);
    let out = parse_lyric_candidates(&v, &b);
    assert_eq!(out.len(), 1);
    assert_eq!(out[0].artists, vec!["周杰伦"]);
    assert_eq!(out[0].title, "晴天");
    assert_eq!(out[0].cover_url.as_deref(), Some("http://x/y.jpg"));
}

#[test]
fn parses_base64_lyric_body() {
    let v = json(&format!(r#"{{"status":200,"content":"{}"}}"#, b64("[00:01.00]你好")));
    let l = kugou_parse_lyric(&v, "1").unwrap();
    assert_eq!(l.lines.len(), 1);
    assert_eq!(l.lines[0].text, "你好");
}

#[test]
fn garbled_songname_is_kept_for_scoring_to_penalise() {
    let v = json(r#"{"data":{"lists":[{"SongName": "\uFFFD\uFFFD\uFFFD\uFFFD","SingerName": "周杰伦","Duration": 230,"FileHash": "H"}]}}"#);
    let songs = parse_song_search(&v);
    assert_eq!(songs.len(), 1);
    assert!(is_garbled(&songs[0].candidate.title));
}

#[test]
fn cover_template_size_is_filled_everywhere() {
    assert_eq!(fill_cover_size("a/{size}/b/{size}"), "a/480/b/480");
    assert_eq!(fill_cover_size("{siz}"), "{siz}");
}

// ── NetEase ─────────────────────────────────────────────────────────────

#[test]
fn model_parses_search_result() {
    let v = json(r#"{"code":200,"result":{"songs":[{"id": 185809,"name": "夜曲","artists": [{"name":"周杰伦"}],"album": {"name":"十一月的萧邦"},"duration": 227000}]}}"#);
    let c = netease_parse_search(&v);
    assert_eq!(c.len(), 1);
    assert_eq!(c[0].song_id, "185809");
    assert_eq!(c[0].title, "夜曲");
    assert_eq!(c[0].artists, vec!["周杰伦"]);
    assert_eq!(c[0].album.as_deref(), Some("十一月的萧邦"));
    assert_eq!(c[0].duration_ms, Some(227_000));
}

#[test]
fn parses_detail_and_enriches() {
    let v = json(
        r#"{"code":200,"songs":[{"id": 185809,"name": "夜曲","dt": 227000,"no": 3,
        "ar": [{"name":"周杰伦"}],
        "al": {"name": "十一月的萧邦","picUrl": "https://p2.music.126.net/x.jpg","publishTime": 1130256000000}}]}"#,
    );
    let mut c = base("夜曲", &["周杰伦"], Some("十一月的萧邦"), None, Some(227_000));
    c.provider = ProviderId::NetEase;
    c.song_id = "185809".into();
    c.cover_url = None;
    assert!(enrich_from_detail(&v, &mut c));
    assert_eq!(c.track_no, Some(3));
    assert_eq!(c.year, Some(2005));
    assert!(c.cover_url.unwrap().contains("126.net"));
}

#[test]
fn enrichment_without_songs_changes_nothing() {
    let mut c = base("夜曲", &[], None, None, None);
    assert!(!enrich_from_detail(&json(r#"{"code":200}"#), &mut c));
    assert_eq!(c.title, "夜曲");
}

#[test]
fn parses_lyric_fields() {
    let v = json(
        r#"{"lrc": {"lyric": "[00:00.00] 作词 : 周杰伦\n[00:03.42] 一群嗜血的蚂蚁"},
        "tlyric": {"lyric": "[00:03.42] A group of bloodthirsty ants"},
        "romalrc": {"lyric": "[00:03.42] yi qun shi xue de ma yi"},
        "yrc": {"yrc": "[0,1000](0,500,0) 作词 : (500,500,0)周杰伦\n[3420,2000](3420,1000,0)一群嗜血的(4420,1000,0)蚂蚁"}}"#,
    );
    let l = netease_parse_lyric(&v, "185809").unwrap();
    assert_eq!(l.lines.len(), 2);
    assert!(l.has_translation());
    assert!(l.has_roma());
    assert!(l.has_verbatim());
    assert_eq!(l.lines[1].at_ms, 3420);
}

#[test]
fn partial_yrc_does_not_truncate_lyrics() {
    let v = json(
        r#"{"lrc": {"lyric": "[00:00.00]第一行\n[00:03.42]第二行\n[00:06.00]第三行"},
        "yrc": {"yrc": "[0,1000](0,500,0)第一行"}}"#,
    );
    let l = netease_parse_lyric(&v, "1").unwrap();
    assert_eq!(l.lines.len(), 3);
    assert!(!l.has_verbatim());
}

#[test]
fn empty_lyric_does_not_panic() {
    let l = netease_parse_lyric(&json("{}"), "1").unwrap();
    assert!(!l.has_content());
    assert!(!l.is_instrumental);
}

#[test]
fn netease_instrumental_marker_is_detected() {
    let v = json(r#"{"lrc":{"lyric":"[00:00.00]纯音乐，请欣赏"}}"#);
    let l = netease_parse_lyric(&v, "1").unwrap();
    assert!(l.is_instrumental);
}

#[test]
fn rsa_output_is_padded_to_256_hex_chars() {
    for i in 0u8..8 {
        let key = secret_key_from_seed(&[i, 1, 2, 3]);
        assert_eq!(key.len(), 16);
        let enc = rsa_encode(&key);
        assert_eq!(enc.len(), 256, "{enc}");
        assert!(enc.chars().all(|c| c.is_ascii_hexdigit()));
    }
}

#[test]
fn secret_keys_do_not_repeat() {
    let a = secret_key_from_seed(b"seed-1");
    let b = secret_key_from_seed(b"seed-2");
    let c = secret_key_from_seed(b"seed-3");
    assert!(a != b && b != c && a != c, "{a} {b} {c}");
    assert!(a.chars().all(|ch| ch.is_ascii_alphanumeric()));
}

#[test]
fn form_has_both_required_fields() {
    let key = secret_key_from_seed(b"form");
    let form = weapi_form(r#"{"s":"夜曲 周杰伦","type":1}"#, &key);
    let keys: Vec<&str> = form.iter().map(|(k, _)| *k).collect();
    assert_eq!(keys, vec!["params", "encSecKey"]);
    assert!(form.iter().all(|(_, v)| !v.is_empty()));
}

#[test]
fn aes_layer_is_deterministic_given_key() {
    let key = secret_key_from_seed(b"fixed");
    let a = weapi_form("hello", &key);
    let b = weapi_form("hello", &key);
    assert_eq!(a, b);
    assert!(a[0].1.len() > 8);
}

#[test]
fn rsa_of_the_empty_key_is_zero() {
    assert_eq!(rsa_encode(""), "0".repeat(256));
    // 1 ^ e mod n is 1
    let one = rsa_encode("\u{1}");
    assert_eq!(one, format!("{}1", "0".repeat(255)));
}

// ── KuWo lyric ──────────────────────────────────────────────────────────

#[test]
fn parses_real_json_lyric_payload() {
    let v = json(
        r#"{"data":{"lrclist":[
        {"time":"0.00","lineLyric":"作词 : 佚名"},
        {"time":"12.34","lineLyric":"那一年那一天"},
        {"time":"16.10","lineLyric":"&apos;quote&apos;"}]}}"#,
    );
    let times = [0u64, 12_340, 16_100];
    let l = kuwo_parse_lyric(&v, &times, "268780364");
    assert_eq!(l.lines.len(), 3);
    assert_eq!(l.lines[1].at_ms, 12_340);
    assert_eq!(l.lines[1].text, "那一年那一天");
    assert_eq!(l.lines[2].text, "'quote'");
    assert_eq!(l.provider, ProviderId::KuWo);
}

#[test]
fn empty_lyric_list_is_safe() {
    let l = kuwo_parse_lyric(&json(r#"{"data":{"lrclist":[]}}"#), &[], "1");
    assert!(!l.has_content());
}

#[test]
fn code_200_passes() {
    assert!(ensure_ok(&json(r#"{"code":200}"#)).is_ok());
}

#[test]
fn login_required_is_source_unavailable() {
    let e = ensure_ok(&json(r#"{"code":50000005}"#)).unwrap_err();
    assert!(matches!(e, AppError::ProviderUnavailable(_)));
}

#[test]
fn missing_code_is_tolerated() {
    assert!(ensure_ok(&json(r#"{"songs":[]}"#)).is_ok());
}

#[test]
fn odd_codes_are_bad_responses() {
    assert_eq!(
        ensure_ok(&json(r#"{"code":400}"#)).unwrap_err(),
        AppError::BadResponse("网易云接口参数错误".into())
    );
    assert_eq!(
        ensure_ok(&json(r#"{"code":-460}"#)).unwrap_err(),
        AppError::BadResponse("网易云返回异常（code=-460）".into())
    );
    assert!(ensure_ok(&json(r#"{"code":"200x"}"#)).is_ok());
}

#[test]
fn qq_primary_answer_with_code_zero_and_lines_is_used() {
    let j = json(r#"{"code":0,"lyric":"[00:01.00]第一句\n[00:02.00]第二句","trans":""}"#);
    let l = primary_lyrics(&j, "42").unwrap();
    assert_eq!(l.lines.len(), 2);
    assert_eq!(l.song_id, "42");
}

#[test]
fn qq_primary_answer_with_other_code_goes_to_fallback() {
    let j = json(r#"{"code":-1901,"lyric":"[00:01.00]第一句"}"#);
    assert!(primary_lyrics(&j, "42").is_none());
    let empty = json(r#"{"code":0,"lyric":""}"#);
    assert!(primary_lyrics(&empty, "42").is_none());
}

#[test]
fn qq_fallback_without_lines_is_source_unavailable() {
    match fallback_lyrics("<lyric></lyric>", "7") {
        Err(AppError::ProviderUnavailable(m)) => assert_eq!(m, "QQ 音乐该歌曲暂时取不到歌词"),
        other => panic!("{other:?}"),
    }
    let xml = format!("<lyric><content>{}</content></lyric>", b64("[00:01.00]有词"));
    let l = fallback_lyrics(&xml, "7").unwrap();
    assert_eq!(l.lines.len(), 1);
}

#[test]
fn kugou_search_falls_back_to_the_song_itself() {
    let song = base("晴天", &["周杰伦"], None, None, Some(269_000));
    let none = search_candidates(None, &song);
    assert_eq!(none.len(), 1);
    assert_eq!(none[0].song_id, "HASH");
    let empty = json(r#"{"candidates":[]}"#);
    assert_eq!(search_candidates(Some(&empty), &song)[0].title, "晴天");
    let found = json(r#"{"candidates":[{"id":"1","accesskey":"K1","song":"晴天","singer":"周杰伦","duration":269000}]}"#);
    let cs = search_candidates(Some(&found), &song);
    assert_eq!(cs.len(), 1);
    assert_eq!(cs[0].access_key.as_deref(), Some("K1"));
}

#[test]
fn kugou_download_key_comes_from_the_first_usable_entry() {
    let song = base("晴天", &["周杰伦"], None, None, None);
    let j = json(r#"{"candidates":[{"id":"1"},{"id":"2","accesskey":"K2"},{"id":"3","accesskey":"K3"}]}"#);
    assert_eq!(download_key(&j, &song).unwrap(), ("2".to_string(), "K2".to_string()));
    match download_key(&json(r#"{"candidates":[]}"#), &song) {
        Err(AppError::ProviderUnavailable(m)) => assert_eq!(m, "酷狗这首歌暂时取不到歌词"),
        other => panic!("{other:?}"),
    }
}
