use lyrictag::provider::kugou::api::{
    lyric_download_query, lyric_search_query, search_query as kugou_search_query,
};
use lyrictag::provider::kuwo::api::{lyric_query, search_query as kuwo_search_query, token_cookie};
use lyrictag::provider::netease::api::{
    detail_url, lyric_payload, search_payload, weapi_url, LYRIC_PATH, SEARCH_PATH,
};
use lyrictag::provider::qq::api::{lyric_json_query, lyric_xml_form, search_body};
use lyrictag::provider::request::RequestJson;

fn str_of(v: Option<&RequestJson>) -> Option<&str> {
    match v {
        Some(RequestJson::Str(s)) => Some(s.as_str()),
        _ => None,
    }
}

fn pairs(v: &[(String, String)]) -> Vec<(&str, &str)> {
    v.iter().map(|(k, x)| (k.as_str(), x.as_str())).collect()
}

#[test]
fn request_body_uses_req_n_wrapper_and_string_limit() {
    let body = search_body("夜曲 周杰伦", 10);
    assert!(body.get("req_1").is_some());
    assert!(body.get("req").is_none());
    let param = body.get("req_1").and_then(|r| r.get("param")).expect("param");
    assert!(matches!(param.get("num_per_page"), Some(RequestJson::Str(_))));
    assert_eq!(str_of(param.get("num_per_page")), Some("10"));
    assert_eq!(str_of(param.get("query")), Some("夜曲 周杰伦"));
    assert_eq!(str_of(param.get("page_num")), Some("1"));
    assert!(matches!(param.get("search_type"), Some(RequestJson::Int(0))));
    let req = body.get("req_1").expect("req_1");
    assert_eq!(str_of(req.get("method")), Some("DoSearchForQQMusicDesktop"));
    assert_eq!(str_of(req.get("module")), Some("music.search.SearchCgiService"));
}

#[test]
fn qq_lyric_routes_carry_their_own_song_keys() {
    assert_eq!(
        pairs(&lyric_json_query("0039MnYb0qxYhV")),
        vec![("songmid", "0039MnYb0qxYhV"), ("format", "json"), ("nobase64", "1"), ("g_tk", "5381")]
    );
    assert_eq!(
        pairs(&lyric_xml_form("97773")),
        vec![("version", "15"), ("miniversion", "82"), ("lrctype", "4"), ("musicid", "97773")]
    );
}

#[test]
fn netease_search_payload_sends_limit_as_number() {
    let p = search_payload("夜曲", 10);
    assert_eq!(str_of(p.get("s")), Some("夜曲"));
    assert_eq!(str_of(p.get("csrf_token")), Some(""));
    assert!(matches!(p.get("type"), Some(RequestJson::Int(1))));
    assert!(matches!(p.get("offset"), Some(RequestJson::Int(0))));
    assert!(matches!(p.get("limit"), Some(RequestJson::UInt(10))));
    assert!(matches!(p.get("total"), Some(RequestJson::Bool(true))));
    assert_eq!(weapi_url(SEARCH_PATH), "https://music.163.com/weapi/search/get");
}

#[test]
fn netease_lyric_payload_asks_for_every_version() {
    let p = lyric_payload("185809");
    assert_eq!(str_of(p.get("id")), Some("185809"));
    assert_eq!(str_of(p.get("os")), Some("pc"));
    for k in ["lv", "kv", "tv", "rv", "yv", "ytv", "yrv"] {
        assert!(matches!(p.get(k), Some(RequestJson::Int(-1))), "{k}");
    }
    assert_eq!(weapi_url(LYRIC_PATH), "https://music.163.com/weapi/song/lyric?csrf_token=");
    assert_eq!(detail_url("185809"), "https://music.163.com/api/song/detail/?ids=[185809]");
}

#[test]
fn kugou_lyric_search_carries_hash_and_mobile_client() {
    assert_eq!(
        pairs(&lyric_search_query("夜曲", Some(226), "ABC123")),
        vec![
            ("ver", "1"),
            ("man", "yes"),
            ("client", "mobi"),
            ("keyword", "夜曲"),
            ("duration", "226"),
            ("hash", "ABC123")
        ]
    );
    assert_eq!(pairs(&lyric_search_query("夜曲", None, "h"))[4], ("duration", ""));
    assert_eq!(
        pairs(&lyric_download_query("1", "k")),
        vec![("ver", "1"), ("client", "iphone"), ("id", "1"), ("accesskey", "k"), ("fmt", "lrc"), ("charset", "utf8")]
    );
    assert_eq!(pairs(&kugou_search_query("夜曲", 20))[2], ("pagesize", "20"));
}

#[test]
fn kuwo_search_sends_count_and_token() {
    let q = kuwo_search_query("夜曲", 10);
    assert_eq!(pairs(&q)[0], ("all", "夜曲"));
    assert_eq!(pairs(&q)[5], ("rn", "10"));
    assert_eq!(q.len(), 8);
    assert_eq!(token_cookie(), "kw_token=ABCDE12345");
    assert_eq!(pairs(&lyric_query("228107872")), vec![("musicId", "228107872")]);
}
