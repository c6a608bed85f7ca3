//! QQ Music requests.
//!
//! The search body must be wrapped as `{"req_1": {...}}` and carry
//! `num_per_page` as a string: the `{"req": {...}}` form answers with an
//! empty result and no error. Lyrics come by two routes: a light JSON one
//! keyed by `songmid`, and an XML one keyed by the numeric `musicid`, kept as
//! a fallback (its word-timed mode needs a login, which is never sent).

use vstd::prelude::*;
use crate::provider::request::{
    count_text, is_int, is_str, keys_of, member, param, params_view, request_member,
    lemma_member_found, text, RequestJson,
};
use crate::text::dec_digits;

verus! {

pub const SEARCH_URL: &'static str = "https://u.y.qq.com/cgi-bin/musicu.fcg";

pub const LYRIC_JSON_URL: &'static str = "https://c.y.qq.com/lyric/fcgi-bin/fcg_query_lyric_new.fcg";

pub const LYRIC_XML_URL: &'static str = "https://c.y.qq.com/qqmusic/fcgi-bin/lyric_download.fcg";

pub const REFERER: &'static str = "https://y.qq.com/portal/player.html";

/// The search body for `keyword`, asking for `limit` results.
pub open spec fn search_body_spec(r: RequestJson, keyword: Seq<char>, limit: nat) -> bool {
    &&& keys_of(r) == seq!["req_1"@]
    &&& request_member(r, "req_1"@) matches Some(req) && {
        &&& keys_of(req) == seq!["method"@, "module"@, "param"@]
        &&& is_str(request_member(req, "method"@), "DoSearchForQQMusicDesktop"@)
        &&& is_str(request_member(req, "module"@), "music.search.SearchCgiService"@)
        &&& request_member(req, "param"@) matches Some(p) && {
            &&& keys_of(p) == seq!["query"@, "num_per_page"@, "page_num"@, "search_type"@]
            &&& is_str(request_member(p, "query"@), keyword)
            &&& is_str(request_member(p, "num_per_page"@), dec_digits(limit))
            &&& is_str(request_member(p, "page_num"@), "1"@)
            &&& is_int(request_member(p, "search_type"@), 0)
        }
    }
}

/// The search request body.
pub fn search_body(keyword: &str, limit: usize) -> (r: RequestJson)
    ensures
        search_body_spec(r, keyword@, limit as nat),
{
    let mut params: Vec<(String, RequestJson)> = Vec::new();
    params.push(member("query", text(keyword)));
    params.push(member("num_per_page", RequestJson::Str(count_text(limit))));
    params.push(member("page_num", text("1")));
    params.push(member("search_type", RequestJson::Int(0)));
    let p = RequestJson::Obj(params);
    let mut req: Vec<(String, RequestJson)> = Vec::new();
    req.push(member("method", text("DoSearchForQQMusicDesktop")));
    req.push(member("module", text("music.search.SearchCgiService")));
    req.push(member("param", p));
    let inner = RequestJson::Obj(req);
    let mut top: Vec<(String, RequestJson)> = Vec::new();
    top.push(member("req_1", inner));
    let r = RequestJson::Obj(top);
    proof {
        reveal_strlit("req_1");
        reveal_strlit("method");
        reveal_strlit("module");
        reveal_strlit("param");
        reveal_strlit("query");
        reveal_strlit("num_per_page");
        reveal_strlit("page_num");
        reveal_strlit("search_type");
        assert(keys_of(r) =~= seq!["req_1"@]);
        assert(keys_of(inner) =~= seq!["method"@, "module"@, "param"@]);
        assert(keys_of(p) =~= seq!["query"@, "num_per_page"@, "page_num"@, "search_type"@]);
        assert("method"@[1] != "module"@[1]);
        lemma_member_found(top@, 0, 0);
        lemma_member_found(req@, 0, 0);
        lemma_member_found(req@, 1, 0);
        lemma_member_found(req@, 2, 0);
        assert(params@[0].0@.len() == 5 && params@[1].0@.len() == 12 && params@[2].0@.len() == 8);
        lemma_member_found(params@, 0, 0);
        lemma_member_found(params@, 1, 0);
        lemma_member_found(params@, 2, 0);
        lemma_member_found(params@, 3, 0);
    }
    r
}

/// Query parameters of the JSON lyric route.
pub fn lyric_json_query(mid: &str) -> (r: Vec<(String, String)>)
    ensures
        params_view(r@) == seq![
            ("songmid"@, mid@),
            ("format"@, "json"@),
            ("nobase64"@, "1"@),
            ("g_tk"@, "5381"@),
        ],
{
    let mut r: Vec<(String, String)> = Vec::new();
    r.push(param("songmid", mid));
    r.push(param("format", "json"));
    r.push(param("nobase64", "1"));
    r.push(param("g_tk", "5381"));
    assert(params_view(r@) =~= seq![
        ("songmid"@, mid@),
        ("format"@, "json"@),
        ("nobase64"@, "1"@),
        ("g_tk"@, "5381"@),
    ]);
    r
}

/// Form fields of the XML lyric route.
pub fn lyric_xml_form(song_id: &str) -> (r: Vec<(String, String)>)
    ensures
        params_view(r@) == seq![
            ("version"@, "15"@),
            ("miniversion"@, "82"@),
            ("lrctype"@, "4"@),
            ("musicid"@, song_id@),
        ],
{
    let mut r: Vec<(String, String)> = Vec::new();
    r.push(param("version", "15"));
    r.push(param("miniversion", "82"));
    r.push(param("lrctype", "4"));
    r.push(param("musicid", song_id));
    assert(params_view(r@) =~= seq![
        ("version"@, "15"@),
        ("miniversion"@, "82"@),
        ("lrctype"@, "4"@),
        ("musicid"@, song_id@),
    ]);
    r
}

} // verus!
