//! KuGou request parameters.
//!
//! The lyric search must carry the file hash and `client=mobi`, or it answers
//! with zero candidates; the download step uses `client=iphone`.

use vstd::prelude::*;
use crate::provider::request::{count_text, param, params_view};
use crate::text::dec_digits;

verus! {

pub const SEARCH_URL: &'static str = "https://songsearch.kugou.com/song_search_v2";

pub const LYRIC_SEARCH_URL: &'static str = "https://lyrics.kugou.com/search";

pub const LYRIC_DOWNLOAD_URL: &'static str = "https://lyrics.kugou.com/download";

/// `client` value of the lyric search step.
pub const CLIENT_SEARCH: &'static str = "mobi";

/// `client` value of the lyric download step.
pub const CLIENT_DOWNLOAD: &'static str = "iphone";

/// Query parameters of the song search.
pub fn search_query(keyword: &str, limit: usize) -> (r: Vec<(String, String)>)
    ensures
        params_view(r@) == seq![
            ("keyword"@, keyword@),
            ("page"@, "1"@),
            ("pagesize"@, dec_digits(limit as nat)),
            ("platform"@, "WebFilter"@),
            ("filter"@, "2"@),
            ("iscorrection"@, "1"@),
            ("privilege_filter"@, "0"@),
        ],
{
    let mut r: Vec<(String, String)> = Vec::new();
    r.push(param("keyword", keyword));
    r.push(param("page", "1"));
    r.push(("pagesize".to_owned(), count_text(limit)));
    r.push(param("platform", "WebFilter"));
    r.push(param("filter", "2"));
    r.push(param("iscorrection", "1"));
    r.push(param("privilege_filter", "0"));
    assert(params_view(r@) =~= seq![
        ("keyword"@, keyword@),
        ("page"@, "1"@),
        ("pagesize"@, dec_digits(limit as nat)),
        ("platform"@, "WebFilter"@),
        ("filter"@, "2"@),
        ("iscorrection"@, "1"@),
        ("privilege_filter"@, "0"@),
    ]);
    r
}

/// The `duration` parameter: whole seconds, or empty when unknown.
pub open spec fn duration_param(duration_secs: Option<u32>) -> Seq<char> {
    match duration_secs {
        Some(d) => dec_digits(d as nat),
        None => Seq::empty(),
    }
}

/// Query parameters of the lyric search, which must carry the file hash.
pub fn lyric_search_query(keyword: &str, duration_secs: Option<u32>, hash: &str) -> (r: Vec<
    (String, String),
>)
    ensures
        params_view(r@) == seq![
            ("ver"@, "1"@),
            ("man"@, "yes"@),
            ("client"@, CLIENT_SEARCH@),
            ("keyword"@, keyword@),
            ("duration"@, duration_param(duration_secs)),
            ("hash"@, hash@),
        ],
{
    let duration = match duration_secs {
        Some(d) => count_text(d as usize),
        None => String::new(),
    };
    let mut r: Vec<(String, String)> = Vec::new();
    r.push(param("ver", "1"));
    r.push(param("man", "yes"));
    r.push(param("client", CLIENT_SEARCH));
    r.push(param("keyword", keyword));
    r.push(("duration".to_owned(), duration));
    r.push(param("hash", hash));
    assert(params_view(r@) =~= seq![
        ("ver"@, "1"@),
        ("man"@, "yes"@),
        ("client"@, CLIENT_SEARCH@),
        ("keyword"@, keyword@),
        ("duration"@, duration_param(duration_secs)),
        ("hash"@, hash@),
    ]);
    r
}

/// Query parameters of the lyric download.
pub fn lyric_download_query(id: &str, accesskey: &str) -> (r: Vec<(String, String)>)
    ensures
        params_view(r@) == seq![
            ("ver"@, "1"@),
            ("client"@, CLIENT_DOWNLOAD@),
            ("id"@, id@),
            ("accesskey"@, accesskey@),
            ("fmt"@, "lrc"@),
            ("charset"@, "utf8"@),
        ],
{
    let mut r: Vec<(String, String)> = Vec::new();
    r.push(param("ver", "1"));
    r.push(param("client", CLIENT_DOWNLOAD));
    r.push(param("id", id));
    r.push(param("accesskey", accesskey));
    r.push(param("fmt", "lrc"));
    r.push(param("charset", "utf8"));
    assert(params_view(r@) =~= seq![
        ("ver"@, "1"@),
        ("client"@, CLIENT_DOWNLOAD@),
        ("id"@, id@),
        ("accesskey"@, accesskey@),
        ("fmt"@, "lrc"@),
        ("charset"@, "utf8"@),
    ]);
    r
}

} // verus!
