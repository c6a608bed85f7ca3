//! KuWo request parameters.
//!
//! The search endpoint wants a `kw_token` cookie and the same value in the
//! `csrf` header; any fixed value is accepted, so a public constant is used.

use vstd::prelude::*;
use crate::provider::request::{count_text, param, params_view};
use crate::text::dec_digits;

verus! {

pub const SEARCH_URL: &'static str = "https://search.kuwo.cn/r.s";

pub const LYRIC_URL: &'static str = "https://m.kuwo.cn/newh5/singles/songinfoandlrc";

/// The anonymous token sent as cookie and `csrf` header.
pub const KW_TOKEN: &'static str = "ABCDE12345";

/// Query parameters of the search.
pub fn search_query(keyword: &str, limit: usize) -> (r: Vec<(String, String)>)
    ensures
        params_view(r@) == seq![
            ("all"@, keyword@),
            ("ft"@, "music"@),
            ("itemset"@, "web_2013"@),
            ("client"@, "kt"@),
            ("pn"@, "0"@),
            ("rn"@, dec_digits(limit as nat)),
            ("rformat"@, "json"@),
            ("encoding"@, "utf8"@),
        ],
{
    let mut r: Vec<(String, String)> = Vec::new();
    r.push(param("all", keyword));
    r.push(param("ft", "music"));
    r.push(param("itemset", "web_2013"));
    r.push(param("client", "kt"));
    r.push(param("pn", "0"));
    r.push(("rn".to_owned(), count_text(limit)));
    r.push(param("rformat", "json"));
    r.push(param("encoding", "utf8"));
    assert(params_view(r@) =~= seq![
        ("all"@, keyword@),
        ("ft"@, "music"@),
        ("itemset"@, "web_2013"@),
        ("client"@, "kt"@),
        ("pn"@, "0"@),
        ("rn"@, dec_digits(limit as nat)),
        ("rformat"@, "json"@),
        ("encoding"@, "utf8"@),
    ]);
    r
}

/// The cookie that carries the token.
pub fn token_cookie() -> (r: String)
    ensures
        r@ == "kw_token="@ + KW_TOKEN@,
{
    let mut v = crate::text::chars_of("kw_token=");
    crate::text::push_str_vec(&mut v, KW_TOKEN);
    crate::text::string_of(&v)
}

/// Query parameters of the lyric request.
pub fn lyric_query(rid: &str) -> (r: Vec<(String, String)>)
    ensures
        params_view(r@) == seq![("musicId"@, rid@)],
{
    let mut r: Vec<(String, String)> = Vec::new();
    r.push(param("musicId", rid));
    assert(params_view(r@) =~= seq![("musicId"@, rid@)]);
    r
}

} // verus!
