//! NetEase requests. A song takes three steps, none needing a login: the
//! weapi search (titles, artists, album, duration), the song detail (cover,
//! year, track number) and the weapi lyric request. The search and lyric
//! payloads are encrypted into a form by `crypto::weapi_form`.

use vstd::prelude::*;
use crate::provider::request::{
    is_bool, is_int, is_str, is_uint, keys_of, lemma_member_found, member, request_member, text,
    RequestJson,
};
use crate::text::{chars_of, push_str_vec, string_of};

verus! {

pub const REFERER: &'static str = "https://music.163.com";

/// Path of the weapi search.
pub const SEARCH_PATH: &'static str = "/weapi/search/get";

/// Path of the weapi lyric request.
pub const LYRIC_PATH: &'static str = "/weapi/song/lyric?csrf_token=";

/// Address of a weapi path.
pub fn weapi_url(path: &str) -> (r: String)
    ensures
        r@ == "https://music.163.com"@ + path@,
{
    let mut v = chars_of("https://music.163.com");
    push_str_vec(&mut v, path);
    string_of(&v)
}

/// Address of a song's detail.
pub fn detail_url(song_id: &str) -> (r: String)
    ensures
        r@ == "https://music.163.com/api/song/detail/?ids=["@ + song_id@ + "]"@,
{
    let mut v = chars_of("https://music.163.com/api/song/detail/?ids=[");
    push_str_vec(&mut v, song_id);
    push_str_vec(&mut v, "]");
    string_of(&v)
}

/// The search payload for `keyword`, asking for `limit` results.
pub open spec fn search_payload_spec(r: RequestJson, keyword: Seq<char>, limit: nat) -> bool {
    &&& keys_of(r) == seq!["csrf_token"@, "s"@, "type"@, "offset"@, "limit"@, "total"@]
    &&& is_str(request_member(r, "csrf_token"@), ""@)
    &&& is_str(request_member(r, "s"@), keyword)
    &&& is_int(request_member(r, "type"@), 1)
    &&& is_int(request_member(r, "offset"@), 0)
    &&& is_uint(request_member(r, "limit"@), limit as int)
    &&& is_bool(request_member(r, "total"@), true)
}

/// The weapi search payload.
pub fn search_payload(keyword: &str, limit: usize) -> (r: RequestJson)
    ensures
        search_payload_spec(r, keyword@, limit as nat),
{
    let mut m: Vec<(String, RequestJson)> = Vec::new();
    m.push(member("csrf_token", text("")));
    m.push(member("s", text(keyword)));
    m.push(member("type", RequestJson::Int(1)));
    m.push(member("offset", RequestJson::Int(0)));
    m.push(member("limit", RequestJson::UInt(limit as u64)));
    m.push(member("total", RequestJson::Bool(true)));
    let r = RequestJson::Obj(m);
    proof {
        reveal_strlit("csrf_token");
        reveal_strlit("s");
        reveal_strlit("type");
        reveal_strlit("offset");
        reveal_strlit("limit");
        reveal_strlit("total");
        assert(keys_of(r) =~= seq!["csrf_token"@, "s"@, "type"@, "offset"@, "limit"@, "total"@]);
        assert(m@[0].0@.len() == 10 && m@[1].0@.len() == 1 && m@[2].0@.len() == 4);
        assert(m@[3].0@.len() == 6 && m@[4].0@.len() == 5 && m@[5].0@.len() == 5);
        assert(m@[2].0@[0] != m@[4].0@[0] && m@[4].0@[0] != m@[5].0@[0]);
        lemma_member_found(m@, 0, 0);
        lemma_member_found(m@, 1, 0);
        lemma_member_found(m@, 2, 0);
        lemma_member_found(m@, 3, 0);
        lemma_member_found(m@, 4, 0);
        lemma_member_found(m@, 5, 0);
    }
    r
}

/// The lyric payload: the song id as a string, and `-1` for each of the
/// original, translated, romanised and word-timed versions, which asks for
/// all of them.
pub open spec fn lyric_payload_spec(r: RequestJson, song_id: Seq<char>) -> bool {
    &&& keys_of(r) == seq!["id"@, "os"@, "lv"@, "kv"@, "tv"@, "rv"@, "yv"@, "ytv"@, "yrv"@]
    &&& is_str(request_member(r, "id"@), song_id)
    &&& is_str(request_member(r, "os"@), "pc"@)
    &&& forall|i: int|
        2 <= i < 9 ==> #[trigger] is_int(request_member(r, keys_of(r)[i]), -1)
}

/// The weapi lyric payload.
pub fn lyric_payload(song_id: &str) -> (r: RequestJson)
    ensures
        lyric_payload_spec(r, song_id@),
{
    let mut m: Vec<(String, RequestJson)> = Vec::new();
    m.push(member("id", text(song_id)));
    m.push(member("os", text("pc")));
    m.push(member("lv", RequestJson::Int(-1)));
    m.push(member("kv", RequestJson::Int(-1)));
    m.push(member("tv", RequestJson::Int(-1)));
    m.push(member("rv", RequestJson::Int(-1)));
    m.push(member("yv", RequestJson::Int(-1)));
    m.push(member("ytv", RequestJson::Int(-1)));
    m.push(member("yrv", RequestJson::Int(-1)));
    let r = RequestJson::Obj(m);
    proof {
        reveal_strlit("id");
        reveal_strlit("os");
        reveal_strlit("lv");
        reveal_strlit("kv");
        reveal_strlit("tv");
        reveal_strlit("rv");
        reveal_strlit("yv");
        reveal_strlit("ytv");
        reveal_strlit("yrv");
        assert(keys_of(r) =~= seq!["id"@, "os"@, "lv"@, "kv"@, "tv"@, "rv"@, "yv"@, "ytv"@, "yrv"@]);
        assert forall|i: int| 0 <= i < 9 implies request_member(r, #[trigger] keys_of(r)[i]) == Some(
            m@[i].1,
        ) by {
            assert forall|j: int| 0 <= j < i implies m@[j].0@ != m@[i].0@ by {
                assert(m@[j].0@.len() != m@[i].0@.len() || m@[j].0@[0] != m@[i].0@[0] || m@[j].0@[1]
                    != m@[i].0@[1]);
            }
            lemma_member_found(m@, i, 0);
        }
    }
    r
}

} // verus!
