//! JSON values as the response parsers read them.
//!
//! The sources' field types are unstable (a duration is a number one day and
//! a string the next), so responses are read field by field rather than into
//! fixed structures: one odd field then degrades alone instead of failing the
//! whole response.

use vstd::prelude::*;

verus! {

/// A JSON value.
pub enum Json {
    Null,
    Bool(bool),
    /// A number: its text as the JSON library prints it, and its reading as a
    /// whole `u64` (an unsigned integer as it is; any other number through
    /// `f64`, truncated as `as u64` does), where it has one.
    Num { text: String, whole: Option<u64> },
    /// A string, and the whole `u64` its trimmed text reads as through `f64`
    /// (truncated as `as u64` does), where it reads as a floating-point number.
    Str { text: String, float_whole: Option<u64> },
    Arr(Vec<Json>),
    /// Members in order; keys are unique.
    Obj(Vec<(String, Json)>),
}

/// The index of the member named `key` at or after index `i`.
pub open spec fn member_index(pairs: Seq<(String, Json)>, key: Seq<char>, i: int) -> Option<int>
    decreases pairs.len() - i,
{
    if i < 0 || i >= pairs.len() {
        None
    } else if pairs[i].0@ == key {
        Some(i)
    } else {
        member_index(pairs, key, i + 1)
    }
}

/// The member `key` of an object (`Value::get` with a string key).
pub open spec fn member(v: Json, key: Seq<char>) -> Option<Json> {
    match v {
        Json::Obj(pairs) => match member_index(pairs@, key, 0) {
            Some(i) => Some(pairs@[i].1),
            None => None,
        },
        _ => None,
    }
}

/// The value at a path of member names.
pub open spec fn json_get(v: Json, path: Seq<Seq<char>>) -> Option<Json>
    decreases path.len(),
{
    if path.len() == 0 {
        Some(v)
    } else {
        match member(v, path[0]) {
            Some(c) => json_get(c, path.drop_first()),
            None => None,
        }
    }
}

pub open spec fn derefs(s: Seq<&Json>) -> Seq<Json> {
    s.map_values(|x: &Json| *x)
}

pub open spec fn deref_opt(o: Option<&Json>) -> Option<Json> {
    match o {
        Some(x) => Some(*x),
        None => None,
    }
}

/// The views of a path of keys.
pub open spec fn keys_view(path: Seq<&str>) -> Seq<Seq<char>> {
    path.map_values(|k: &str| k@)
}

/// The member `key` of an object.
pub fn member_of<'a>(v: &'a Json, key: &str) -> (r: Option<&'a Json>)
    ensures
        deref_opt(r) == member(*v, key@),
{
    match v {
        Json::Obj(pairs) => {
            let mut i: usize = 0;
            while i < pairs.len()
                invariant
                    i <= pairs@.len(),
                    *v == Json::Obj(*pairs),
                    member_index(pairs@, key@, 0) == member_index(pairs@, key@, i as int),
                decreases pairs.len() - i,
            {
                if crate::text::str_eq(pairs[i].0.as_str(), key) {
                    return Some(&pairs[i].1);
                }
                i = i + 1;
            }
            None
        },
        _ => None,
    }
}

} // verus!
