//! What the sources are sent: JSON bodies and query or form parameters.
//!
//! The sources are picky about shapes that look interchangeable (a number
//! sent as a string, a body wrapped under `req_1`), so each request's exact
//! form is stated here once.

use vstd::prelude::*;
use crate::text::{decimal, string_of};

verus! {

/// A JSON value sent in a request.
pub enum RequestJson {
    Str(String),
    Int(i64),
    UInt(u64),
    Bool(bool),
    /// Members in order; keys are unique.
    Obj(Vec<(String, RequestJson)>),
}

/// The keys of an object, in order; nothing for another value.
pub open spec fn keys_of(v: RequestJson) -> Seq<Seq<char>> {
    match v {
        RequestJson::Obj(pairs) => pairs@.map_values(|p: (String, RequestJson)| p.0@),
        _ => Seq::empty(),
    }
}

/// The index of the member named `key` at or after index `i`.
pub open spec fn request_member_index(pairs: Seq<(String, RequestJson)>, key: Seq<char>, i: int) -> Option<int>
    decreases pairs.len() - i,
{
    if i < 0 || i >= pairs.len() {
        None
    } else if pairs[i].0@ == key {
        Some(i)
    } else {
        request_member_index(pairs, key, i + 1)
    }
}

/// The member `key` of an object.
pub open spec fn request_member(v: RequestJson, key: Seq<char>) -> Option<RequestJson> {
    match v {
        RequestJson::Obj(pairs) => match request_member_index(pairs@, key, 0) {
            Some(i) => Some(pairs@[i].1),
            None => None,
        },
        _ => None,
    }
}

/// A key that no earlier member has is found at its own index.
pub proof fn lemma_member_found(pairs: Seq<(String, RequestJson)>, i: int, k: int)
    requires
        0 <= k <= i < pairs.len(),
        forall|j: int| k <= j < i ==> pairs[j].0@ != pairs[i].0@,
    ensures
        request_member_index(pairs, pairs[i].0@, k) == Some(i),
    decreases i - k,
{
    if k < i {
        lemma_member_found(pairs, i, k + 1);
    }
}

/// `m` is the string `s`.
pub open spec fn is_str(m: Option<RequestJson>, s: Seq<char>) -> bool {
    m matches Some(RequestJson::Str(t)) && t@ == s
}

/// `m` is the integer `n`.
pub open spec fn is_int(m: Option<RequestJson>, n: int) -> bool {
    m matches Some(RequestJson::Int(k)) && k == n
}

/// `m` is the unsigned integer `n`.
pub open spec fn is_uint(m: Option<RequestJson>, n: int) -> bool {
    m matches Some(RequestJson::UInt(k)) && k == n
}

/// `m` is the boolean `b`.
pub open spec fn is_bool(m: Option<RequestJson>, b: bool) -> bool {
    m matches Some(RequestJson::Bool(c)) && c == b
}

impl RequestJson {
    /// The member `key` of an object.
    pub fn get(&self, key: &str) -> (r: Option<&RequestJson>)
        ensures
            match r {
                Some(x) => request_member(*self, key@) == Some(*x),
                None => request_member(*self, key@) is None,
            },
    {
        match self {
            RequestJson::Obj(pairs) => {
                let mut i: usize = 0;
                while i < pairs.len()
                    invariant
                        i <= pairs@.len(),
                        *self == RequestJson::Obj(*pairs),
                        request_member_index(pairs@, key@, 0) == request_member_index(
                            pairs@,
                            key@,
                            i as int,
                        ),
                    decreases pairs.len() - i,
                {
                    if crate::text::str_eq(pairs[i].0.as_str(), key) {
                        return Some(&pairs[i].1);
                    }
                    i = i + 1;
                }
                None
            },
            _ => None,
        }
    }
}

/// A string value.
pub fn text(s: &str) -> (r: RequestJson)
    ensures
        r matches RequestJson::Str(t) && t@ == s@,
{
    RequestJson::Str(s.to_owned())
}

/// A member of an object.
pub fn member(key: &str, value: RequestJson) -> (r: (String, RequestJson))
    ensures
        r.0@ == key@,
        r.1 == value,
{
    (key.to_owned(), value)
}

/// Decimal text of a count.
pub fn count_text(n: usize) -> (r: String)
    ensures
        r@ == crate::text::dec_digits(n as nat),
{
    string_of(&decimal(n as u64))
}

/// The views of query or form parameters.
pub open spec fn params_view(v: Seq<(String, String)>) -> Seq<(Seq<char>, Seq<char>)> {
    v.map_values(|p: (String, String)| (p.0@, p.1@))
}

/// A query or form parameter.
pub fn param(key: &str, value: &str) -> (r: (String, String))
    ensures
        r.0@ == key@,
        r.1@ == value@,
{
    (key.to_owned(), value.to_owned())
}

} // verus!
