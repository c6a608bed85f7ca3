//! Confidence grades of a match score. The score itself is computed by the
//! application (string similarity in floating point); here it arrives in
//! thousandths and is graded.

use vstd::prelude::*;
use crate::domain::candidate::Grade;
use crate::domain::normalize::{lowercase, to_lowercase_str};
use crate::text::{chars_of, find_from, occurs_at, vec_eq};

verus! {

/// At or above this score (in thousandths) a match is taken as it is.
pub const AUTO_ACCEPT: u32 = 850;

/// At or above this score (in thousandths) a match waits for confirmation;
/// below it, nothing was found.
pub const NEED_REVIEW: u32 = 650;

pub open spec fn decide_spec(score: u32) -> Grade {
    if score >= AUTO_ACCEPT {
        Grade::Auto
    } else if score >= NEED_REVIEW {
        Grade::Confirm
    } else {
        Grade::Rejected
    }
}

/// The grade of a score in thousandths.
pub fn decide(score: u32) -> (r: Grade)
    ensures
        r == decide_spec(score),
{
    if score >= AUTO_ACCEPT {
        Grade::Auto
    } else if score >= NEED_REVIEW {
        Grade::Confirm
    } else {
        Grade::Rejected
    }
}


/// What `char::is_alphanumeric` says of a character (Unicode's alphabetic
/// and numeric classes).
pub uninterp spec fn alphanumeric(c: char) -> bool;

/// Calls `char::is_alphanumeric`; the answer is named.
#[verifier::external_body]
fn is_alnum(c: char) -> (r: bool)
    ensures
        r == alphanumeric(c),
{
    c.is_alphanumeric()
}

/// Tokens of a text cut at non-alphanumeric characters: the finished ones
/// and the one being read.
pub open spec fn token_state(s: Seq<char>) -> (Seq<Seq<char>>, Seq<char>)
    decreases s.len(),
{
    if s.len() == 0 {
        (Seq::empty(), Seq::empty())
    } else {
        let st = token_state(s.drop_last());
        if alphanumeric(s.last()) {
            (st.0, st.1.push(s.last()))
        } else if st.1.len() > 0 {
            (st.0.push(st.1), Seq::empty())
        } else {
            st
        }
    }
}

/// The non-empty alphanumeric runs of a text, in order.
pub open spec fn tokens(s: Seq<char>) -> Seq<Seq<char>> {
    let st = token_state(s);
    if st.1.len() > 0 {
        st.0.push(st.1)
    } else {
        st.0
    }
}

pub open spec fn is_ascii_text(m: Seq<char>) -> bool {
    forall|k: int| 0 <= k < m.len() ==> (#[trigger] m[k] as u32) < 128
}

/// A marker is found in a lower-cased text: an ASCII marker as a whole token
/// (so `cover` does not hit `discovery`), any other as a substring.
pub open spec fn marker_hit(lower: Seq<char>, m: Seq<char>) -> bool {
    if is_ascii_text(m) {
        tokens(lower).contains(m)
    } else {
        exists|i: int| occurs_at(lower, m, i)
    }
}

/// Some marker is found in the lower-cased text.
pub open spec fn has_marker_spec(text: Seq<char>, markers: Seq<Seq<char>>) -> bool {
    exists|j: int| 0 <= j < markers.len() && marker_hit(lowercase(text), #[trigger] markers[j])
}

fn ascii_only(m: &Vec<char>) -> (r: bool)
    ensures
        r == is_ascii_text(m@),
{
    let mut k: usize = 0;
    while k < m.len()
        invariant
            k <= m.len(),
            forall|j: int| 0 <= j < k ==> (#[trigger] m@[j] as u32) < 128,
        decreases m.len() - k,
    {
        if (m[k] as u32) >= 128 {
            return false;
        }
        k = k + 1;
    }
    true
}

fn tokens_of(v: &Vec<char>) -> (r: Vec<Vec<char>>)
    ensures
        r.deep_view() == tokens(v@),
{
    let mut out: Vec<Vec<char>> = Vec::new();
    let mut cur: Vec<char> = Vec::new();
    let mut i: usize = 0;
    while i < v.len()
        invariant
            i <= v.len(),
            out.deep_view() == token_state(v@.take(i as int)).0,
            cur@ == token_state(v@.take(i as int)).1,
        decreases v.len() - i,
    {
        assert(v@.take(i + 1).drop_last() == v@.take(i as int));
        assert(v@.take(i + 1).last() == v@[i as int]);
        let c = v[i];
        if is_alnum(c) {
            cur.push(c);
        } else if cur.len() > 0 {
            let ghost before = out.deep_view();
            let done = cur;
            let ghost dv = done@;
            assert(done.deep_view() =~= dv);
            out.push(done);
            assert(out.deep_view() =~= before.push(dv));
            cur = Vec::new();
        }
        i = i + 1;
    }
    assert(v@.take(v.len() as int) == v@);
    if cur.len() > 0 {
        let ghost before = out.deep_view();
        let ghost cv = cur@;
        assert(cur.deep_view() =~= cv);
        out.push(cur);
        assert(out.deep_view() =~= before.push(cv));
    }
    out
}

fn contains_token(ts: &Vec<Vec<char>>, m: &Vec<char>) -> (r: bool)
    ensures
        r == ts.deep_view().contains(m@),
{
    let mut i: usize = 0;
    while i < ts.len()
        invariant
            i <= ts.len(),
            forall|j: int| 0 <= j < i ==> ts.deep_view()[j] != m@,
        decreases ts.len() - i,
    {
        assert(ts[i as int].deep_view() =~= ts[i as int]@);
        assert(ts.deep_view()[i as int] == ts[i as int]@);
        if vec_eq(&ts[i], m) {
            assert(ts.deep_view()[i as int] == m@);
            return true;
        }
        i = i + 1;
    }
    false
}

/// Whether a title carries one of the version markers (case folded).
pub fn has_marker(text: &str, markers: &[&str]) -> (r: bool)
    ensures
        r == has_marker_spec(text@, markers@.map_values(|m: &str| m@)),
{
    let ghost ms = markers@.map_values(|m: &str| m@);
    let lower_s = to_lowercase_str(text);
    let lower = chars_of(lower_s.as_str());
    let toks = tokens_of(&lower);
    let mut j: usize = 0;
    while j < markers.len()
        invariant
            j <= markers@.len(),
            ms == markers@.map_values(|m: &str| m@),
            lower@ == lowercase(text@),
            toks.deep_view() == tokens(lower@),
            forall|k: int| 0 <= k < j ==> !marker_hit(lowercase(text@), #[trigger] ms[k]),
        decreases markers@.len() - j,
    {
        let m = chars_of(markers[j]);
        assert(m@ == ms[j as int]);
        let hit = if ascii_only(&m) {
            contains_token(&toks, &m)
        } else {
            match find_from(&lower, &m, 0) {
                Some(_) => true,
                None => false,
            }
        };
        if hit {
            assert(marker_hit(lowercase(text@), ms[j as int]));
            return true;
        }
        j = j + 1;
    }
    false
}

} // verus!
