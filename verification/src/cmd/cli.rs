//! Command-line argument helpers.

use vstd::prelude::*;
use crate::text::str_eq;

verus! {

/// The argument after the first occurrence of `flag`, if both are there.
pub fn flag_value<'a>(args: &'a [String], flag: &str) -> (r: Option<&'a String>)
    ensures
        match r {
            Some(v) => exists|p: int|
                0 <= p && p + 1 < args@.len() && args@[p]@ == flag@ && (forall|q: int|
                    0 <= q < p ==> args@[q]@ != flag@) && *v == args@[p + 1],
            None => forall|p: int|
                0 <= p < args@.len() && args@[p]@ == flag@ ==> p + 1 >= args@.len() || exists|
                    q: int,
                | 0 <= q < p && args@[q]@ == flag@,
        },
{
    let mut i: usize = 0;
    while i < args.len()
        invariant
            i <= args.len(),
            forall|q: int| 0 <= q < i ==> args@[q]@ != flag@,
        decreases args.len() - i,
    {
        if str_eq(args[i].as_str(), flag) {
            if i + 1 < args.len() {
                return Some(&args[i + 1]);
            }
            return None;
        }
        i = i + 1;
    }
    None
}

} // verus!
