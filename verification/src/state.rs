//! Task kinds.

use vstd::prelude::*;

verus! {

#[derive(Clone, Copy, Debug, PartialEq, Eq, Structural)]
pub enum TaskKind {
    Scan,
    Match,
    Write,
}

impl TaskKind {
    pub fn as_str(&self) -> (r: &'static str)
        ensures
            r@ == match *self {
                TaskKind::Scan => "scan"@,
                TaskKind::Match => "match"@,
                TaskKind::Write => "write"@,
            },
    {
        match self {
            TaskKind::Scan => "scan",
            TaskKind::Match => "match",
            TaskKind::Write => "write",
        }
    }
}

} // verus!
