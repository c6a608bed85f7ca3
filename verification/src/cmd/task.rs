//! What a finished task reports.

use vstd::prelude::*;
use crate::pipeline::orchestrator::{MatchReport, WriteReport};

verus! {

#[derive(Clone, Debug)]
pub enum TaskDoneDto {
    Match { task_id: u64, report: MatchReport },
    Write { task_id: u64, report: WriteReport },
}

} // verus!
