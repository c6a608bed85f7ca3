//! Domain model: plain data and pure functions.

pub mod candidate;
pub mod lyrics;
pub mod normalize;
pub mod plan;
pub mod score;
pub mod track;
