//! Command-layer rules: data carried to the front end and argument parsing.

pub mod cli;
pub mod dto;
pub mod search;
pub mod task;
