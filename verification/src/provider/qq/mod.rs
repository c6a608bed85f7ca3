//! QQ Music.

pub mod api;
pub mod model;
