//! KuGou Music.

pub mod api;
pub mod model;
