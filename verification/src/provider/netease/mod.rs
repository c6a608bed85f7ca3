//! NetEase Cloud Music.

pub mod api;
pub mod crypto;
pub mod model;
