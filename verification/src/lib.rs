//! Lyric matching and embedding library: lyric formats, text normalisation,
//! provider response parsing and the small rules around them.

pub mod cmd;
pub mod domain;
pub mod infra;
pub mod lrc;
pub mod pipeline;
pub mod provider;
pub mod state;
pub mod text;
