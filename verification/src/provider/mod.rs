//! Lyric source adapters: response parsing and the rules around it.

pub mod cover;
pub mod json;
pub mod kugou;
pub mod kuwo;
pub mod netease;
pub mod qq;
pub mod request;
pub mod util;
