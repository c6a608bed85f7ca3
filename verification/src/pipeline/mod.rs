//! Pipeline rules: capability hints, source ranking, metadata fallbacks,
//! progress throttling, write concurrency and the final lyric rendering.

pub mod downloader;
pub mod library;
pub mod matcher;
pub mod metadata;
pub mod orchestrator;
pub mod store;
pub mod writer;
