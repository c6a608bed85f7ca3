//! Lyric formats: parsing, timeline merging, verbatim downgrade, rendering, clean-up.

pub mod normalize;
pub mod merge;
pub mod parse;
pub mod render;
pub mod round_trip;
pub mod verbatim;
