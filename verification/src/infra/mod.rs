//! Infrastructure rules: errors, events, time, settings, rate limiting.

pub mod config;
pub mod error;
pub mod events;
pub mod http;
pub mod ratelimit;
pub mod time;
