//! Talking to the translation API: pacing after rate limiting, the retry
//! policy of a request, and the API's errors.

pub mod backoff;
pub mod client;

pub use backoff::{Config as BackoffConfig, GlobalBackoffState};
pub use client::TmtError;
