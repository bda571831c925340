//! Splitting text into sentences and assembling translated sentences.

pub mod sentence;
pub mod service;

pub use sentence::split_sentences;
