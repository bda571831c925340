//! Document translation toolkit: sentence splitting, request pacing and
//! retry decisions, and the text/byte transformations used when rewriting
//! CSV, DOCX and PDF documents.

pub mod app;
pub mod cli;
pub mod config;
pub mod error;
pub mod formats;
pub mod layout;
pub mod paths;
pub mod text;
pub mod tmt;
pub mod translate;
