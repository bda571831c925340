//! The command line of the translation tool.

use vstd::prelude::*;

verus! {

/// The command line of the translation tool, paths held as text: input and
/// output files, the language pair, the API and its token, request limits,
/// and the PDF font and image settings.
#[derive(Debug, Clone)]
pub struct Cli {
    pub input: String,
    pub output: String,
    pub src_lang: String,
    pub tgt_lang: String,
    pub base_url: String,
    pub api_token: Option<String>,
    pub concurrency: usize,
    pub rate_limit_ms: Option<u64>,
    pub max_retries: u32,
    pub font_path: Option<String>,
    pub dpi: u32,
    pub jpeg_quality: u8,
    pub verbose: bool,
}

} // verus!
