//! The errors a translation run reports.

use vstd::prelude::*;

verus! {

/// Every way a translation run can fail.
#[derive(Debug)]
pub enum AppError {
    MissingApiToken,
    InvalidArgument { message: String },
    InputNotFound { path: String },
    InputNotFile { path: String },
    FileTooLarge { size: u64, max: u64 },
    UnsupportedFormat { ext: String },
    MismatchedOutputFormat { input_ext: String, output_ext: String },
    RequestTooLarge { len: usize, max: usize },
    RateLimitExceeded { attempts: u32 },
    TranslationFailed { message: String },
    Network { message: String },
    Io { message: String },
    Csv { message: String },
    Docx { message: String },
    Pdf { message: String },
    NotImplemented { feature: String },
}

/// What the file system says about a path.
#[derive(Debug, Clone, Copy, PartialEq, Eq, Structural)]
pub enum PathStatus {
    Missing,
    NotAFile,
    File { size: u64 },
}

} // verus!
