//! Error kinds of the PDF pipeline.

use vstd::prelude::*;

verus! {

/// Failure while reading text out of a PDF.
#[derive(Debug)]
pub enum ParseError {
    FeatureDisabled,
    Pdf { message: String },
    Io { message: String },
}

/// Failure while translating extracted lines.
#[derive(Debug)]
pub enum TranslationError {
    Service { message: String },
}

/// Failure while shaping or rasterising text.
#[derive(Debug)]
pub enum RenderError {
    FeatureDisabled,
    Font { message: String },
    Image { message: String },
}

/// Failure while writing the translated PDF.
#[derive(Debug)]
pub enum ReconstructError {
    FeatureDisabled,
    Pdf { message: String },
    PageNotFound { page_index: usize },
    Render(RenderError),
    Io { message: String },
}

/// Any failure of a PDF translation run.
#[derive(Debug)]
pub enum PdfTranslateError {
    Parse(ParseError),
    Translation(TranslationError),
    Reconstruction(ReconstructError),
    FontNotFound { path: String },
    ComplexScriptFontRequired { lang: String },
}

} // verus!
