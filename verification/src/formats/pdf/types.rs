//! Plain data carried through the PDF pipeline.

use vstd::prelude::*;

verus! {

/// Weight/slant class of a font.
#[derive(Debug, Clone, Copy, PartialEq, Eq, Structural)]
pub enum FontStyle {
    Regular,
    Bold,
    Italic,
    BoldItalic,
}

/// Font files to use for each style; paths are held as text.
#[derive(Debug, Clone)]
pub struct FontVariants {
    pub regular: String,
    pub bold: String,
    pub italic: String,
    pub bold_italic: String,
}

/// Settings of one PDF translation run; paths are held as text.
#[derive(Debug, Clone)]
pub struct TranslateConfig {
    pub input_path: String,
    pub output_path: String,
    pub src_lang: String,
    pub tgt_lang: String,
    pub font_path: Option<String>,
    pub concurrency: usize,
    pub dpi: u32,
    pub jpeg_quality: u8,
}

} // verus!
