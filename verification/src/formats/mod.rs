//! Per-format translation logic (CSV/TSV, DOCX and PDF) and the choice of
//! handler for an input file.

pub mod csv_tsv;
pub mod docx;
pub mod pdf;

use vstd::prelude::*;

use crate::app::{lower_extension, no_extension_message};
use crate::error::AppError;
use crate::text::chars_of;

verus! {

/// The handler for a kind of document.
#[derive(Debug, Clone, Copy, PartialEq, Eq, Structural)]
pub enum FormatKind {
    CsvTsv,
    Docx,
    Pdf,
}

/// The lower-cased extension of `path`; a path without one is an invalid
/// argument.
pub fn extension(path: &str) -> (r: Result<String, AppError>)
    ensures
        match lower_extension(path@) {
            Some(e) => r matches Ok(s) && s@ == e,
            None => r matches Err(AppError::InvalidArgument { message }) && message@
                == no_extension_message(path@),
        },
{
    crate::app::extension(path)
}

/// The handler for a (lower-cased) extension: `csv` and `tsv`, `docx` and
/// `pdf` are supported, anything else is an unsupported format.
pub fn format_for(ext: String) -> (r: Result<FormatKind, AppError>)
    ensures
        ext@ == "csv"@ || ext@ == "tsv"@ ==> r == Ok::<FormatKind, AppError>(FormatKind::CsvTsv),
        ext@ == "docx"@ ==> r == Ok::<FormatKind, AppError>(FormatKind::Docx),
        ext@ == "pdf"@ ==> r == Ok::<FormatKind, AppError>(FormatKind::Pdf),
        !(ext@ == "csv"@ || ext@ == "tsv"@ || ext@ == "docx"@ || ext@ == "pdf"@) ==> (r matches Err(
            AppError::UnsupportedFormat { ext: e },
        ) && e@ == ext@),
{
    proof {
        reveal_strlit("csv");
        reveal_strlit("tsv");
        reveal_strlit("docx");
        reveal_strlit("pdf");
        assert("csv"@.len() == 3);
        assert("tsv"@.len() == 3);
        assert("docx"@.len() == 4);
        assert("pdf"@.len() == 3);
        assert("pdf"@[0] == 'p' && "csv"@[0] == 'c' && "tsv"@[0] == 't');
    }
    let e = chars_of(ext.as_str());
    let csv = chars_of("csv");
    let tsv = chars_of("tsv");
    let docx = chars_of("docx");
    let pdf = chars_of("pdf");
    if crate::text::chars_equal(&e, &csv) || crate::text::chars_equal(&e, &tsv) {
        Ok(FormatKind::CsvTsv)
    } else if crate::text::chars_equal(&e, &docx) {
        Ok(FormatKind::Docx)
    } else if crate::text::chars_equal(&e, &pdf) {
        Ok(FormatKind::Pdf)
    } else {
        Err(AppError::UnsupportedFormat { ext })
    }
}

} // verus!
