//! PDF translation: text extraction helpers, font selection and the
//! content-stream rewriting used to put translations back in place.

pub mod bundled_fonts;
pub mod embedding;
pub mod encoding;
pub mod error;
pub mod font_usage;
pub mod metrics;
pub mod parser;
pub mod fonts;
pub mod reconstructor;
pub mod renderer;
pub mod shaping;
pub mod translator;
pub mod types;
pub mod utils;

pub use error::PdfTranslateError;
pub use types::{FontStyle, FontVariants, TranslateConfig};

use vstd::prelude::*;

use crate::text::{chars_of, chars_equal, to_ascii_lowercase, ascii_lowercase};

verus! {

/// Language codes whose script needs a complex-script font.
pub open spec fn complex_script_langs() -> Seq<Seq<char>> {
    seq![
        seq!['n', 'e'],
        seq!['n', 'e', 'p'],
        seq!['n', 'e', 'p', 'a', 'l', 'i'],
        seq!['t', 'm', 'g'],
        seq!['t', 'a', 'm', 'a', 'n', 'g'],
    ]
}

/// Whether text in language `lang` (case-insensitive) needs a complex-script
/// font: Nepali (`ne`, `nep`, `nepali`) and Tamang (`tmg`, `tamang`).
pub fn requires_complex_script_font(lang: &str) -> (b: bool)
    ensures
        b == complex_script_langs().contains(ascii_lowercase(lang@)),
{
    let lc = chars_of(lang);
    let l = to_ascii_lowercase(&lc);
    assert(l@ == ascii_lowercase(lang@));
    let codes = vec![
        vec!['n', 'e'],
        vec!['n', 'e', 'p'],
        vec!['n', 'e', 'p', 'a', 'l', 'i'],
        vec!['t', 'm', 'g'],
        vec!['t', 'a', 'm', 'a', 'n', 'g'],
    ];
    assert(crate::text::char_views(codes@) =~= complex_script_langs());
    let mut i: usize = 0;
    while i < codes.len()
        invariant
            i <= codes.len(),
            crate::text::char_views(codes@) == complex_script_langs(),
            l@ == ascii_lowercase(lang@),
            forall|k: int| 0 <= k < i ==> complex_script_langs()[k] != l@,
        decreases codes.len() - i,
    {
        if chars_equal(&codes[i], &l) {
            assert(complex_script_langs()[i as int] == l@);
            assert(complex_script_langs().contains(l@));
            return true;
        }
        i = i + 1;
    }
    false
}

/// Checks a PDF request before any work: a complex-script target language
/// needs a font path, and a given font path must exist (`font_exists` says
/// whether it does).
pub fn check_font_requirements(
    tgt_lang: &str,
    font_path: Option<&str>,
    font_exists: bool,
) -> (r: Result<(), PdfTranslateError>)
    ensures
        ({
            let needs = complex_script_langs().contains(ascii_lowercase(tgt_lang@));
            match r {
                Ok(()) => !(needs && font_path is None) && !(font_path is Some && !font_exists),
                Err(PdfTranslateError::ComplexScriptFontRequired { lang }) => needs && font_path is None
                    && lang@ == tgt_lang@,
                Err(PdfTranslateError::FontNotFound { path }) => !(needs && font_path is None)
                    && font_path is Some && !font_exists && path@ == font_path->0@,
                Err(_) => false,
            }
        }),
{
    if requires_complex_script_font(tgt_lang) && font_path.is_none() {
        return Err(PdfTranslateError::ComplexScriptFontRequired { lang: tgt_lang.to_owned() });
    }
    if let Some(path) = font_path {
        if !font_exists {
            return Err(PdfTranslateError::FontNotFound { path: path.to_owned() });
        }
    }
    Ok(())
}

} // verus!
