//! What goes into the embedded fallback font's PDF objects: the face's
//! metrics for the font descriptor, the name it is embedded under, its glyph
//! widths, the CID-to-glyph map and the ToUnicode map.

use vstd::prelude::*;

use crate::formats::pdf::error::ReconstructError;
use crate::formats::pdf::font_usage::{
    build_cid_to_gid_map_identity, build_tounicode_cmap_from_mapping, identity_cid_map,
    tounicode_cmap, FontUsage,
};
use crate::formats::pdf::metrics::{
    best_name, build_widths_from_glyphs, default_glyph_width, face_best_name, ttf_names, width_runs,
};
use crate::formats::pdf::reconstructor::{sanitize_pdf_name, sanitized_name};

verus! {

/// The metrics `ttf_parser` reads from face 0 of `font`: the global bounding
/// box `(x_min, y_min, x_max, y_max)`, the ascender, the descender and the
/// capital height when the font has one; nothing when the data does not
/// parse as a font.
pub uninterp spec fn ttf_face_metrics(font: Seq<u8>) -> Option<(i16, i16, i16, i16, i16, i16, Option<i16>)>;

/// The face metrics of face 0 of `font` (`ttf_parser::Face::parse`, then
/// `global_bounding_box`, `ascender`, `descender`, `capital_height`); the
/// result is `ttf_face_metrics` of the font.
#[verifier::external_body]
fn face_metrics(font: &[u8]) -> (r: Option<(i16, i16, i16, i16, i16, i16, Option<i16>)>)
    ensures
        r == ttf_face_metrics(font@),
{
    let face = ttf_parser::Face::parse(font, 0).ok()?;
    let b = face.global_bounding_box();
    Some((b.x_min, b.y_min, b.x_max, b.y_max, face.ascender(), face.descender(), face.capital_height()))
}

/// The integer entries of the embedded font's objects.
pub struct FontDescriptorPlan {
    /// `BaseFont` and `FontName`.
    pub base_font: String,
    /// `FontBBox`: x_min, y_min, x_max, y_max.
    pub bbox: (i64, i64, i64, i64),
    pub ascent: i64,
    pub descent: i64,
    pub cap_height: i64,
    /// `DW` of the CID font.
    pub default_width: i64,
    /// `W` of the CID font: runs of consecutive glyph ids and their widths.
    pub widths: Vec<(u16, Vec<i64>)>,
    /// The `CIDToGIDMap` stream.
    pub cid_to_gid: Vec<u8>,
    /// The `ToUnicode` stream, when some glyph has text.
    pub to_unicode: Option<Vec<u8>>,
}

/// The name the font is embedded under: its best name (see `best_name`),
/// else `TMTFont`, made safe for a PDF name.
pub open spec fn embedded_name(font: Seq<u8>) -> Seq<char> {
    let found = match ttf_names(font) {
        Some(ns) => best_name(ns),
        None => None,
    };
    match found {
        Some(n) => sanitized_name(n, "TMTFont"@),
        None => sanitized_name("TMTFont"@, "TMTFont"@),
    }
}

/// The error for font data that does not parse.
pub open spec fn bad_font(r: Result<FontDescriptorPlan, ReconstructError>) -> bool {
    r matches Err(ReconstructError::Pdf { message })
        && message@ == "Font file is not a valid TrueType font"@
}

/// Plans the embedded font's objects. Font data that does not parse is
/// refused; otherwise the descriptor takes the face's bounding box, ascender,
/// descender and capital height (the ascender when it has none), and the
/// widths and maps come from the glyphs used.
pub fn font_descriptor_plan(font: &[u8], usage: &FontUsage) -> (r: Result<FontDescriptorPlan, ReconstructError>)
    requires
        usage.wf(),
    ensures
        ttf_face_metrics(font@) is None <==> bad_font(r),
        match ttf_face_metrics(font@) {
            None => r is Err,
            Some(m) => r matches Ok(p) && p.base_font@ == embedded_name(font@)
                && p.bbox == (m.0 as i64, m.1 as i64, m.2 as i64, m.3 as i64)
                && p.ascent == m.4 as i64 && p.descent == m.5 as i64
                && p.cap_height == (match m.6 {
                    Some(c) => c as i64,
                    None => m.4 as i64,
                }) && p.default_width == default_glyph_width(font@)
                && p.widths@.map_values(|e: (u16, Vec<i64>)| (e.0, e.1@))
                    == width_runs(font@, p.default_width as int, usage.glyph_ids())
                && p.cid_to_gid@ == identity_cid_map(usage.glyph_ids())
                && (usage.mapping().len() == 0 <==> p.to_unicode is None)
                && (p.to_unicode matches Some(t) ==> t@ == vstd::utf8::encode_utf8(
                    tounicode_cmap(usage.mapping()),
                )),
        },
{
    let m = match face_metrics(font) {
        Some(m) => m,
        None => {
            return Err(
                ReconstructError::Pdf { message: "Font file is not a valid TrueType font".to_owned() },
            );
        },
    };
    let base_font = match face_best_name(font) {
        Some(n) => sanitize_pdf_name(n.as_str(), "TMTFont"),
        None => sanitize_pdf_name("TMTFont", "TMTFont"),
    };
    let cap: i16 = match m.6 {
        Some(c) => c,
        None => m.4,
    };
    let (default_width, widths) = build_widths_from_glyphs(font, usage);
    let cid_to_gid = build_cid_to_gid_map_identity(usage);
    let to_unicode = if usage.has_no_text() {
        None
    } else {
        Some(build_tounicode_cmap_from_mapping(usage))
    };
    Ok(FontDescriptorPlan {
        base_font,
        bbox: (m.0 as i64, m.1 as i64, m.2 as i64, m.3 as i64),
        ascent: m.4 as i64,
        descent: m.5 as i64,
        cap_height: cap as i64,
        default_width,
        widths,
        cid_to_gid,
        to_unicode,
    })
}

/// What a dictionary entry holds, as far as placing the font is concerned.
#[derive(Debug, Clone, Copy, PartialEq, Eq, Structural)]
pub enum EntryKind {
    Missing,
    Reference,
    Dictionary,
    Other,
}

/// Where to go on with a `Resources` or `Font` entry when the font resource
/// is added to a page.
#[derive(Debug, Clone, Copy, PartialEq, Eq, Structural)]
pub enum EntryStep {
    /// The entry refers to an object: continue in that object.
    FollowReference,
    /// Continue in the dictionary held in place, made empty first when the
    /// entry is missing.
    InPlace { create: bool },
    /// The entry holds something else: reading it as a dictionary fails.
    NotADictionary,
}

/// The step for an entry: a reference is followed, a dictionary is used in
/// place, a missing entry gets an empty dictionary, anything else fails.
pub fn entry_step(kind: EntryKind) -> (s: EntryStep)
    ensures
        kind == EntryKind::Reference ==> s == EntryStep::FollowReference,
        kind == EntryKind::Dictionary ==> s == (EntryStep::InPlace { create: false }),
        kind == EntryKind::Missing ==> s == (EntryStep::InPlace { create: true }),
        kind == EntryKind::Other ==> s == EntryStep::NotADictionary,
{
    match kind {
        EntryKind::Reference => EntryStep::FollowReference,
        EntryKind::Dictionary => EntryStep::InPlace { create: false },
        EntryKind::Missing => EntryStep::InPlace { create: true },
        EntryKind::Other => EntryStep::NotADictionary,
    }
}

} // verus!
