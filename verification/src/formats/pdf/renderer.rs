//! Text shaping with HarfBuzz (through `rustybuzz`).

use vstd::prelude::*;

use crate::formats::pdf::error::RenderError;

verus! {

/// One shaped glyph: its id and its advance and offset in font units.
#[derive(Debug, Clone, Copy, PartialEq, Eq, Structural)]
pub struct GlyphInfo {
    pub glyph_id: u32,
    pub x_advance: i32,
    pub y_advance: i32,
    pub x_offset: i32,
    pub y_offset: i32,
}

/// What HarfBuzz shaping gives for a font, a text, an ISO 15924 script tag
/// and a language tag: nothing when the font data cannot be parsed, else the
/// glyphs as `(id, x_advance, y_advance, x_offset, y_offset)`.
pub uninterp spec fn harfbuzz_glyphs(
    font_data: Seq<u8>,
    text: Seq<char>,
    script: Seq<char>,
    lang: Seq<char>,
) -> Option<Seq<(u32, i32, i32, i32, i32)>>;

/// The plain view of shaped glyphs.
pub open spec fn glyph_tuples(g: Seq<GlyphInfo>) -> Seq<(u32, i32, i32, i32, i32)> {
    g.map_values(
        |x: GlyphInfo| (x.glyph_id, x.x_advance, x.y_advance, x.x_offset, x.y_offset),
    )
}

/// Shapes `text` left to right with `rustybuzz::shape` after loading the face
/// with `Face::from_slice` (index 0), taking the script from the tag (Latin
/// when the tag names none) and the language when one is given. The result is
/// `harfbuzz_glyphs` of the arguments; the shaping itself is not restated.
#[verifier::external_body]
fn harfbuzz_shape(font: &[u8], text: &str, script: &str, lang: &str) -> (r: Option<Vec<GlyphInfo>>)
    ensures
        r matches Some(g) ==> harfbuzz_glyphs(font@, text@, script@, lang@) == Some(
            glyph_tuples(g@),
        ),
        r is None ==> harfbuzz_glyphs(font@, text@, script@, lang@) is None,
{
    let face = rustybuzz::Face::from_slice(font, 0)?;
    let mut buf = rustybuzz::UnicodeBuffer::new();
    buf.push_str(text);
    let tag = rustybuzz::ttf_parser::Tag::from_bytes_lossy(script.as_bytes());
    buf.set_script(rustybuzz::Script::from_iso15924_tag(tag).unwrap_or(rustybuzz::script::LATIN));
    if let Ok(l) = lang.parse() { buf.set_language(l); }
    buf.set_direction(rustybuzz::Direction::LeftToRight);
    let out = rustybuzz::shape(&face, &[], buf);
    let it = out.glyph_infos().iter().zip(out.glyph_positions());
    Some(it.map(|(i, p)| GlyphInfo { glyph_id: i.glyph_id, x_advance: p.x_advance, y_advance: p.y_advance, x_offset: p.x_offset, y_offset: p.y_offset }).collect())
}

/// Shapes `text` with HarfBuzz; `script` is a four-letter ISO 15924 tag such
/// as `"Deva"` or `"Latn"`. Font data that does not parse is a font error.
pub fn shape_text(font_data: &[u8], text: &str, script: &str, lang: &str) -> (r: Result<
    Vec<GlyphInfo>,
    RenderError,
>)
    ensures
        match harfbuzz_glyphs(font_data@, text@, script@, lang@) {
            None => r matches Err(RenderError::Font { message }) && message@
                == "invalid font data"@,
            Some(gs) => r matches Ok(g) && glyph_tuples(g@) == gs,
        },
{
    match harfbuzz_shape(font_data, text, script, lang) {
        Some(g) => Ok(g),
        None => Err(RenderError::Font { message: "invalid font data".to_owned() }),
    }
}

} // verus!
