use hackathon::formats::pdf::bundled_fonts::is_bold_font_name;
use hackathon::formats::pdf::encoding::{
    decode_pdf_string, decode_single_byte, decode_utf16be, decode_utf16le, detect_encoding_hint,
    encode_utf16be_bytes, encode_utf16le, encode_with_hint, hex_digit_of, looks_like_utf16,
    push_hex4, EncodingHint,
};
use hackathon::formats::pdf::error::{PdfTranslateError, RenderError};
use hackathon::formats::pdf::font_usage::{
    build_cid_to_gid_map_identity, build_tounicode_cmap_from_mapping, FontUsage,
};
use hackathon::formats::pdf::embedding::{entry_step, font_descriptor_plan, EntryKind, EntryStep};
use hackathon::formats::pdf::translator::ordered_slots;
use hackathon::formats::pdf::error::ReconstructError;
use hackathon::formats::pdf::metrics::{build_widths_from_glyphs, em_units, face_best_name, pick_font_name};
use hackathon::formats::pdf::fonts::{bold_candidate_path, build_font_variants, pick_variant};
use hackathon::formats::pdf::parser::decode_pdf_string as extract;
use hackathon::formats::pdf::renderer::shape_text;
use hackathon::formats::pdf::shaping::{cid_string, record_shaped_glyphs, slice_text};
use hackathon::formats::pdf::utils::{escape_pdf_string, fix_devanagari_clusters};
use hackathon::formats::pdf::{check_font_requirements, requires_complex_script_font, FontVariants};

#[test]
fn utf16_encoders_write_a_bom() {
    assert_eq!(encode_utf16be_bytes("A"), vec![0xFE, 0xFF, 0x00, 0x41]);
    assert_eq!(encode_utf16le("A"), vec![0xFF, 0xFE, 0x41, 0x00]);
    assert_eq!(encode_utf16be_bytes(""), vec![0xFE, 0xFF]);
    assert_eq!(
        encode_utf16be_bytes("😀"),
        vec![0xFE, 0xFF, 0xD8, 0x3D, 0xDE, 0x00]
    );
}

#[test]
fn encoding_follows_the_hint() {
    assert_eq!(encode_with_hint("abc", EncodingHint::SingleByte), b"abc".to_vec());
    assert_eq!(
        encode_with_hint("न", EncodingHint::SingleByte),
        vec![0xFE, 0xFF, 0x09, 0x28]
    );
    assert_eq!(
        encode_with_hint("ab", EncodingHint::Utf16Le),
        vec![0xFF, 0xFE, 0x61, 0x00, 0x62, 0x00]
    );
    assert_eq!(
        encode_with_hint("ab", EncodingHint::Utf16Be),
        vec![0xFE, 0xFF, 0x00, 0x61, 0x00, 0x62]
    );
}

#[test]
fn encoding_hints_are_detected() {
    assert_eq!(detect_encoding_hint(&[0xFE, 0xFF, 0x41]), EncodingHint::Utf16Be);
    assert_eq!(detect_encoding_hint(&[0xFF, 0xFE]), EncodingHint::Utf16Le);
    assert_eq!(detect_encoding_hint(&[0x00, 0x41, 0x00, 0x42]), EncodingHint::Utf16Be);
    assert_eq!(detect_encoding_hint(&[0x41, 0x00, 0x42, 0x00]), EncodingHint::Utf16Le);
    assert_eq!(detect_encoding_hint(b"abcd"), EncodingHint::SingleByte);
    assert!(looks_like_utf16(&[0x00, 0x41, 0x00, 0x42], true));
    assert!(!looks_like_utf16(&[0x00, 0x41, 0x00, 0x42], false));
    assert!(!looks_like_utf16(&[0x00, 0x41, 0x00], true));
    assert!(!looks_like_utf16(&[0x00, 0x41], true));
}

#[test]
fn utf16_decoders() {
    assert_eq!(decode_utf16be(&[0xFE, 0xFF, 0x09, 0x28, 0x09, 0x2E]), "नम");
    assert_eq!(decode_utf16be(&[0x00, 0x41, 0x00]), "A");
    assert_eq!(decode_utf16be(&[0xD8, 0x00]), "\u{FFFD}");
    assert_eq!(decode_utf16le(&[0xFF, 0xFE, 0x41, 0x00]), "A");
    assert_eq!(decode_utf16le(&[0x3D, 0xD8, 0x00, 0xDE]), "😀");
}

#[test]
fn single_byte_strings() {
    assert_eq!(decode_single_byte("café".as_bytes()), "café");
    assert_eq!(decode_single_byte(&[0x80]), "€");
    assert_eq!(decode_single_byte(&[0x63, 0xE9]), "cé");
    assert_eq!(decode_single_byte(&[0x93, 0x41, 0x94, 0x81, 0xFF]), "\u{201C}A\u{201D}\u{81}ÿ");
    assert_eq!(decode_single_byte(&[0xEF, 0xBB, 0xBF, 0xFF]), "\u{FFFD}");
}

#[test]
fn pdf_strings_decode_with_their_hint() {
    let (text, hint) = decode_pdf_string(&[0xFE, 0xFF, 0x00, 0x48, 0x00, 0x69]);
    assert_eq!(text, "Hi");
    assert_eq!(hint, EncodingHint::Utf16Be);
    let (text, hint) = decode_pdf_string(b"Hello");
    assert_eq!(text, "Hello");
    assert_eq!(hint, EncodingHint::SingleByte);
}

#[test]
fn extracted_text_drops_control_characters() {

    assert_eq!(extract(&[0x41, 0x0A, 0x42]), "AB");
    assert_eq!(extract(&[0xFE, 0xFF, 0x00, 0x41, 0x00, 0x0A, 0x00, 0x42]), "AB");
    assert_eq!(extract(&[0xE9]), "é");
}

#[test]
fn hex_digits() {
    assert_eq!(hex_digit_of(9), '9');
    assert_eq!(hex_digit_of(10), 'A');
    let mut out = vec!['<'];
    push_hex4(&mut out, 0x092E);
    assert_eq!(out.into_iter().collect::<String>(), "<092E");
}

#[test]
fn halant_spaces_are_removed() {
    assert_eq!(fix_devanagari_clusters("क्\u{20}ष"), "क्ष");
    assert_eq!(fix_devanagari_clusters("क् \t ष र"), "क्ष र");
    assert_eq!(fix_devanagari_clusters("a  b"), "a  b");
}

#[test]
fn fixing_clusters_twice_changes_nothing() {
    for text in ["क् ष", "क् \t ष र ग्  ", "नमस्ते  संसार", "plain  text\n", "्  ्  x", ""] {
        let once = fix_devanagari_clusters(text);
        assert_eq!(fix_devanagari_clusters(&once), once);
    }
    for text in ["नमस्ते  संसार", "plain  text\n", ""] {
        assert_eq!(fix_devanagari_clusters(text), text);
    }
}

#[test]
fn pdf_strings_are_escaped() {
    assert_eq!(escape_pdf_string("a(b)\\c\n\r\t"), "a\\(b\\)\\\\c\\n\\r\\t");
    assert_eq!(escape_pdf_string("plain"), "plain");
}

#[test]
fn bold_font_names() {
    assert!(is_bold_font_name(Some("BAAAAA+Arial-BoldMT")));
    assert!(is_bold_font_name(Some("X+SourceSans-Semibold")));
    assert!(is_bold_font_name(Some("ArialBLACK")));
    assert!(!is_bold_font_name(Some("Helvetica")));
    assert!(!is_bold_font_name(Some("Bold+Regular")));
    assert!(!is_bold_font_name(None));
}

fn variants() -> FontVariants {
    FontVariants {
        regular: "r.ttf".to_string(),
        bold: "b.ttf".to_string(),
        italic: "i.ttf".to_string(),
        bold_italic: "bi.ttf".to_string(),
    }
}

#[test]
fn font_variant_by_name() {
    let v = variants();
    assert_eq!(pick_variant(&v, None), "r.ttf");
    assert_eq!(pick_variant(&v, Some("Times-Roman")), "r.ttf");
    assert_eq!(pick_variant(&v, Some("ABC+Font-BoldItalic")), "bi.ttf");
    assert_eq!(pick_variant(&v, Some("Font-Medium")), "b.ttf");
    assert_eq!(pick_variant(&v, Some("Font-Oblique")), "i.ttf");
}

#[test]
fn bold_sibling_paths() {
    assert_eq!(bold_candidate_path("/f/Noto-Regular.ttf"), "/f/Noto-Bold.ttf");
    assert_eq!(bold_candidate_path("Noto.ttf"), "Noto-Bold.ttf");
    assert_eq!(bold_candidate_path("/f/Font"), "/f/Font-Bold");
    let with = build_font_variants("/f/Noto-Regular.ttf", true);
    assert_eq!(with.regular, "/f/Noto-Regular.ttf");
    assert_eq!(with.italic, "/f/Noto-Regular.ttf");
    assert_eq!(with.bold, "/f/Noto-Bold.ttf");
    assert_eq!(with.bold_italic, "/f/Noto-Bold.ttf");
    let without = build_font_variants("/f/Noto-Regular.ttf", false);
    assert_eq!(without.bold, "/f/Noto-Regular.ttf");
}

#[test]
fn complex_script_languages() {
    assert!(requires_complex_script_font("ne"));
    assert!(requires_complex_script_font("NEPALI"));
    assert!(requires_complex_script_font("Tamang"));
    assert!(!requires_complex_script_font("en"));
    assert!(!requires_complex_script_font("n"));
}

#[test]
fn font_requirements() {
    assert!(matches!(
        check_font_requirements("ne", None, false),
        Err(PdfTranslateError::ComplexScriptFontRequired { lang }) if lang == "ne"
    ));
    assert!(matches!(
        check_font_requirements("en", Some("/x.ttf"), false),
        Err(PdfTranslateError::FontNotFound { path }) if path == "/x.ttf"
    ));
    assert!(check_font_requirements("ne", Some("/x.ttf"), true).is_ok());
    assert!(check_font_requirements("en", None, false).is_ok());
}

#[test]
fn shaping_refuses_bad_font_data() {
    match shape_text(&[1, 2, 3], "abc", "Latn", "en") {
        Err(RenderError::Font { message }) => assert_eq!(message, "invalid font data"),
        other => panic!("unexpected {:?}", other),
    }
}

#[test]
fn widths_group_consecutive_glyphs() {
    let mut usage = FontUsage::new();
    for g in [9u16, 4, 3, 5, 4] {
        usage.insert_glyph(g);
    }
    let (dw, w) = build_widths_from_glyphs(&[0u8, 1, 2, 3], &usage);
    assert_eq!(dw, 1000);
    assert_eq!(w, vec![(3, vec![1000, 1000, 1000]), (9, vec![1000])]);
    let (dw, w) = build_widths_from_glyphs(&[], &FontUsage::new());
    assert_eq!(dw, 1000);
    assert!(w.is_empty());
}

#[test]
fn identity_cid_map_and_tounicode() {
    let mut usage = FontUsage::new();
    assert!(usage.has_no_glyphs());
    assert!(build_cid_to_gid_map_identity(&usage).is_empty());
    usage.insert_glyph(3);
    usage.insert_glyph(1);
    assert!(!usage.has_no_glyphs());
    assert_eq!(build_cid_to_gid_map_identity(&usage), vec![0, 0, 0, 1, 0, 2, 0, 3]);
    usage.map_glyph(5, "A".to_string());
    usage.map_glyph(5, "B".to_string());
    usage.map_glyph(0x0100, "न".to_string());
    let cmap = String::from_utf8(build_tounicode_cmap_from_mapping(&usage)).unwrap();
    let expected = "/CIDInit /ProcSet findresource begin\n12 dict begin\nbegincmap\n\
/CIDSystemInfo << /Registry (Adobe) /Ordering (Identity) /Supplement 0 >> def\n\
/CMapName /Adobe-Identity-UCS def\n/CMapType 2 def\n\
1 begincodespacerange\n<0000> <FFFF>\nendcodespacerange\n\
2 beginbfchar\n<0005> <0041>\n<0100> <0928>\nendbfchar\n\
endcmap\nCMapName currentdict /CMap defineresource pop\nend\nend\n";
    assert_eq!(cmap, expected);
}

#[test]
fn cluster_slices_follow_char_boundaries() {
    assert_eq!(slice_text("aनb", 0, 1), Some("a".to_string()));
    assert_eq!(slice_text("aनb", 1, 4), Some("न".to_string()));
    assert_eq!(slice_text("aनb", 4, 4), Some(String::new()));
    assert_eq!(slice_text("aनb", 1, 2), None);
    assert_eq!(slice_text("aनb", 3, 1), None);
    assert_eq!(slice_text("aनb", 0, 6), None);
}

#[test]
fn shaped_glyphs_are_recorded() {
    let mut usage = FontUsage::new();
    record_shaped_glyphs(&mut usage, "ab", &vec![7, 7, 9], &vec![0, 1, 1]);
    record_shaped_glyphs(&mut usage, "c", &vec![9], &vec![0]);
    assert_eq!(build_cid_to_gid_map_identity(&usage).len(), 20);
    let cmap = String::from_utf8(build_tounicode_cmap_from_mapping(&usage)).unwrap();
    assert!(cmap.contains("2 beginbfchar\n<0007> <0061>\n<0009> <0062>\nendbfchar\n"));
    assert_eq!(cid_string(0x0123), vec![0x01, 0x23]);
}

#[test]
fn shaping_a_run_needs_a_font() {
    let mut usage = FontUsage::new();
    assert!(hackathon::formats::pdf::shaping::shape_run(&mut usage, &[0, 1, 2], "नमस्ते").is_none());
    assert!(usage.has_no_glyphs());
    assert!(usage.has_no_text());
}

#[test]
fn rewritten_strings_read_back() {
    for text in ["Hello world", "नमस्ते संसार", "", "a"] {
        for hint in [EncodingHint::SingleByte, EncodingHint::Utf16Be, EncodingHint::Utf16Le] {
            let bytes = encode_with_hint(text, hint);
            assert_eq!(decode_pdf_string(&bytes).0, text);
        }
    }
}

#[test]
fn rewritten_strings_keep_their_encoding() {
    let cases = [
        ("Hello world", EncodingHint::SingleByte, EncodingHint::SingleByte),
        ("नमस्ते", EncodingHint::SingleByte, EncodingHint::Utf16Be),
        ("Hello", EncodingHint::Utf16Be, EncodingHint::Utf16Be),
        ("नमस्ते", EncodingHint::Utf16Le, EncodingHint::Utf16Le),
        ("", EncodingHint::Utf16Le, EncodingHint::Utf16Le),
    ];
    for (text, hint, read_as) in cases {
        let (back, h) = decode_pdf_string(&encode_with_hint(text, hint));
        assert_eq!(back, text);
        assert_eq!(h, read_as);
    }
}

/// A minimal TrueType font: 1000 units per em, glyph 0 (500 wide), glyph 1
/// for ' ' (250 wide) and glyph 2 for '!' (600 wide).
fn tiny_font() -> Vec<u8> {
    tiny_font_named(&[])
}

/// The same font with a `name` table: `(platform, encoding, name id, text)`,
/// the text stored as UTF-16BE.
fn tiny_font_named(names: &[(u16, u16, u16, &str)]) -> Vec<u8> {
    fn be16(v: &mut Vec<u8>, x: u16) {
        v.extend_from_slice(&x.to_be_bytes());
    }
    fn be32(v: &mut Vec<u8>, x: u32) {
        v.extend_from_slice(&x.to_be_bytes());
    }
    let mut cmap = Vec::new();
    be16(&mut cmap, 0);
    be16(&mut cmap, 1);
    be16(&mut cmap, 0);
    be16(&mut cmap, 3);
    be32(&mut cmap, 12);
    for x in [6u16, 14, 0, 32, 2, 1, 2] {
        be16(&mut cmap, x);
    }
    let mut head = Vec::new();
    be32(&mut head, 0x0001_0000);
    be32(&mut head, 0x0001_0000);
    be32(&mut head, 0);
    be32(&mut head, 0x5F0F_3CF5);
    be16(&mut head, 0);
    be16(&mut head, 1000);
    head.extend_from_slice(&[0u8; 16]);
    for x in [0u16, 0, 1000, 1000, 0, 8, 2, 0, 0] {
        be16(&mut head, x);
    }
    let mut hhea = Vec::new();
    be32(&mut hhea, 0x0001_0000);
    for x in [800u16, 0xFF38, 0, 600, 0, 0, 0, 1, 0, 0, 0, 0, 0, 0, 0, 3] {
        be16(&mut hhea, x);
    }
    let mut hmtx = Vec::new();
    for x in [500u16, 0, 250, 0, 600, 0] {
        be16(&mut hmtx, x);
    }
    let mut maxp = Vec::new();
    be32(&mut maxp, 0x0000_5000);
    be16(&mut maxp, 3);

    let mut tables: Vec<(&[u8; 4], Vec<u8>)> =
        vec![(b"cmap", cmap), (b"head", head), (b"hhea", hhea), (b"hmtx", hmtx), (b"maxp", maxp)];
    if !names.is_empty() {
        let mut name = Vec::new();
        let mut storage = Vec::new();
        be16(&mut name, 0);
        be16(&mut name, names.len() as u16);
        be16(&mut name, 6 + 12 * names.len() as u16);
        for (platform, encoding, id, text) in names {
            let start = storage.len() as u16;
            for u in text.encode_utf16() {
                be16(&mut storage, u);
            }
            for x in [*platform, *encoding, 0, *id, storage.len() as u16 - start, start] {
                be16(&mut name, x);
            }
        }
        name.extend_from_slice(&storage);
        tables.push((b"name", name));
    }
    let mut font = Vec::new();
    be32(&mut font, 0x0001_0000);
    be16(&mut font, tables.len() as u16);
    be16(&mut font, 64);
    be16(&mut font, 2);
    be16(&mut font, 16);
    let mut offset = 12 + 16 * tables.len() as u32;
    for (tag, data) in &tables {
        font.extend_from_slice(&tag[..]);
        be32(&mut font, 0);
        be32(&mut font, offset);
        be32(&mut font, data.len() as u32);
        offset += ((data.len() + 3) / 4 * 4) as u32;
    }
    for (_, data) in &tables {
        font.extend_from_slice(data);
        while font.len() % 4 != 0 {
            font.push(0);
        }
    }
    font
}

#[test]
fn widths_come_from_the_font() {
    let font = tiny_font();
    let mut usage = FontUsage::new();
    for g in [5u16, 2, 1] {
        usage.insert_glyph(g);
    }
    let (dw, w) = build_widths_from_glyphs(&font, &usage);
    assert_eq!(dw, 250);
    assert_eq!(w, vec![(1, vec![250, 600]), (5, vec![250])]);
}

#[test]
fn shaping_with_a_real_font() {
    let font = tiny_font();
    let glyphs = shape_text(&font, " !", "Latn", "en").unwrap();
    let ids: Vec<u32> = glyphs.iter().map(|g| g.glyph_id).collect();
    let advances: Vec<i32> = glyphs.iter().map(|g| g.x_advance).collect();
    assert_eq!(ids, vec![1, 2]);
    assert_eq!(advances, vec![250, 600]);

    let mut usage = FontUsage::new();
    let run = hackathon::formats::pdf::shaping::shape_run(&mut usage, &font, " !").unwrap();
    assert_eq!(run, vec![(vec![0, 1], 0), (vec![0, 2], 0)]);
    let cmap = String::from_utf8(build_tounicode_cmap_from_mapping(&usage)).unwrap();
    assert!(cmap.contains("2 beginbfchar\n<0001> <0020>\n<0002> <0021>\nendbfchar\n"));
    assert_eq!(build_cid_to_gid_map_identity(&usage), vec![0, 0, 0, 1, 0, 2]);
}

#[test]
fn font_names_by_preference() {
    let entries = vec![
        (1u16, Some("Family".to_string())),
        (6u16, None),
        (4u16, Some("Full Name".to_string())),
        (6u16, Some("PostScript".to_string())),
    ];
    assert_eq!(pick_font_name(&entries), Some("PostScript".to_string()));
    assert_eq!(pick_font_name(&entries[..3].to_vec()), Some("Full Name".to_string()));
    assert_eq!(pick_font_name(&entries[..2].to_vec()), Some("Family".to_string()));
    assert_eq!(pick_font_name(&vec![(6u16, None), (2u16, Some("Regular".to_string()))]), None);
}

#[test]
fn font_names_come_from_the_name_table() {
    let font = tiny_font_named(&[(3, 1, 1, "Tiny"), (1, 0, 6, "MacOnly"), (3, 1, 4, "Tiny Full")]);
    assert_eq!(face_best_name(&font), Some("Tiny Full".to_string()));
    let font = tiny_font_named(&[(3, 1, 1, "Tiny"), (0, 3, 6, "Tiny-PS")]);
    assert_eq!(face_best_name(&font), Some("Tiny-PS".to_string()));
    assert_eq!(face_best_name(&tiny_font()), None);
    assert_eq!(face_best_name(b"not a font"), None);
}

#[test]
fn em_units_of_a_font() {
    assert_eq!(em_units(&tiny_font()), Some(1000));
    assert_eq!(em_units(b"not a font"), None);
}

#[test]
fn font_descriptor_from_the_face() {
    match font_descriptor_plan(b"not a font", &FontUsage::new()) {
        Err(ReconstructError::Pdf { message }) => {
            assert_eq!(message, "Font file is not a valid TrueType font")
        }
        _ => panic!("bad font data accepted"),
    }

    let font = tiny_font_named(&[(3, 1, 6, "TinyPS")]);
    let mut usage = FontUsage::new();
    usage.insert_glyph(1);
    usage.insert_glyph(2);
    let plan = font_descriptor_plan(&font, &usage).unwrap();
    assert_eq!(plan.base_font, "TinyPS");
    assert_eq!(plan.bbox, (0, 0, 1000, 1000));
    assert_eq!(plan.ascent, 800);
    assert_eq!(plan.descent, -200);
    assert_eq!(plan.cap_height, 800);
    let (dw, w) = build_widths_from_glyphs(&font, &usage);
    assert_eq!(plan.default_width, dw);
    assert_eq!(plan.widths, w);
    assert_eq!(plan.cid_to_gid, vec![0, 0, 0, 1, 0, 2]);
    assert!(plan.to_unicode.is_none());

    usage.map_glyph(1, " ".to_string());
    let plan = font_descriptor_plan(&tiny_font(), &usage).unwrap();
    assert_eq!(plan.base_font, "TMTFont");
    let cmap = String::from_utf8(plan.to_unicode.unwrap()).unwrap();
    assert!(cmap.contains("<0001> <0020>"));
}

#[test]
fn results_are_put_back_in_line_order() {
    assert_eq!(ordered_slots(&vec![]), vec![]);
    assert_eq!(ordered_slots(&vec![2, 0, 1]), vec![Some(1), Some(2), Some(0)]);
    assert_eq!(ordered_slots(&vec![3, 1]), vec![None, Some(1), None, Some(0)]);
    assert_eq!(ordered_slots(&vec![0, 0]), vec![Some(1)]);
}

#[test]
fn resource_entries_are_followed_or_filled() {
    assert_eq!(entry_step(EntryKind::Reference), EntryStep::FollowReference);
    assert_eq!(entry_step(EntryKind::Dictionary), EntryStep::InPlace { create: false });
    assert_eq!(entry_step(EntryKind::Missing), EntryStep::InPlace { create: true });
    assert_eq!(entry_step(EntryKind::Other), EntryStep::NotADictionary);
}
