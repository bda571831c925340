use hackathon::formats::pdf::encoding::decode_pdf_string;
use hackathon::formats::pdf::reconstructor::{
    build_translation_context, needs_fallback_font, normalize_word_key, plan_text_replacement,
    plan_tj_replacement, redistribute_by_length, sanitize_pdf_name, TextPlan, TjItem, TjPlan,
};
use hackathon::layout::{reflow_lines, reflow_text, split_word};

fn strings(v: &[&str]) -> Vec<String> {
    v.iter().map(|s| s.to_string()).collect()
}

fn context() -> hackathon::formats::pdf::reconstructor::TranslationContext {
    build_translation_context(&vec![
        ("Hello world".to_string(), "Namaste sansar".to_string()),
        ("Good morning".to_string(), "शुभ प्रभात".to_string()),
        ("a b c".to_string(), "X Y".to_string()),
    ])
}

#[test]
fn words_are_cut_into_chunks() {
    assert_eq!(split_word("abcde", 2), strings(&["ab", "cd", "e"]));
    assert_eq!(split_word("abc", 0), strings(&["abc"]));
    assert!(split_word("", 3).is_empty());
}

#[test]
fn text_is_reflowed_to_a_width() {
    assert_eq!(reflow_text("   ", 5), strings(&["   "]));
    assert_eq!(reflow_text("abcdefghij xy", 4), strings(&["abcd", "efgh", "ij", "xy"]));
    assert_eq!(reflow_text("aaaa bbbb cccc dd", 12), strings(&["aaaa bbbb", "cccc dd"]));
    assert_eq!(reflow_text("a b", 0), strings(&["a", "b"]));
}

#[test]
fn only_much_longer_translations_are_reflowed() {
    assert_eq!(
        reflow_lines("short", "a much longer translation"),
        strings(&["a much longer translation"])
    );
    assert_eq!(
        reflow_lines("twelve chars", "aaaa bbbb cccc dd"),
        strings(&["aaaa bbbb", "cccc dd"])
    );
    assert_eq!(
        reflow_lines("twelve chars", "aaaa bbbb cccc"),
        strings(&["aaaa bbbb cccc"])
    );
}

#[test]
fn parts_are_redistributed_by_length() {
    assert_eq!(redistribute_by_length("abcdef", &strings(&["ab", "c"])), strings(&["abcd", "ef"]));
    assert_eq!(
        redistribute_by_length("ab", &strings(&["aaaa", "b", "c"])),
        strings(&["a", "", "b"])
    );
}

#[test]
fn word_keys_strip_symbols() {
    assert_eq!(normalize_word_key("  (Hello,)  "), "Hello");
    assert_eq!(normalize_word_key("...!"), "");
}

#[test]
fn names_are_sanitized() {
    assert_eq!(sanitize_pdf_name("Noto Sans+Deva", "F"), "Noto_Sans_Deva");
    assert_eq!(sanitize_pdf_name("", "F_TMT"), "F_TMT");
}

#[test]
fn non_ascii_needs_the_fallback_font() {
    assert!(needs_fallback_font("नमस्ते"));
    assert!(!needs_fallback_font("hello"));
}

#[test]
fn context_lookups() {
    let ctx = context();
    assert_eq!(ctx.lookup("Hello   world"), Some("Namaste sansar".to_string()));
    assert_eq!(ctx.lookup("world"), Some("sansar".to_string()));
    assert_eq!(ctx.lookup("Hello, world!"), Some("Namaste sansar".to_string()));
    assert_eq!(ctx.lookup("a"), Some("X".to_string()));
    assert_eq!(ctx.lookup("b"), Some("Y".to_string()));
    assert_eq!(ctx.lookup("c"), None);
    assert_eq!(ctx.lookup("unknown"), None);
    assert_eq!(ctx.lookup("   "), None);
}

#[test]
fn text_operator_plans() {
    let ctx = context();
    match plan_text_replacement(&ctx, b"Hello world") {
        TextPlan::Encoded(v) => assert_eq!(v, vec![b"Namaste sansar".to_vec()]),
        other => panic!("unexpected {:?}", other),
    }
    match plan_text_replacement(&ctx, b"Good morning") {
        TextPlan::Shaped(v) => assert_eq!(v, strings(&["शुभ प्रभात"])),
        other => panic!("unexpected {:?}", other),
    }
    assert!(matches!(plan_text_replacement(&ctx, b"nothing here"), TextPlan::Keep));
    assert!(matches!(plan_text_replacement(&ctx, b"   "), TextPlan::Keep));
}

#[test]
fn tj_operator_plans() {
    let ctx = context();
    let items = vec![
        TjItem::Text(b"Hello".to_vec()),
        TjItem::Kern { is_space: true },
        TjItem::Text(b"world".to_vec()),
    ];
    match plan_tj_replacement(&ctx, &items) {
        TjPlan::Slots(v) => assert_eq!(
            v,
            vec![(0, b"Namaste".to_vec()), (2, b" sansar".to_vec())]
        ),
        other => panic!("unexpected {:?}", other),
    }
    let none = vec![TjItem::Kern { is_space: true }, TjItem::Other];
    assert!(matches!(plan_tj_replacement(&ctx, &none), TjPlan::Keep));
    let shaped = vec![TjItem::Text(b"Good morning".to_vec())];
    assert!(matches!(plan_tj_replacement(&ctx, &shaped), TjPlan::Shaped(_)));
}

#[test]
fn tj_slots_read_back_as_the_translation() {
    let ctx = context();
    let items = vec![
        TjItem::Text(vec![0xFE, 0xFF, 0x00, 0x48, 0x00, 0x65, 0x00, 0x6C, 0x00, 0x6C, 0x00, 0x6F]),
        TjItem::Kern { is_space: true },
        TjItem::Text(vec![0xFE, 0xFF, 0x00, 0x77, 0x00, 0x6F, 0x00, 0x72, 0x00, 0x6C, 0x00, 0x64]),
    ];
    match plan_tj_replacement(&ctx, &items) {
        TjPlan::Slots(v) => {
            let text: String = v.iter().map(|(_, b)| decode_pdf_string(b).0).collect();
            assert_eq!(text, "Namaste sansar");
            assert_eq!(v[0].1[..2], [0xFE, 0xFF]);
        }
        other => panic!("unexpected {:?}", other),
    }
}
