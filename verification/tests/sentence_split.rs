use hackathon::translate::sentence::{is_sentence_delimiter, split_on_sentence_boundaries};
use hackathon::translate::split_sentences;

#[test]
fn split_sentences_empty_or_whitespace() {
    assert!(split_sentences("").is_empty());
    assert!(split_sentences("   \n\t").is_empty());
}

#[test]
fn split_sentences_basic_punctuation() {
    let input = "Hello world. How are you? Fine!";
    let parts = split_sentences(input);
    assert_eq!(parts, vec!["Hello world.", "How are you?", "Fine!"]);
}

#[test]
fn split_sentences_devanagari_danda() {
    let input = "यो वाक्य। अर्को वाक्य";
    let parts = split_sentences(input);
    assert_eq!(parts, vec!["यो वाक्य।", "अर्को वाक्य"]);
}

#[test]
fn split_sentences_merges_short_fragments() {
    let input = "Hi. Ok? Great.";
    let parts = split_sentences(input);
    assert_eq!(parts, vec!["Hi. Ok?", "Great."]);
}

#[test]
fn split_sentences_keeps_short_first_fragment() {
    assert_eq!(split_sentences("Hi. How are you?"), vec!["Hi.", "How are you?"]);
}

#[test]
fn split_sentences_needs_whitespace_after_punctuation() {
    assert_eq!(split_sentences("v1.2 is out. Try it"), vec!["v1.2 is out.", "Try it"]);
}

#[test]
fn split_sentences_collapses_boundary_whitespace() {
    assert_eq!(
        split_sentences("  First one!\n\n\tSecond one?   "),
        vec!["First one!", "Second one?"]
    );
}

#[test]
fn sentence_boundaries_before_merging() {
    assert_eq!(
        split_on_sentence_boundaries("Hi. Ok?  Great.\n"),
        vec!["Hi.", "Ok?", "Great."]
    );
    assert_eq!(split_on_sentence_boundaries("नमस्ते। "), vec!["नमस्ते।"]);
    assert!(split_on_sentence_boundaries("  ").is_empty());
    assert!(is_sentence_delimiter('।'));
    assert!(is_sentence_delimiter('!'));
    assert!(!is_sentence_delimiter(','));
}

#[test]
fn each_sentence_splits_to_itself() {
    let text = "Hi. Hello there. ok. Another sentence here! A. B. Cdefgh।  Tail part";
    let sentences = split_sentences(text);
    assert!(sentences.len() > 1);
    for s in &sentences {
        assert_eq!(split_sentences(s), vec![s.clone()]);
    }
}
