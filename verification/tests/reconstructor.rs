use hackathon::formats::pdf::encoding::encode_utf16be_hex_str;
use hackathon::formats::pdf::reconstructor::normalize_lookup_key;

#[test]
fn utf16be_hex_round_trip() {
    assert_eq!(encode_utf16be_hex_str("न"), "0928");
    assert_eq!(encode_utf16be_hex_str("नम"), "0928092E");
}

#[test]
fn normalize_lookup_key_collapses_whitespace() {
    assert_eq!(normalize_lookup_key("  hello   world  "), "hello world");
}
