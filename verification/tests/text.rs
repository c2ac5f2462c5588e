use sayjp::text::{chars_of, trims_to_empty};

#[test]
fn blank_means_only_unicode_whitespace() {
    for code in 0u32..=0x10ffff {
        if let Some(c) = char::from_u32(code) {
            let s = c.to_string();
            assert_eq!(trims_to_empty(&s), s.trim().is_empty(), "U+{:04X}", code);
        }
    }
    assert!(trims_to_empty(""));
    assert!(trims_to_empty(" \u{3000}\n"));
    assert!(!trims_to_empty(" あ "));
}

#[test]
fn chars_are_kept_in_order() {
    assert_eq!(chars_of("aあ\u{1F600}"), vec!['a', 'あ', '\u{1F600}']);
    assert!(chars_of("").is_empty());
}
