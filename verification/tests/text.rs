use ka::text::is_whitespace;

#[test]
fn whitespace_agrees_with_std_on_every_char() {
    for c in (0u32..=0x10FFFF).filter_map(char::from_u32) {
        assert_eq!(is_whitespace(c), c.is_whitespace(), "{:?}", c);
    }
    assert!(is_whitespace('\u{3000}'));
    assert!(!is_whitespace('\u{200B}'));
}
