use ka::intern::{hash_str, Interner};

#[test]
fn interning_twice_gives_the_same_string() {
    let mut interner = Interner::new();
    let a = interner.intern("hello");
    let b = interner.intern(&String::from("hello"));
    assert_eq!(a, "hello");
    assert!(std::ptr::eq(a, b));
    let c = interner.intern("world");
    assert_eq!(c, "world");
    assert!(!std::ptr::eq(a, c));
}

#[test]
fn string_hash_folds_the_characters() {
    assert_eq!(hash_str(""), 0);
    assert_eq!(hash_str("a"), 97);
    assert_eq!(hash_str("ab"), 97 * 31 + 98);
    assert_eq!(hash_str("\u{10FFFF}\u{10FFFF}"), (0x10FFFF * 31 + 0x10FFFF) % 1_000_003);
}

#[test]
fn many_strings_each_interned_once() {
    let mut interner = Interner::new();
    let words: Vec<String> = (0..200).map(|i| format!("w{i}")).collect();
    let first: Vec<&'static str> = words.iter().map(|w| interner.intern(w)).collect();
    for (w, f) in words.iter().zip(first.iter()) {
        let again = interner.intern(w);
        assert_eq!(again, *f);
        assert!(std::ptr::eq(again, *f));
    }
}
