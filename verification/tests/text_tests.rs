use clack::text::text_less;

#[test]
fn text_order_matches_string_order() {
    let words = ["", "a", "b", "ab", "aa", "B", "é", "z", "zz", "ä", "\u{10000}", "\u{ffff}"];
    for a in words {
        for b in words {
            assert_eq!(text_less(a, b), a.to_string() < b.to_string(), "{a:?} {b:?}");
        }
    }
}

#[test]
fn text_less_is_strict() {
    assert!(!text_less("same", "same"));
    assert!(text_less("abc", "abd"));
    assert!(!text_less("abd", "abc"));
    assert!(text_less("ab", "abc"));
}
