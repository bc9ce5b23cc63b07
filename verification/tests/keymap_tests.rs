use clack::keymap::key_name;

#[test]
fn letters_and_digits_map_to_their_names() {
    assert_eq!(key_name(0), "a");
    assert_eq!(key_name(18), "1");
    assert_eq!(key_name(83), "1");
    assert_eq!(key_name(49), "space");
    assert_eq!(key_name(42), "\\");
}

#[test]
fn unmapped_codes_are_default() {
    assert_eq!(key_name(10), "default");
    assert_eq!(key_name(-1), "default");
    assert_eq!(key_name(i64::MAX), "default");
}
