use calculator::text::{chars_of, decimal_text, same_text, string_of};

#[test]
fn characters_and_strings_convert_both_ways() {
    let chars = chars_of("a試é");
    assert_eq!(chars, vec!['a', '試', 'é']);
    assert_eq!(string_of(&chars, 0, 3), "a試é");
    assert_eq!(string_of(&chars, 1, 2), "試");
    assert_eq!(string_of(&chars, 2, 2), "");
    assert_eq!(chars_of(""), Vec::<char>::new());
}

#[test]
fn numbers_render_in_decimal() {
    assert_eq!(decimal_text(0), "0");
    assert_eq!(decimal_text(7), "7");
    assert_eq!(decimal_text(10), "10");
    assert_eq!(decimal_text(1203), "1203");
    assert_eq!(decimal_text(u128::MAX), "340282366920938463463374607431768211455");
}

#[test]
fn texts_compare_by_their_characters() {
    assert!(same_text("", ""));
    assert!(same_text("a試", "a試"));
    assert!(!same_text("a", "b"));
    assert!(!same_text("a", "ab"));
    assert!(!same_text("ab", "a"));
}
