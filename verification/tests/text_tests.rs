use budgy::text::chars_of;
use budgy::text::contains_chars;
use budgy::text::signed_decimal_chars;
use budgy::text::split_whitespace_chars;
use budgy::text::string_from_chars;
use budgy::text::to_lowercase;
use budgy::text::trim_chars;

fn s(v: &Vec<char>) -> String {
    string_from_chars(v)
}

#[test]
fn split_whitespace_finds_words() {
    let words = split_whitespace_chars(&chars_of("  food\tand\n cooking  "));
    let words: Vec<String> = words.iter().map(s).collect();
    assert_eq!(words, vec!["food", "and", "cooking"]);
    assert!(split_whitespace_chars(&chars_of(" \u{3000} ")).is_empty());
}

#[test]
fn trim_removes_unicode_whitespace() {
    assert_eq!(s(&trim_chars(&chars_of("\u{a0} x y \u{2003}"))), "x y");
    assert_eq!(s(&trim_chars(&chars_of("   "))), "");
}

#[test]
fn contains_finds_substrings() {
    assert!(contains_chars(&chars_of("food/dining"), &chars_of("dining")));
    assert!(contains_chars(&chars_of("abc"), &chars_of("")));
    assert!(!contains_chars(&chars_of("abc"), &chars_of("abcd")));
    assert!(!contains_chars(&chars_of("abc"), &chars_of("ac")));
}

#[test]
fn lowercase_and_decimal() {
    assert_eq!(to_lowercase("Food/DINING"), "food/dining");
    assert_eq!(s(&signed_decimal_chars(0)), "0");
    assert_eq!(s(&signed_decimal_chars(-1205)), "-1205");
    assert_eq!(s(&signed_decimal_chars(i64::MIN)), "-9223372036854775808");
}
