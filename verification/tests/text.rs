use toon_settings::text::{decimal_string, join, position_of, starts_with, string_eq, string_le};

#[test]
fn ten_comes_before_two() {
    assert!(string_le("10", "2"));
    assert!(!string_le("2", "10"));
}

#[test]
fn string_order_is_that_of_str() {
    let samples = ["", "0", "1", "10", "100", "2", "20", "9", "a", "ab", "b", "é", "日本", "~"];
    for a in samples.iter() {
        for b in samples.iter() {
            assert_eq!(string_le(a, b), a <= b, "{:?} <= {:?}", a, b);
        }
    }
}

#[test]
fn a_prefix_comes_first() {
    assert!(string_le("12", "123"));
    assert!(!string_le("123", "12"));
    assert!(string_le("", ""));
    assert!(string_le("7", "7"));
}

#[test]
fn string_eq_compares_contents() {
    assert!(string_eq("123", "123"));
    assert!(string_eq("", ""));
    assert!(!string_eq("123", "124"));
    assert!(!string_eq("123", "12"));
    assert!(!string_eq("12", "123"));
}

#[test]
fn starts_with_tests_the_beginning() {
    assert!(starts_with("settings_Default", "settings_"));
    assert!(starts_with("settings_", "settings_"));
    assert!(starts_with("anything", ""));
    assert!(!starts_with("setting", "settings_"));
    assert!(!starts_with("xsettings_", "settings_"));
    assert!(starts_with("日本語", "日本"));
    assert!(!starts_with("日本語", "本"));
}

#[test]
fn decimal_string_writes_numerals() {
    assert_eq!(decimal_string(0), "0");
    assert_eq!(decimal_string(7), "7");
    assert_eq!(decimal_string(10), "10");
    assert_eq!(decimal_string(109), "109");
    assert_eq!(decimal_string(12345), "12345");
    assert_eq!(decimal_string(usize::MAX), usize::MAX.to_string());
}

#[test]
fn join_puts_the_separator_between() {
    let none: Vec<String> = vec![];
    assert_eq!(join(&none, ", "), "");
    assert_eq!(join(&vec!["a".to_string()], ", "), "a");
    assert_eq!(join(&vec!["a".to_string(), "b".to_string(), "c".to_string()], ", "), "a, b, c");
    assert_eq!(join(&vec!["".to_string(), "".to_string()], "-"), "-");
}

#[test]
fn position_of_finds_the_first_place() {
    let list = vec!["3".to_string(), "1".to_string(), "3".to_string()];
    assert_eq!(position_of(&list, "3"), Some(0));
    assert_eq!(position_of(&list, "1"), Some(1));
    assert_eq!(position_of(&list, "2"), None);
}
