use spacemesh_sdk::text::{
    chars_of, parse_decimal, push_chars, push_decimal, remove_char, same_chars, split_chars,
    string_of,
};

fn chars(text: &str) -> Vec<char> {
    text.chars().collect()
}

#[test]
fn test_parse_decimal() {
    assert_eq!(parse_decimal(&chars("0"), 10), Some(0));
    assert_eq!(parse_decimal(&chars("10"), 10), Some(10));
    assert_eq!(parse_decimal(&chars("11"), 10), None);
    assert_eq!(parse_decimal(&chars("+10"), 10), Some(10));
    assert_eq!(parse_decimal(&chars("0000000000000000000010"), 10), Some(10));
    assert_eq!(parse_decimal(&chars("4294967295"), u32::MAX), Some(u32::MAX));
    assert_eq!(parse_decimal(&chars("4294967296"), u32::MAX), None);
    assert_eq!(parse_decimal(&chars("42949672950"), u32::MAX), None);
    assert_eq!(parse_decimal(&chars(""), u32::MAX), None);
    assert_eq!(parse_decimal(&chars("+"), u32::MAX), None);
    assert_eq!(parse_decimal(&chars("++1"), u32::MAX), None);
    assert_eq!(parse_decimal(&chars("-1"), u32::MAX), None);
    assert_eq!(parse_decimal(&chars("1+"), u32::MAX), None);
    assert_eq!(parse_decimal(&chars("12a"), u32::MAX), None);
    assert_eq!(parse_decimal(&chars(" 12"), u32::MAX), None);
}

#[test]
fn test_push_decimal() {
    for (n, text) in [
        (0u32, "0"),
        (7, "7"),
        (10, "10"),
        (501, "501"),
        (65535, "65535"),
        (u32::MAX, "4294967295"),
    ] {
        let mut out = String::from("x");
        push_decimal(&mut out, n);
        assert_eq!(out, format!("x{}", text));
        assert_eq!(parse_decimal(&chars(text), u32::MAX), Some(n));
    }
}

#[test]
fn test_split_chars() {
    let fields = |text: &str| -> Vec<String> {
        split_chars(&chars(text), '/')
            .iter()
            .map(|field| string_of(field))
            .collect()
    };
    assert_eq!(fields(""), vec![""]);
    assert_eq!(fields("a"), vec!["a"]);
    assert_eq!(fields("/"), vec!["", ""]);
    assert_eq!(fields("a/b"), vec!["a", "b"]);
    assert_eq!(fields("a//b/"), vec!["a", "", "b", ""]);
    assert_eq!(fields("/a"), vec!["", "a"]);
    for text in ["", "m/44'/501'", "//", "a/b/c/", "/x/"] {
        let want: Vec<&str> = text.split('/').collect();
        assert_eq!(fields(text), want);
    }
}

#[test]
fn test_remove_and_compare() {
    assert_eq!(remove_char(&chars("4'4'"), '\''), chars("44"));
    assert_eq!(remove_char(&chars("'''"), '\''), chars(""));
    assert_eq!(remove_char(&chars("501"), '\''), chars("501"));
    assert!(same_chars(&chars("44"), &chars("44")));
    assert!(!same_chars(&chars("44"), &chars("45")));
    assert!(!same_chars(&chars("44"), &chars("444")));
    assert!(same_chars(&chars(""), &chars("")));
}

#[test]
fn test_chars_and_strings() {
    assert_eq!(chars_of("usb://é"), chars("usb://é"));
    assert_eq!(string_of(&chars("m/44'")), "m/44'".to_string());
    let mut out = String::from("a");
    push_chars(&mut out, &chars("bc"));
    assert_eq!(out, "abc".to_string());
}
