use quicktrad::text::{collapse_whitespace, decimal_string, is_blank, lang_prefix_of, split_at_char, text_eq};

#[test]
fn whitespace_collapsing() {
    assert_eq!(collapse_whitespace("  a \t\n b  c "), "a b c");
    assert_eq!(collapse_whitespace("\u{a0}x\u{3000}\u{2003}y"), "x y");
    assert_eq!(collapse_whitespace(""), "");
    assert_eq!(collapse_whitespace(" \n "), "");
}

#[test]
fn blank_detection() {
    assert!(is_blank(""));
    assert!(is_blank(" \t\r\n\u{85}\u{2028}"));
    assert!(!is_blank(" a "));
}

#[test]
fn language_prefix() {
    let (lower, prefix) = lang_prefix_of("PT-br");
    assert_eq!(lower, "pt-br");
    assert_eq!(prefix, "pt");
    assert_eq!(lang_prefix_of("en_US").1, "en");
    assert_eq!(lang_prefix_of("-x").1, "");
    assert_eq!(lang_prefix_of("ja").1, "ja");
}

#[test]
fn decimal_rendering() {
    assert_eq!(decimal_string(0), "0");
    assert_eq!(decimal_string(-1234), "-1234");
    assert_eq!(decimal_string(i64::MAX), i64::MAX.to_string());
    assert_eq!(decimal_string(i64::MIN), i64::MIN.to_string());
}

#[test]
fn splitting_and_equality() {
    assert_eq!(split_at_char("a::b", ':'), vec!["a", "", "b"]);
    assert_eq!(split_at_char("", ':'), vec![""]);
    assert!(text_eq("olá", "olá"));
    assert!(!text_eq("ola", "olá"));
}
