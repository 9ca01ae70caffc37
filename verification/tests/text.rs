use rsbin::order::comes_before;
use rsbin::text::{
    begins_with, drop_char, ends_with, has_char, has_part, join, parse_number,
    split_at_char, split_words, strip_back, strip_front, to_decimal, to_lower, trim,
    trim_end_parts,
};

#[test]
fn searches_texts() {
    assert!(has_part("abc", "bc") && has_part("abc", "") && !has_part("abc", "ac"));
    assert!(!has_part("a", "ab") && has_part("xäöx", "äö"));
    assert!(has_char("abc", 'c') && !has_char("", 'c'));
    assert!(begins_with("abc", "ab") && !begins_with("abc", "b"));
    assert!(ends_with("abc", "bc") && !ends_with("c", "bc"));
}

#[test]
fn cuts_texts() {
    assert_eq!(strip_front("abc", "ab"), Some("c".to_string()));
    assert_eq!(strip_front("abc", "b"), None);
    assert_eq!(strip_back("abc", "bc"), Some("a".to_string()));
    assert_eq!(strip_back("abc", "b"), None);
    assert_eq!(trim(" \u{3000}a b\n"), "a b");
    assert_eq!(trim("\t"), "");
    assert_eq!(trim_end_parts("abab", "ab"), "");
    assert_eq!(trim_end_parts("aab", "ab"), "a");
    assert_eq!(drop_char("1,2,3", ','), "123");
}

#[test]
fn splits_and_joins_texts() {
    assert_eq!(split_at_char("a//b", '/'), vec!["a", "", "b"]);
    assert_eq!(split_at_char("", '/'), vec![""]);
    assert_eq!(split_words("  a \u{2003}b\r\n"), vec!["a", "b"]);
    assert_eq!(join(&vec!["a".to_string(), "b".to_string()], ", "), "a, b");
    assert_eq!(join(&vec![], ", "), "");
}

#[test]
fn lowers_ascii_only() {
    assert_eq!(to_lower("AZaz[ÄÉ"), "azaz[ÄÉ");
}

#[test]
fn reads_and_writes_numbers() {
    assert_eq!(to_decimal(0), "0");
    assert_eq!(to_decimal(4294967295), "4294967295");
    assert_eq!(parse_number("007"), Some(7));
    assert_eq!(parse_number("+1"), Some(1));
    assert_eq!(parse_number("4294967295"), Some(u32::MAX));
    for text in ["", "+", "4294967296", "-1", "1 ", "99999999999999999999"] {
        assert_eq!(parse_number(text), None);
    }
}

#[test]
fn orders_texts() {
    assert!(comes_before("", "a") && comes_before("a", "ab") && comes_before("a", "b"));
    assert!(!comes_before("a", "a") && !comes_before("b", "ab"));
    assert!(comes_before("z", "ä"));
}
