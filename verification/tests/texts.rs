use patchwork::strmap::StrMap;
use patchwork::text::{
    append_decimal, chars_of, first_line_of, has_prefix, has_suffix, same_text, slice_text, string_of,
};

fn decimal_of(n: u128) -> String {
    let mut out = String::new();
    append_decimal(&mut out, n);
    out
}

#[test]
fn decimal_numerals() {
    assert_eq!(decimal_of(0), "0");
    assert_eq!(decimal_of(9), "9");
    assert_eq!(decimal_of(10), "10");
    assert_eq!(decimal_of(1203), "1203");
    assert_eq!(decimal_of(18446744073709551616), "18446744073709551616");
}

#[test]
fn first_lines() {
    assert_eq!(first_line_of("a\nb\nc"), "a");
    assert_eq!(first_line_of("a\r\nb"), "a");
    assert_eq!(first_line_of("a\rb"), "a\rb");
    assert_eq!(first_line_of("a\r"), "a\r");
    assert_eq!(first_line_of("\na"), "");
    assert_eq!(first_line_of(""), "");
    assert_eq!(first_line_of("one"), "one");
}

#[test]
fn slices_by_byte_offsets() {
    assert_eq!(slice_text("aäb", 1, 3), "ä");
    assert_eq!(slice_text("aäb", 0, 4), "aäb");
    assert_eq!(slice_text("aäb", 3, 3), "");
}

#[test]
fn prefixes_and_suffixes() {
    assert!(has_prefix("_pw_1", "_pw_"));
    assert!(!has_prefix("_pw", "_pw_"));
    assert!(has_prefix("x", ""));
    assert!(has_suffix("if_statement", "_statement"));
    assert!(!has_suffix("statement", "_statement"));
    assert!(!has_suffix("_statements", "_statement"));
}

#[test]
fn texts_compare_by_characters() {
    assert!(same_text("ä", "ä"));
    assert!(!same_text("a", "ab"));
    assert!(!same_text("ab", "a"));
    assert!(!same_text("a", "b"));
}

#[test]
fn characters_there_and_back() {
    let chars = chars_of("aäb");
    assert_eq!(chars, vec!['a', 'ä', 'b']);
    assert_eq!(string_of(&chars, 1, 3), "äb");
    assert_eq!(string_of(&chars, 1, 1), "");
}

#[test]
fn map_keeps_one_value_per_key() {
    let mut map: StrMap<String> = StrMap::new();
    assert!(map.is_empty());
    map.insert("a".to_string(), "1".to_string());
    map.insert("b".to_string(), "2".to_string());
    map.insert("a".to_string(), "3".to_string());
    assert_eq!(map.len(), 2);
    assert_eq!(map.get("a").unwrap(), "3");
    assert_eq!(map.get("b").unwrap(), "2");
    assert!(map.get("c").is_none());
    assert!(map.contains_key("b"));
    assert!(!map.contains_key("c"));
    let copy = map.clone();
    map.insert("c".to_string(), "4".to_string());
    assert_eq!(copy.len(), 2);
    assert_eq!(copy.get("a").unwrap(), "3");
    assert_eq!(map.entries().len(), 3);
}
