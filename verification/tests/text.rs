use mini_wallpaper::text::{char_count, is_whitespace, parse_i64, parse_u32, str_eq, text_before, trim};

#[test]
fn trimming() {
    assert_eq!(trim("  a b \t"), "a b");
    assert_eq!(trim("\u{3000}中文\u{3000}"), "中文");
    assert_eq!(trim("   "), "");
    assert!(is_whitespace(' '));
    assert!(!is_whitespace('x'));
}

#[test]
fn equality_and_length() {
    assert!(str_eq("abc", "abc"));
    assert!(!str_eq("abc", "abd"));
    assert!(!str_eq("abc", "ab"));
    assert_eq!(char_count("héllo"), 5);
}

#[test]
fn integers() {
    assert_eq!(parse_u32("42"), Some(42));
    assert_eq!(parse_u32("+7"), Some(7));
    assert_eq!(parse_u32("4294967295"), Some(u32::MAX));
    assert_eq!(parse_u32("4294967296"), None);
    assert_eq!(parse_u32("-1"), None);
    assert_eq!(parse_u32(""), None);
    assert_eq!(parse_u32("1a"), None);
    assert_eq!(parse_i64("-15"), Some(-15));
    assert_eq!(parse_i64("9223372036854775807"), Some(i64::MAX));
    assert_eq!(parse_i64("-9223372036854775808"), Some(i64::MIN));
    assert_eq!(parse_i64("9223372036854775808"), None);
    assert_eq!(parse_i64("30"), Some(30));
}

#[test]
fn lexicographic_order() {
    assert!(text_before("abc", "abd"));
    assert!(text_before("ab", "abc"));
    assert!(!text_before("abc", "ab"));
    assert!(!text_before("abc", "abc"));
    assert!(text_before("", "a"));
    assert!(!text_before("b", "a"));
    assert!(text_before("Z", "a"));
}
