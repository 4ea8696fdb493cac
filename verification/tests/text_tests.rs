use grok2api_appchat::text;
use grok2api_appchat::text_map::TextMap;

#[test]
fn trim_drops_white_space_at_both_ends() {
    assert_eq!(text::trim(" \t\u{3000}a b\r\n"), "a b");
    assert_eq!(text::trim_start("  a "), "a ");
    assert_eq!(text::trim_end("  a "), "  a");
    assert_eq!(text::trim("\n \t"), "");
}

#[test]
fn prefixes_are_dropped_as_often_as_they_stand() {
    assert_eq!(text::trim_start_matches("sso=sso=abc", "sso="), "abc");
    assert_eq!(text::trim_start_matches("abc", "sso="), "abc");
    assert_eq!(text::strip_prefix("sso=sso=abc", "sso=").unwrap(), "sso=abc");
    assert!(text::strip_prefix("abc", "sso=").is_none());
    assert_eq!(text::trim_end_char("http://x//", '/'), "http://x");
}

#[test]
fn find_gives_the_first_place() {
    assert_eq!(text::find("a,b,c", ","), Some(1));
    assert_eq!(text::find("abc", ","), None);
    assert_eq!(text::rfind_char("a.b.c", '.'), Some(3));
    assert_eq!(text::rfind_char("abc", '.'), None);
    assert!(text::contains("unauthorized", "auth"));
    assert!(text::contains("x", ""));
    assert!(!text::contains("x", "y"));
}

#[test]
fn pieces_stand_between_separators() {
    assert_eq!(text::split_char("a..b", '.'), vec!["a", "", "b"]);
    assert_eq!(text::split_char("", '.'), vec![""]);
    assert_eq!(text::split_breaks("a\r\nb"), vec!["a", "", "b"]);
}

#[test]
fn numbers_are_written_in_decimal() {
    assert_eq!(text::decimal(0), "0");
    assert_eq!(text::decimal(u64::MAX), "18446744073709551615");
    assert_eq!(text::signed_decimal(-42), "-42");
    assert_eq!(text::signed_decimal(i64::MIN), "-9223372036854775808");
}

#[test]
fn integers_are_read_as_rust_reads_them() {
    for s in ["0", "-0", "+7", "007", "2147483647", "-2147483648", "2147483648", "-2147483649", "", "+", "-", "1a", " 1", "99999999999999999999"] {
        assert_eq!(text::parse_i32(s), s.parse::<i32>().ok(), "{s}");
    }
}

#[test]
fn bytes_are_written_in_hexadecimal() {
    assert_eq!(text::hex_bytes(&vec![0u8, 15, 16, 255]), "000f10ff");
}

#[test]
fn characters_are_escaped_as_rust_escapes_them() {
    let s = "a\t\r\n'\"\\~\u{7f}é中\u{10ffff}\0";
    let want: String = s.chars().flat_map(|c| c.escape_default()).collect();
    assert_eq!(text::escaped_head(s, 200), want);
    assert_eq!(text::escaped_head("ab\ncd", 3), "ab\\n");
}

#[test]
fn ascii_letters_are_lowered_and_marks_dropped() {
    assert_eq!(text::to_ascii_lowercase("ABCÉxyz"), "abcÉxyz");
    assert_eq!(text::dropping("a-b_c d", '-', '_', ' '), "abcd");
    assert_eq!(text::swap_char("a/b/c", '/', '-'), "a-b-c");
}

#[test]
fn new_texts_are_added_once() {
    let mut v: Vec<String> = Vec::new();
    text::add_new(&mut v, "a");
    text::add_new(&mut v, "");
    text::add_new(&mut v, "b");
    text::add_new(&mut v, "a");
    assert_eq!(v, vec!["a", "b"]);
}

#[test]
fn a_text_map_keeps_one_value_for_each_key() {
    let mut m = TextMap::new();
    assert!(m.get("a").is_none());
    m.insert("a".to_string(), "1".to_string());
    m.insert("b".to_string(), "2".to_string());
    m.insert("a".to_string(), "3".to_string());
    assert_eq!(m.get("a").unwrap(), "3");
    assert_eq!(m.get("b").unwrap(), "2");
    m.insert_missing("a", "4".to_string());
    m.insert_missing("c", "5".to_string());
    assert_eq!(m.get("a").unwrap(), "3");
    assert_eq!(m.get("c").unwrap(), "5");
    let mut other = TextMap::new();
    other.insert("a".to_string(), "9".to_string());
    m.extend(&other);
    assert_eq!(m.get("a").unwrap(), "9");
    assert_eq!(m.get("b").unwrap(), "2");
}
