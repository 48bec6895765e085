use csloop::numbers::{decimal_text, grouped, hexadecimal_text, parse_integer, parse_unsigned, signed_decimal_text, zero_padded_text};
use csloop::ordered::{comes_before, NameSet};
use csloop::text::{clip, contains, count_matches, find, first_n, join, last_n, lines, replace, same, split_keepends, starts_with, strip_leading, strip_prefix, strip_trailing, trim, trim_end, trim_start};

fn owned(list: &[&str]) -> Vec<String> {
    list.iter().map(|s| s.to_string()).collect()
}

#[test]
fn texts_are_compared_by_their_characters() {
    assert!(same("añ", "añ"));
    assert!(!same("a", "ab"));
    assert!(starts_with("abc", "ab"));
    assert!(!starts_with("a", "ab"));
    assert_eq!(strip_prefix("data: x", "data:"), Some(" x"));
    assert_eq!(strip_prefix("date: x", "data:"), None);
}

#[test]
fn trimming_takes_white_space_of_any_kind() {
    assert_eq!(trim(" \t\u{a0}x y\u{2003}\r\n"), "x y");
    assert_eq!(trim_start("  a "), "a ");
    assert_eq!(trim_end("  a "), "  a");
    assert_eq!(trim("   "), "");
    assert_eq!(trim("\u{200b}x"), "\u{200b}x");
}

#[test]
fn stripping_takes_a_set_of_characters() {
    assert_eq!(strip_leading("--* x", "-* "), "x");
    assert_eq!(strip_trailing("http://h//", "/"), "http://h");
    assert_eq!(strip_trailing("///", "/"), "");
}

#[test]
fn finding_and_counting() {
    assert_eq!(find("aébé", "é"), Some(1));
    assert_eq!(find("abc", "x"), None);
    assert_eq!(find("abc", ""), Some(0));
    assert!(contains("abc", "bc"));
    assert_eq!(count_matches("aaaa", "aa"), 2);
    assert_eq!(count_matches("abc", ""), 4);
    assert_eq!(count_matches("", "a"), 0);
}

#[test]
fn replacing_goes_from_left_to_right() {
    assert_eq!(replace("aaa", "aa", "b"), "ba");
    assert_eq!(replace("ab", "", "-"), "-a-b-");
    assert_eq!(replace("x\ny", "\n", " | "), "x | y");
    assert_eq!(replace("abc", "z", "y"), "abc");
}

#[test]
fn lines_end_at_line_feeds() {
    assert_eq!(lines("a\r\nb\n\nc"), owned(&["a", "b", "", "c"]));
    assert_eq!(lines("a\n"), owned(&["a"]));
    assert_eq!(lines(""), Vec::<String>::new());
    assert_eq!(lines("a\rb\r"), owned(&["a\rb\r"]));
    assert_eq!(split_keepends("a\r\nb\n\nc"), owned(&["a\r\n", "b\n", "\n", "c"]));
}

#[test]
fn parts_of_texts_and_lists() {
    assert_eq!(clip("äöü", 2), "äö");
    assert_eq!(clip("a", 2), "a");
    assert_eq!(join(&owned(&["a", "b", "c"]), ", "), "a, b, c");
    assert_eq!(join(&Vec::new(), ", "), "");
    assert_eq!(last_n(&owned(&["a", "b", "c"]), 2), owned(&["b", "c"]));
    assert_eq!(first_n(&owned(&["a", "b", "c"]), 2), owned(&["a", "b"]));
    assert_eq!(first_n(&owned(&["a"]), 2), owned(&["a"]));
}

#[test]
fn numbers_are_written() {
    assert_eq!(decimal_text(0), "0");
    assert_eq!(decimal_text(u64::MAX), "18446744073709551615");
    assert_eq!(signed_decimal_text(-42), "-42");
    assert_eq!(signed_decimal_text(i64::MIN), "-9223372036854775808");
    assert_eq!(hexadecimal_text(0xbeef), "beef");
    assert_eq!(zero_padded_text("7", 3), "007");
    assert_eq!(zero_padded_text("1234", 3), "1234");
}

#[test]
fn digits_are_grouped_by_three() {
    assert_eq!(grouped(0), "0");
    assert_eq!(grouped(999), "999");
    assert_eq!(grouped(1000), "1,000");
    assert_eq!(grouped(1234567), "1,234,567");
    assert_eq!(grouped(100000), "100,000");
}

#[test]
fn numbers_are_read() {
    assert_eq!(parse_integer("-5"), Some(-5));
    assert_eq!(parse_integer("+5"), Some(5));
    assert_eq!(parse_integer("9223372036854775807"), Some(i64::MAX));
    assert_eq!(parse_integer("9223372036854775808"), None);
    assert_eq!(parse_integer("-9223372036854775808"), Some(i64::MIN));
    assert_eq!(parse_integer(""), None);
    assert_eq!(parse_integer("-"), None);
    assert_eq!(parse_integer("1 "), None);
    assert_eq!(parse_unsigned("+7"), Some(7));
    assert_eq!(parse_unsigned("-7"), None);
    assert_eq!(parse_unsigned("18446744073709551615"), Some(u64::MAX));
    assert_eq!(parse_unsigned("18446744073709551616"), None);
}

#[test]
fn written_numbers_read_back() {
    for n in [0u64, 1, 10, 99, 1 << 40, u64::MAX] {
        assert_eq!(parse_unsigned(decimal_text(n).as_str()), Some(n));
    }
    for n in [0i64, -1, i64::MIN, i64::MAX, 1234] {
        assert_eq!(parse_integer(signed_decimal_text(n).as_str()), Some(n));
    }
}

#[test]
fn texts_are_ordered_by_their_characters() {
    assert!(comes_before("a", "b"));
    assert!(comes_before("a", "aa"));
    assert!(comes_before("Z", "a"));
    assert!(!comes_before("a", "a"));
    assert!(comes_before("z", "é"));
}

#[test]
fn name_sets_list_each_name_once_in_order() {
    let mut s = NameSet::of_list(&owned(&["b", "a", "b"]));
    assert_eq!(s.to_list(), owned(&["a", "b"]));
    assert!(s.insert("0".to_string()));
    assert!(!s.insert("a".to_string()));
    assert!(s.contains("0"));
    assert!(!s.contains("c"));
    let mut t = NameSet::new();
    t.insert("c".to_string());
    t.extend(&s);
    assert_eq!(t.to_list(), owned(&["0", "a", "b", "c"]));
    assert_eq!(t.copy().to_list(), t.to_list());
}
