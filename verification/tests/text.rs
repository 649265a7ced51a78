use xwingtmg2_inventory_rs::text::{
    decimal_string, join, parse_count, push_decimal, same_text, text_precedes, to_ascii_lower,
};

#[test]
fn counts_are_read_as_str_parse_reads_them() {
    let samples = [
        "0", "1", "2", "10", "007", "+5", "+0", "4294967295", "4294967296", "42949672950",
        "99999999999999999999999", "00000000000000000000000000", "", "+", "-", "-1", "++1", "+-1",
        "1+", " 1", "1 ", "1.0", "1e3", "0x10", "abc", "١٢", "１", "1_000", "+4294967295",
        "+4294967296",
    ];
    for s in samples {
        assert_eq!(parse_count(s), s.parse::<u32>().ok(), "reading {:?}", s);
    }
}

#[test]
fn counts_have_exact_values() {
    assert_eq!(parse_count("0"), Some(0));
    assert_eq!(parse_count("2"), Some(2));
    assert_eq!(parse_count("4294967295"), Some(u32::MAX));
    assert_eq!(parse_count("4294967296"), None);
    assert_eq!(parse_count("two"), None);
    assert_eq!(parse_count(""), None);
}

#[test]
fn decimal_is_what_to_string_writes() {
    for n in [0u32, 1, 9, 10, 11, 99, 100, 101, 12345, 1_000_000, 4294967294, u32::MAX] {
        assert_eq!(decimal_string(n), n.to_string());
    }
}

#[test]
fn push_decimal_appends() {
    let mut s = String::from("wave");
    push_decimal(&mut s, 14);
    assert_eq!(s, "wave14");
    push_decimal(&mut s, 0);
    assert_eq!(s, "wave140");
}

#[test]
fn ascii_lower_changes_ascii_capitals_only() {
    for c in ['A', 'Z', 'a', 'z', '0', '@', '[', '`', '{', '(', 'É', 'Ω', '\u{0}', '\u{10ffff}'] {
        assert_eq!(to_ascii_lower(c), c.to_ascii_lowercase());
    }
    assert_eq!(to_ascii_lower('Q'), 'q');
}

#[test]
fn same_text_is_string_equality() {
    assert!(same_text("", ""));
    assert!(same_text("swz01", "swz01"));
    assert!(!same_text("swz01", "swz02"));
    assert!(!same_text("swz01", "swz0"));
    assert!(!same_text("E-Wing", "e-wing"));
    assert!(same_text("é", "\u{e9}"));
    assert!(!same_text("e\u{301}", "\u{e9}"));
}

#[test]
fn text_order_is_the_order_of_str() {
    let samples = ["", "a", "ab", "b", "B", "swz01", "swz1", "swz10", "é", "z", "€", "\u{10ffff}"];
    for a in samples {
        for b in samples {
            assert_eq!(text_precedes(a, b), a < b, "comparing {:?} and {:?}", a, b);
        }
    }
}

#[test]
fn join_is_what_slices_join() {
    let none: Vec<String> = vec![];
    assert_eq!(join(&none, ","), "");
    let one = vec!["a".to_string()];
    assert_eq!(join(&one, ","), "a");
    let three = vec!["a".to_string(), "".to_string(), "c".to_string()];
    assert_eq!(join(&three, ","), "a,,c");
    assert_eq!(join(&three, ", "), three.join(", "));
}

#[test]
fn a_count_written_in_decimal_reads_back() {
    for n in [0u32, 1, 9, 10, 99, 100, 4096, 65535, 65536, 999_999_999, 1_000_000_000, u32::MAX] {
        assert_eq!(parse_count(&decimal_string(n)), Some(n));
    }
}
