use std::collections::BTreeMap;

use dpcp::strmap::StrMap;
use dpcp::text::{decimal_text, join_lines, not_after, parse_port, same_text, trim, whitespace};

#[test]
fn ports_read_as_the_standard_library_reads_them() {
    for s in [
        "0", "80", "65535", "65536", "99999999999999999999", "", "+", "+80", "++80", "-1", "-0",
        " 80", "80 ", "8o", "0080", "+0", "0x50", "6_5", "٣", "1.0", "000000000065535",
    ] {
        assert_eq!(parse_port(s), s.parse::<u16>().ok(), "{s}");
    }
}

#[test]
fn decimal_forms_read_back() {
    for n in 0..=65535u16 {
        assert_eq!(parse_port(&decimal_text(n as u64)), Some(n));
    }
    for n in [0, 9, 10, 1234567890, u64::MAX] {
        assert_eq!(decimal_text(n), n.to_string());
    }
}

#[test]
fn whitespace_is_unicode_white_space() {
    for n in 0..=0x10ffffu32 {
        if let Some(c) = char::from_u32(n) {
            assert_eq!(whitespace(c), c.is_whitespace(), "{n:x}");
        }
    }
}

#[test]
fn trimming_is_that_of_the_standard_library() {
    for s in ["", " ", "a", " a ", "\u{85}\u{3000}a b\u{a0}\n", "\t\r\n", "ab", " é"] {
        assert_eq!(trim(s), s.trim());
        assert_eq!(trim(&trim(s)), s.trim());
    }
}

#[test]
fn texts_are_ordered_as_strings_are() {
    let all = ["", "a", "ab", "b", "B", "a-b", "a_b", "é", "z", "\u{ffff}", "\u{10000}", "😀"];
    for a in all {
        for b in all {
            assert_eq!(not_after(a, b), a <= b, "{a} {b}");
            assert_eq!(same_text(a, b), a == b);
        }
    }
}

#[test]
fn lines_are_joined_by_line_feeds() {
    let cases: [Vec<String>; 4] = [
        vec![],
        vec!["a".to_string()],
        vec!["a".to_string(), "".to_string()],
        vec!["a".to_string(), "b".to_string(), "".to_string(), "c".to_string()],
    ];
    for lines in cases {
        assert_eq!(join_lines(&lines), lines.join("\n"));
    }
}

#[test]
fn map_walks_its_keys_in_order() {
    let mut ours: StrMap<u16> = StrMap::new();
    let mut theirs: BTreeMap<String, u16> = BTreeMap::new();
    let keys = ["m", "a", "z", "a", "é", "", "mm", "m", "B"];
    for (i, k) in keys.iter().enumerate() {
        ours.insert(k.to_string(), i as u16);
        theirs.insert(k.to_string(), i as u16);
    }
    assert_eq!(ours.len(), theirs.len());
    for (i, (k, v)) in theirs.iter().enumerate() {
        assert_eq!(ours.key_at(i), k);
        assert_eq!(ours.value_at(i), v);
        assert_eq!(ours.get(k), Some(v));
    }
    assert_eq!(ours.get("b"), None);
}
