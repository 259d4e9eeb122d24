use sima_pipeline::ordered::{bytes_come_before, comes_before, TextMap};
use sima_pipeline::text::{
    cat, cat3, decimal, join, last_lines, lines, parse_number, same, split, trim, trim_trailing,
    NumberFault,
};

#[test]
fn numbers_are_written_and_read_in_decimal() {
    assert_eq!(decimal(0), "0");
    assert_eq!(decimal(u64::MAX), u64::MAX.to_string());
    for n in [0, 7, 10, 65_535] {
        assert_eq!(parse_number(&decimal(n as u64), 65_535), Ok(n));
    }
    assert_eq!(parse_number("+22", 65_535), Ok(22));
    assert_eq!(parse_number("", 65_535), Err(NumberFault::Empty));
    for text in ["+", "-", "-1", "2x", " 2", "+-2"] {
        assert_eq!(
            parse_number(text, 65_535),
            Err(NumberFault::InvalidDigit),
            "{text:?}"
        );
        assert!(text.parse::<u16>().is_err());
    }
    assert_eq!(parse_number("65536", 65_535), Err(NumberFault::TooLarge));
    assert_eq!(
        parse_number("99999999999x", u32::MAX),
        Err(NumberFault::TooLarge)
    );
}

#[test]
fn white_space_is_trimmed_from_both_ends() {
    for text in ["", " ", "a", " a b\t\r\n", "\u{a0}x\u{3000}", "\u{85}\u{2009}"] {
        assert_eq!(trim(text), text.trim(), "{text:?}");
    }
    assert_eq!(trim_trailing("/a//", '/'), "/a");
    assert_eq!(trim_trailing("//", '/'), "");
}

#[test]
fn texts_are_split_joined_and_put_together() {
    for text in ["", "a", "a,b", ",a,,b,"] {
        let parts: Vec<&str> = text.split(',').collect();
        assert_eq!(split(text, ','), parts);
        assert_eq!(join(&split(text, ','), ","), text);
    }
    assert_eq!(join(&vec![], ", "), "");
    assert_eq!(cat("a", "b"), "ab");
    assert_eq!(cat3("a", "b", "c"), "abc");
    assert!(same("a", "a") && !same("a", "A"));
}

#[test]
fn lines_end_at_line_feeds() {
    for text in ["", "\n", "a", "a\n", "a\r\nb", "a\n\nb\r", "\r\n\r"] {
        let expected: Vec<&str> = text.lines().collect();
        assert_eq!(lines(text), expected, "{text:?}");
    }
    assert_eq!(last_lines("a\nb\nc\n", 2), "b\nc");
    assert_eq!(last_lines("a\nb\nc\n", 5), "a\nb\nc");
    assert_eq!(last_lines("a\nb\nc\n", 0), "");
}

#[test]
fn texts_are_ordered_as_their_bytes_are() {
    let texts = ["", "a", "aa", "ab", "b", "\u{7f}", "\u{80}", "\u{ffff}", "\u{10000}"];
    for a in texts {
        for b in texts {
            assert_eq!(comes_before(a, b), a < b, "{a:?} {b:?}");
            assert_eq!(
                bytes_come_before(a.as_bytes(), b.as_bytes()),
                a.as_bytes() < b.as_bytes()
            );
        }
    }
}

#[test]
fn a_text_map_keeps_its_keys_in_order_and_each_once() {
    let mut map = TextMap::new();
    for (key, value) in [("b", 1), ("a", 2), ("c", 3), ("a", 4)] {
        map.insert(key.to_string(), value);
    }
    assert_eq!(
        map.pairs,
        vec![
            ("a".to_string(), 4),
            ("b".to_string(), 1),
            ("c".to_string(), 3)
        ]
    );
    assert!(map.contains("b") && !map.contains("d"));
    assert_eq!(map.find("c"), Some(2));
    assert_eq!(map.find(""), None);
}
