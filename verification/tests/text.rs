use simple_bot::text::{contains, number_text, parse_i64, signed_text, trim};

#[test]
fn numerals_are_those_of_the_standard_library() {
    for n in [0u64, 7, 10, 99, 100, 1_770_978_300, u64::MAX] {
        assert_eq!(number_text(n), n.to_string());
    }
    for i in [0i64, -1, 42, i64::MAX, i64::MIN] {
        assert_eq!(signed_text(i), i.to_string());
    }
}

#[test]
fn numerals_read_back() {
    for i in [0i64, -1, 42, i64::MAX, i64::MIN] {
        assert_eq!(parse_i64(&signed_text(i)), Some(i));
    }
}

#[test]
fn reading_agrees_with_the_standard_library() {
    for s in [
        "", "-", "+", "+5", "-5", "--5", "5-", "005", "9223372036854775807",
        "9223372036854775808", "-9223372036854775808", "-9223372036854775809",
        "99999999999999999999999999999999999999999", "12a", " 1", "\u{0661}",
    ] {
        assert_eq!(parse_i64(s), s.parse::<i64>().ok(), "{:?}", s);
    }
}

#[test]
fn parts_are_found() {
    assert!(contains("bitcoin up or down", "bitcoin"));
    assert!(contains("abc", ""));
    assert!(contains("", ""));
    assert!(contains("aaab", "aab"));
    assert!(!contains("btc", "btc-updown"));
    assert!(!contains("BTC", "btc"));
}

#[test]
fn every_white_space_character_is_trimmed() {
    for n in 0u32..0x11_0000 {
        if let Some(c) = char::from_u32(n) {
            let s = format!("{}x{}", c, c);
            assert_eq!(trim(&s), s.trim(), "U+{:04X}", n);
        }
    }
}

#[test]
fn trimming_agrees_with_the_standard_library() {
    for s in ["", " ", "  a b  ", "\t\n", "a", "\u{3000}x y\u{2003}"] {
        assert_eq!(trim(s), s.trim());
    }
}
