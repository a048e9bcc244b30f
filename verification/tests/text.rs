use rsbasic::text::{
    concatenated, decimal_string, ends_with_char, hex8, parse_hex_u32, parse_unsigned, parse_usize,
    split_ascii_words, starts_with_char, trim, white_space,
};

#[test]
fn trim_removes_unicode_whitespace_at_both_ends() {
    assert_eq!(trim("  10 PRINT  "), "10 PRINT");
    assert_eq!(trim("\u{3000}\tx y\u{a0}\n"), "x y");
    assert_eq!(trim("   "), "");
    assert_eq!(trim(""), "");
    for s in ["  a ", "\u{2003}b\u{2028}", "c", " \u{85} d e \r\n"] {
        assert_eq!(trim(s), s.trim());
    }
}

#[test]
fn trim_twice_is_trim_once() {
    for s in ["  a ", "\u{2003}b\u{2028}", "", "  "] {
        assert_eq!(trim(&trim(s)), trim(s));
    }
}

#[test]
fn white_space_matches_std() {
    for c in ['\t', '\n', '\u{b}', '\u{c}', '\r', ' ', '\u{85}', '\u{a0}', '\u{1680}', '\u{2000}',
        '\u{200a}', '\u{2028}', '\u{2029}', '\u{202f}', '\u{205f}', '\u{3000}', 'a', '0',
        '\u{200b}', '\u{180e}', '\u{feff}']
    {
        assert_eq!(white_space(c), c.is_whitespace(), "{:?}", c);
    }
}

#[test]
fn decimal_string_writes_numbers() {
    assert_eq!(decimal_string(0), "0");
    assert_eq!(decimal_string(7), "7");
    assert_eq!(decimal_string(10), "10");
    assert_eq!(decimal_string(65529), "65529");
    assert_eq!(decimal_string(u128::MAX), u128::MAX.to_string());
}

#[test]
fn decimal_string_reads_back() {
    for n in [0u128, 9, 10, 99, 100, 12345, u64::MAX as u128] {
        assert_eq!(parse_unsigned(&decimal_string(n), 10), Some(n as u64));
    }
}

#[test]
fn hex8_pads_to_eight_upper_case_digits() {
    assert_eq!(hex8(0), "00000000");
    assert_eq!(hex8(255), "000000FF");
    assert_eq!(hex8(0xCBF43926), "CBF43926");
    assert_eq!(hex8(u32::MAX), "FFFFFFFF");
    assert_eq!(hex8(0x1234abc), format!("{:08X}", 0x1234abcu32));
}

#[test]
fn parse_usize_follows_from_str() {
    for s in ["0", "10", "+10", "007", "", "+", "-1", " 1", "1 ", "12a", "18446744073709551615",
        "18446744073709551616", "99999999999999999999999"]
    {
        assert_eq!(parse_usize(s), s.parse::<usize>().ok(), "{:?}", s);
    }
}

#[test]
fn parse_hex_u32_follows_from_str_radix() {
    for s in ["cbf43926", "CBF43926", "+ff", "0", "ffffffff", "100000000", "", "+", "-1", "xyz",
        "0x10", "00000000ff"]
    {
        assert_eq!(parse_hex_u32(s), u32::from_str_radix(s, 16).ok(), "{:?}", s);
    }
}

#[test]
fn split_ascii_words_follows_std() {
    for s in ["\"a.bas\" 1234 http://x", "  one   two\tthree\n", "", "   ", "x", "a\u{a0}b c"] {
        let mine = split_ascii_words(s);
        let std: Vec<String> = s.split_ascii_whitespace().map(|w| w.to_string()).collect();
        assert_eq!(mine, std, "{:?}", s);
    }
}

#[test]
fn first_and_last_characters() {
    assert!(starts_with_char("\"a\"", '"'));
    assert!(!starts_with_char("", '"'));
    assert!(ends_with_char("ab\"", '"'));
    assert!(!ends_with_char("ab", '"'));
    assert_eq!(concatenated("ab", "cd"), "abcd");
}

#[test]
fn hex8_reads_back() {
    for n in [0u32, 1, 0xCBF43926, u32::MAX, 0x00ab00cd] {
        assert_eq!(parse_hex_u32(&hex8(n)), Some(n));
    }
}
