use cpanel_nas_backup::text::{
    blank, decimal, ends_with, join, lower_hex, parse_decimal, same_text, signed_decimal, split_on,
    starts_with, text_less, to_chars, trim, trim_end_matches, white_space, NumberFault,
};

fn owned(list: &[&str]) -> Vec<String> {
    list.iter().map(|s| s.to_string()).collect()
}

#[test]
fn trims_unicode_white_space_at_both_ends() {
    assert_eq!(trim("\u{3000}\u{a0} a b\t\n"), "a b");
    assert_eq!(trim(" \u{2028}\u{85} "), "");
    assert_eq!(trim("plain"), "plain");
    assert_eq!(trim("\u{200b}x"), "\u{200b}x");
}

#[test]
fn white_space_agrees_with_the_character_property() {
    let mut n: u32 = 0;
    while n <= 0x10ffff {
        if let Some(c) = char::from_u32(n) {
            assert_eq!(white_space(c), c.is_whitespace());
        }
        n += 1;
    }
}

#[test]
fn blank_texts_hold_only_white_space() {
    assert!(blank(""));
    assert!(blank(" \t\r\n"));
    assert!(!blank(" x "));
}

#[test]
fn trailing_slashes_are_removed() {
    assert_eq!(trim_end_matches("https://host:2083///", '/'), "https://host:2083");
    assert_eq!(trim_end_matches("a/b", '/'), "a/b");
    assert_eq!(trim_end_matches("//", '/'), "");
}

#[test]
fn splitting_keeps_empty_pieces() {
    assert_eq!(split_on("a,,b,", ','), owned(&["a", "", "b", ""]));
    assert_eq!(split_on("", ','), owned(&[""]));
}

#[test]
fn split_and_join_undo_each_other() {
    let parts = owned(&["x", "", "y z"]);
    assert_eq!(join(&parts, ","), "x,,y z");
    assert_eq!(split_on(&join(&parts, ","), ','), parts);
    assert_eq!(join(&split_on(",a,,", ','), ","), ",a,,");
    assert_eq!(join(&Vec::new(), ", "), "");
}

#[test]
fn prefixes_and_suffixes() {
    assert!(starts_with("backup-1", "backup-"));
    assert!(!starts_with("back", "backup-"));
    assert!(ends_with("x.tar.gz", ".tar.gz"));
    assert!(!ends_with("gz", ".tar.gz"));
    assert!(!starts_with("a/homedir/public_html/x", "homedir/public_html"));
    assert!(starts_with("abc", ""));
    assert!(starts_with("", ""));
    assert!(ends_with("gr\u{fc}\u{df}e", "\u{df}e"));
}

#[test]
fn order_of_texts_is_that_of_strings() {
    let samples = ["", "a", "ab", "b", "\u{e9}", "\u{ffff}", "\u{10000}", "backup-2", "backup-10"];
    for a in samples {
        for b in samples {
            assert_eq!(text_less(a, b), a < b);
            assert_eq!(same_text(a, b), a == b);
        }
    }
}

#[test]
fn decimal_numbers_are_parsed_like_unsigned_integers() {
    for s in ["0", "21", "+21", "65535", "65536", "", "+", "-1", " 1", "1 ", "1_0", "007", "0x1"] {
        let parsed = parse_decimal(s, 65535).map_err(|fault| fault.message());
        assert_eq!(parsed, s.parse::<u16>().map(|n| n as u64).map_err(|e| e.to_string()), "{s:?}");
    }
    for s in [
        "18446744073709551615",
        "18446744073709551616",
        "99999999999999999999999x",
        "9999999999999999999999",
        "1844674407370955161x",
        "18446744073709551615x",
    ] {
        let parsed = parse_decimal(s, u64::MAX).map_err(|fault| fault.message());
        assert_eq!(parsed, s.parse::<u64>().map_err(|e| e.to_string()), "{s:?}");
    }
    assert_eq!(parse_decimal("9", 5), Err(NumberFault::TooLarge));
    assert_eq!(parse_decimal("\u{0663}", 9), Err(NumberFault::InvalidDigit));
    assert_eq!(parse_decimal("", 9), Err(NumberFault::Empty));
}

#[test]
fn decimal_notation_of_numbers() {
    assert_eq!(decimal(0), "0");
    assert_eq!(decimal(7200), "7200");
    assert_eq!(decimal(u64::MAX), "18446744073709551615");
    assert_eq!(signed_decimal(403), "403");
    assert_eq!(signed_decimal(0), "0");
    assert_eq!(signed_decimal(-1), "-1");
    assert_eq!(signed_decimal(i32::MIN), "-2147483648");
}

#[test]
fn bytes_in_lower_case_hexadecimal() {
    assert_eq!(lower_hex(&[0x00, 0x9f, 0xa0, 0xff]), "009fa0ff");
    assert_eq!(lower_hex(&[]), "");
}

#[test]
fn characters_of_a_text() {
    assert_eq!(to_chars("a\u{10000}"), vec!['a', '\u{10000}']);
}
