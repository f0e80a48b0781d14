use server::text::{chars_of, decimal_string, is_white_space_char, push_decimal, split_chars, trim};

#[test]
fn trim_removes_surrounding_ascii_white_space() {
    assert_eq!(trim("  a b \n"), "a b");
    assert_eq!(trim("\t\r\nticket\n"), "ticket");
}

#[test]
fn trim_removes_unicode_white_space() {
    assert_eq!(trim("\u{3000}\u{00A0}x\u{2028}\u{0085}"), "x");
    assert_eq!(trim("\u{200B}x"), "\u{200B}x");
}

#[test]
fn trim_of_blank_text_is_empty() {
    assert_eq!(trim(""), "");
    assert_eq!(trim(" \t \n "), "");
}

#[test]
fn trim_agrees_with_str_trim() {
    for s in ["", "a", " a", "a ", " a b ", "\u{1680}q\u{205F}", "\u{2000}\u{200A}", "x\u{180E}"] {
        assert_eq!(trim(s), s.trim());
    }
}

#[test]
fn white_space_matches_char_is_whitespace() {
    for u in 0u32..0x3100 {
        if let Some(c) = char::from_u32(u) {
            assert_eq!(is_white_space_char(c), c.is_whitespace(), "{:x}", u);
        }
    }
    assert!(!is_white_space_char('\u{10FFFF}'));
}

#[test]
fn chars_of_lists_characters() {
    assert_eq!(chars_of("hé!"), vec!['h', 'é', '!']);
    assert_eq!(chars_of(""), Vec::<char>::new());
}

#[test]
fn decimal_renderings() {
    assert_eq!(decimal_string(0), "0");
    assert_eq!(decimal_string(7), "7");
    assert_eq!(decimal_string(10), "10");
    assert_eq!(decimal_string(1234567890), "1234567890");
    assert_eq!(decimal_string(u128::MAX), u128::MAX.to_string());
}

#[test]
fn push_decimal_appends() {
    let mut s = String::from("n=");
    push_decimal(&mut s, 405);
    assert_eq!(s, "n=405");
}

#[test]
fn split_keeps_empty_pieces() {
    assert_eq!(split_chars("a::b", ':'), vec!["a", "", "b"]);
    assert_eq!(split_chars("", ':'), vec![""]);
    assert_eq!(split_chars(":", ':'), vec!["", ""]);
    assert_eq!(split_chars("abc", ':'), vec!["abc"]);
}

#[test]
fn split_agrees_with_str_split() {
    for s in ["a b  c", " lead", "trail ", "", "  "] {
        let expected: Vec<String> = s.split(' ').map(|p| p.to_string()).collect();
        assert_eq!(split_chars(s, ' '), expected);
    }
}
