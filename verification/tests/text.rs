use oberon_compiler::chars::{
    is_ascii_digit, is_ascii_whitespace, is_ident_continue, is_ident_start, to_ascii_uppercase,
    width,
};
use oberon_compiler::format::{decimal, digit_str, push_right_aligned, push_spaces};
use oberon_compiler::grammar::Keyword;
use oberon_compiler::literal::{lookup_keyword, matches_ignoring_case, parse_decimal};
use oberon_compiler::span::Span;

#[test]
fn span_length() {
    assert_eq!(Span::new(3, 8).len(), 5);
    assert!(!Span::new(3, 8).is_empty());
    assert_eq!(Span::new(4, 4).len(), 0);
    assert!(Span::new(4, 4).is_empty());
    assert_eq!(Span::new(0, usize::MAX).len(), usize::MAX);
}

#[test]
fn span_that_ends_before_it_starts_is_empty() {
    let s = Span::new(9, 2);
    assert_eq!((s.start, s.end), (9, 2));
    assert_eq!(s.len(), 0);
    assert!(s.is_empty());
}

#[test]
fn byte_classes_agree_with_std() {
    for b in 0..=255u8 {
        assert_eq!(is_ascii_whitespace(b), b.is_ascii_whitespace());
        assert_eq!(is_ascii_digit(b), b.is_ascii_digit());
        assert_eq!(is_ident_start(b), b.is_ascii_alphabetic() || b == b'_');
        assert_eq!(is_ident_continue(b), b.is_ascii_alphanumeric() || b == b'_');
        assert_eq!(to_ascii_uppercase(b), b.to_ascii_uppercase());
    }
}

#[test]
fn width_is_the_length_of_the_encoding() {
    for ch in ['a', '\u{7f}', '\u{80}', '\u{7ff}', '\u{800}', '\u{ffff}', '\u{10000}', '\u{10ffff}'] {
        let mut buffer = [0u8; 4];
        let encoded = ch.encode_utf8(&mut buffer);
        assert_eq!(width(encoded.as_bytes()[0]), ch.len_utf8());
    }
}

#[test]
fn parse_decimal_reads_a_part_of_the_text() {
    let text = b"ab0123456789cd";
    assert_eq!(parse_decimal(text, 2, 12), Some(123456789));
    assert_eq!(parse_decimal(text, 5, 6), Some(3));
    assert_eq!(parse_decimal(text, 5, 5), Some(0));
    assert_eq!(parse_decimal(b"9223372036854775807", 0, 19), Some(9223372036854775807));
    assert_eq!(parse_decimal(b"9223372036854775808", 0, 19), None);
    assert_eq!(parse_decimal(b"9223372036854775810", 0, 19), None);
    assert_eq!(parse_decimal(b"92233720368547758070", 0, 20), None);
    assert_eq!(parse_decimal(b"92233720368547758070", 0, 19), Some(i64::MAX));
}

#[test]
fn matching_ignores_case_of_the_text_only() {
    assert!(matches_ignoring_case(b"xxIfxx", 2, 4, b"IF"));
    assert!(matches_ignoring_case(b"if", 0, 2, b"IF"));
    assert!(!matches_ignoring_case(b"if", 0, 2, b"if"));
    assert!(!matches_ignoring_case(b"ifx", 0, 3, b"IF"));
    assert!(!matches_ignoring_case(b"i", 0, 1, b"IF"));
    assert!(!matches_ignoring_case(b"ig", 0, 2, b"IF"));
    assert!(matches_ignoring_case(b"", 0, 0, b""));
}

#[test]
fn keyword_lookup() {
    assert_eq!(lookup_keyword(b"IF", 0, 2), Some(Keyword::If));
    assert_eq!(lookup_keyword(b"a iF", 2, 4), Some(Keyword::If));
    assert_eq!(lookup_keyword(b"IFX", 0, 3), None);
    assert_eq!(lookup_keyword(b"IFX", 0, 2), Some(Keyword::If));
    assert_eq!(lookup_keyword(b"1F", 0, 2), None);
    assert_eq!(lookup_keyword(b"", 0, 0), None);
}

#[test]
fn decimal_writes_base_ten() {
    assert_eq!(decimal(0), "0");
    assert_eq!(decimal(7), "7");
    assert_eq!(decimal(10), "10");
    assert_eq!(decimal(1234567890), "1234567890");
    assert_eq!(decimal(usize::MAX), usize::MAX.to_string());
    for d in 0..10 {
        assert_eq!(digit_str(d), d.to_string());
    }
}

#[test]
fn padding_is_on_the_left() {
    let mut out = String::from("[");
    push_right_aligned(&mut out, "7", 3);
    out.push(']');
    push_right_aligned(&mut out, "1234", 3);
    push_right_aligned(&mut out, "", 2);
    push_right_aligned(&mut out, "\u{e9}", 2);
    push_spaces(&mut out, 0);
    out.push('|');
    push_spaces(&mut out, 3);
    out.push('|');
    assert_eq!(out, "[  7]1234   \u{e9}|   |");
    assert_eq!(format!("{:>3}|{:>3}|{:>2}", "7", "1234", "\u{e9}"), "  7|1234| \u{e9}");
}
