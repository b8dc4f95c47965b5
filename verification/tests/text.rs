use loxuriou::chars::{
    is_ascii, is_digit, is_identifier_part, is_identifier_start, is_whitespace, width,
};
use loxuriou::text::{decimal_digits, push_padded};

fn text(n: usize) -> String {
    decimal_digits(n).into_iter().collect()
}

#[test]
fn decimal_digits_of_numbers() {
    assert_eq!(text(0), "0");
    assert_eq!(text(7), "7");
    assert_eq!(text(10), "10");
    assert_eq!(text(409), "409");
    assert_eq!(text(1234567890), "1234567890");
    assert_eq!(text(usize::MAX), usize::MAX.to_string());
}

#[test]
fn push_padded_fills_the_column() {
    let mut out = String::from("[");
    push_padded(&mut out, 7, 4, '0');
    assert_eq!(out, "[0007");
    push_padded(&mut out, 42, 4, ' ');
    assert_eq!(out, "[0007  42");
    push_padded(&mut out, 12345, 4, ' ');
    assert_eq!(out, "[0007  4212345");
    push_padded(&mut out, 0, 0, 'x');
    assert_eq!(out, "[0007  42123450");
    push_padded(&mut out, 1234, 4, '0');
    assert_eq!(out, "[0007  421234501234");
}

#[test]
fn push_padded_is_what_the_formatter_prints() {
    for n in [0, 1, 9, 10, 99, 100, 999, 1000, 9999, 10000, 65535, usize::MAX] {
        let mut zeros = String::new();
        push_padded(&mut zeros, n, 4, '0');
        assert_eq!(zeros, format!("{:0>4}", n));
        let mut spaces = String::new();
        push_padded(&mut spaces, n, 4, ' ');
        assert_eq!(spaces, format!("{:4}", n));
    }
}

#[test]
fn character_classes_in_ascii() {
    for code in 0u8..128 {
        let c = code as char;
        assert!(is_ascii(c));
        assert_eq!(is_digit(c), c.is_ascii_digit(), "{:?}", c);
        assert_eq!(is_whitespace(c), c.is_whitespace(), "{:?}", c);
        assert_eq!(is_identifier_start(c), c.is_ascii_alphabetic() || c == '_', "{:?}", c);
        assert_eq!(is_identifier_part(c), c.is_alphanumeric() || c == '_', "{:?}", c);
    }
}

#[test]
fn character_classes_outside_ascii() {
    for c in ['\u{80}', '\u{85}', '\u{a0}', '\u{e9}', '\u{663}', '\u{2003}', '\u{20ac}', '\u{3000}', '\u{85cf}', '\u{1F600}'] {
        assert!(!is_ascii(c));
        assert!(!is_digit(c));
        assert!(!is_identifier_start(c));
        assert_eq!(is_whitespace(c), c.is_whitespace(), "{:?}", c);
        assert_eq!(is_identifier_part(c), c.is_alphanumeric(), "{:?}", c);
    }
    assert!(is_whitespace('\u{a0}'));
    assert!(!is_whitespace('\u{e9}'));
    assert!(is_identifier_part('\u{e9}'));
    assert!(is_identifier_part('\u{663}'));
    assert!(!is_identifier_part('\u{20ac}'));
}

#[test]
fn width_is_the_length_in_utf8() {
    for c in ['\0', 'a', '\u{7f}', '\u{80}', '\u{7ff}', '\u{800}', '\u{d7ff}', '\u{e000}', '\u{ffff}', '\u{10000}', '\u{10ffff}'] {
        assert_eq!(width(c), c.len_utf8(), "{:?}", c);
    }
}
