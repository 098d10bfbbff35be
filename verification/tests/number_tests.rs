use lang_front::chars::{collect, decode, digit, ident_part, ident_start, space, spells};
use lang_front::number::{is_float, parse_integer, push_decimal};

#[test]
fn integer_texts() {
    assert_eq!(parse_integer("0"), Some(0));
    assert_eq!(parse_integer("123"), Some(123));
    assert_eq!(parse_integer("000123"), Some(123));
    assert_eq!(parse_integer("+5"), Some(5));
    assert_eq!(parse_integer("-5"), Some(-5));
    assert_eq!(parse_integer("-0"), Some(0));
}

#[test]
fn integer_limits() {
    assert_eq!(parse_integer("9223372036854775807"), Some(i64::MAX));
    assert_eq!(parse_integer("9223372036854775808"), None);
    assert_eq!(parse_integer("-9223372036854775808"), Some(i64::MIN));
    assert_eq!(parse_integer("-9223372036854775809"), None);
    assert_eq!(parse_integer("+9223372036854775808"), None);
    assert_eq!(parse_integer("99999999999999999999999999"), None);
    assert_eq!(parse_integer("00000000000000000000000001"), Some(1));
}

#[test]
fn texts_that_are_no_integer() {
    for text in ["", "+", "-", "1a", "a1", " 1", "1 ", "1.0", "--1", "+-1", "1_000", "\u{663}"] {
        assert_eq!(parse_integer(text), None, "{:?}", text);
    }
}

#[test]
fn integer_texts_agree_with_the_standard_parser() {
    for text in ["7", "-7", "+7", "", "-", "12x", "9223372036854775807", "9223372036854775808"] {
        assert_eq!(parse_integer(text), text.parse::<i64>().ok(), "{:?}", text);
    }
}

#[test]
fn float_texts() {
    for text in [
        "1.5", "1.", ".5", "1", "007", "-1.5", "+1.5", "1e5", "1E5", "1e+5", "1e-5", "1.e5",
        ".5e5", "1.5e05", "inf", "-inf", "+INF", "Infinity", "infinity", "nan", "NaN", "-nan",
        "123.456",
    ] {
        assert!(is_float(text), "{:?}", text);
    }
}

#[test]
fn texts_that_are_no_float() {
    for text in [
        "", ".", "+", "-", "e5", ".e5", "1e", "1e+", "1.5.5", "1 ", " 1", "1f", "in", "infinit",
        "infinityy", "na", "nann", "--1", "1e5.5", "1ee5", "0x10", "1_0", "+-1", "i nf",
    ] {
        assert!(!is_float(text), "{:?}", text);
    }
}

#[test]
fn float_texts_agree_with_the_standard_parser() {
    for text in [
        "1.5", "1.", ".5", ".", "", "1e5", "1e", "e1", "inf", "iNf", "infinity", "nan", "nanx",
        "+.5e-3", "-", "1..2", "٣.٥",
    ] {
        assert_eq!(is_float(text), text.parse::<f64>().is_ok(), "{:?}", text);
    }
}

#[test]
fn decimal_numerals() {
    for n in [0usize, 7, 9, 10, 11, 99, 100, 101, 12345, usize::MAX] {
        let mut out = String::from("n=");
        push_decimal(&mut out, n);
        assert_eq!(out, format!("n={}", n));
    }
}

#[test]
fn character_classes() {
    for c in ['0', '5', '9'] {
        assert!(digit(c) && ident_part(c) && !ident_start(c) && !space(c));
    }
    for c in ['a', 'z', 'A', 'Z', '_', 'm'] {
        assert!(!digit(c) && ident_part(c) && ident_start(c) && !space(c));
    }
    for c in ['/', ':', '@', '[', '`', '{', '\u{e9}', '\u{663}'] {
        assert!(!digit(c) && !ident_part(c) && !ident_start(c) && !space(c));
    }
}

#[test]
fn whitespace_is_what_the_standard_library_calls_whitespace() {
    let mut c = '\0';
    loop {
        assert_eq!(space(c), c.is_whitespace(), "{:?}", c);
        if c == char::MAX {
            break;
        }
        c = char::from_u32(c as u32 + 1).unwrap_or('\u{e000}');
    }
}

#[test]
fn decode_and_collect_are_inverse() {
    let text = "a\u{e9}\u{4e16}\u{1f600}z";
    let chars = decode(text);
    assert_eq!(chars, text.chars().collect::<Vec<char>>());
    assert_eq!(collect(&chars, 0, chars.len()), text);
    assert_eq!(collect(&chars, 1, 3), "\u{e9}\u{4e16}");
    assert_eq!(collect(&chars, 2, 2), "");
}

#[test]
fn spells_compares_whole_words() {
    assert!(spells(&decode("let"), "let"));
    assert!(!spells(&decode("le"), "let"));
    assert!(!spells(&decode("lets"), "let"));
    assert!(!spells(&decode("lot"), "let"));
    assert!(spells(&decode(""), ""));
}
