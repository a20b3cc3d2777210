use xmla_ssas_rs::text::{
    check_float, parse_i32, parse_u32, strip_ascii_whitespace, trim, FloatParseFailure,
    IntParseFailure,
};

#[test]
fn trim_removes_unicode_whitespace_at_both_ends() {
    assert_eq!(trim("  a b \n"), "a b");
    assert_eq!(trim("\u{3000}\u{A0}x\u{2009}"), "x");
    assert_eq!(trim(" \t "), "");
    assert_eq!(trim(""), "");
}

#[test]
fn strip_ascii_whitespace_keeps_other_characters() {
    assert_eq!(strip_ascii_whitespace(" a\tb\nc\rd\u{0C}e "), "abcde");
    assert_eq!(strip_ascii_whitespace("a\u{A0}b"), "a\u{A0}b");
}

#[test]
fn integers_parse_as_std_parses_them() {
    assert_eq!(parse_u32("4294967295"), Ok(4294967295));
    assert_eq!(parse_u32("+7"), Ok(7));
    assert_eq!(parse_u32("4294967296"), Err(IntParseFailure::PosOverflow));
    assert_eq!(parse_u32(""), Err(IntParseFailure::Empty));
    assert_eq!(parse_u32("-1"), Err(IntParseFailure::InvalidDigit));
    assert_eq!(parse_i32("-2147483648"), Ok(i32::MIN));
    assert_eq!(parse_i32("-2147483649"), Err(IntParseFailure::NegOverflow));
    assert_eq!(parse_i32("2147483648"), Err(IntParseFailure::PosOverflow));
    assert_eq!(parse_i32("-"), Err(IntParseFailure::InvalidDigit));
    for text in ["0", "12", "-12", "+3", "x", "", "99999999999"] {
        assert_eq!(parse_i32(text).ok(), text.parse::<i32>().ok());
        assert_eq!(parse_u32(text).ok(), text.parse::<u32>().ok());
    }
}

#[test]
fn float_literals_are_checked_as_std_parses_them() {
    let cases = [
        "0", "1.5", "-2", "+3.", ".5", "-.5e-3", "1e10", "1E+5", "2.5e", "e5", ".", "-",
        "1.2.3", "inf", "-Infinity", "NaN", "nan1", "infinit", "1_0", " 1", "1 ", "0x10",
        "109809274.2", "1e", "1e+", "+", "INF", "--1", "1.e3", "١",
    ];
    for text in cases {
        assert_eq!(
            check_float(text).is_ok(),
            text.parse::<f64>().is_ok(),
            "disagreement on {text:?}"
        );
    }
    assert_eq!(check_float(""), Err(FloatParseFailure::Empty));
    assert_eq!(check_float("x"), Err(FloatParseFailure::Invalid));
    assert_eq!(FloatParseFailure::Invalid.as_str(), "x".parse::<f64>().unwrap_err().to_string());
    assert_eq!(FloatParseFailure::Empty.as_str(), "".parse::<f64>().unwrap_err().to_string());
}
