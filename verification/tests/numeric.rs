use rlox::numeric::{is_float_lexeme, parse_int_lexeme};

fn chars_of(s: &str) -> Vec<char> {
    s.chars().collect()
}

#[test]
fn parse_int_accepts_plain_decimals() {
    assert_eq!(Some(0), parse_int_lexeme(&chars_of("0")));
    assert_eq!(Some(42), parse_int_lexeme(&chars_of("42")));
    assert_eq!(Some(7), parse_int_lexeme(&chars_of("007")));
}

#[test]
fn parse_int_accepts_signs() {
    assert_eq!(Some(42), parse_int_lexeme(&chars_of("+42")));
    assert_eq!(Some(-42), parse_int_lexeme(&chars_of("-42")));
}

#[test]
fn parse_int_handles_the_64_bit_bounds() {
    assert_eq!(
        Some(i64::MAX),
        parse_int_lexeme(&chars_of("9223372036854775807"))
    );
    assert_eq!(None, parse_int_lexeme(&chars_of("9223372036854775808")));
    assert_eq!(
        Some(i64::MIN),
        parse_int_lexeme(&chars_of("-9223372036854775808"))
    );
    assert_eq!(None, parse_int_lexeme(&chars_of("-9223372036854775809")));
}

#[test]
fn parse_int_rejects_malformed_lexemes() {
    assert_eq!(None, parse_int_lexeme(&chars_of("")));
    assert_eq!(None, parse_int_lexeme(&chars_of("-")));
    assert_eq!(None, parse_int_lexeme(&chars_of("12abc")));
    assert_eq!(None, parse_int_lexeme(&chars_of("1.5")));
    assert_eq!(None, parse_int_lexeme(&chars_of("1 2")));
}

#[test]
fn parse_int_agrees_with_the_standard_parser() {
    for lexeme in [
        "0",
        "-0",
        "+17",
        "9223372036854775807",
        "9223372036854775808",
        "-9223372036854775808",
        "00123",
        "12e3",
        "--4",
        "++4",
        "",
        ".",
    ] {
        assert_eq!(
            lexeme.parse::<i64>().ok(),
            parse_int_lexeme(&chars_of(lexeme)),
            "lexeme {:?}",
            lexeme
        );
    }
}

#[test]
fn float_syntax_accepts_the_documented_forms() {
    for lexeme in [
        "15.0", "1.", ".5", "1e5", "1E5", "2.5e10", "2.5e-10", "7.e2", "-3.25", "+3.25", "inf",
        "-inf", "Infinity", "nan", "NaN", "3", "-0.0",
    ] {
        assert!(is_float_lexeme(&chars_of(lexeme)), "lexeme {:?}", lexeme);
    }
}

#[test]
fn float_syntax_rejects_malformed_lexemes() {
    for lexeme in [
        "", ".", "e5", "1e", "1e+", "1.2.3", "12abc", "in", "infin", "+-1", "1 5", "na",
    ] {
        assert!(!is_float_lexeme(&chars_of(lexeme)), "lexeme {:?}", lexeme);
    }
}

#[test]
fn float_syntax_agrees_with_the_standard_parser() {
    for lexeme in [
        "15.0",
        "1.",
        ".5",
        "1e5",
        "2.5e-10",
        "7.e2",
        "inf",
        "INFINITY",
        "nan",
        "-NaN",
        "9223372036854775808",
        "",
        ".",
        "e5",
        "1e",
        "1.2.3",
        "12abc",
        "+-1",
    ] {
        assert_eq!(
            lexeme.parse::<f64>().is_ok(),
            is_float_lexeme(&chars_of(lexeme)),
            "lexeme {:?}",
            lexeme
        );
    }
}
