use rlox::lexer::{is_delimiter, read_numeric, read_string, read_to_delimiter, Lexer};
use rlox::token::LexToken;

fn lexer_of(src: &str) -> Lexer {
    Lexer::new(src.chars().collect())
}

#[test]
fn str_at_eof_parses_correctly() {
    let src = "\"Some str\"";

    let mut lexer = lexer_of(src);

    assert_eq!(Some(LexToken::StrLiteral("Some str".into())), lexer.next());
    assert_eq!(None, lexer.next());
}

#[test]
fn it_works() {
    let src = "let bar: int = 10 + 15.0; let foo: fx = print(\"hello world\");";

    let mut lexer = lexer_of(src);

    // 1st Stmt
    assert_eq!(Some(LexToken::Let), lexer.next());
    assert_eq!(Some(LexToken::Ident("bar".into())), lexer.next());
    assert_eq!(Some(LexToken::Colon), lexer.next());
    assert_eq!(Some(LexToken::Ident("int".into())), lexer.next());
    assert_eq!(Some(LexToken::Equals), lexer.next());
    assert_eq!(Some(LexToken::IntLiteral(10)), lexer.next());
    assert_eq!(Some(LexToken::Plus), lexer.next());
    match lexer.next() {
        Some(LexToken::FloatLiteral(lex)) => {
            assert_eq!(15.0, lex.parse::<f64>().unwrap());
        }
        other => panic!("expected a float literal, got {:?}", other),
    }
    assert_eq!(Some(LexToken::SemiColon), lexer.next());

    // 2nd Stmt
    assert_eq!(Some(LexToken::Let), lexer.next());
    assert_eq!(Some(LexToken::Ident("foo".into())), lexer.next());
    assert_eq!(Some(LexToken::Colon), lexer.next());
    assert_eq!(Some(LexToken::Ident("fx".into())), lexer.next());
    assert_eq!(Some(LexToken::Equals), lexer.next());
    assert_eq!(Some(LexToken::Ident("print".into())), lexer.next());
    assert_eq!(Some(LexToken::LParam), lexer.next());
    assert_eq!(
        Some(LexToken::StrLiteral("hello world".into())),
        lexer.next()
    );
    assert_eq!(Some(LexToken::RParam), lexer.next());
    assert_eq!(Some(LexToken::SemiColon), lexer.next());

    // Done!
    assert_eq!(None, lexer.next());
}

#[test]
fn whitespace_only_stream_is_empty() {
    let mut lexer = lexer_of(" \t\r\n  \u{a0}\u{2003} ");
    assert_eq!(None, lexer.next());
}

#[test]
fn empty_input_stream_is_empty() {
    let mut lexer = lexer_of("");
    assert_eq!(None, lexer.next());
}

#[test]
fn quoted_string_yields_its_content() {
    let mut lexer = lexer_of("\"hi there\"");
    assert_eq!(Some(LexToken::StrLiteral("hi there".into())), lexer.next());
    assert_eq!(None, lexer.next());
}

#[test]
fn empty_quoted_string_yields_empty_content() {
    let mut lexer = lexer_of("\"\"");
    assert_eq!(Some(LexToken::StrLiteral("".into())), lexer.next());
    assert_eq!(None, lexer.next());
}

#[test]
fn integer_lexeme_yields_exact_value() {
    let mut lexer = lexer_of("12345");
    assert_eq!(Some(LexToken::IntLiteral(12345)), lexer.next());
    assert_eq!(None, lexer.next());
}

#[test]
fn largest_integer_fits() {
    let mut lexer = lexer_of("9223372036854775807");
    assert_eq!(Some(LexToken::IntLiteral(i64::MAX)), lexer.next());
    assert_eq!(None, lexer.next());
}

#[test]
fn too_large_integer_falls_back_to_float() {
    let mut lexer = lexer_of("9223372036854775808");
    assert_eq!(
        Some(LexToken::FloatLiteral("9223372036854775808".into())),
        lexer.next()
    );
    assert_eq!(None, lexer.next());
}

#[test]
fn fractional_lexeme_yields_exact_value() {
    let mut lexer = lexer_of("10.25;");
    match lexer.next() {
        Some(LexToken::FloatLiteral(lex)) => {
            assert_eq!("10.25", lex);
            assert_eq!(10.25, lex.parse::<f64>().unwrap());
        }
        other => panic!("expected a float literal, got {:?}", other),
    }
    assert_eq!(Some(LexToken::SemiColon), lexer.next());
    assert_eq!(None, lexer.next());
}

#[test]
fn exponent_lexeme_is_a_float() {
    let mut lexer = lexer_of("1e5");
    assert_eq!(Some(LexToken::FloatLiteral("1e5".into())), lexer.next());
    assert_eq!(None, lexer.next());
}

#[test]
fn keyword_let_is_reserved() {
    let mut lexer = lexer_of("let");
    assert_eq!(Some(LexToken::Let), lexer.next());
    assert_eq!(None, lexer.next());
}

#[test]
fn keyword_let_is_reserved_before_delimiter() {
    let mut lexer = lexer_of("let(");
    assert_eq!(Some(LexToken::Let), lexer.next());
    assert_eq!(Some(LexToken::LParam), lexer.next());
    assert_eq!(None, lexer.next());
}

#[test]
fn longer_lexeme_is_an_identifier() {
    let mut lexer = lexer_of("letx let");
    assert_eq!(Some(LexToken::Ident("letx".into())), lexer.next());
    assert_eq!(Some(LexToken::Let), lexer.next());
    assert_eq!(None, lexer.next());
}

#[test]
fn round_trip_statement() {
    let mut lexer = lexer_of("let bar: int = 10 + 15.0;");
    assert_eq!(Some(LexToken::Let), lexer.next());
    assert_eq!(Some(LexToken::Ident("bar".into())), lexer.next());
    assert_eq!(Some(LexToken::Colon), lexer.next());
    assert_eq!(Some(LexToken::Ident("int".into())), lexer.next());
    assert_eq!(Some(LexToken::Equals), lexer.next());
    assert_eq!(Some(LexToken::IntLiteral(10)), lexer.next());
    assert_eq!(Some(LexToken::Plus), lexer.next());
    assert_eq!(Some(LexToken::FloatLiteral("15.0".into())), lexer.next());
    assert_eq!(Some(LexToken::SemiColon), lexer.next());
    assert_eq!(None, lexer.next());
}

#[test]
fn unterminated_string_yields_one_error_then_end() {
    let mut lexer = lexer_of("\"abc");
    assert_eq!(
        Some(LexToken::Error("Read a string to EOF".into())),
        lexer.next()
    );
    assert_eq!(None, lexer.next());
    assert_eq!(None, lexer.next());
}

#[test]
fn adjacent_delimiters_yield_no_spurious_token() {
    let mut lexer = lexer_of("()");
    assert_eq!(Some(LexToken::LParam), lexer.next());
    assert_eq!(Some(LexToken::RParam), lexer.next());
    assert_eq!(None, lexer.next());
}

#[test]
fn end_of_stream_is_permanent() {
    let mut lexer = lexer_of("+");
    assert_eq!(Some(LexToken::Plus), lexer.next());
    assert_eq!(None, lexer.next());
    assert_eq!(None, lexer.next());
    assert_eq!(None, lexer.next());
}

#[test]
fn unrecognised_character_ends_the_stream() {
    let mut lexer = lexer_of("*");
    assert_eq!(None, lexer.next());
    assert_eq!(None, lexer.next());
}

#[test]
fn unparseable_numeric_lexeme_yields_error() {
    let mut lexer = lexer_of("12abc;");
    assert_eq!(
        Some(LexToken::Error(
            "Could not parse '{}' to Numeric Literal.".into()
        )),
        lexer.next()
    );
    assert_eq!(Some(LexToken::SemiColon), lexer.next());
    assert_eq!(None, lexer.next());
}

#[test]
fn read_to_delimiter_reports_empty_lexeme() {
    let mut lexer = lexer_of("(");
    assert_eq!(
        Err("Read empty identifier".to_string()),
        read_to_delimiter(&mut lexer)
    );
    assert_eq!(Some(LexToken::LParam), lexer.next());
}

#[test]
fn read_to_delimiter_returns_the_lexeme() {
    let mut lexer = lexer_of("abc def");
    assert_eq!(Ok("abc".to_string()), read_to_delimiter(&mut lexer));
    assert_eq!(Some(LexToken::Ident("def".into())), lexer.next());
}

#[test]
fn read_numeric_on_empty_input_reports_empty_lexeme() {
    let mut lexer = lexer_of("");
    assert_eq!(
        Err("Read empty identifier".to_string()),
        read_numeric(&mut lexer)
    );
}

#[test]
fn read_string_keeps_the_stream_pullable() {
    let mut lexer = lexer_of("abc\" def");
    assert_eq!(
        Ok(LexToken::StrLiteral("abc".into())),
        read_string(&mut lexer)
    );
    assert_eq!(Some(LexToken::Ident("def".into())), lexer.next());
}

#[test]
fn delimiter_classification() {
    assert!(is_delimiter('('));
    assert!(is_delimiter(')'));
    assert!(is_delimiter(';'));
    assert!(is_delimiter(':'));
    assert!(is_delimiter('"'));
    assert!(is_delimiter(' '));
    assert!(is_delimiter('\t'));
    assert!(!is_delimiter('a'));
    assert!(!is_delimiter('7'));
    assert!(!is_delimiter('+'));
    assert!(!is_delimiter('='));
    assert!(!is_delimiter('.'));
}
