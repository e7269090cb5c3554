use glsl_lang_pp::error::{Error, ErrorKind};
use glsl_lang_pp::line_map::LineMap;
use glsl_lang_pp::text::TextRange;
use glsl_lang_pp::token::Token;

fn map(src: &str) -> LineMap {
    LineMap::of_bytes(src.as_bytes())
}

#[test]
fn error_position_and_message() {
    let m = map("int a;\n#foo\n");
    let e = Error::new(
        ErrorKind::UnknownPreprocessorDirective { name: "foo".to_string() },
        TextRange::new(8, 11),
        &m,
    );
    assert_eq!(e.pos(), TextRange::new(8, 11));
    assert_eq!(e.message(), "2:1: unknown preprocessor directive `#foo`");
    assert!(matches!(e.kind(), ErrorKind::UnknownPreprocessorDirective { .. }));
}

#[test]
fn error_kind_messages() {
    assert_eq!(
        ErrorKind::ExtraTokensInPreprocessorDirective.message(),
        "extra tokens in preprocessor directive"
    );
    assert_eq!(
        ErrorKind::UnexpectedTokensInDefineArgs.message(),
        "unexpected tokens in #define function arguments"
    );
    assert_eq!(
        ErrorKind::EndOfInput { expected: vec![] }.message(),
        "unexpected end of input"
    );
    assert_eq!(
        ErrorKind::EndOfInput { expected: vec![Token::RPAREN] }.message(),
        "unexpected end of input: [RPAREN]"
    );
    assert_eq!(
        ErrorKind::Unexpected { actual: Token::COMMA, expected: vec![] }.message(),
        "unexpected COMMA"
    );
    assert_eq!(
        ErrorKind::Unexpected {
            actual: Token::IDENT_KW,
            expected: vec![Token::SEMICOLON, Token::COMMA, Token::LEFT_ASSIGN],
        }
        .message(),
        "unexpected IDENT_KW, expected [SEMICOLON, COMMA, LEFT_ASSIGN]"
    );
}

#[test]
fn error_on_first_line_and_large_numbers() {
    let e = Error::new(ErrorKind::UnexpectedTokensInDefineArgs, TextRange::new(0, 1), &map("x"));
    assert_eq!(e.message(), "1:0: unexpected tokens in #define function arguments");
    let src = format!("{}\n{}", "\n".repeat(11), " ".repeat(123));
    let e = Error::new(
        ErrorKind::ExtraTokensInPreprocessorDirective,
        TextRange::new(135, 136),
        &map(&src),
    );
    assert_eq!(e.message(), "13:123: extra tokens in preprocessor directive");
}
