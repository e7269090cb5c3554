use glsl_lang_pp::glue::Lexer;
use glsl_lang_pp::line_map::LineMap;
use glsl_lang_pp::parser::parse;
use glsl_lang_pp::text::TextRange;
use glsl_lang_pp::token::{TextToken, Token};
use glsl_lang_pp::unescaped::Unescaped;

fn kinds(src: &str) -> Vec<Token> {
    parse(src).tokens.iter().map(|t| t.kind).collect()
}

fn tok(kind: Token, start: u32, end: u32) -> TextToken {
    TextToken { kind, range: TextRange::new(start, end) }
}

#[test]
fn glue_left_assign() {
    let ast = parse("a<<=b;");
    assert_eq!(
        ast.tokens,
        vec![
            tok(Token::IDENT_KW, 0, 1),
            tok(Token::LEFT_ASSIGN, 1, 4),
            tok(Token::IDENT_KW, 4, 5),
            tok(Token::SEMICOLON, 5, 6),
        ]
    );
}

#[test]
fn continuation_inside_identifier() {
    let src = "foo\\\nbar";
    let ast = parse(src);
    assert_eq!(ast.tokens, vec![tok(Token::IDENT_KW, 0, 8)]);
    assert_eq!(ast.line_map.get_line_and_col(7), (1, 2));
    assert_eq!(ast.line_map.offset_to_line_col(7).0, 2);
    assert_eq!(ast.line_map.offset_to_line_col(5).0, 2);
    assert_eq!(ast.line_map.offset_to_line_col(2).0, 1);
    assert_eq!(Unescaped::new(src).to_string(), "foobar");
}

#[test]
fn all_operators_glue() {
    assert_eq!(
        kinds("++ -- += -= *= /= %= << >> <= >= ^^ ^= || |= && &= == != ## .5 <<= >>="),
        vec![
            Token::INC_OP, Token::WS, Token::DEC_OP, Token::WS, Token::ADD_ASSIGN, Token::WS, Token::SUB_ASSIGN, Token::WS, Token::MUL_ASSIGN, Token::WS, Token::DIV_ASSIGN,
            Token::WS, Token::MOD_ASSIGN, Token::WS, Token::LEFT_OP, Token::WS, Token::RIGHT_OP, Token::WS, Token::LE_OP, Token::WS, Token::GE_OP, Token::WS, Token::XOR_OP, Token::WS,
            Token::XOR_ASSIGN, Token::WS, Token::OR_OP, Token::WS, Token::OR_ASSIGN, Token::WS, Token::AND_OP, Token::WS, Token::AND_ASSIGN, Token::WS, Token::EQ_OP, Token::WS,
            Token::NE_OP, Token::WS, Token::PP_CONCAT, Token::WS, Token::DIGITS, Token::WS, Token::LEFT_ASSIGN, Token::WS, Token::RIGHT_ASSIGN,
        ]
    );
}

#[test]
fn unglued_punctuation_stays_apart() {
    assert_eq!(kinds("< <"), vec![Token::LANGLE, Token::WS, Token::LANGLE]);
    assert_eq!(kinds("<<<"), vec![Token::LEFT_OP, Token::LANGLE]);
    assert_eq!(kinds("<<"), vec![Token::LEFT_OP]);
    assert_eq!(kinds("<"), vec![Token::LANGLE]);
    assert_eq!(kinds("+++"), vec![Token::INC_OP, Token::PLUS]);
    assert_eq!(kinds("a.b"), vec![Token::IDENT_KW, Token::PERIOD, Token::IDENT_KW]);
    assert_eq!(kinds("=!~"), vec![Token::EQUAL, Token::BANG, Token::TILDE]);
}

#[test]
fn operator_ranges() {
    let ast = parse("x >>= 1");
    assert_eq!(ast.tokens[2], tok(Token::RIGHT_ASSIGN, 2, 5));
    assert_eq!(ast.tokens[4], tok(Token::DIGITS, 6, 7));
}

#[test]
fn tokens_cover_source_in_order() {
    let src = "#define X 1+2\nint y = X*X; // end\n/* block */\r\n\"s\" \\\n z";
    let ast = parse(src);
    let mut last_end = 0;
    for t in &ast.tokens {
        assert!(t.range.start < t.range.end);
        assert!(t.range.end as usize <= src.len());
        assert!(t.range.start >= last_end);
        last_end = t.range.end;
    }
}

#[test]
fn comments_strings_and_newlines() {
    assert_eq!(kinds("// c\n/* b */"), vec![Token::COMMENT, Token::NEWLINE, Token::COMMENT]);
    assert_eq!(kinds("/* open"), vec![Token::COMMENT]);
    assert_eq!(kinds("\"a b\"x"), vec![Token::QUOTE_STRING, Token::IDENT_KW]);
    assert_eq!(kinds("a\r\nb\rc"), vec![Token::IDENT_KW, Token::NEWLINE, Token::IDENT_KW, Token::NEWLINE, Token::IDENT_KW]);
    assert_eq!(kinds("12ab"), vec![Token::DIGITS, Token::IDENT_KW]);
    assert_eq!(kinds("a\\b"), vec![Token::IDENT_KW, Token::BACKSLASH, Token::IDENT_KW]);
    assert_eq!(kinds("\u{e9}"), vec![Token::ERROR]);
}

#[test]
fn angle_string_on_request() {
    let mut lexer = Lexer::new("<a.h> <b>");
    lexer.set_expect_angle_string(true);
    let t = lexer.next().unwrap();
    assert_eq!(t, tok(Token::ANGLE_STRING, 0, 5));
    lexer.set_expect_angle_string(false);
    assert_eq!(lexer.next().unwrap().kind, Token::WS);
    assert_eq!(lexer.next().unwrap().kind, Token::LANGLE);
    assert_eq!(lexer.input(), "<a.h> <b>");
}

#[test]
fn lexer_reads_to_end() {
    let mut lexer = Lexer::new("a+=1");
    assert_eq!(lexer.next(), Some(tok(Token::IDENT_KW, 0, 1)));
    assert_eq!(lexer.next(), Some(tok(Token::ADD_ASSIGN, 1, 3)));
    assert_eq!(lexer.next(), Some(tok(Token::DIGITS, 3, 4)));
    assert_eq!(lexer.next(), None);
    assert_eq!(lexer.next(), None);
    assert_eq!(lexer.line_map().get_line_and_col(3), (0, 3));
}

#[test]
fn line_map_lines() {
    let m = LineMap::of_bytes("a\nb\r\nc\rd".as_bytes());
    assert_eq!(m.get_line_and_col(0), (0, 0));
    assert_eq!(m.get_line_and_col(2), (1, 0));
    assert_eq!(m.get_line_and_col(3), (1, 1));
    assert_eq!(m.get_line_and_col(5), (2, 0));
    assert_eq!(m.get_line_and_col(7), (3, 0));
    let mut n = LineMap::new();
    n.add_line(4);
    assert_eq!(n.get_line_and_col(3), (0, 3));
    assert_eq!(n.get_line_and_col(6), (1, 2));
}

#[test]
fn continuation_line_counting() {
    let src = "a \\\r\n b";
    let ast = parse(src);
    assert_eq!(ast.tokens.len(), 3);
    assert_eq!(ast.line_map.get_line_and_col(6), (1, 1));
}

#[test]
fn unescape_all_newline_forms() {
    assert_eq!(Unescaped::new("a\\\nb").to_string(), "ab");
    assert_eq!(Unescaped::new("a\\\rb").to_string(), "ab");
    assert_eq!(Unescaped::new("a\\\r\nb").to_string(), "ab");
    assert_eq!(Unescaped::new("a\\\n\rb").to_string(), "ab");
    assert_eq!(Unescaped::new("a\\b").to_string(), "a\\b");
    assert_eq!(Unescaped::new("end\\").to_string(), "end\\");
    assert_eq!(Unescaped::new("plain").to_string(), "plain");
    assert_eq!(Unescaped::new("").to_string(), "");
}

#[test]
fn unescape_iterates_and_compares() {
    let u = Unescaped::new("x\\\ny");
    let mut it = u.chars();
    assert_eq!(it.next(), Some('x'));
    assert_eq!(it.next(), Some('y'));
    assert_eq!(it.next(), None);
    assert!(u.eq_str("xy"));
    assert!(!u.eq_str("x\\\ny"));
    assert!(!u.eq_str("xz"));
    assert_eq!(u.backslashes(), vec![1]);
    assert_eq!(Unescaped::new("\\a\\").backslashes(), vec![0, 2]);
}

#[test]
fn tokens_rebuild_the_source() {
    for src in ["a \\\n b", "\\\nfoo", "x\\\n", "// c \\\n still comment\nint a;", "é + 1", ""] {
        let ast = parse(src);
        let mut rebuilt = String::new();
        let mut at = 0u32;
        for t in &ast.tokens {
            assert_eq!(t.range.start, at);
            rebuilt.push_str(&src[t.range.start as usize..t.range.end as usize]);
            at = t.range.end;
        }
        assert_eq!(at as usize, src.len());
        assert_eq!(rebuilt, src);
    }
}

#[test]
fn line_comment_continues_over_backslash_newline() {
    assert_eq!(kinds("// c \\\n still\nx"), vec![Token::COMMENT, Token::NEWLINE, Token::IDENT_KW]);
    assert_eq!(kinds("\\\nfoo"), vec![Token::IDENT_KW]);
    assert_eq!(kinds("x\\\n"), vec![Token::IDENT_KW, Token::WS]);
}
