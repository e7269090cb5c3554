use glsl_lang_pp::conditional::{ConditionalError, Conditionals};
use glsl_lang_pp::expand::{expand_token, PpToken};
use glsl_lang_pp::parser::parse;
use glsl_lang_pp::processor::{Define, DefineObject, FileId, MacroToken, ProcessorState};
use glsl_lang_pp::text::TextRange;
use glsl_lang_pp::token::Token;

fn ident(text: &str, start: u32) -> PpToken {
    PpToken {
        kind: Token::IDENT_KW,
        text: text.to_string(),
        range: TextRange::new(start, start + text.len() as u32),
        hide_set: vec![],
    }
}

fn body(items: &[(Token, &str)]) -> DefineObject {
    DefineObject {
        tokens: items
            .iter()
            .map(|(k, t)| MacroToken { kind: *k, text: t.to_string() })
            .collect(),
    }
}

fn state_with_x() -> ProcessorState {
    let mut state = ProcessorState::default();
    let x = body(&[(Token::DIGITS, "1"), (Token::PLUS, "+"), (Token::DIGITS, "2")]);
    assert!(state.definition(Define::object("X".to_string(), x, false), FileId::new(0)));
    state
}

#[test]
fn object_macro_expands_in_place() {
    let state = state_with_x();
    let out = expand_token(&state, ident("X", 8));
    let texts: Vec<&str> = out.iter().map(|t| t.text.as_str()).collect();
    assert_eq!(texts, vec!["1", "+", "2"]);
    for t in &out {
        assert_eq!(t.range, TextRange::new(8, 9));
        assert_eq!(t.hide_set, vec!["X".to_string()]);
    }
    assert_eq!(out[1].kind, Token::PLUS);
}

#[test]
fn object_macro_times_itself() {
    let state = state_with_x();
    let src = "X*X";
    let ast = parse(src);
    let mut texts = Vec::new();
    for t in &ast.tokens {
        for e in expand_token(&state, PpToken::from_source(src, *t)) {
            texts.push(e.text);
        }
    }
    assert_eq!(texts.concat(), "1+2*1+2");
}

#[test]
fn hidden_token_is_not_expanded_again() {
    let state = state_with_x();
    let mut t = ident("X", 0);
    t.hide_set.push("X".to_string());
    let out = expand_token(&state, t.clone());
    assert_eq!(out, vec![t]);
}

#[test]
fn undefined_and_builtin_names_stand() {
    let state = state_with_x();
    let t = ident("Y", 0);
    assert_eq!(expand_token(&state, t.clone()), vec![t]);
    let t = ident("__LINE__", 0);
    assert_eq!(expand_token(&state, t.clone()), vec![t]);
    let mut d = ident("X", 0);
    d.kind = Token::DIGITS;
    assert_eq!(expand_token(&state, d.clone()), vec![d]);
}

#[test]
fn token_text_skips_continuations() {
    let src = "foo\\\nbar+1";
    let ast = parse(src);
    let t = PpToken::from_source(src, ast.tokens[0]);
    assert_eq!(t.text, "foobar");
    assert_eq!(t.range, TextRange::new(0, 8));
    let p = PpToken::from_source(src, ast.tokens[1]);
    assert_eq!(p.text, "+");
    assert_eq!(p.kind, Token::PLUS);
}

#[test]
fn conditional_if_else_endif() {
    let mut c = Conditionals::new();
    assert!(c.is_active());
    c.open(true);
    assert!(c.is_active());
    assert_eq!(c.else_branch(), Ok(()));
    assert!(!c.is_active());
    assert_eq!(c.else_branch(), Err(ConditionalError::ElseAfterElse));
    assert_eq!(c.elif(true), Err(ConditionalError::ElifAfterElse));
    assert_eq!(c.close(), Ok(()));
    assert!(c.is_active());
    assert_eq!(c.finish(), Ok(()));
}

#[test]
fn conditional_elif_chain_takes_first_true() {
    let mut c = Conditionals::new();
    c.open(false);
    assert!(!c.is_active());
    assert_eq!(c.elif(true), Ok(()));
    assert!(c.is_active());
    assert_eq!(c.elif(true), Ok(()));
    assert!(!c.is_active());
    assert_eq!(c.else_branch(), Ok(()));
    assert!(!c.is_active());
    assert_eq!(c.depth(), 1);
    assert_eq!(c.finish(), Err(ConditionalError::Unterminated));
}

#[test]
fn conditional_nested_in_inactive_stays_inactive() {
    let mut c = Conditionals::new();
    c.open(false);
    c.open(true);
    assert!(!c.is_active());
    assert_eq!(c.else_branch(), Ok(()));
    assert!(!c.is_active());
    assert_eq!(c.close(), Ok(()));
    assert_eq!(c.else_branch(), Ok(()));
    assert!(c.is_active());
}

#[test]
fn conditional_errors_without_if() {
    let mut c = Conditionals::new();
    assert_eq!(c.elif(true), Err(ConditionalError::ElifWithoutIf));
    assert_eq!(c.else_branch(), Err(ConditionalError::ElseWithoutIf));
    assert_eq!(c.close(), Err(ConditionalError::EndifWithoutIf));
    assert_eq!(c.depth(), 0);
}

#[test]
fn token_text_decodes_utf8() {
    let src = "a\u{e9}\u{4e2d}+";
    let ast = parse(src);
    let t = PpToken::from_source(src, ast.tokens[1]);
    assert_eq!(t.text, "\u{e9}\u{4e2d}");
    assert_eq!(t.kind, Token::ERROR);
}
