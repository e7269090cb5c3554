use glsl_lang_pp::eval::{evaluate_items, Item};
use glsl_lang_pp::parser::{ParsedPath, PathType, ProcessStrError};
use glsl_lang_pp::process::{parse_decimal, process, Event, ExpandStr};
use glsl_lang_pp::processor::{
    Define, DefineObject, FileId, MacroToken, ProcessorState, ProcessorStateBuilder,
};
use glsl_lang_pp::text::TextRange;
use glsl_lang_pp::token::Token;

fn drain(mut e: ExpandStr) -> (Vec<String>, Vec<String>, Vec<ProcessStrError>, ExpandStr) {
    let mut texts = Vec::new();
    let mut errors = Vec::new();
    let mut imports = Vec::new();
    while let Some(ev) = e.next() {
        match ev {
            Ok(Event::Token(t)) => texts.push(t.text),
            Ok(Event::Error { error, .. }) => errors.push(error.message()),
            Err(i) => {
                assert_eq!(i.file, FileId::new(0));
                imports.push(i.error)
            }
        }
    }
    (texts, errors, imports, e)
}

fn run(src: &str) -> (Vec<String>, Vec<String>, Vec<ProcessStrError>) {
    let (t, e, i, _) = drain(process(src, ProcessorState::default()));
    (t, e, i)
}

#[test]
fn object_macro_in_declaration() {
    let (texts, errors, _) = run("#define X 1+2\nint y = X*X;");
    assert_eq!(texts.concat(), "inty=1+2*1+2;");
    assert!(errors.is_empty());
}

#[test]
fn conditional_with_defined() {
    let src = "#define A\n#if defined(A)&&!defined(B)\nint a;\n#else\nint b;\n#endif";
    let (texts, errors, _) = run(src);
    assert_eq!(texts, vec!["int", "a", ";"]);
    assert!(errors.is_empty());
}

#[test]
fn expansion_ranges_are_invocation_ranges() {
    let mut e = process("#define X 1+2\nX", ProcessorState::default());
    let mut n = 0;
    while let Some(ev) = e.next() {
        if let Ok(Event::Token(t)) = ev {
            assert_eq!(t.range, TextRange::new(14, 15));
            n += 1;
        }
    }
    assert_eq!(n, 3);
}

#[test]
fn rescanning_stops_at_hidden_names() {
    let (texts, _, _) = run("#define A B\n#define B A\nA B");
    assert_eq!(texts, vec!["A", "B"]);
    let (texts, _, _) = run("#define ONE 1\n#define TWO ONE+ONE\nTWO");
    assert_eq!(texts.concat(), "1+1");
}

#[test]
fn undef_and_protected_names() {
    let (texts, _, _) = run("#define X 1\n#undef X\nX");
    assert_eq!(texts, vec!["X"]);
    let (texts, _, _) = run("#undef GL_core_profile\n#ifdef GL_core_profile\nyes\n#endif");
    assert_eq!(texts, vec!["yes"]);
    let (texts, _, _) = run("#define GL_core_profile 0\n#if GL_core_profile\nyes\n#endif");
    assert_eq!(texts, vec!["yes"]);
}

#[test]
fn if_elif_else_arithmetic() {
    let src = "#if (1 + 2) * 3 == 9 && 7 % 4 == 3 && -8 / 3 == -2 && (1 << 4) == 16\nok\n#endif";
    assert_eq!(run(src).0, vec!["ok"]);
    let src = "#if 0\na\n#elif 2 > 1\nb\n#elif 1\nc\n#else\nd\n#endif";
    assert_eq!(run(src).0, vec!["b"]);
    let src = "#ifndef NOPE\nx\n#else\ny\n#endif";
    assert_eq!(run(src).0, vec!["x"]);
    let src = "#if 0\n#if 1\na\n#else\nb\n#endif\n#else\nc\n#endif";
    assert_eq!(run(src).0, vec!["c"]);
}

#[test]
fn directive_errors() {
    let (_, errors, _) = run("#foo\n");
    assert_eq!(errors, vec!["1:0: unknown preprocessor directive `#foo`"]);
    let (texts, errors, _) = run("#if 1\nx");
    assert_eq!(texts, vec!["x"]);
    assert_eq!(errors, vec!["2:1: unterminated #if"]);
    let (_, errors, _) = run("a\n#endif");
    assert_eq!(errors, vec!["2:0: #endif without #if"]);
    let (_, errors, _) = run("#if 1/0\n#endif");
    assert_eq!(errors, vec!["1:0: invalid expression in conditional directive"]);
    let (_, errors, _) = run("#define F(a b) a\n");
    assert_eq!(errors, vec!["1:0: unexpected tokens in #define function arguments"]);
}

#[test]
fn masked_errors_inside_inactive_blocks() {
    let mut e = process("#if 0\n#bogus\n#endif", ProcessorState::default());
    let mut masked = Vec::new();
    while let Some(ev) = e.next() {
        if let Ok(Event::Error { masked: m, .. }) = ev {
            masked.push(m);
        }
    }
    assert_eq!(masked, vec![true]);
}

#[test]
fn import_requests_are_reported() {
    let src = "#extension GL_ARB_shading_language_include : enable\n#include \"a.glsl\"\n#moj_import <b/c.glsl>\n";
    let (_, _, imports) = run(src);
    assert_eq!(
        imports,
        vec![
            ProcessStrError::ImportRequested(ParsedPath {
                path: "a.glsl".to_string(),
                ty: PathType::Quote
            }),
            ProcessStrError::ImportRequested(ParsedPath {
                path: "b/c.glsl".to_string(),
                ty: PathType::Angle
            }),
        ]
    );
}

#[test]
fn final_state_after_all_events() {
    let e = process("#define X 1\nX", ProcessorState::default());
    let (_, _, _, e) = drain(e);
    let state = e.into_state().unwrap();
    assert!(state.get_definition(&"X".to_string()).is_some());
    let e = process("#define X 1\nX", ProcessorState::default());
    assert!(e.into_state().is_none());
}

#[test]
fn function_macro_definition_is_recorded() {
    let (texts, errors, _, e) = drain(process("#define CAT(a,b) a##b\n", ProcessorState::default()));
    assert!(texts.is_empty());
    assert!(errors.is_empty());
    let state = e.into_state().unwrap();
    assert!(state.get_definition(&"CAT".to_string()).is_some());
}

#[test]
fn evaluate_constant_expressions() {
    assert_eq!(evaluate_items(&vec![Item::Num(2), Item::Op(Token::PLUS), Item::Num(3), Item::Op(Token::ASTERISK), Item::Num(4)]), Some(14));
    assert_eq!(evaluate_items(&vec![Item::Op(Token::BANG), Item::Num(0)]), Some(1));
    assert_eq!(evaluate_items(&vec![Item::Op(Token::TILDE), Item::Num(0)]), Some(-1));
    assert_eq!(evaluate_items(&vec![Item::Op(Token::DASH), Item::Num(5), Item::Op(Token::RIGHT_OP), Item::Num(1)]), Some(-3));
    assert_eq!(evaluate_items(&vec![Item::Num(1), Item::Op(Token::OR_OP), Item::Num(0), Item::Op(Token::AND_OP), Item::Num(0)]), Some(1));
    assert_eq!(evaluate_items(&vec![Item::Num(i64::MAX), Item::Op(Token::PLUS), Item::Num(1)]), None);
    assert_eq!(evaluate_items(&vec![Item::Num(1), Item::Op(Token::SLASH), Item::Num(0)]), None);
    assert_eq!(evaluate_items(&vec![Item::Num(1), Item::Op(Token::LEFT_OP), Item::Num(64)]), None);
    assert_eq!(evaluate_items(&vec![Item::Op(Token::LPAREN), Item::Num(1)]), None);
    assert_eq!(evaluate_items(&vec![Item::Num(1), Item::Num(2)]), None);
    assert_eq!(evaluate_items(&vec![]), None);
    assert_eq!(evaluate_items(&vec![Item::Num(10), Item::Op(Token::DASH), Item::Num(3), Item::Op(Token::DASH), Item::Num(2)]), Some(5));
}

#[test]
fn decimal_literals() {
    assert_eq!(parse_decimal(&"0".to_string()), Some(0));
    assert_eq!(parse_decimal(&"9223372036854775807".to_string()), Some(i64::MAX));
    assert_eq!(parse_decimal(&"9223372036854775808".to_string()), None);
    assert_eq!(parse_decimal(&"12a".to_string()), None);
    assert_eq!(parse_decimal(&"".to_string()), None);
}

#[test]
fn function_macro_with_concat() {
    let (texts, errors, _) = run("#define CAT(a,b) a##b\nint CAT(x,1) = 0;");
    assert_eq!(texts, vec!["int", "x1", "=", "0", ";"]);
    assert!(errors.is_empty());
}

#[test]
fn function_macro_arguments() {
    assert_eq!(run("#define X 2\n#define F(a) a+a\nF(X)").0.concat(), "2+2");
    assert_eq!(run("#define F(a) [a]\nF((1,2))").0.concat(), "[(1,2)]");
    assert_eq!(run("#define F(a) a\nF + 1").0.concat(), "F+1");
    assert_eq!(run("#define F() 7\nF()").0, vec!["7"]);
    assert_eq!(run("#define F(a, b) b a\nF(\n1,\n2)").0, vec!["2", "1"]);
    assert_eq!(run("#define F (a) a\nF(1)").0.concat(), "(a)a(1)");
}

#[test]
fn function_macro_errors() {
    let (_, errors, _) = run("#define F(a,b) a\nF(1)");
    assert_eq!(errors, vec!["2:0: unexpected tokens in #define function arguments"]);
    let (texts, errors, _) = run("#define P(a,b) a##b\nP(+,/)");
    assert_eq!(texts, vec!["+", "/"]);
    assert_eq!(errors, vec!["2:0: `##` does not form a token"]);
}

#[test]
fn function_macro_range_spans_invocation() {
    let mut e = process("#define F(a) a\nF( 1 )", ProcessorState::default());
    let mut ranges = Vec::new();
    while let Some(ev) = e.next() {
        if let Ok(Event::Token(t)) = ev {
            ranges.push(t.range);
        }
    }
    assert_eq!(ranges, vec![TextRange::new(15, 21)]);
}

#[test]
fn str_pos_error() {
    let src = "#error : This error should be in pos_error_b.glsl\n";
    let mut e = process(src, ProcessorState::default());
    let mut messages = Vec::new();
    while let Some(ev) = e.next() {
        if let Ok(Event::Error { error, masked }) = ev {
            assert!(!masked);
            messages.push(error.message_in(FileId::new(10)));
        }
    }
    assert_eq!(
        messages,
        vec!["10:1:1: '#error' : This error should be in pos_error_b.glsl"]
    );
}

#[test]
fn error_directive_inside_inactive_block_is_masked() {
    let mut e = process("#if 0\n#error no\n#endif\n", ProcessorState::default());
    let mut found = Vec::new();
    while let Some(ev) = e.next() {
        if let Ok(Event::Error { error, masked }) = ev {
            found.push((error.message(), masked));
        }
    }
    assert_eq!(found, vec![("2:1: '#error' no".to_string(), true)]);
}

#[test]
fn continuation_inside_whitespace_and_identifier_is_invisible() {
    let plain = run("int a;\n#define X 1\nX").0;
    let spliced = run("in\\\nt \\\n a;\n#define X 1\nX").0;
    assert_eq!(plain, spliced);
    assert_eq!(plain, vec!["int", "a", ";", "1"]);
}

#[test]
fn builtin_pseudo_macros() {
    assert_eq!(run("a\n\n__LINE__ __FILE__ __VERSION__").0, vec!["a", "3", "0", "110"]);
    let (texts, errors, _) = run("#version 450 core\n__VERSION__");
    assert_eq!(texts, vec!["450"]);
    assert!(errors.is_empty());
    let (texts, _, _) = run("#define L __LINE__\n\nL");
    assert_eq!(texts, vec!["3"]);
}

#[test]
fn version_and_extension_directives() {
    let (_, errors, _, e) = drain(process(
        "#version 300 es\n#extension GL_GOOGLE_include_directive : enable\n",
        ProcessorState::default(),
    ));
    assert!(errors.is_empty());
    let state = e.into_state().unwrap();
    assert!(state.cpp_style_line());
    assert_eq!(state.version().number, 300);
    let (_, errors, _) = run("#version abc\n#extension X\n#version 70000\n");
    assert_eq!(
        errors,
        vec![
            "1:0: extra tokens in preprocessor directive",
            "2:0: extra tokens in preprocessor directive",
            "3:0: extra tokens in preprocessor directive",
        ]
    );
}

#[test]
fn include_needs_an_include_extension() {
    let (_, errors, imports) = run("#include \"a.glsl\"\n");
    assert!(imports.is_empty());
    assert_eq!(errors, vec!["1:0: #include without an enabled include extension"]);
    let src = "#extension GL_GOOGLE_include_directive : enable\n#include <x.glsl>\n";
    let (_, errors, imports, e) = drain(process(src, ProcessorState::default()));
    assert!(errors.is_empty());
    assert_eq!(imports.len(), 1);
    assert!(e.into_state().unwrap().cpp_style_line());
    let src = "#extension GL_GOOGLE_include_directive : enable\n#extension GL_GOOGLE_include_directive : disable\n#include <x.glsl>\n";
    let (_, errors, imports) = run(src);
    assert!(imports.is_empty());
    assert_eq!(errors.len(), 1);
}

#[test]
fn extension_directives_are_recorded() {
    let (_, errors, _, e) = drain(process(
        "#extension GL_EXT_x : require\n#extension all : disable\n#extension GL_EXT_y : maybe\n",
        ProcessorState::default(),
    ));
    assert_eq!(errors, vec!["3:0: extra tokens in preprocessor directive"]);
    let state = e.into_state().unwrap();
    assert_eq!(state.extensions().len(), 2);
}

#[test]
fn directive_free_input_keeps_state() {
    let (texts, errors, imports, e) = drain(process("int a = 1;", ProcessorState::default()));
    assert_eq!(texts.concat(), "inta=1;");
    assert!(errors.is_empty() && imports.is_empty());
    assert_eq!(format!("{:?}", e.into_state().unwrap()), format!("{:?}", ProcessorState::default()));
}

#[test]
fn self_referential_macro_from_builder_state() {
    let x = DefineObject { tokens: vec![MacroToken { kind: Token::IDENT_KW, text: "X".to_string() }] };
    let state = ProcessorStateBuilder::default()
        .definition(Define::object("X".to_string(), x, false))
        .finish();
    let (texts, errors, _, _) = drain(process("X + X", state));
    assert_eq!(texts, vec!["X", "+", "X"]);
    assert!(errors.is_empty());
}

#[test]
fn import_error_is_located_at_the_directive() {
    let src = "#extension GL_GOOGLE_include_directive : enable\n#include \"a.glsl\"\n";
    let mut e = process(src, ProcessorState::default());
    let mut found = Vec::new();
    while let Some(ev) = e.next() {
        if let Err(l) = ev {
            found.push((l.error, l.pos));
        }
    }
    assert_eq!(
        found,
        vec![(
            ProcessStrError::ImportRequested(ParsedPath {
                path: "a.glsl".to_string(),
                ty: PathType::Quote
            }),
            TextRange::new(48, 49)
        )]
    );
}
