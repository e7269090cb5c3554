//! The preprocessor's driver over a string: directives, conditional blocks, and macro
//! expansion of the active text.
use vstd::prelude::*;
use vstd::string::StringSliceAdditionalSpecFns;

use crate::conditional::{stack_active, ConditionalError, ConditionalFrame, Conditionals};
use crate::error::{decimal, push_decimal, Error, ErrorKind};
use crate::eval::{evaluate, evaluate_items, Item};
use crate::expand::{
    expand_rescan, object_body, pview, rescan, rescan_all, source_text, substitute, views, PpToken,
    PpView,
};
use crate::line_map::{line_and_col, line_starts, LineMap};
use crate::parser::{lemma_tokens_in_source, parse, tokens_of, ParsedPath, PathType, ProcessStrError};
use crate::processor::{
    Define, DefineFunction, DefineKind, DefineObject, Definition, ExtensionBehavior,
    ExtensionName, FileId, MacroToken, ProcessorState, Version, VersionProfile, def_protected,
};
use crate::text::TextRange;
use crate::token::{TextToken, Token};
use crate::unescaped::{chars_of, string_of_chars};

verus! {

/// An item of the preprocessor's output.
#[derive(Debug, Clone)]
pub enum Event {
    /// A token of the active text, after macro expansion.
    Token(PpToken),
    /// A diagnostic; `masked` when it arose inside an inactive conditional block.
    Error { error: Error, masked: bool },
}

/// An error of processing a string, with the range of the directive it concerns and the
/// source unit that range is in.
#[derive(Debug, Clone, PartialEq, Eq)]
pub struct LocatedError {
    pub error: ProcessStrError,
    pub pos: TextRange,
    pub file: FileId,
}

/// Which import directive the enabled extensions allow.
#[derive(Debug, Clone, Copy, PartialEq, Eq, Structural)]
pub enum IncludeMode {
    Disabled,
    ArbInclude,
    GoogleInclude,
}

/// Whether a token event stands for a non-empty range inside a source of `n` bytes.
pub open spec fn within(e: Result<Event, LocatedError>, n: int) -> bool {
    match e {
        Ok(Event::Token(t)) => t.range.start < t.range.end <= n,
        _ => true,
    }
}

/// The value of a string of decimal digits.
pub open spec fn digits_value(cs: Seq<char>) -> int
    decreases cs.len(),
{
    if cs.len() == 0 {
        0
    } else {
        digits_value(cs.drop_last()) * 10 + (cs.last() as int - 48)
    }
}

pub open spec fn all_digits(cs: Seq<char>) -> bool {
    forall|i: int| 0 <= i < cs.len() ==> '0' <= #[trigger] cs[i] <= '9'
}

proof fn lemma_digits_prefix(cs: Seq<char>, k: int)
    requires
        all_digits(cs),
        0 <= k <= cs.len(),
    ensures
        0 <= digits_value(cs.subrange(0, k)) <= digits_value(cs),
    decreases cs.len(),
{
    if cs.len() > 0 {
        let p = cs.drop_last();
        assert(all_digits(p)) by {
            assert forall|i: int| 0 <= i < p.len() implies '0' <= #[trigger] p[i] <= '9' by {
                assert(p[i] == cs[i]);
            }
        }
        if k == cs.len() {
            assert(cs.subrange(0, k) =~= cs);
            lemma_digits_prefix(p, p.len() as int);
            assert(p.subrange(0, p.len() as int) =~= p);
        } else {
            lemma_digits_prefix(p, k);
            assert(p.subrange(0, k) =~= cs.subrange(0, k));
            lemma_digits_prefix(p, p.len() as int);
            assert(p.subrange(0, p.len() as int) =~= p);
        }
        assert('0' <= cs[cs.len() - 1] <= '9');
    }
}

/// The value of a decimal literal, if it is one and fits in an `i64`.
pub fn parse_decimal(s: &String) -> (r: Option<i64>)
    ensures
        r == (if s@.len() > 0 && all_digits(s@) && digits_value(s@) <= i64::MAX {
            Some(digits_value(s@) as i64)
        } else {
            None::<i64>
        }),
{
    let cs = chars_of(s.as_str());
    if cs.len() == 0 {
        return None;
    }
    let mut acc: i64 = 0;
    let mut i: usize = 0;
    while i < cs.len()
        invariant
            cs@ == s@,
            i <= cs@.len(),
            all_digits(cs@.subrange(0, i as int)),
            acc == digits_value(cs@.subrange(0, i as int)),
        decreases cs@.len() - i,
    {
        let c = cs[i];
        if !('0' <= c && c <= '9') {
            proof {
                assert(!all_digits(cs@));
            }
            return None;
        }
        let d = (c as u32 - 48) as i64;
        proof {
            let p = cs@.subrange(0, i as int + 1);
            assert(p.drop_last() =~= cs@.subrange(0, i as int));
            assert(p.last() == c);
        }
        match acc.checked_mul(10) {
            Some(m) => match m.checked_add(d) {
                Some(v) => {
                    acc = v;
                },
                None => {
                    proof {
                        if all_digits(cs@) {
                            lemma_digits_prefix(cs@, i as int + 1);
                        }
                    }
                    return None;
                },
            },
            None => {
                proof {
                    if all_digits(cs@) {
                        lemma_digits_prefix(cs@, i as int + 1);
                    }
                }
                return None;
            },
        }
        i = i + 1;
        proof {
            let p = cs@.subrange(0, i as int);
            assert forall|k: int| 0 <= k < p.len() implies '0' <= #[trigger] p[k] <= '9' by {
                if k < i - 1 {
                    assert(p[k] == cs@.subrange(0, i - 1)[k]);
                }
            }
        }
    }
    proof {
        assert(cs@.subrange(0, i as int) =~= cs@);
    }
    Some(acc)
}

fn is_word(t: &PpToken, w: &str) -> (r: bool)
    ensures
        r == (t.text@ == w@),
{
    t.text == String::from_str(w)
}

/// The non-blank tokens of `toks[from..to]`, with their text.
/// The non-blank tokens of `toks[from..to]`, with their text and no hide-set.
pub open spec fn words_spec(b: Seq<u8>, toks: Seq<TextToken>, from: int, to: int) -> Seq<PpView>
    decreases to - from,
{
    if to <= from {
        Seq::empty()
    } else {
        let prev = words_spec(b, toks, from, to - 1);
        if toks[to - 1].kind == Token::WS || toks[to - 1].kind == Token::COMMENT {
            prev
        } else {
            prev.push(src_view(b, toks[to - 1]))
        }
    }
}

fn words(input: &str, toks: &Vec<TextToken>, from: usize, to: usize) -> (r: Vec<PpToken>)
    requires
        from <= to <= toks@.len(),
        forall|k: int|
            0 <= k < toks@.len() ==> (#[trigger] toks@[k]).range.start <= toks@[k].range.end
                <= input.spec_bytes().len(),
    ensures
        views(r@) == words_spec(input.spec_bytes(), toks@, from as int, to as int),
{
    let mut r: Vec<PpToken> = Vec::new();
    let mut i = from;
    proof {
        assert(views(r@) =~= Seq::<PpView>::empty());
    }
    while i < to
        invariant
            from <= i <= to <= toks@.len(),
            forall|k: int|
                0 <= k < toks@.len() ==> (#[trigger] toks@[k]).range.start <= toks@[k].range.end
                    <= input.spec_bytes().len(),
            views(r@) == words_spec(input.spec_bytes(), toks@, from as int, i as int),
        decreases to - i,
    {
        let t = toks[i];
        let ghost before = views(r@);
        if t.kind != Token::WS && t.kind != Token::COMMENT {
            let w = PpToken::from_source(input, t);
            proof {
                assert(crate::expand::hide_names(w) =~= Seq::<Seq<char>>::empty());
                assert(pview(w) == src_view(input.spec_bytes(), t));
            }
            r.push(w);
            proof {
                assert(views(r@) =~= before.push(pview(w)));
            }
        }
        i = i + 1;
    }
    r
}

/// A replacement list by kinds and texts.
pub open spec fn macro_view(ms: Seq<MacroToken>) -> Seq<(Token, Seq<char>)> {
    Seq::new(ms.len(), |k: int| (ms[k].kind, ms[k].text@))
}

/// The words from `from` on, by kinds and texts.
pub open spec fn body_of(ws: Seq<PpView>, from: int) -> Seq<(Token, Seq<char>)> {
    Seq::new((ws.len() - from) as nat, |k: int| (ws[from + k].kind, ws[from + k].text))
}

/// What a definition states: an object-like replacement list, or parameter names and a
/// replacement list.
pub enum DefineShape {
    Object(Seq<(Token, Seq<char>)>),
    Function(Seq<Seq<char>>, Seq<(Token, Seq<char>)>),
}

/// The parameter list of a `#define` from the word at `i` on, after the names `ps`: the
/// names and the position after its `)`, or `None` where it is malformed.
pub open spec fn params_parse(ws: Seq<PpView>, i: int, expect: bool, ps: Seq<Seq<char>>) -> Option<
    (Seq<Seq<char>>, int),
>
    decreases ws.len() - i,
{
    if i < 0 || i >= ws.len() {
        None
    } else {
        let k = ws[i].kind;
        if k == Token::RPAREN && (expect == (ps.len() == 0)) {
            Some((ps, i + 1))
        } else if expect && k == Token::IDENT_KW {
            params_parse(ws, i + 1, false, ps.push(ws[i].text))
        } else if !expect && k == Token::COMMA {
            params_parse(ws, i + 1, true, ps)
        } else {
            None
        }
    }
}

/// The name and shape that a `#define` line states (its words from the directive name
/// on): function-like where `(` follows the name with no space between; `None` where the
/// name or the parameter list is malformed.
pub open spec fn define_spec(ws: Seq<PpView>) -> Option<(Seq<char>, DefineShape)> {
    if ws.len() < 2 || ws[1].kind != Token::IDENT_KW {
        None
    } else if ws.len() > 2 && ws[2].kind == Token::LPAREN && ws[2].range.start == ws[1].range.end {
        match params_parse(ws, 3, true, Seq::empty()) {
            Some((ps, i)) => Some((ws[1].text, DefineShape::Function(ps, body_of(ws, i)))),
            None => None,
        }
    } else {
        Some((ws[1].text, DefineShape::Object(body_of(ws, 2))))
    }
}

/// The name and shape of a definition.
pub open spec fn define_view(d: Define) -> (Seq<char>, DefineShape) {
    (
        d.name@,
        match d.kind {
            DefineKind::Object(o) => DefineShape::Object(macro_view(o.tokens@)),
            DefineKind::Function(f) => DefineShape::Function(
                Seq::new(f.parameters@.len(), |i: int| f.parameters@[i]@),
                macro_view(f.tokens@),
            ),
        },
    )
}

fn macro_tokens(ws: &Vec<PpToken>, from: usize) -> (r: Vec<MacroToken>)
    requires
        from <= ws@.len(),
    ensures
        macro_view(r@) == body_of(views(ws@), from as int),
{
    let mut r: Vec<MacroToken> = Vec::new();
    let mut i = from;
    while i < ws.len()
        invariant
            from <= i <= ws@.len(),
            macro_view(r@) == body_of(views(ws@), from as int).take(i - from),
        decreases ws@.len() - i,
    {
        let ghost before = macro_view(r@);
        let ghost rold = r@;
        r.push(MacroToken { kind: ws[i].kind, text: ws[i].text.clone() });
        proof {
            assert(views(ws@)[i as int] == pview(ws@[i as int]));
            let target = body_of(views(ws@), from as int).take(i + 1 - from);
            assert(before == macro_view(rold));
            assert(macro_view(rold).len() == rold.len());
            assert(body_of(views(ws@), from as int).len() == ws@.len() - from);
            assert(before.len() == i - from);
            assert(rold.len() == i - from);
            assert(target.len() == r@.len());
            assert forall|j: int| 0 <= j < r@.len() implies macro_view(r@)[j] == target[j] by {
                if j == rold.len() {
                    assert(target[j] == body_of(views(ws@), from as int)[j]);
                    assert(from + j == i);
                } else {
                    assert(r@[j] == rold[j]);
                    assert(before[j] == macro_view(rold)[j]);
                }
            }
            assert(macro_view(r@) =~= target);
        }
        i = i + 1;
    }
    proof {
        assert(body_of(views(ws@), from as int).take(i - from) =~= body_of(views(ws@), from as int));
    }
    r
}

/// The definition that a `#define` line (its words after `define`) states, or `None` where
/// the name or the parameter list is malformed.
fn define_of(ws: &Vec<PpToken>) -> (r: Option<Define>)
    ensures
        r is Some <==> define_spec(views(ws@)) is Some,
        r is Some ==> define_view(r->0) == define_spec(views(ws@))->0 && !r->0.protected,
        r is Some ==> ws@.len() >= 2 && ws@[1].kind == Token::IDENT_KW && r->0.name@
            == ws@[1].text@,
{
    let ghost vs = views(ws@);
    if ws.len() < 2 || ws[1].kind != Token::IDENT_KW {
        return None;
    }
    let name = ws[1].text.clone();
    proof {
        assert(vs[1] == pview(ws@[1]));
    }
    if ws.len() > 2 && ws[2].kind == Token::LPAREN && ws[2].range.start == ws[1].range.end {
        let mut parameters: Vec<String> = Vec::new();
        let mut i: usize = 3;
        let mut expect_name = true;
        proof {
            assert(Seq::new(parameters@.len(), |q: int| parameters@[q]@) =~= Seq::<Seq<char>>::empty());
        }
        loop
            invariant
                3 <= i <= ws@.len(),
                vs == views(ws@),
                vs.len() > 2 && vs[2].kind == Token::LPAREN && vs[2].range.start == vs[1].range.end,
                vs[1].kind == Token::IDENT_KW,
                name@ == vs[1].text,
                params_parse(vs, i as int, expect_name, Seq::new(parameters@.len(), |q: int| parameters@[q]@))
                    == params_parse(vs, 3, true, Seq::empty()),
            decreases ws@.len() - i,
        {
            let ghost pv = Seq::new(parameters@.len(), |q: int| parameters@[q]@);
            if i >= ws.len() {
                return None;
            }
            let k = ws[i].kind;
            proof {
                assert(vs[i as int] == pview(ws@[i as int]));
            }
            if k == Token::RPAREN && (expect_name == (parameters.len() == 0)) {
                let tokens = macro_tokens(ws, i + 1);
                let d = Define::function(
                    name,
                    DefineFunction { parameters, tokens, variadic: false },
                    false,
                );
                proof {
                    assert(params_parse(vs, i as int, expect_name, pv) == Some((pv, i + 1)));
                    assert(vs[1] == pview(ws@[1]));
                    assert(define_spec(vs) == Some((vs[1].text, DefineShape::Function(pv, body_of(vs, i + 1)))));
                    assert(define_view(d) == (vs[1].text, DefineShape::Function(pv, body_of(vs, i + 1))));
                }
                return Some(d);
            } else if expect_name && k == Token::IDENT_KW {
                parameters.push(ws[i].text.clone());
                proof {
                    assert(Seq::new(parameters@.len(), |q: int| parameters@[q]@) =~= pv.push(vs[i as int].text));
                }
                expect_name = false;
            } else if !expect_name && k == Token::COMMA {
                expect_name = true;
            } else {
                return None;
            }
            i = i + 1;
        }
    } else {
        let tokens = macro_tokens(ws, 2);
        let d = Define::object(name, DefineObject { tokens }, false);
        proof {
            assert(vs[1] == pview(ws@[1]));
            assert(define_view(d) == (vs[1].text, DefineShape::Object(body_of(vs, 2))));
        }
        Some(d)
    }
}

/// The value of a decimal literal, if it is one and fits in an `i64`.
pub open spec fn decimal_value(cs: Seq<char>) -> Option<i64> {
    if cs.len() > 0 && all_digits(cs) && digits_value(cs) <= i64::MAX {
        Some(digits_value(cs) as i64)
    } else {
        None
    }
}

/// The value of an identifier in a constant expression: that of its object-like macro's
/// replacement where that is one decimal literal (`None` where it does not fit), else 0.
pub open spec fn ident_value(table: Map<Seq<char>, Definition>, name: Seq<char>) -> Option<i64> {
    match object_body(table, name) {
        Some(body) => if body.len() == 1 && body[0].kind == Token::DIGITS {
            decimal_value(body[0].text@)
        } else {
            Some(0)
        },
        None => Some(0),
    }
}

pub open spec fn cons_item(x: Item, rest: Option<Seq<Item>>) -> Option<Seq<Item>> {
    match rest {
        Some(r) => Some(seq![x] + r),
        None => None,
    }
}

/// The atoms of the constant expression `ws[i..]`: `defined X` and `defined(X)` become 1
/// or 0, literals and identifiers their values, anything else an operator.
pub open spec fn items_spec(table: Map<Seq<char>, Definition>, ws: Seq<PpView>, i: int) -> Option<
    Seq<Item>,
>
    decreases ws.len() - i,
{
    if i < 0 || i >= ws.len() {
        Some(Seq::empty())
    } else {
        let w = ws[i];
        if w.kind == Token::IDENT_KW && w.text == "defined"@ {
            let name_at = if i + 1 < ws.len() && ws[i + 1].kind == Token::LPAREN {
                i + 2
            } else {
                i + 1
            };
            if name_at >= ws.len() || ws[name_at].kind != Token::IDENT_KW {
                None
            } else {
                let v: i64 = if table.contains_key(ws[name_at].text) {
                    1
                } else {
                    0
                };
                if name_at == i + 2 {
                    if name_at + 1 >= ws.len() || ws[name_at + 1].kind != Token::RPAREN {
                        None
                    } else {
                        cons_item(Item::Num(v), items_spec(table, ws, i + 4))
                    }
                } else {
                    cons_item(Item::Num(v), items_spec(table, ws, i + 2))
                }
            }
        } else if w.kind == Token::IDENT_KW {
            match ident_value(table, w.text) {
                Some(v) => cons_item(Item::Num(v), items_spec(table, ws, i + 1)),
                None => None,
            }
        } else if w.kind == Token::DIGITS {
            match decimal_value(w.text) {
                Some(v) => cons_item(Item::Num(v), items_spec(table, ws, i + 1)),
                None => None,
            }
        } else {
            cons_item(Item::Op(w.kind), items_spec(table, ws, i + 1))
        }
    }
}

pub open spec fn after(items: Seq<Item>, rest: Option<Seq<Item>>) -> Option<Seq<Item>> {
    match rest {
        Some(r) => Some(items + r),
        None => None,
    }
}

/// The atoms of the constant expression `ws[from..]`.
fn items_of(st: &ProcessorState, ws: &Vec<PpToken>, from: usize) -> (r: Option<Vec<Item>>)
    requires
        st.wf(),
    ensures
        match r {
            Some(v) => items_spec(st.table(), views(ws@), from as int) == Some(v@),
            None => items_spec(st.table(), views(ws@), from as int) is None,
        },
{
    let ghost vs = views(ws@);
    let ghost table = st.table();
    let mut items: Vec<Item> = Vec::new();
    let mut i = from;
    proof {
        assert(Seq::<Item>::empty() + items_spec(table, vs, from as int).unwrap_or(Seq::empty())
            =~= items_spec(table, vs, from as int).unwrap_or(Seq::empty()));
        if items_spec(table, vs, from as int) is Some {
            assert(Seq::<Item>::empty() + items_spec(table, vs, from as int)->0 =~= items_spec(table, vs, from as int)->0);
        }
    }
    while i < ws.len()
        invariant
            st.wf(),
            table == st.table(),
            vs == views(ws@),
            after(items@, items_spec(table, vs, i as int)) == items_spec(table, vs, from as int),
        decreases ws@.len() - i,
    {
        let w = &ws[i];
        let ghost before = items@;
        proof {
            assert(vs[i as int] == pview(*w));
        }
        if w.kind == Token::IDENT_KW && is_word(w, "defined") {
            let name_at = if i + 1 < ws.len() && ws[i + 1].kind == Token::LPAREN {
                i + 2
            } else {
                i + 1
            };
            proof {
                if i + 1 < ws.len() {
                    assert(vs[i + 1] == pview(ws@[i + 1]));
                }
            }
            if name_at >= ws.len() || ws[name_at].kind != Token::IDENT_KW {
                proof {
                    if name_at < ws.len() {
                        assert(vs[name_at as int] == pview(ws@[name_at as int]));
                    }
                }
                return None;
            }
            proof {
                assert(vs[name_at as int] == pview(ws@[name_at as int]));
            }
            let known = st.get_definition(&ws[name_at].text).is_some();
            let v: i64 = if known {
                1
            } else {
                0
            };
            if name_at == i + 2 {
                if name_at + 1 >= ws.len() || ws[name_at + 1].kind != Token::RPAREN {
                    proof {
                        if name_at + 1 < ws.len() {
                            assert(vs[name_at + 1] == pview(ws@[name_at + 1]));
                        }
                    }
                    return None;
                }
                proof {
                    assert(vs[name_at + 1] == pview(ws@[name_at + 1]));
                }
                items.push(Item::Num(v));
                i = name_at + 2;
            } else {
                items.push(Item::Num(v));
                i = name_at + 1;
            }
            proof {
                let rest = items_spec(table, vs, i as int);
                if rest is Some {
                    assert(items@ + rest->0 =~= before + (seq![Item::Num(v)] + rest->0));
                }
            }
        } else if w.kind == Token::IDENT_KW {
            let mut v: i64 = 0;
            match st.get_definition(&w.text) {
                Some(Definition::Regular(def, _)) => match &def.kind {
                    DefineKind::Object(o) => {
                        if o.tokens.len() == 1 && o.tokens[0].kind == Token::DIGITS {
                            match parse_decimal(&o.tokens[0].text) {
                                Some(n) => {
                                    v = n;
                                },
                                None => {
                                    return None;
                                },
                            }
                        }
                    },
                    _ => {},
                },
                _ => {},
            }
            proof {
                assert(ident_value(table, w.text@) == Some(v));
            }
            items.push(Item::Num(v));
            i = i + 1;
            proof {
                let rest = items_spec(table, vs, i as int);
                if rest is Some {
                    assert(items@ + rest->0 =~= before + (seq![Item::Num(v)] + rest->0));
                }
            }
        } else if w.kind == Token::DIGITS {
            match parse_decimal(&w.text) {
                Some(n) => items.push(Item::Num(n)),
                None => {
                    return None;
                },
            }
            i = i + 1;
            proof {
                let rest = items_spec(table, vs, i as int);
                if rest is Some {
                    assert(items@ + rest->0 =~= before + (seq![items@.last()] + rest->0));
                }
            }
        } else {
            items.push(Item::Op(w.kind));
            i = i + 1;
            proof {
                let rest = items_spec(table, vs, i as int);
                if rest is Some {
                    assert(items@ + rest->0 =~= before + (seq![Item::Op(w.kind)] + rest->0));
                }
            }
        }
    }
    proof {
        assert(items@ + Seq::<Item>::empty() =~= items@);
    }
    Some(items)
}

/// The value of the condition `ws[from..]` as a truth value, or `None` where it cannot be
/// evaluated.
pub open spec fn condition_spec(table: Map<Seq<char>, Definition>, ws: Seq<PpView>, from: int) -> Option<
    bool,
> {
    match items_spec(table, ws, from) {
        Some(items) => if items.len() >= u32::MAX {
            None
        } else {
            match evaluate(items) {
                Some(v) => Some(v != 0),
                None => None,
            }
        },
        None => None,
    }
}

/// The value of the condition `ws[from..]`: `Some(true)` for a non-zero value, `None`
/// where it cannot be evaluated.
fn condition(st: &ProcessorState, ws: &Vec<PpToken>, from: usize) -> (r: Option<bool>)
    requires
        st.wf(),
    ensures
        r == condition_spec(st.table(), views(ws@), from as int),
{
    match items_of(st, ws, from) {
        Some(items) => {
            if items.len() >= 4294967295usize {
                return None;
            }
            match evaluate_items(&items) {
                Some(v) => Some(v != 0),
                None => None,
            }
        },
        None => None,
    }
}

/// The texts of the words from `i` up to the first `>`, joined.
pub open spec fn joined_until_rangle(ws: Seq<PpView>, i: int) -> Seq<char>
    decreases ws.len() - i,
{
    if i < 0 || i >= ws.len() || ws[i].kind == Token::RANGLE {
        Seq::empty()
    } else {
        ws[i].text + joined_until_rangle(ws, i + 1)
    }
}

/// The path that an import directive names (its words from the directive name on): the
/// inside of a quoted string, or the words between `<` and `>` joined.
pub open spec fn import_path_spec(ws: Seq<PpView>) -> (Seq<char>, PathType) {
    if ws.len() >= 2 && ws[1].kind == Token::QUOTE_STRING {
        let q = ws[1].text;
        (
            if q.len() >= 2 {
                q.subrange(1, q.len() - 1)
            } else {
                Seq::empty()
            },
            PathType::Quote,
        )
    } else {
        let start: int = if 1 < ws.len() && ws[1].kind == Token::LANGLE {
            2
        } else {
            1
        };
        (joined_until_rangle(ws, start), PathType::Angle)
    }
}

/// The path of an import directive's words after the directive name.
fn import_path(ws: &Vec<PpToken>) -> (r: ParsedPath)
    ensures
        (r.path@, r.ty) == import_path_spec(views(ws@)),
{
    let ghost vs = views(ws@);
    if ws.len() >= 2 && ws[1].kind == Token::QUOTE_STRING {
        let cs = chars_of(ws[1].text.as_str());
        let mut inner: Vec<char> = Vec::new();
        let mut i: usize = 1;
        proof {
            assert(vs[1] == pview(ws@[1]));
            if cs@.len() >= 1 {
                assert(cs@.subrange(1, 1) =~= Seq::<char>::empty());
            }
        }
        while cs.len() > 0 && i < cs.len() - 1
            invariant
                i >= 1,
                cs.len() > 0 ==> i <= cs@.len(),
                cs.len() >= 2 ==> i <= cs@.len() - 1,
                inner@ == (if cs@.len() >= 1 {
                    cs@.subrange(1, i as int)
                } else {
                    Seq::<char>::empty()
                }),
            decreases cs@.len() - i,
        {
            inner.push(cs[i]);
            i = i + 1;
            proof {
                assert(inner@ =~= cs@.subrange(1, i as int));
            }
        }
        proof {
            if cs@.len() >= 2 {
                assert(i == cs@.len() - 1);
            } else if cs@.len() == 1 {
                assert(inner@ =~= Seq::<char>::empty());
            }
        }
        return ParsedPath { path: string_of_chars(&inner), ty: PathType::Quote };
    }
    let mut inner: Vec<char> = Vec::new();
    let mut i: usize = 1;
    if i < ws.len() && ws[i].kind == Token::LANGLE {
        proof {
            assert(vs[1] == pview(ws@[1]));
        }
        i = i + 1;
    } else {
        proof {
            if 1 < ws.len() {
                assert(vs[1] == pview(ws@[1]));
            }
        }
    }
    let ghost start = i as int;
    proof {
        assert(inner@ + joined_until_rangle(vs, start) =~= joined_until_rangle(vs, start));
    }
    while i < ws.len() && ws[i].kind != Token::RANGLE
        invariant
            vs == views(ws@),
            1 <= i,
            inner@ + joined_until_rangle(vs, i as int) == joined_until_rangle(vs, start),
        decreases ws@.len() - i,
    {
        proof {
            assert(vs[i as int] == pview(ws@[i as int]));
        }
        let cs = chars_of(ws[i].text.as_str());
        let ghost before = inner@;
        let mut k: usize = 0;
        while k < cs.len()
            invariant
                k <= cs@.len(),
                inner@ == before + cs@.take(k as int),
            decreases cs@.len() - k,
        {
            inner.push(cs[k]);
            k = k + 1;
            proof {
                assert(inner@ =~= before + cs@.take(k as int));
            }
        }
        proof {
            assert(cs@.take(k as int) =~= cs@);
            assert(before + joined_until_rangle(vs, i as int) =~= before + (cs@ + joined_until_rangle(vs, i + 1)));
            assert(inner@ + joined_until_rangle(vs, i + 1) =~= before + (cs@ + joined_until_rangle(vs, i + 1)));
        }
        i = i + 1;
    }
    proof {
        if i < ws.len() {
            assert(vs[i as int] == pview(ws@[i as int]));
        }
        assert(inner@ + Seq::<char>::empty() =~= inner@);
    }
    ParsedPath { path: string_of_chars(&inner), ty: PathType::Angle }
}

/// Whether every event is an `Ok` (no import was requested).
pub open spec fn all_ok(es: Seq<Result<Event, LocatedError>>) -> bool {
    forall|k: int| 0 <= k < es.len() ==> (#[trigger] es[k]) is Ok
}

pub open spec fn all_within(es: Seq<Result<Event, LocatedError>>, n: int) -> bool {
    forall|k: int| 0 <= k < es.len() ==> within(#[trigger] es[k], n)
}

fn push_error(
    events: &mut Vec<Result<Event, LocatedError>>,
    kind: ErrorKind,
    at: TextRange,
    masked: bool,
    line_map: &LineMap,
    Ghost(n): Ghost<int>,
)
    requires
        line_map.wf(),
        all_within(old(events)@, n),
    ensures
        all_within(final(events)@, n),
        all_ok(old(events)@) ==> all_ok(final(events)@),
        final(events)@.len() == old(events)@.len() + 1,
        final(events)@.drop_last() == old(events)@,
        final(events)@.subrange(0, old(events)@.len() as int) == old(events)@,
        error_event(final(events)@.last(), kind, at, masked),
        positioned(old(events)@, line_map.starts()) ==> positioned(final(events)@, line_map.starts()),
{
    let error = Error::new(kind, at, line_map);
    let ghost before = events@;
    events.push(Ok(Event::Error { error, masked }));
    proof {
        assert forall|k: int| 0 <= k < events@.len() && all_ok(before) implies (#[trigger] events@[k]) is Ok by {
            if k < before.len() {
                assert(events@[k] == before[k]);
            }
        }
        assert forall|k: int| 0 <= k < events@.len() implies within(#[trigger] events@[k], n) by {
            if k < before.len() {
                assert(events@[k] == before[k]);
            }
        }
        assert(events@.drop_last() =~= before);
        assert(events@.subrange(0, before.len() as int) =~= before);
        assert forall|k: int| 0 <= k < events@.len() && positioned(before, line_map.starts())
            implies error_positioned(#[trigger] events@[k], line_map.starts()) by {
            if k < before.len() {
                assert(events@[k] == before[k]);
            }
        }
    }
}

/// Whether an error event carries the 0-based line and column of the start of its range.
pub open spec fn error_positioned(e: Result<Event, LocatedError>, starts: Seq<u32>) -> bool {
    match e {
        Ok(Event::Error { error, .. }) => error.user_pos_spec().0 == line_and_col(
            starts,
            error.pos_spec().start,
        ).0 && error.user_pos_spec().1 == line_and_col(starts, error.pos_spec().start).1,
        _ => true,
    }
}

pub open spec fn positioned(es: Seq<Result<Event, LocatedError>>, starts: Seq<u32>) -> bool {
    forall|k: int| 0 <= k < es.len() ==> error_positioned(#[trigger] es[k], starts)
}

/// Whether `e` is an error event of `kind` at `at`, masked as given.
pub open spec fn error_event(e: Result<Event, LocatedError>, kind: ErrorKind, at: TextRange, masked: bool) -> bool {
    match e {
        Ok(Event::Error { error, masked: m }) => error.kind_spec() == kind && error.pos_spec() == at
            && m == masked,
        _ => false,
    }
}

pub open spec fn one_error(new: Seq<Result<Event, LocatedError>>, kind: ErrorKind, at: TextRange, masked: bool) -> bool {
    new.len() == 1 && error_event(new[0], kind, at, masked)
}

/// The frame that a block opened with condition `c` gets under text that is active or not.
pub open spec fn opened(parent: bool, c: bool) -> ConditionalFrame {
    ConditionalFrame { taken: c, else_seen: false, parent_active: parent, active: parent && c }
}

/// The table after defining `d`: unchanged where a protected definition has its name.
pub open spec fn defined_table(t: Map<Seq<char>, Definition>, d: Define) -> Map<Seq<char>, Definition> {
    if t.contains_key(d.name@) && def_protected(t[d.name@]) {
        t
    } else {
        t.insert(d.name@, Definition::Regular(d, FileId { id: 0 }))
    }
}

/// The table after `#undef name`: unchanged where the name is absent or protected.
pub open spec fn undefined_table(t: Map<Seq<char>, Definition>, name: Seq<char>) -> Map<Seq<char>, Definition> {
    if t.contains_key(name) && !def_protected(t[name]) {
        t.remove(name)
    } else {
        t
    }
}

/// The text of an `#error` line after its name, continuations removed.
pub open spec fn error_text(b: Seq<u8>, ws: Seq<PpToken>) -> Seq<char> {
    let from = ws[0].range.end;
    let to = ws.last().range.end;
    if from <= to && to <= b.len() {
        source_text(b, TextRange { start: from, end: to })
    } else {
        Seq::empty()
    }
}

/// What a directive, given its words `ws` (from the directive name on) and the range `at`
/// of its `#`, does: from table `t0`, open blocks `f0` and import mode `m0` to `t1`, `f1`,
/// `m1`, handing out the events `new`.
#[verifier::opaque]
pub open spec fn directive_effect(
    b: Seq<u8>,
    t0: Map<Seq<char>, Definition>,
    f0: Seq<ConditionalFrame>,
    m0: IncludeMode,
    ws: Seq<PpToken>,
    at: TextRange,
    t1: Map<Seq<char>, Definition>,
    f1: Seq<ConditionalFrame>,
    m1: IncludeMode,
    new: Seq<Result<Event, LocatedError>>,
) -> bool {
    let vs = views(ws);
    let active = stack_active(f0);
    if ws.len() == 0 {
        t1 == t0 && f1 == f0 && m1 == m0 && new.len() == 0
    } else {
        let nm = ws[0].text@;
        if nm == "define"@ {
            &&& f1 == f0 && m1 == m0
            &&& !active ==> t1 == t0 && new.len() == 0
            &&& active && define_spec(vs) is Some ==> new.len() == 0 && exists|d: Define|
                define_view(d) == define_spec(vs)->0 && !d.protected && t1 == defined_table(t0, d)
            &&& active && define_spec(vs) is None ==> t1 == t0 && one_error(
                new,
                ErrorKind::UnexpectedTokensInDefineArgs,
                at,
                false,
            )
        } else if nm == "undef"@ {
            &&& f1 == f0 && m1 == m0
            &&& !active ==> t1 == t0 && new.len() == 0
            &&& active && ws.len() == 2 && ws[1].kind == Token::IDENT_KW ==> new.len() == 0 && t1
                == undefined_table(t0, ws[1].text@)
            &&& active && !(ws.len() == 2 && ws[1].kind == Token::IDENT_KW) ==> t1 == t0 && one_error(
                new,
                ErrorKind::ExtraTokensInPreprocessorDirective,
                at,
                false,
            )
        } else if nm == "ifdef"@ || nm == "ifndef"@ {
            let known = ws.len() >= 2 && t0.contains_key(ws[1].text@);
            let c = if nm == "ifdef"@ {
                known
            } else {
                !known
            };
            t1 == t0 && m1 == m0 && new.len() == 0 && f1 == f0.push(opened(active, active && c))
        } else if nm == "if"@ {
            let cond = condition_spec(t0, vs, 1);
            &&& t1 == t0 && m1 == m0
            &&& f1 == f0.push(opened(active, active && cond == Some(true)))
            &&& active && cond is None ==> one_error(new, ErrorKind::InvalidConditionalExpression, at, false)
            &&& !(active && cond is None) ==> new.len() == 0
        } else if nm == "elif"@ {
            let decides = f0.len() > 0 && f0.last().parent_active && !f0.last().taken;
            let cond = condition_spec(t0, vs, 1);
            let c = decides && cond == Some(true);
            let e1: int = if decides && cond is None {
                1
            } else {
                0
            };
            &&& t1 == t0 && m1 == m0
            &&& e1 == 1 ==> error_event(new[0], ErrorKind::InvalidConditionalExpression, at, false)
            &&& f0.len() == 0 ==> f1 == f0 && new.len() == e1 + 1 && error_event(
                new[e1],
                ErrorKind::Conditional(ConditionalError::ElifWithoutIf),
                at,
                !active,
            )
            &&& f0.len() > 0 && f0.last().else_seen ==> f1 == f0 && new.len() == e1 + 1 && error_event(
                new[e1],
                ErrorKind::Conditional(ConditionalError::ElifAfterElse),
                at,
                !active,
            )
            &&& f0.len() > 0 && !f0.last().else_seen ==> new.len() == e1 && f1 == f0.drop_last().push(
                ConditionalFrame {
                    taken: f0.last().taken || c,
                    else_seen: false,
                    parent_active: f0.last().parent_active,
                    active: f0.last().parent_active && !f0.last().taken && c,
                },
            )
        } else if nm == "else"@ {
            &&& t1 == t0 && m1 == m0
            &&& f0.len() == 0 ==> f1 == f0 && one_error(
                new,
                ErrorKind::Conditional(ConditionalError::ElseWithoutIf),
                at,
                !active,
            )
            &&& f0.len() > 0 && f0.last().else_seen ==> f1 == f0 && one_error(
                new,
                ErrorKind::Conditional(ConditionalError::ElseAfterElse),
                at,
                !active,
            )
            &&& f0.len() > 0 && !f0.last().else_seen ==> new.len() == 0 && f1 == f0.drop_last().push(
                ConditionalFrame {
                    taken: true,
                    else_seen: true,
                    parent_active: f0.last().parent_active,
                    active: f0.last().parent_active && !f0.last().taken,
                },
            )
        } else if nm == "endif"@ {
            &&& t1 == t0 && m1 == m0
            &&& f0.len() == 0 ==> f1 == f0 && one_error(
                new,
                ErrorKind::Conditional(ConditionalError::EndifWithoutIf),
                at,
                !active,
            )
            &&& f0.len() > 0 ==> f1 == f0.drop_last() && new.len() == 0
        } else if nm == "include"@ && m0 == IncludeMode::Disabled {
            t1 == t0 && f1 == f0 && m1 == m0 && one_error(new, ErrorKind::IncludeDisabled, at, !active)
        } else if nm == "include"@ || nm == "moj_import"@ {
            &&& t1 == t0 && f1 == f0 && m1 == m0
            &&& active ==> new.len() == 1 && (new[0] matches Err(l) && l.pos == at && l.file == FileId {
                id: 0,
            } && l.error is ImportRequested && (l.error->ImportRequested_0.path@, l.error->ImportRequested_0.ty)
                == import_path_spec(views(ws)))
            &&& !active ==> new.len() == 0
        } else if nm == "error"@ {
            &&& t1 == t0 && f1 == f0 && m1 == m0
            &&& new.len() == 1
            &&& new[0] matches Ok(Event::Error { error, masked }) && masked == !active
                && error.pos_spec() == ws[0].range && error.kind_spec() is ErrorDirective
                && error.kind_spec()->ErrorDirective_message@ == error_text(b, ws)
        } else if nm == "version"@ || nm == "extension"@ {
            &&& t1 == t0 && f1 == f0
            &&& nm == "version"@ ==> m1 == m0
            &&& !active ==> new.len() == 0 && m1 == m0
            &&& new.len() == 0 || one_error(new, ErrorKind::ExtraTokensInPreprocessorDirective, at, false)
        } else if nm == "pragma"@ || nm == "line"@ {
            t1 == t0 && f1 == f0 && m1 == m0 && new.len() == 0
        } else {
            t1 == t0 && f1 == f0 && m1 == m0 && one_error(
                new,
                ErrorKind::UnknownPreprocessorDirective { name: ws[0].text },
                at,
                !active,
            )
        }
    }
}

/// The version that a `#version` line (its words after `#`) states: a number that fits in
/// 16 bits, then optionally `core`, `compatibility` or `es`.
fn version_of(ws: &Vec<PpToken>) -> (r: Option<Version>) {
    if ws.len() < 2 || ws.len() > 3 || ws[1].kind != Token::DIGITS {
        return None;
    }
    let number = match parse_decimal(&ws[1].text) {
        Some(v) => {
            if v > 65535 {
                return None;
            }
            v as u16
        },
        None => {
            return None;
        },
    };
    let profile = if ws.len() == 2 {
        VersionProfile::Unspecified
    } else if is_word(&ws[2], "core") {
        VersionProfile::Core
    } else if is_word(&ws[2], "compatibility") {
        VersionProfile::Compatibility
    } else if is_word(&ws[2], "es") {
        VersionProfile::Es
    } else {
        return None;
    };
    Some(Version { number, profile })
}

/// The text that the built-in pseudo-macro named by `v` stands for: its 1-based line, the
/// file (0 for a string), or the version number; `None` for any other token.
pub open spec fn builtin_text(
    table: Map<Seq<char>, Definition>,
    v: PpView,
    starts: Seq<u32>,
    version: u16,
) -> Option<Seq<char>> {
    if v.kind == Token::IDENT_KW && table.contains_key(v.text) {
        match table[v.text] {
            Definition::Line => Some(decimal((line_and_col(starts, v.range.start).0 + 1) as nat)),
            Definition::File => Some(decimal(0)),
            Definition::Version => Some(decimal(version as nat)),
            _ => None,
        }
    } else {
        None
    }
}

/// `v`, with a built-in pseudo-macro replaced by its value.
pub open spec fn resolve(
    table: Map<Seq<char>, Definition>,
    v: PpView,
    starts: Seq<u32>,
    version: u16,
) -> PpView {
    match builtin_text(table, v, starts, version) {
        Some(t) => PpView { kind: Token::DIGITS, text: t, range: v.range, hide: v.hide },
        None => v,
    }
}

pub open spec fn resolve_all(
    table: Map<Seq<char>, Definition>,
    vs: Seq<PpView>,
    starts: Seq<u32>,
    version: u16,
) -> Seq<PpView> {
    Seq::new(vs.len(), |i: int| resolve(table, vs[i], starts, version))
}

/// Whether every event is a token.
pub open spec fn all_tokens(es: Seq<Result<Event, LocatedError>>) -> bool {
    forall|k: int| 0 <= k < es.len() ==> (#[trigger] es[k]) matches Ok(Event::Token(_))
}

/// The token of an event that is one.
pub open spec fn event_token(e: Result<Event, LocatedError>) -> PpView {
    match e {
        Ok(Event::Token(t)) => pview(t),
        _ => PpView { kind: Token::ERROR, text: Seq::empty(), range: TextRange { start: 0, end: 0 }, hide: Seq::empty() },
    }
}

pub open spec fn token_events(es: Seq<Result<Event, LocatedError>>) -> Seq<PpView> {
    Seq::new(es.len(), |i: int| event_token(es[i]))
}

/// Whether no entry of the table is a function-like macro.
pub open spec fn no_function_macros(table: Map<Seq<char>, Definition>) -> bool {
    forall|nm: Seq<char>|
        #![trigger table.contains_key(nm)]
        table.contains_key(nm) ==> !(table[nm] matches Definition::Regular(d, _) && d.kind is Function)
}

/// A token of the source with its text and an empty hide-set.
pub open spec fn src_view(b: Seq<u8>, t: TextToken) -> PpView {
    PpView { kind: t.kind, text: source_text(b, t.range), range: t.range, hide: Seq::empty() }
}

pub open spec fn blank(k: Token) -> bool {
    k == Token::WS || k == Token::COMMENT || k == Token::NEWLINE
}

/// The token events of the first `i` tokens of a text without directives: each non-blank
/// token rescanned for object-like macros, with the built-in pseudo-macros resolved.
pub open spec fn text_events(
    table: Map<Seq<char>, Definition>,
    b: Seq<u8>,
    toks: Seq<TextToken>,
    starts: Seq<u32>,
    version: u16,
    depth: nat,
    i: int,
) -> Seq<PpView>
    decreases i,
{
    if i <= 0 {
        Seq::empty()
    } else {
        text_events(table, b, toks, starts, version, depth, i - 1) + if blank(toks[i - 1].kind) {
            Seq::empty()
        } else {
            resolve_all(table, rescan(table, src_view(b, toks[i - 1]), depth), starts, version)
        }
    }
}

/// The value that a built-in pseudo-macro stands for at `at`: its line, the file (0 for a
/// string), or the version number.
fn builtin_value(st: &ProcessorState, d: &Definition, at: TextRange, line_map: &LineMap) -> (r:
    Option<String>)
    requires
        line_map.wf(),
    ensures
        r is None <==> d is Regular,
        *d is Line ==> r->0@ == decimal((line_and_col(line_map.starts(), at.start).0 + 1) as nat),
        *d is File ==> r->0@ == decimal(0),
        *d is Version ==> r->0@ == decimal(st.version_spec().number as nat),
{
    let mut v: Vec<char> = Vec::new();
    match d {
        Definition::Line => {
            let (line, _) = line_map.offset_to_line_col(at.start);
            push_decimal(&mut v, line);
        },
        Definition::File => push_decimal(&mut v, 0),
        Definition::Version => push_decimal(&mut v, st.version().number as u32),
        Definition::Regular(..) => {
            return None;
        },
    }
    Some(string_of_chars(&v))
}

/// The behavior an `#extension` directive names.
fn behavior_of(w: &PpToken) -> (r: Option<ExtensionBehavior>)
    ensures
        r == (if w.text@ == "require"@ {
            Some(ExtensionBehavior::Require)
        } else if w.text@ == "enable"@ {
            Some(ExtensionBehavior::Enable)
        } else if w.text@ == "warn"@ {
            Some(ExtensionBehavior::Warn)
        } else if w.text@ == "disable"@ {
            Some(ExtensionBehavior::Disable)
        } else {
            None
        }),
{
    if is_word(w, "require") {
        Some(ExtensionBehavior::Require)
    } else if is_word(w, "enable") {
        Some(ExtensionBehavior::Enable)
    } else if is_word(w, "warn") {
        Some(ExtensionBehavior::Warn)
    } else if is_word(w, "disable") {
        Some(ExtensionBehavior::Disable)
    } else {
        None
    }
}

/// Acts on one directive, given its words after the `#`.
#[verifier::rlimit(100)]
fn directive(
    input: &str,
    ws: &Vec<PpToken>,
    at: TextRange,
    st: &mut ProcessorState,
    conds: &mut Conditionals,
    include_mode: &mut IncludeMode,
    events: &mut Vec<Result<Event, LocatedError>>,
    line_map: &LineMap,
    Ghost(n): Ghost<int>,
)
    requires
        old(st).wf(),
        line_map.wf(),
        all_within(old(events)@, n),
        n == input.spec_bytes().len(),
    ensures
        final(st).wf(),
        all_within(final(events)@, n),
        old(events)@.len() <= final(events)@.len(),
        final(events)@.subrange(0, old(events)@.len() as int) == old(events)@,
        directive_effect(
            input.spec_bytes(),
            old(st).table(),
            old(conds).frames(),
            *old(include_mode),
            ws@,
            at,
            final(st).table(),
            final(conds).frames(),
            *final(include_mode),
            final(events)@.subrange(old(events)@.len() as int, final(events)@.len() as int),
        ),
        ws@.len() == 0 || ws@[0].text@ != "version"@ ==> final(st).version_spec() == old(
            st,
        ).version_spec(),
        positioned(old(events)@, line_map.starts()) ==> positioned(final(events)@, line_map.starts()),
{
    proof {
        reveal(directive_effect);
    }
    let ghost ev0 = events@;
    if ws.len() == 0 {
        proof {
            assert(events@.subrange(0, ev0.len() as int) =~= ev0);
        }
        return;
    }
    let active = conds.is_active();
    let name = &ws[0];
    if is_word(name, "define") {
        if active {
            match define_of(ws) {
                Some(d) => {
                    st.definition(d, FileId::new(0));
                },
                None => push_error(
                    events,
                    ErrorKind::UnexpectedTokensInDefineArgs,
                    at,
                    false,
                    line_map,
                    Ghost(n),
                ),
            }
        }
    } else if is_word(name, "undef") {
        if active {
            if ws.len() == 2 && ws[1].kind == Token::IDENT_KW {
                st.undefine(&ws[1].text);
            } else {
                push_error(
                    events,
                    ErrorKind::ExtraTokensInPreprocessorDirective,
                    at,
                    false,
                    line_map,
                    Ghost(n),
                );
            }
        }
    } else if is_word(name, "ifdef") || is_word(name, "ifndef") {
        let known = ws.len() >= 2 && st.get_definition(&ws[1].text).is_some();
        let cond = if is_word(name, "ifdef") {
            known
        } else {
            !known
        };
        conds.open(active && cond);
    } else if is_word(name, "if") {
        let mut cond = false;
        if active {
            match condition(st, ws, 1) {
                Some(c) => {
                    cond = c;
                },
                None => push_error(
                    events,
                    ErrorKind::InvalidConditionalExpression,
                    at,
                    false,
                    line_map,
                    Ghost(n),
                ),
            }
        }
        conds.open(cond);
    } else if is_word(name, "elif") {
        let mut cond = false;
        if conds.elif_decides() {
            match condition(st, ws, 1) {
                Some(c) => {
                    cond = c;
                },
                None => push_error(
                    events,
                    ErrorKind::InvalidConditionalExpression,
                    at,
                    false,
                    line_map,
                    Ghost(n),
                ),
            }
        }
        match conds.elif(cond) {
            Ok(()) => {},
            Err(e) => push_error(events, ErrorKind::Conditional(e), at, !active, line_map, Ghost(n)),
        }
    } else if is_word(name, "else") {
        match conds.else_branch() {
            Ok(()) => {},
            Err(e) => push_error(events, ErrorKind::Conditional(e), at, !active, line_map, Ghost(n)),
        }
    } else if is_word(name, "endif") {
        match conds.close() {
            Ok(()) => {},
            Err(e) => push_error(events, ErrorKind::Conditional(e), at, !active, line_map, Ghost(n)),
        }
    } else if is_word(name, "include") && *include_mode == IncludeMode::Disabled {
        push_error(events, ErrorKind::IncludeDisabled, at, !active, line_map, Ghost(n));
    } else if is_word(name, "include") || is_word(name, "moj_import") {
        if active {
            let ghost before = events@;
            events.push(
                Err(
                    LocatedError {
                        error: ProcessStrError::ImportRequested(import_path(ws)),
                        pos: at,
                        file: FileId::new(0),
                    },
                ),
            );
            proof {
                assert forall|k: int| 0 <= k < events@.len() && positioned(before, line_map.starts())
                    implies error_positioned(#[trigger] events@[k], line_map.starts()) by {
                    if k < before.len() {
                        assert(events@[k] == before[k]);
                    }
                }
                assert forall|k: int| 0 <= k < events@.len() implies within(#[trigger] events@[k], n) by {
                    if k < before.len() {
                        assert(events@[k] == before[k]);
                    }
                }
            }
        }
    } else if is_word(name, "error") {
        let from = name.range.end;
        let to = ws[ws.len() - 1].range.end;
        let mut message = String::new();
        if from <= to && (to as usize) <= input.as_bytes().len() {
            let rest = TextToken { kind: Token::ERROR, range: TextRange::new(from, to) };
            message = PpToken::from_source(input, rest).text;
        }
        push_error(
            events,
            ErrorKind::ErrorDirective { message },
            name.range,
            !active,
            line_map,
            Ghost(n),
        );
    } else if is_word(name, "version") {
        if active {
            match version_of(ws) {
                Some(v) => st.set_version(v),
                None => push_error(
                    events,
                    ErrorKind::ExtraTokensInPreprocessorDirective,
                    at,
                    false,
                    line_map,
                    Ghost(n),
                ),
            }
        }
    } else if is_word(name, "extension") {
        if active {
            let behavior = if ws.len() == 4 && ws[1].kind == Token::IDENT_KW && ws[2].kind
                == Token::COLON {
                behavior_of(&ws[3])
            } else {
                None
            };
            match behavior {
                Some(bh) => {
                    let ext = if is_word(&ws[1], "all") {
                        ExtensionName::All
                    } else {
                        ExtensionName::Specific(ws[1].text.clone())
                    };
                    st.push_extension(ext, bh);
                    let enable = bh != ExtensionBehavior::Disable;
                    if is_word(&ws[1], "GL_GOOGLE_cpp_style_line_directive") {
                        st.set_cpp_style_line(enable);
                    } else if is_word(&ws[1], "GL_GOOGLE_include_directive") {
                        st.set_cpp_style_line(enable);
                        *include_mode = if enable {
                            IncludeMode::GoogleInclude
                        } else {
                            IncludeMode::Disabled
                        };
                    } else if is_word(&ws[1], "GL_ARB_shading_language_include") {
                        *include_mode = if enable {
                            IncludeMode::ArbInclude
                        } else {
                            IncludeMode::Disabled
                        };
                    }
                },
                None => push_error(
                    events,
                    ErrorKind::ExtraTokensInPreprocessorDirective,
                    at,
                    false,
                    line_map,
                    Ghost(n),
                ),
            }
        }
    } else if is_word(name, "pragma") || is_word(name, "line") {
    } else {
        push_error(
            events,
            ErrorKind::UnknownPreprocessorDirective { name: name.text.clone() },
            at,
            !active,
            line_map,
            Ghost(n),
        );
    }
}

/// Hands out `out`, each token rescanned for object-like macros, and the built-in
/// pseudo-macros replaced by their values.
fn emit(
    events: &mut Vec<Result<Event, LocatedError>>,
    st: &ProcessorState,
    out: Vec<PpToken>,
    range: TextRange,
    line_map: &LineMap,
    Ghost(n): Ghost<int>,
)
    requires
        st.wf(),
        line_map.wf(),
        all_within(old(events)@, n),
        forall|m: int| 0 <= m < out@.len() ==> (#[trigger] out@[m]).range == range,
        0 <= range.start < range.end <= n,
    ensures
        all_within(final(events)@, n),
        all_ok(old(events)@) ==> all_ok(final(events)@),
        old(events)@.len() <= final(events)@.len(),
        final(events)@.subrange(0, old(events)@.len() as int) == old(events)@,
        positioned(old(events)@, line_map.starts()) ==> positioned(final(events)@, line_map.starts()),
        all_tokens(final(events)@.subrange(old(events)@.len() as int, final(events)@.len() as int)),
        token_events(final(events)@.subrange(old(events)@.len() as int, final(events)@.len() as int))
            == resolve_all(
            st.table(),
            rescan_all(st.table(), views(out@), st.table().dom().len()),
            line_map.starts(),
            st.version_spec().number,
        ),
{
    let ghost ok0 = all_ok(events@);
    let ghost pos0 = positioned(events@, line_map.starts());
    let ghost ev0 = events@;
    let ghost table = st.table();
    let ghost starts = line_map.starts();
    let ghost ver = st.version_spec().number;
    let ghost outv = views(out@);
    let depth = st.definition_count();
    let total = out.len();
    let mut out = out;
    let mut k: usize = 0;
    proof {
        assert(outv.take(0) =~= Seq::<PpView>::empty());
        assert(events@.subrange(0, ev0.len() as int) =~= ev0);
        assert(token_events(events@.subrange(ev0.len() as int, events@.len() as int)) =~= Seq::<PpView>::empty());
    }
    while out.len() > 0
        invariant
            st.wf(),
            line_map.wf(),
            table == st.table(),
            starts == line_map.starts(),
            ver == st.version_spec().number,
            depth == st.table().dom().len(),
            total == outv.len(),
            k <= outv.len(),
            views(out@) == outv.skip(k as int),
            forall|m: int| 0 <= m < out@.len() ==> (#[trigger] out@[m]).range == range,
            0 <= range.start < range.end <= n,
            all_within(events@, n),
            ok0 ==> all_ok(events@),
            pos0 ==> positioned(events@, line_map.starts()),
            ev0.len() <= events@.len(),
            events@.subrange(0, ev0.len() as int) == ev0,
            all_tokens(events@.subrange(ev0.len() as int, events@.len() as int)),
            token_events(events@.subrange(ev0.len() as int, events@.len() as int)) == resolve_all(
                table,
                rescan_all(table, outv.take(k as int), depth as nat),
                starts,
                ver,
            ),
        decreases out@.len(),
    {
        let ghost obefore = out@;
        let x = out.remove(0);
        proof {
            assert(x == obefore[0]);
            assert(views(obefore) == outv.skip(k as int));
            assert(views(obefore).len() == outv.len() - k);
            assert(views(obefore)[0] == pview(obefore[0]));
            assert(outv.skip(k as int)[0] == outv[k as int]);
            assert(pview(x) == outv[k as int]);
            assert(out@ =~= obefore.skip(1));
            assert(views(out@) =~= views(obefore).skip(1));
            assert(views(out@) =~= outv.skip(k + 1));
            assert forall|m: int| 0 <= m < out@.len() implies (#[trigger] out@[m]).range == range by {
                assert(out@[m] == obefore[m + 1]);
            }
        }
        let mut e = expand_rescan(st, x, depth);
        let ghost ev = views(e@);
        let ghost mid = events@.len();
        let ghost done_before = rescan_all(table, outv.take(k as int), depth as nat);
        let mut j: usize = 0;
        let etotal = e.len();
        proof {
            assert(ev.take(0) =~= Seq::<PpView>::empty());
            assert(done_before + ev.take(0) =~= done_before);
            assert(views(e@) =~= ev.skip(0));
        }
        while e.len() > 0
            invariant
                st.wf(),
                line_map.wf(),
                table == st.table(),
                starts == line_map.starts(),
                ver == st.version_spec().number,
                etotal == ev.len(),
                j <= ev.len(),
                views(e@) == ev.skip(j as int),
                forall|m: int| 0 <= m < e@.len() ==> (#[trigger] e@[m]).range == range,
                0 <= range.start < range.end <= n,
                all_within(events@, n),
                ok0 ==> all_ok(events@),
                pos0 ==> positioned(events@, line_map.starts()),
                ev0.len() <= events@.len(),
                events@.subrange(0, ev0.len() as int) == ev0,
                all_tokens(events@.subrange(ev0.len() as int, events@.len() as int)),
                token_events(events@.subrange(ev0.len() as int, events@.len() as int))
                    == resolve_all(table, done_before + ev.take(j as int), starts, ver),
            decreases e@.len(),
        {
            let ghost before = events@;
            let ghost ebefore = e@;
            let mut y = e.remove(0);
            proof {
                assert(y == ebefore[0]);
                assert(views(ebefore) == ev.skip(j as int));
                assert(views(ebefore).len() == ev.len() - j);
                assert(views(ebefore)[0] == pview(ebefore[0]));
                assert(ev.skip(j as int)[0] == ev[j as int]);
                assert(pview(y) == ev[j as int]);
                assert(e@ =~= ebefore.skip(1));
                assert(views(e@) =~= views(ebefore).skip(1));
                assert(views(e@) =~= ev.skip(j + 1));
                assert forall|m: int| 0 <= m < e@.len() implies (#[trigger] e@[m]).range == range by {
                    assert(e@[m] == ebefore[m + 1]);
                }
            }
            let ghost yv = pview(y);
            if y.kind == Token::IDENT_KW {
                match st.get_definition(&y.text) {
                    Some(d) => match builtin_value(st, d, y.range, line_map) {
                        Some(text) => {
                            y = PpToken { kind: Token::DIGITS, text, range: y.range, hide_set: y.hide_set };
                        },
                        None => {},
                    },
                    None => {},
                }
            }
            proof {
                assert(pview(y) == resolve(table, yv, starts, ver));
            }
            events.push(Ok(Event::Token(y)));
            proof {
                assert forall|m: int| 0 <= m < events@.len() implies within(#[trigger] events@[m], n) by {
                    if m < before.len() {
                        assert(events@[m] == before[m]);
                    }
                }
                assert forall|m: int| 0 <= m < events@.len() && ok0 implies (#[trigger] events@[m]) is Ok by {
                    if m < before.len() {
                        assert(events@[m] == before[m]);
                    }
                }
                assert forall|m: int| 0 <= m < events@.len() && pos0 implies error_positioned(#[trigger] events@[m], starts) by {
                    if m < before.len() {
                        assert(events@[m] == before[m]);
                    }
                }
                assert(events@.subrange(0, ev0.len() as int) =~= ev0);
                let nb = before.subrange(ev0.len() as int, before.len() as int);
                let na = events@.subrange(ev0.len() as int, events@.len() as int);
                assert(na =~= nb.push(Ok(Event::Token(y))));
                assert forall|m: int| 0 <= m < na.len() implies (#[trigger] na[m]) matches Ok(Event::Token(_)) by {
                    if m < nb.len() {
                        assert(na[m] == nb[m]);
                    }
                }
                assert(ev.take(j + 1) =~= ev.take(j as int).push(ev[j as int]));
                assert(token_events(na) =~= token_events(nb).push(pview(y)));
                assert(resolve_all(table, done_before + ev.take(j + 1), starts, ver) =~= resolve_all(
                    table,
                    done_before + ev.take(j as int),
                    starts,
                    ver,
                ).push(resolve(table, ev[j as int], starts, ver)));
            }
            j = j + 1;
        }
        proof {
            assert(ev.take(j as int) =~= ev);
            assert(outv.take(k + 1).drop_last() =~= outv.take(k as int));
            assert(outv.take(k + 1).last() == outv[k as int]);
        }
        k = k + 1;
    }
    proof {
        assert(outv.take(k as int) =~= outv);
    }
}

/// The arguments of an invocation whose `(` is `toks[open]`, and the index of its `)`.
fn collect_args(input: &str, toks: &Vec<TextToken>, open: usize) -> (r: Option<
    (Vec<Vec<PpToken>>, usize),
>)
    requires
        open < toks@.len(),
        forall|k: int|
            0 <= k < toks@.len() ==> (#[trigger] toks@[k]).range.start <= toks@[k].range.end
                <= input.spec_bytes().len(),
    ensures
        r is Some ==> open < (r->0).1 < toks@.len(),
{
    let mut args: Vec<Vec<PpToken>> = Vec::new();
    let mut current: Vec<PpToken> = Vec::new();
    let mut depth: usize = 1;
    let len = toks.len();
    let mut j = open + 1;
    while j < len
        invariant
            open < j <= toks@.len(),
            len == toks@.len(),
            depth >= 1,
            forall|k: int|
                0 <= k < toks@.len() ==> (#[trigger] toks@[k]).range.start <= toks@[k].range.end
                    <= input.spec_bytes().len(),
        decreases toks@.len() - j,
    {
        let t = toks[j];
        if t.kind == Token::RPAREN && depth == 1 {
            args.push(current);
            return Some((args, j));
        } else if t.kind == Token::COMMA && depth == 1 {
            args.push(current);
            current = Vec::new();
        } else if t.kind == Token::WS || t.kind == Token::COMMENT || t.kind == Token::NEWLINE {
        } else {
            if t.kind == Token::LPAREN && depth < usize::MAX {
                depth = depth + 1;
            } else if t.kind == Token::RPAREN {
                depth = depth - 1;
            }
            current.push(PpToken::from_source(input, t));
        }
        j = j + 1;
    }
    None
}

/// The preprocessor's output for one string, handed out event by event; the final state
/// becomes available once all events have been taken.
pub struct ExpandStr {
    /// Events still to hand out, the next one last.
    events: Vec<Result<Event, LocatedError>>,
    state: ProcessorState,
    completed: bool,
    source_len: Ghost<int>,
}

impl ExpandStr {
    /// Length in bytes of the source processed.
    pub closed spec fn source_len(&self) -> int {
        self.source_len@
    }

    pub closed spec fn wf(&self) -> bool {
        &&& all_within(self.events@, self.source_len@)
        &&& self.state.wf()
    }

    /// The events still to hand out, in order.
    pub closed spec fn pending(&self) -> Seq<Result<Event, LocatedError>> {
        Seq::new(self.events@.len(), |i: int| self.events@[self.events@.len() - 1 - i])
    }

    /// The state that the string's directives left.
    pub closed spec fn final_state(&self) -> ProcessorState {
        self.state
    }

    /// Whether all events have been handed out.
    pub closed spec fn completed_spec(&self) -> bool {
        self.completed
    }

    /// The next event, or `None` once all have been handed out.
    pub fn next(&mut self) -> (r: Option<Result<Event, LocatedError>>)
        requires
            old(self).wf(),
        ensures
            final(self).wf(),
            final(self).source_len() == old(self).source_len(),
            final(self).final_state() == old(self).final_state(),
            r is Some ==> within(r->0, old(self).source_len()),
            old(self).pending().len() == 0 ==> r is None && final(self).completed_spec()
                && final(self).pending().len() == 0,
            old(self).pending().len() > 0 ==> r == Some(old(self).pending()[0]),
            old(self).pending().len() > 0 ==> final(self).pending() == old(self).pending().skip(1),
            old(self).pending().len() > 0 ==> final(self).completed_spec() == old(self).completed_spec(),
    {
        let ghost before = self.events@;
        match self.events.pop() {
            Some(e) => {
                proof {
                    assert(within(before[before.len() - 1], self.source_len@));
                    assert forall|k: int| 0 <= k < self.events@.len() implies within(
                        #[trigger] self.events@[k],
                        self.source_len@,
                    ) by {
                        assert(self.events@[k] == before[k]);
                    }
                    assert(self.pending() =~= old(self).pending().skip(1));
                }
                Some(e)
            },
            None => {
                self.completed = true;
                None
            },
        }
    }

    /// The state after the whole string, once all events have been handed out.
    pub fn into_state(self) -> (r: Option<ProcessorState>)
        requires
            self.wf(),
        ensures
            r is Some <==> self.completed_spec(),
            r is Some ==> r->0 == self.final_state(),
            r is Some ==> r->0.wf(),
    {
        if self.completed {
            Some(self.state)
        } else {
            None
        }
    }
}

/// Where the processing of a string stands before the token at `i`: the definition
/// table, the open blocks, the import mode, the version, whether the token starts a line,
/// and how many events have been handed out.
pub struct Step {
    pub i: int,
    pub table: Map<Seq<char>, Definition>,
    pub frames: Seq<ConditionalFrame>,
    pub mode: IncludeMode,
    pub version: u16,
    pub line_start: bool,
    pub n: int,
}

/// Index of the first newline token at or after `j`, or the number of tokens.
pub open spec fn next_newline(toks: Seq<TextToken>, j: int) -> int
    decreases toks.len() - j,
{
    if j < 0 || j >= toks.len() || toks[j].kind == Token::NEWLINE {
        j
    } else {
        next_newline(toks, j + 1)
    }
}

/// Whether `v` names a function-like macro of the table.
pub open spec fn names_function(table: Map<Seq<char>, Definition>, v: PpView) -> bool {
    v.kind == Token::IDENT_KW && table.contains_key(v.text) && (table[v.text] matches Definition::Regular(
        d,
        _,
    ) && d.kind is Function)
}

/// One step of processing, from `s` to `s2`, handing out `new`: a blank token changes
/// nothing; a `#` that starts a line takes its line as a directive; a token of inactive
/// text is dropped; any other token is rescanned for object-like macros, with the built-in
/// pseudo-macros resolved, unless it names a function-like macro (an invocation, of which
/// only that it moves on is stated).
#[verifier::opaque]
pub open spec fn step_ok(
    b: Seq<u8>,
    toks: Seq<TextToken>,
    starts: Seq<u32>,
    s: Step,
    s2: Step,
    new: Seq<Result<Event, LocatedError>>,
) -> bool {
    &&& 0 <= s.i < toks.len()
    &&& s2.n == s.n + new.len()
    &&& {
        let t = toks[s.i];
        if blank(t.kind) {
            &&& s2.i == s.i + 1 && s2.table == s.table && s2.frames == s.frames && s2.mode
                == s.mode && s2.version == s.version
            &&& s2.line_start == (s.line_start || t.kind == Token::NEWLINE)
            &&& new.len() == 0
        } else if t.kind == Token::HASH && s.line_start {
            &&& s2.i == next_newline(toks, s.i + 1)
            &&& s2.line_start == s.line_start
            &&& exists|ws: Seq<PpToken>|
                views(ws) == words_spec(b, toks, s.i + 1, s2.i) && directive_effect(
                    b,
                    s.table,
                    s.frames,
                    s.mode,
                    ws,
                    t.range,
                    s2.table,
                    s2.frames,
                    s2.mode,
                    new,
                ) && (ws.len() == 0 || ws[0].text@ != "version"@ ==> s2.version == s.version)
        } else {
            &&& s2.table == s.table && s2.frames == s.frames && s2.mode == s.mode && s2.version
                == s.version && !s2.line_start
            &&& !stack_active(s.frames) ==> s2.i == s.i + 1 && new.len() == 0
            &&& stack_active(s.frames) && names_function(s.table, src_view(b, t)) ==> s2.i > s.i
            &&& stack_active(s.frames) && !names_function(s.table, src_view(b, t)) ==> s2.i == s.i
                + 1 && all_tokens(new) && token_events(new) == resolve_all(
                s.table,
                rescan(s.table, src_view(b, t), s.table.dom().len()),
                starts,
                s.version,
            )
        }
    }
}

pub open spec fn first_step(table: Map<Seq<char>, Definition>, version: u16) -> Step {
    Step {
        i: 0,
        table,
        frames: Seq::empty(),
        mode: IncludeMode::Disabled,
        version,
        line_start: true,
        n: 0,
    }
}

/// Whether the steps `tr` take the tokens from the first to the last, each step handing
/// out the next events of `events`.
pub open spec fn steps_ok(
    b: Seq<u8>,
    toks: Seq<TextToken>,
    starts: Seq<u32>,
    tr: Seq<Step>,
    events: Seq<Result<Event, LocatedError>>,
) -> bool {
    &&& tr.len() >= 1
    &&& forall|k: int|
        #![trigger tr[k], tr[k + 1]]
        0 <= k < tr.len() - 1 ==> 0 <= tr[k].n <= tr[k + 1].n <= events.len() && step_ok(
            b,
            toks,
            starts,
            tr[k],
            tr[k + 1],
            events.subrange(tr[k].n, tr[k + 1].n),
        )
}

/// The whole processing of a string: steps from `first` over all its tokens, ending with
/// the table `table`, then an error at the end of the string for each block left open.
pub open spec fn run_ok(
    b: Seq<u8>,
    toks: Seq<TextToken>,
    starts: Seq<u32>,
    first: Step,
    tr: Seq<Step>,
    events: Seq<Result<Event, LocatedError>>,
    table: Map<Seq<char>, Definition>,
) -> bool {
    &&& steps_ok(b, toks, starts, tr, events)
    &&& tr[0] == first
    &&& tr.last().i == toks.len()
    &&& table == tr.last().table
    &&& tr.last().frames.len() == 0 ==> events.len() == tr.last().n
    &&& tr.last().frames.len() > 0 ==> events.len() == tr.last().n + 1 && error_event(
        events.last(),
        ErrorKind::Conditional(ConditionalError::Unterminated),
        TextRange { start: b.len() as u32, end: b.len() as u32 },
        false,
    )
}

proof fn lemma_steps_push(
    b: Seq<u8>,
    toks: Seq<TextToken>,
    starts: Seq<u32>,
    tr: Seq<Step>,
    ev: Seq<Result<Event, LocatedError>>,
    ev2: Seq<Result<Event, LocatedError>>,
    s2: Step,
)
    requires
        steps_ok(b, toks, starts, tr, ev),
        tr.last().n == ev.len(),
        ev.len() <= ev2.len(),
        ev2.subrange(0, ev.len() as int) == ev,
        step_ok(b, toks, starts, tr.last(), s2, ev2.subrange(ev.len() as int, ev2.len() as int)),
        s2.n == ev2.len(),
    ensures
        steps_ok(b, toks, starts, tr.push(s2), ev2),
        tr.push(s2).last() == s2,
{
    let t2 = tr.push(s2);
    assert forall|k: int| #![trigger t2[k], t2[k + 1]] 0 <= k < t2.len() - 1 implies 0 <= t2[k].n <= t2[k + 1].n
        <= ev2.len() && step_ok(b, toks, starts, t2[k], t2[k + 1], ev2.subrange(t2[k].n, t2[k + 1].n)) by {
        if k < tr.len() - 1 {
            assert(t2[k] == tr[k] && t2[k + 1] == tr[k + 1]);
            assert(0 <= tr[k].n <= tr[k + 1].n <= ev.len());
            assert(ev2.subrange(tr[k].n, tr[k + 1].n) =~= ev.subrange(tr[k].n, tr[k + 1].n));
        } else {
            assert(t2[k] == tr.last() && t2[k + 1] == s2);
        }
    }
}

proof fn lemma_steps_extend(
    b: Seq<u8>,
    toks: Seq<TextToken>,
    starts: Seq<u32>,
    tr: Seq<Step>,
    ev: Seq<Result<Event, LocatedError>>,
    ev2: Seq<Result<Event, LocatedError>>,
)
    requires
        steps_ok(b, toks, starts, tr, ev),
        tr.last().n == ev.len(),
        ev.len() <= ev2.len(),
        ev2.subrange(0, ev.len() as int) == ev,
    ensures
        steps_ok(b, toks, starts, tr, ev2),
{
    assert forall|k: int| #![trigger tr[k], tr[k + 1]] 0 <= k < tr.len() - 1 implies 0 <= tr[k].n <= tr[k + 1].n
        <= ev2.len() && step_ok(b, toks, starts, tr[k], tr[k + 1], ev2.subrange(tr[k].n, tr[k + 1].n)) by {
        assert(0 <= tr[k].n <= tr[k + 1].n <= ev.len());
        assert(ev2.subrange(tr[k].n, tr[k + 1].n) =~= ev.subrange(tr[k].n, tr[k + 1].n));
    }
}

proof fn lemma_prefix_push(
    a: Seq<Result<Event, LocatedError>>,
    c: Seq<Result<Event, LocatedError>>,
    d: Seq<Result<Event, LocatedError>>,
)
    requires
        a.len() <= c.len(),
        c.subrange(0, a.len() as int) == a,
        d.len() >= c.len(),
        d.subrange(0, c.len() as int) == c,
    ensures
        d.subrange(0, a.len() as int) == a,
{
    assert(d.subrange(0, a.len() as int) =~= c.subrange(0, a.len() as int));
}

/// Preprocesses a string from the given state: acts on its directives, drops the text of
/// inactive conditional blocks, and expands the macros of the rest. The events are those
/// of a run of steps over the string's tokens (`run_ok`): each directive line acts as
/// `directive_effect` states on the table, the open blocks and the import mode; each token
/// of active text is rescanned for object-like macros with the table as the directives
/// before it left it; a block left open at the end yields an error. Each token handed out
/// stands for a non-empty range of the string, and each error carries the line and column
/// of its range.
#[verifier::rlimit(100)]
pub fn process(input: &str, state: ProcessorState) -> (r: ExpandStr)
    requires
        input.spec_bytes().len() < u32::MAX,
        state.wf(),
    ensures
        r.wf(),
        r.source_len() == input.spec_bytes().len(),
        !r.completed_spec(),
        (forall|k: int| 0 <= k < tokens_of(input).len() ==> (#[trigger] tokens_of(input)[k]).kind
            != Token::HASH) ==> r.final_state() == state && all_ok(r.pending()),
        (forall|k: int| 0 <= k < tokens_of(input).len() ==> (#[trigger] tokens_of(input)[k]).kind
            != Token::HASH) && no_function_macros(state.table()) ==> all_tokens(r.pending())
            && token_events(r.pending()) == text_events(
            state.table(),
            input.spec_bytes(),
            tokens_of(input),
            line_starts(input.spec_bytes(), input.spec_bytes().len() as int),
            state.version_spec().number,
            state.table().dom().len(),
            tokens_of(input).len() as int,
        ),
        positioned(r.pending(), line_starts(input.spec_bytes(), input.spec_bytes().len() as int)),
        exists|tr: Seq<Step>|
            run_ok(
                input.spec_bytes(),
                tokens_of(input),
                line_starts(input.spec_bytes(), input.spec_bytes().len() as int),
                first_step(state.table(), state.version_spec().number),
                tr,
                r.pending(),
                r.final_state().table(),
            ),
{
    let ghost n = input.spec_bytes().len() as int;
    let ghost state0 = state;
    let ghost nofun0 = no_function_macros(state.table());
    let ghost b = input.spec_bytes();
    let ghost mut touched = false;
    let ast = parse(input);
    proof {
        lemma_tokens_in_source(input);
    }
    let toks = &ast.tokens;
    let line_map = &ast.line_map;
    let mut st = state;
    let mut conds = Conditionals::new();
    let mut include_mode = IncludeMode::Disabled;
    let mut events: Vec<Result<Event, LocatedError>> = Vec::new();
    let mut i: usize = 0;
    let mut line_start = true;
    let ghost first = first_step(state0.table(), state0.version_spec().number);
    let ghost mut tr = seq![first];
    proof {
        assert(steps_ok(b, toks@, line_map.starts(), tr, events@));
    }
    while i < toks.len()
        invariant
            steps_ok(b, toks@, line_map.starts(), tr, events@),
            positioned(events@, line_map.starts()),
            tr[0] == first,
            first == first_step(state0.table(), state0.version_spec().number),
            tr.last() == (Step {
                i: i as int,
                table: st.table(),
                frames: conds.frames(),
                mode: include_mode,
                version: st.version_spec().number,
                line_start,
                n: events@.len() as int,
            }),
            toks@ == tokens_of(input),
            forall|k: int|
                0 <= k < toks@.len() ==> 0 <= (#[trigger] toks@[k]).range.start
                    < toks@[k].range.end <= n,
            n == input.spec_bytes().len(),
            line_map.wf(),
            st.wf(),
            touched ==> exists|k: int| 0 <= k < i && (#[trigger] toks@[k]).kind == Token::HASH,
            !touched ==> st == state0 && conds.frames().len() == 0 && all_ok(events@),
            b == input.spec_bytes(),
            line_map.starts() == line_starts(b, b.len() as int),
            nofun0 == no_function_macros(state0.table()),
            nofun0 && !touched ==> all_tokens(events@) && token_events(events@) == text_events(
                state0.table(),
                b,
                toks@,
                line_map.starts(),
                state0.version_spec().number,
                state0.table().dom().len(),
                i as int,
            ),
            i <= toks@.len(),
            all_within(events@, n),
        decreases toks@.len() - i,
    {
        let t = toks[i];
        let ghost i0 = i as int;
        let ghost evs0 = events@;
        let ghost s0 = tr.last();
        if t.kind == Token::NEWLINE || t.kind == Token::WS || t.kind == Token::COMMENT {
            if t.kind == Token::NEWLINE {
                line_start = true;
            }
            proof {
                assert(text_events(
                        state0.table(),
                        b,
                        toks@,
                        line_map.starts(),
                        state0.version_spec().number,
                        state0.table().dom().len(),
                        i0 + 1,
                    ) =~= text_events(
                        state0.table(),
                        b,
                        toks@,
                        line_map.starts(),
                        state0.version_spec().number,
                        state0.table().dom().len(),
                        i0,
                    ));
            }
            i = i + 1;
        } else if t.kind == Token::HASH && line_start {
            let mut j = i + 1;
            while j < toks.len() && toks[j].kind != Token::NEWLINE
                invariant
                    i < j <= toks@.len(),
                    next_newline(toks@, j as int) == next_newline(toks@, i + 1),
                decreases toks@.len() - j,
            {
                j = j + 1;
            }
            let ws = words(input, toks, i + 1, j);
            let ghost ev_before = events@;
            let ghost st_before = st;
            proof {
                touched = true;
                assert(toks@[i as int].kind == Token::HASH);
            }
            directive(
                input,
                &ws,
                t.range,
                &mut st,
                &mut conds,
                &mut include_mode,
                &mut events,
                line_map,
                Ghost(n),
            );
            i = j;
            proof {
                let new = events@.subrange(ev_before.len() as int, events@.len() as int);
                assert(views(ws@) == words_spec(b, toks@, i0 + 1, j as int) && directive_effect(
                    b,
                    s0.table,
                    s0.frames,
                    s0.mode,
                    ws@,
                    t.range,
                    st.table(),
                    conds.frames(),
                    include_mode,
                    new,
                ) && (ws@.len() == 0 || ws@[0].text@ != "version"@ ==> st.version_spec().number
                    == s0.version));
            }
        } else {
            line_start = false;
            let mut next = i + 1;
            if conds.is_active() {
                let p = PpToken::from_source(input, t);
                let mut done = false;
                if p.kind == Token::IDENT_KW {
                    match st.get_definition(&p.text) {
                        Some(Definition::Regular(def, _)) => match &def.kind {
                            DefineKind::Function(f) => {
                                proof {
                                    assert(st.table().contains_key(p.text@));
                                    assert(names_function(st.table(), src_view(b, t)));
                                    if nofun0 && !touched {
                                        assert(st.table().contains_key(p.text@));
                                        assert(false);
                                    }
                                }
                                let mut j = i + 1;
                                while j < toks.len() && (toks[j].kind == Token::WS || toks[j].kind
                                    == Token::COMMENT || toks[j].kind == Token::NEWLINE)
                                    invariant
                                        i < j <= toks@.len(),
                                    decreases toks@.len() - j,
                                {
                                    j = j + 1;
                                }
                                if j < toks.len() && toks[j].kind == Token::LPAREN {
                                    match collect_args(input, toks, j) {
                                        Some((args, close)) => {
                                            done = true;
                                            next = close + 1;
                                            let empty_call = f.parameters.len() == 0 && args.len()
                                                == 1 && args[0].len() == 0;
                                            if args.len() == f.parameters.len() || empty_call {
                                                let end = toks[close].range.end;
                                                let range = if end > t.range.start {
                                                    TextRange::new(t.range.start, end)
                                                } else {
                                                    t.range
                                                };
                                                let args = if empty_call {
                                                    Vec::new()
                                                } else {
                                                    args
                                                };
                                                let ghost e1 = events@;
                                                let (out, ok) = substitute(
                                                    &st,
                                                    &p.text,
                                                    &f.parameters,
                                                    &f.tokens,
                                                    &args,
                                                    range,
                                                );
                                                if !ok {
                                                    push_error(
                                                        &mut events,
                                                        ErrorKind::InvalidTokenPaste,
                                                        range,
                                                        false,
                                                        line_map,
                                                        Ghost(n),
                                                    );
                                                }
                                                let ghost e2 = events@;
                                                proof {
                                                    assert(e2.subrange(0, e1.len() as int) == e1) by {
                                                        if ok {
                                                            assert(e2 =~= e1);
                                                            assert(e2.subrange(0, e1.len() as int) =~= e1);
                                                        }
                                                    }
                                                }
                                                emit(&mut events, &st, out, range, line_map, Ghost(n));
                                                proof {
                                                    lemma_prefix_push(e1, e2, events@);
                                                }
                                            } else {
                                                push_error(
                                                    &mut events,
                                                    ErrorKind::UnexpectedTokensInDefineArgs,
                                                    t.range,
                                                    false,
                                                    line_map,
                                                    Ghost(n),
                                                );
                                            }
                                        },
                                        None => {},
                                    }
                                }
                            },
                            _ => {},
                        },
                        _ => {},
                    }
                }
                if !done {
                    let ghost pv = pview(p);
                    let ghost before = events@;
                    proof {
                        assert(crate::expand::hide_names(p) =~= Seq::<Seq<char>>::empty());
                        assert(pv == src_view(b, t));
                        assert(seq![pv].drop_last() =~= Seq::<PpView>::empty());
                        assert(rescan_all(st.table(), Seq::<PpView>::empty(), st.table().dom().len()) =~= Seq::<
                            PpView,
                        >::empty());
                        assert(seq![pv].last() == pv);
                        assert(rescan_all(st.table(), seq![pv], st.table().dom().len()) =~= rescan(
                            st.table(),
                            pv,
                            st.table().dom().len(),
                        ));
                    }
                    let out1 = vec![p];
                    proof {
                        assert(out1@.len() == 1 && pview(out1@[0]) == pv);
                        assert(views(out1@) =~= seq![pv]);
                    }
                    emit(&mut events, &st, out1, t.range, line_map, Ghost(n));
                    proof {
                        let nw0 = events@.subrange(before.len() as int, events@.len() as int);
                        assert(all_tokens(nw0));
                        assert(token_events(nw0) == resolve_all(
                            st.table(),
                            rescan(st.table(), src_view(b, t), st.table().dom().len()),
                            line_map.starts(),
                            st.version_spec().number,
                        ));
                        if nofun0 && !touched {
                            let nw = events@.subrange(before.len() as int, events@.len() as int);
                            assert(events@ =~= before + nw);
                            assert(token_events(events@) =~= token_events(before) + token_events(nw));
                            assert forall|m: int| 0 <= m < events@.len() implies (#[trigger] events@[m]) matches Ok(Event::Token(_)) by {
                                if m >= before.len() {
                                    assert(events@[m] == nw[m - before.len()]);
                                } else {
                                    assert(events@[m] == before[m]);
                                }
                            }
                            assert(!blank(toks@[i0].kind));
                            assert(text_events(
                        state0.table(),
                        b,
                        toks@,
                        line_map.starts(),
                        state0.version_spec().number,
                        state0.table().dom().len(),
                        i0 + 1,
                    ) =~= text_events(
                        state0.table(),
                        b,
                        toks@,
                        line_map.starts(),
                        state0.version_spec().number,
                        state0.table().dom().len(),
                        i0,
                    ) + resolve_all(
                                state0.table(),
                                rescan(state0.table(), pv, state0.table().dom().len()),
                                line_map.starts(),
                                state0.version_spec().number,
                            ));
                            assert(token_events(before) == text_events(
                        state0.table(),
                        b,
                        toks@,
                        line_map.starts(),
                        state0.version_spec().number,
                        state0.table().dom().len(),
                        i0,
                    ));
                            assert(token_events(nw) == resolve_all(
                                state0.table(),
                                rescan(state0.table(), pv, state0.table().dom().len()),
                                line_map.starts(),
                                state0.version_spec().number,
                            ));
                        }
                    }
                } else {
                    proof {
                        if nofun0 && !touched {
                            assert(false);
                        }
                    }
                }
            } else {
                proof {
                    assert(touched);
                }
            }
            i = next;
        }
        proof {
            let s2 = Step {
                i: i as int,
                table: st.table(),
                frames: conds.frames(),
                mode: include_mode,
                version: st.version_spec().number,
                line_start,
                n: events@.len() as int,
            };
            assert(evs0.len() <= events@.len());
            assert(events@.subrange(0, evs0.len() as int) == evs0);
            assert(step_ok(
                b,
                toks@,
                line_map.starts(),
                s0,
                s2,
                events@.subrange(evs0.len() as int, events@.len() as int),
            )) by {
                reveal(step_ok);
            }
            lemma_steps_push(b, toks@, line_map.starts(), tr, evs0, events@, s2);
            tr = tr.push(s2);
        }
    }
    let ghost loop_ev = events@;
    match conds.finish() {
        Ok(()) => {},
        Err(e) => {
            let end = TextRange::new(input.len() as u32, input.len() as u32);
            push_error(&mut events, ErrorKind::Conditional(e), end, false, line_map, Ghost(n));
        },
    }
    proof {
        if conds.frames().len() == 0 {
            assert(events@ == loop_ev);
            assert(events@.subrange(0, loop_ev.len() as int) =~= loop_ev);
        }
        lemma_steps_extend(b, toks@, line_map.starts(), tr, loop_ev, events@);
        assert(run_ok(b, toks@, line_map.starts(), first, tr, events@, st.table()));
    }
    let ghost ok1 = all_ok(events@);
    let ghost orig_ev = events@;
    let mut rev: Vec<Result<Event, LocatedError>> = Vec::new();
    while events.len() > 0
        invariant
            all_within(events@, n),
            all_within(rev@, n),
            ok1 ==> all_ok(events@) && all_ok(rev@),
            rev@.len() + events@.len() == orig_ev.len(),
            events@ == orig_ev.take(events@.len() as int),
            forall|m: int| 0 <= m < rev@.len() ==> #[trigger] rev@[m] == orig_ev[orig_ev.len() - 1 - m],
        decreases events@.len(),
    {
        let ghost before = events@;
        let ghost rbefore = rev@;
        let e = events.pop().unwrap();
        proof {
            assert(within(before[before.len() - 1], n));
            assert forall|m: int| 0 <= m < events@.len() implies within(#[trigger] events@[m], n) by {
                assert(events@[m] == before[m]);
            }
            assert forall|m: int| 0 <= m < events@.len() && ok1 implies (#[trigger] events@[m]) is Ok by {
                assert(events@[m] == before[m]);
            }
            if ok1 {
                assert(before[before.len() - 1] is Ok);
            }
        }
        rev.push(e);
        proof {
            assert(e == orig_ev[orig_ev.len() - rev@.len()]);
            assert(events@ =~= orig_ev.take(events@.len() as int));
            assert forall|m: int| 0 <= m < rev@.len() implies #[trigger] rev@[m] == orig_ev[orig_ev.len() - 1 - m] by {
                if m < rbefore.len() {
                    assert(rev@[m] == rbefore[m]);
                }
            }
            assert forall|m: int| 0 <= m < rev@.len() implies within(#[trigger] rev@[m], n) by {
                if m < rbefore.len() {
                    assert(rev@[m] == rbefore[m]);
                }
            }
            assert forall|m: int| 0 <= m < rev@.len() && ok1 implies (#[trigger] rev@[m]) is Ok by {
                if m < rbefore.len() {
                    assert(rev@[m] == rbefore[m]);
                }
            }
        }
    }
    let r = ExpandStr { events: rev, state: st, completed: false, source_len: Ghost(n) };
    proof {
        assert forall|k: int| 0 <= k < r.pending().len() implies r.pending()[k] == orig_ev[k] by {
            assert(r.pending()[k] == rev@[rev@.len() - 1 - k]);
        }
        assert(r.pending() =~= orig_ev);
        assert(run_ok(
            input.spec_bytes(),
            tokens_of(input),
            line_starts(input.spec_bytes(), input.spec_bytes().len() as int),
            first_step(state0.table(), state0.version_spec().number),
            tr,
            r.pending(),
            r.final_state().table(),
        ));
        if forall|k: int| 0 <= k < tokens_of(input).len() ==> (#[trigger] tokens_of(input)[k]).kind
            != Token::HASH {
            assert(!touched);
            assert forall|k: int| 0 <= k < r.pending().len() implies (#[trigger] r.pending()[k]) is Ok by {
                assert(r.pending()[k] == rev@[rev@.len() - 1 - k]);
            }
        }
    }
    r
}

} // verus!
