//! Expansion of object-like macros, with hide-sets.
use vstd::prelude::*;
use vstd::string::StringSliceAdditionalSpecFns;

use crate::processor::{DefineKind, Definition, MacroToken, ProcessorState};
use crate::text::TextRange;
use crate::token::{TextToken, Token};
use crate::glue::glue;
use crate::parser::parse;
use crate::pre::pre_tokens;
use crate::unescaped::{chars_of, string_of_chars, unescape, UnescapeIter};

verus! {

/// A token of the preprocessor's stream: its kind, its text, the source range it stands
/// for, and the names of the macros that may not expand it again.
#[derive(Debug, Clone, PartialEq, Eq)]
pub struct PpToken {
    pub kind: Token,
    pub text: String,
    pub range: TextRange,
    pub hide_set: Vec<String>,
}

/// The names of a token's hide-set.
pub open spec fn hide_names(t: PpToken) -> Seq<Seq<char>> {
    Seq::new(t.hide_set@.len(), |i: int| t.hide_set@[i]@)
}

/// Whether the bytes of `r` in `b` start and end on character boundaries.
pub open spec fn on_boundaries(b: Seq<u8>, r: TextRange) -> bool {
    vstd::utf8::is_char_boundary(b, r.end as int) && vstd::utf8::is_char_boundary(
        b.subrange(0, r.end as int),
        r.start as int,
    )
}

/// The bytes of `r` in `b`, decoded as UTF-8 (each byte as a character where `r` does not
/// fall on character boundaries), with line continuations removed.
pub open spec fn source_text(b: Seq<u8>, r: TextRange) -> Seq<char> {
    if on_boundaries(b, r) {
        unescape(vstd::utf8::decode_utf8(b.subrange(r.start as int, r.end as int)))
    } else {
        unescape(Seq::new((r.end - r.start) as nat, |i: int| b[r.start + i] as char))
    }
}

/// The replacement list of the object-like macro `name`, if the table defines one.
pub open spec fn object_body(table: Map<Seq<char>, Definition>, name: Seq<char>) -> Option<
    Seq<MacroToken>,
> {
    if table.contains_key(name) {
        match table[name] {
            Definition::Regular(def, _) => match def.kind {
                DefineKind::Object(o) => Some(o.tokens@),
                _ => None,
            },
            _ => None,
        }
    } else {
        None
    }
}

/// Whether `t` names an object-like macro that its hide-set does not forbid.
pub open spec fn expands(table: Map<Seq<char>, Definition>, t: PpToken) -> bool {
    t.kind == Token::IDENT_KW && !hide_names(t).contains(t.text@) && object_body(
        table,
        t.text@,
    ) is Some
}

/// What a token of the preprocessor's stream is: kind, text, range and hide-set names.
pub struct PpView {
    pub kind: Token,
    pub text: Seq<char>,
    pub range: TextRange,
    pub hide: Seq<Seq<char>>,
}

pub open spec fn pview(t: PpToken) -> PpView {
    PpView { kind: t.kind, text: t.text@, range: t.range, hide: hide_names(t) }
}

pub open spec fn views(s: Seq<PpToken>) -> Seq<PpView> {
    Seq::new(s.len(), |i: int| pview(s[i]))
}

/// Whether `v` names an object-like macro that its hide-set does not forbid.
pub open spec fn expands_v(table: Map<Seq<char>, Definition>, v: PpView) -> bool {
    v.kind == Token::IDENT_KW && !v.hide.contains(v.text) && object_body(table, v.text) is Some
}

/// One expansion of `v`: the replacement list of its macro, each token standing for the
/// range of `v` and hiding its name; `v` itself where it does not expand.
pub open spec fn expand_view(table: Map<Seq<char>, Definition>, v: PpView) -> Seq<PpView> {
    if !expands_v(table, v) {
        seq![v]
    } else {
        let body = object_body(table, v.text)->0;
        Seq::new(
            body.len(),
            |k: int|
                PpView {
                    kind: body[k].kind,
                    text: body[k].text@,
                    range: v.range,
                    hide: v.hide.push(v.text),
                },
        )
    }
}

/// `v` expanded and its result rescanned, at most `depth` levels below the first.
pub open spec fn rescan(table: Map<Seq<char>, Definition>, v: PpView, depth: nat) -> Seq<PpView>
    decreases depth, 0nat,
{
    if !expands_v(table, v) {
        seq![v]
    } else if depth == 0 {
        expand_view(table, v)
    } else {
        rescan_all(table, expand_view(table, v), (depth - 1) as nat)
    }
}

/// The rescans of each of `es`, one after the other.
pub open spec fn rescan_all(table: Map<Seq<char>, Definition>, es: Seq<PpView>, depth: nat) -> Seq<
    PpView,
>
    decreases depth, es.len(),
{
    if es.len() == 0 {
        Seq::empty()
    } else {
        rescan_all(table, es.drop_last(), depth) + rescan(table, es.last(), depth)
    }
}

impl PpToken {
    /// The token of `input` that `t` spans, with an empty hide-set.
    pub fn from_source(input: &str, t: TextToken) -> (r: PpToken)
        requires
            t.range.start <= t.range.end <= input.spec_bytes().len(),
        ensures
            r.kind == t.kind,
            r.range == t.range,
            r.text@ == source_text(input.spec_bytes(), t.range),
            r.hide_set@.len() == 0,
    {
        let b = input.as_bytes();
        let start = t.range.start as usize;
        let end = t.range.end as usize;
        if input.is_char_boundary(end) {
            let (head, _) = input.split_at(end);
            if head.is_char_boundary(start) {
                let (_, sub) = head.split_at(start);
                proof {
                    broadcast use vstd::utf8::encode_utf8_decode_utf8;

                    assert(head.spec_bytes() =~= b@.subrange(0, end as int));
                    assert(sub.spec_bytes() =~= b@.subrange(start as int, end as int));
                    assert(vstd::utf8::decode_utf8(sub.spec_bytes()) == sub@);
                }
                let v = crate::unescaped::chars_of(sub);
                let mut it = UnescapeIter::of_chars(v);
                let chars = it.collect_chars();
                return PpToken {
                    kind: t.kind,
                    text: string_of_chars(&chars),
                    range: t.range,
                    hide_set: Vec::new(),
                };
            }
        }
        let mut v: Vec<char> = Vec::new();
        let mut i: u32 = t.range.start;
        while i < t.range.end
            invariant
                t.range.start <= i <= t.range.end <= b@.len(),
                v@ == Seq::new((i - t.range.start) as nat, |k: int| b@[t.range.start + k] as char),
            decreases t.range.end - i,
        {
            v.push(b[i as usize] as char);
            i = i + 1;
            proof {
                assert(v@ =~= Seq::new((i - t.range.start) as nat, |k: int| b@[t.range.start + k] as char));
            }
        }
        let mut it = UnescapeIter::of_chars(v);
        let chars = it.collect_chars();
        PpToken { kind: t.kind, text: string_of_chars(&chars), range: t.range, hide_set: Vec::new() }
    }
}

fn copy_names(v: &Vec<String>) -> (r: Vec<String>)
    ensures
        r@.len() == v@.len(),
        forall|i: int| 0 <= i < v@.len() ==> (#[trigger] r@[i])@ == v@[i]@,
{
    let mut r: Vec<String> = Vec::new();
    let mut i: usize = 0;
    while i < v.len()
        invariant
            i <= v@.len(),
            r@.len() == i,
            forall|k: int| 0 <= k < i ==> (#[trigger] r@[k])@ == v@[k]@,
        decreases v@.len() - i,
    {
        r.push(v[i].clone());
        i = i + 1;
    }
    r
}

fn is_hidden(t: &PpToken) -> (r: bool)
    ensures
        r == hide_names(*t).contains(t.text@),
{
    let mut i: usize = 0;
    while i < t.hide_set.len()
        invariant
            i <= t.hide_set@.len(),
            forall|k: int| 0 <= k < i ==> t.hide_set@[k]@ != t.text@,
        decreases t.hide_set@.len() - i,
    {
        if t.hide_set[i] == t.text {
            proof {
                assert(hide_names(*t)[i as int] == t.text@);
            }
            return true;
        }
        i = i + 1;
    }
    proof {
        if hide_names(*t).contains(t.text@) {
            let k = choose|k: int| 0 <= k < hide_names(*t).len() && hide_names(*t)[k] == t.text@;
            assert(t.hide_set@[k]@ == t.text@);
        }
    }
    false
}

/// Expands `t` once: a name of an object-like macro outside its own hide-set becomes the
/// macro's replacement list, each token carrying the invocation's range and the hide-set
/// grown by the macro's name; any other token stands as it is.
pub fn expand_token(state: &ProcessorState, t: PpToken) -> (r: Vec<PpToken>)
    requires
        state.wf(),
    ensures
        !expands(state.table(), t) ==> r@ == seq![t],
        hide_names(t).contains(t.text@) ==> r@ == seq![t],
        views(r@) == expand_view(state.table(), pview(t)),
        expands(state.table(), t) ==> ({
            let body = object_body(state.table(), t.text@)->0;
            &&& r@.len() == body.len()
            &&& forall|k: int|
                0 <= k < body.len() ==> {
                    &&& (#[trigger] r@[k]).kind == body[k].kind
                    &&& r@[k].text@ == body[k].text@
                    &&& r@[k].range == t.range
                    &&& hide_names(r@[k]) == hide_names(t).push(t.text@)
                }
        }),
{
    if t.kind != Token::IDENT_KW || is_hidden(&t) {
        return vec![t];
    }
    let body: &Vec<MacroToken> = match state.get_definition(&t.text) {
        Some(Definition::Regular(def, _)) => match &def.kind {
            DefineKind::Object(o) => &o.tokens,
            _ => {
                return vec![t];
            },
        },
        _ => {
            return vec![t];
        },
    };
    let mut r: Vec<PpToken> = Vec::new();
    let mut i: usize = 0;
    while i < body.len()
        invariant
            i <= body@.len(),
            body@ == object_body(state.table(), t.text@)->0,
            r@.len() == i,
            forall|k: int|
                0 <= k < i ==> {
                    &&& (#[trigger] r@[k]).kind == body@[k].kind
                    &&& r@[k].text@ == body@[k].text@
                    &&& r@[k].range == t.range
                    &&& hide_names(r@[k]) == hide_names(t).push(t.text@)
                },
        decreases body@.len() - i,
    {
        let mut names = copy_names(&t.hide_set);
        names.push(t.text.clone());
        let n = PpToken { kind: body[i].kind, text: body[i].text.clone(), range: t.range, hide_set: names };
        proof {
            assert(hide_names(n) =~= hide_names(t).push(t.text@));
        }
        r.push(n);
        i = i + 1;
    }
    proof {
        assert(views(r@) =~= expand_view(state.table(), pview(t)));
    }
    r
}

/// Whether `t` names an object-like macro that its hide-set does not forbid.
pub fn will_expand(state: &ProcessorState, t: &PpToken) -> (r: bool)
    requires
        state.wf(),
    ensures
        r == expands(state.table(), *t),
{
    if t.kind != Token::IDENT_KW || is_hidden(t) {
        return false;
    }
    match state.get_definition(&t.text) {
        Some(Definition::Regular(def, _)) => match &def.kind {
            DefineKind::Object(_) => true,
            _ => false,
        },
        _ => false,
    }
}

/// Expands `t` and rescans what it became, at most `depth` levels deep. Every resulting
/// token stands for the range of `t`.
pub fn expand_rescan(state: &ProcessorState, t: PpToken, depth: usize) -> (r: Vec<PpToken>)
    requires
        state.wf(),
    ensures
        views(r@) == rescan(state.table(), pview(t), depth as nat),
        !expands(state.table(), t) ==> r@ == seq![t],
        forall|k: int| 0 <= k < r@.len() ==> (#[trigger] r@[k]).range == t.range,
    decreases depth,
{
    let ghost range = t.range;
    let ghost table = state.table();
    let ghost tv = pview(t);
    if !will_expand(state, &t) {
        proof {
            assert(views(seq![t]) =~= seq![tv]);
        }
        return vec![t];
    }
    let once = expand_token(state, t);
    if depth == 0 {
        return once;
    }
    let ghost orig = once@;
    let ghost d1 = (depth - 1) as nat;
    let mut out: Vec<PpToken> = Vec::new();
    let mut rest = once;
    let mut k: usize = 0;
    let total = rest.len();
    proof {
        assert(views(orig).take(0) =~= Seq::<PpView>::empty());
        assert(views(out@) =~= Seq::<PpView>::empty());
        assert(rest@ =~= orig.skip(0));
    }
    while rest.len() > 0
        invariant
            state.wf(),
            depth > 0,
            table == state.table(),
            d1 == depth - 1,
            views(orig) == expand_view(table, tv),
            forall|m: int| 0 <= m < orig.len() ==> (#[trigger] orig[m]).range == range,
            k <= orig.len(),
            total == orig.len(),
            rest@ == orig.skip(k as int),
            views(out@) == rescan_all(table, views(orig).take(k as int), d1),
            forall|m: int| 0 <= m < out@.len() ==> (#[trigger] out@[m]).range == range,
        decreases rest@.len(),
    {
        let x = rest.remove(0);
        proof {
            assert(x == orig[k as int]);
            assert(rest@ =~= orig.skip(k + 1));
        }
        let ghost before = out@;
        let mut e = expand_rescan(state, x, depth - 1);
        let ghost ev = e@;
        out.append(&mut e);
        proof {
            let vs = views(orig);
            assert(vs.take(k + 1).drop_last() =~= vs.take(k as int));
            assert(vs.take(k + 1).last() == pview(x));
            assert(views(out@) =~= views(before) + views(ev));
            assert forall|m: int| 0 <= m < out@.len() implies (#[trigger] out@[m]).range == range by {
                if m >= before.len() {
                    assert(out@[m] == ev[m - before.len()]);
                }
            }
        }
        k = k + 1;
    }
    proof {
        assert(k == orig.len());
        assert(views(orig).take(k as int) =~= views(orig));
        assert(expands_v(table, tv));
    }
    out
}

/// The text of `a` followed by the text of `b`.
fn joined_text(a: &String, b: &String) -> (r: String)
    ensures
        r@ == a@ + b@,
{
    let mut v = chars_of(a.as_str());
    let mut w = chars_of(b.as_str());
    v.append(&mut w);
    string_of_chars(&v)
}

/// Pasting two tokens (`a ## b`): where their joined text lexes as exactly one token, that
/// token, standing for the range of `a`; otherwise `None`.
pub open spec fn paste_view(a: PpView, b: PpView) -> Option<PpView> {
    let text = a.text + b.text;
    let bs = vstd::utf8::encode_utf8(text);
    if bs.len() >= u32::MAX {
        None
    } else {
        let toks = glue(pre_tokens(bs, 0, false));
        if toks.len() == 1 && toks[0].range.start == 0 && toks[0].range.end == bs.len() {
            Some(PpView { kind: toks[0].kind, text, range: a.range, hide: Seq::empty() })
        } else {
            None
        }
    }
}

/// Index of the first parameter from `i` on named `x`.
pub open spec fn first_param(ps: Seq<String>, x: Seq<char>, i: int) -> Option<int>
    decreases ps.len() - i,
{
    if i < 0 || i >= ps.len() {
        None
    } else if ps[i]@ == x {
        Some(i)
    } else {
        first_param(ps, x, i + 1)
    }
}

/// Whether the replacement token at `k` is an operand of `##`.
pub open spec fn is_paste_operand(body: Seq<MacroToken>, k: int) -> bool {
    (k > 0 && body[k - 1].kind == Token::PP_CONCAT) || (k < body.len() - 1 && body[k + 1].kind
        == Token::PP_CONCAT)
}

/// What the replacement token at `k` becomes: its argument where it names a parameter
/// (rescanned unless it is an operand of `##`), else itself standing for `range`.
pub open spec fn piece(
    table: Map<Seq<char>, Definition>,
    params: Seq<String>,
    body: Seq<MacroToken>,
    args: Seq<Vec<PpToken>>,
    range: TextRange,
    depth: nat,
    k: int,
) -> Seq<PpView> {
    let b = body[k];
    let p = if b.kind == Token::IDENT_KW {
        first_param(params, b.text@, 0)
    } else {
        None
    };
    match p {
        Some(pi) => if is_paste_operand(body, k) {
            views(args[pi]@)
        } else {
            rescan_all(table, views(args[pi]@), depth)
        },
        None => seq![PpView { kind: b.kind, text: b.text@, range, hide: Seq::empty() }],
    }
}

/// The pieces of the first `k` replacement tokens, one after the other.
pub open spec fn pieces(
    table: Map<Seq<char>, Definition>,
    params: Seq<String>,
    body: Seq<MacroToken>,
    args: Seq<Vec<PpToken>>,
    range: TextRange,
    depth: nat,
    k: int,
) -> Seq<PpView>
    decreases k,
{
    if k <= 0 {
        Seq::empty()
    } else {
        pieces(table, params, body, args, range, depth, k - 1) + piece(
            table,
            params,
            body,
            args,
            range,
            depth,
            k - 1,
        )
    }
}

/// Applies the `##` of `items` from `i` on, after the tokens `out` already made: each
/// token stands for `range` and hides `name`; a `##` between two tokens joins them where
/// they form one token, and otherwise leaves both and clears `ok`.
pub open spec fn paste_pass(
    items: Seq<PpView>,
    i: int,
    out: Seq<PpView>,
    ok: bool,
    name: Seq<char>,
    range: TextRange,
) -> (Seq<PpView>, bool)
    decreases items.len() - i,
{
    if i < 0 || i >= items.len() {
        (out, ok)
    } else {
        let t = items[i];
        if t.kind == Token::PP_CONCAT && out.len() > 0 && i + 1 < items.len() {
            let left = out.last();
            let right = items[i + 1];
            match paste_view(left, right) {
                Some(j) => paste_pass(
                    items,
                    i + 2,
                    out.drop_last().push(
                        PpView { kind: j.kind, text: j.text, range, hide: left.hide },
                    ),
                    ok,
                    name,
                    range,
                ),
                None => paste_pass(
                    items,
                    i + 2,
                    out.push(
                        PpView { kind: right.kind, text: right.text, range, hide: right.hide.push(name) },
                    ),
                    false,
                    name,
                    range,
                ),
            }
        } else {
            paste_pass(
                items,
                i + 1,
                out.push(PpView { kind: t.kind, text: t.text, range, hide: t.hide.push(name) }),
                ok,
                name,
                range,
            )
        }
    }
}

/// Pastes two tokens (`a ## b`): where the joined text lexes as one token, that token;
/// otherwise `None`.
fn paste(a: &PpToken, b: &PpToken) -> (r: Option<PpToken>)
    ensures
        r is Some ==> paste_view(pview(*a), pview(*b)) == Some(pview(r->0)),
        r is None ==> paste_view(pview(*a), pview(*b)) is None,
{
    let text = joined_text(&a.text, &b.text);
    let s = text.as_str();
    let n = s.as_bytes().len();
    if n >= 4294967295usize {
        return None;
    }
    let ast = parse(s);
    if ast.tokens.len() == 1 && ast.tokens[0].range.start == 0 && ast.tokens[0].range.end as usize == n {
        let r = PpToken { kind: ast.tokens[0].kind, text, range: a.range, hide_set: Vec::new() };
        proof {
            assert(hide_names(r) =~= Seq::<Seq<char>>::empty());
        }
        Some(r)
    } else {
        None
    }
}

/// Whether the replacement token at `k` is an operand of `##`.
fn pasted_operand(body: &Vec<MacroToken>, k: usize) -> (r: bool)
    requires
        k < body@.len(),
    ensures
        r == is_paste_operand(body@, k as int),
{
    (k > 0 && body[k - 1].kind == Token::PP_CONCAT) || (k < body.len() - 1 && body[k + 1].kind
        == Token::PP_CONCAT)
}

/// Index of the parameter named `text`, if any.
fn parameter_index(parameters: &Vec<String>, text: &String) -> (r: Option<usize>)
    ensures
        r is Some ==> r->0 < parameters@.len(),
        r is Some ==> first_param(parameters@, text@, 0) == Some(r->0 as int),
        r is None ==> first_param(parameters@, text@, 0) is None,
{
    let mut i: usize = 0;
    while i < parameters.len()
        invariant
            i <= parameters@.len(),
            first_param(parameters@, text@, 0) == first_param(parameters@, text@, i as int),
        decreases parameters@.len() - i,
    {
        if parameters[i] == *text {
            return Some(i);
        }
        i = i + 1;
    }
    None
}

/// The replacement of an invocation of the function-like macro `name` with the given
/// arguments: parameters become their arguments (rescanned to the table's size, except as
/// operands of `##`), `##` joins its operands where they form one token, and every token
/// stands for `range` and hides `name`. Returns also whether every `##` formed a token.
pub fn substitute(
    state: &ProcessorState,
    name: &String,
    parameters: &Vec<String>,
    body: &Vec<MacroToken>,
    args: &Vec<Vec<PpToken>>,
    range: TextRange,
) -> (r: (Vec<PpToken>, bool))
    requires
        state.wf(),
        args@.len() == parameters@.len(),
    ensures
        (views(r.0@), r.1) == paste_pass(
            pieces(state.table(), parameters@, body@, args@, range, state.count(), body@.len() as int),
            0,
            Seq::empty(),
            true,
            name@,
            range,
        ),
        forall|k: int| 0 <= k < r.0@.len() ==> (#[trigger] r.0@[k]).range == range,
{
    let depth = state.definition_count();
    let ghost table = state.table();
    let mut items: Vec<PpToken> = Vec::new();
    let mut k: usize = 0;
    while k < body.len()
        invariant
            state.wf(),
            table == state.table(),
            depth == state.count(),
            args@.len() == parameters@.len(),
            k <= body@.len(),
            views(items@) == pieces(table, parameters@, body@, args@, range, depth as nat, k as int),
        decreases body@.len() - k,
    {
        let ghost before = views(items@);
        let b = &body[k];
        let p = if b.kind == Token::IDENT_KW {
            parameter_index(parameters, &b.text)
        } else {
            None
        };
        match p {
            Some(pi) => {
                let arg = &args[pi];
                let raw = pasted_operand(body, k);
                let mut a: usize = 0;
                while a < arg.len()
                    invariant
                        state.wf(),
                        table == state.table(),
                        depth == state.count(),
                        a <= arg@.len(),
                        raw ==> views(items@) == before + views(arg@).take(a as int),
                        !raw ==> views(items@) == before + rescan_all(
                            table,
                            views(arg@).take(a as int),
                            depth as nat,
                        ),
                    decreases arg@.len() - a,
                {
                    let ghost ib = views(items@);
                    let t = PpToken {
                        kind: arg[a].kind,
                        text: arg[a].text.clone(),
                        range: arg[a].range,
                        hide_set: copy_names(&arg[a].hide_set),
                    };
                    proof {
                        assert(hide_names(t) =~= hide_names(arg@[a as int]));
                        assert(pview(t) == views(arg@)[a as int]);
                        assert(views(arg@).take(a + 1).drop_last() =~= views(arg@).take(a as int));
                        assert(views(arg@).take(a + 1) =~= views(arg@).take(a as int).push(pview(t)));
                    }
                    if raw {
                        items.push(t);
                        proof {
                            assert(views(items@) =~= ib.push(pview(t)));
                        }
                    } else {
                        let mut e = expand_rescan(state, t, depth);
                        let ghost ev = e@;
                        items.append(&mut e);
                        proof {
                            assert(views(items@) =~= ib + views(ev));
                        }
                    }
                    a = a + 1;
                }
                proof {
                    assert(views(arg@).take(a as int) =~= views(arg@));
                }
            },
            None => {
                let t = PpToken { kind: b.kind, text: b.text.clone(), range, hide_set: Vec::new() };
                proof {
                    assert(hide_names(t) =~= Seq::<Seq<char>>::empty());
                }
                items.push(t);
                proof {
                    assert(views(items@) =~= before.push(pview(t)));
                }
            },
        }
        k = k + 1;
    }
    let ghost iv = views(items@);
    let mut out: Vec<PpToken> = Vec::new();
    let mut ok = true;
    let mut i: usize = 0;
    proof {
        assert(views(out@) =~= Seq::<PpView>::empty());
    }
    while i < items.len()
        invariant
            iv == views(items@),
            i <= items@.len(),
            paste_pass(iv, i as int, views(out@), ok, name@, range) == paste_pass(
                iv,
                0,
                Seq::empty(),
                true,
                name@,
                range,
            ),
            forall|m: int| 0 <= m < out@.len() ==> (#[trigger] out@[m]).range == range,
        decreases items@.len() - i,
    {
        let ghost ob = views(out@);
        let t = &items[i];
        let mut names = copy_names(&t.hide_set);
        names.push(name.clone());
        let mut next = PpToken { kind: t.kind, text: t.text.clone(), range, hide_set: names };
        proof {
            assert(hide_names(next) =~= hide_names(*t).push(name@));
        }
        if t.kind == Token::PP_CONCAT && out.len() > 0 && i + 1 < items.len() {
            let left = out.pop().unwrap();
            proof {
                assert(pview(left) == ob.last());
                assert(views(out@) =~= ob.drop_last());
            }
            let right = &items[i + 1];
            match paste(&left, right) {
                Some(joined) => {
                    next = PpToken { kind: joined.kind, text: joined.text, range, hide_set: left.hide_set };
                },
                None => {
                    ok = false;
                    out.push(left);
                    proof {
                        assert(views(out@) =~= ob);
                    }
                    let mut names = copy_names(&right.hide_set);
                    names.push(name.clone());
                    next = PpToken { kind: right.kind, text: right.text.clone(), range, hide_set: names };
                    proof {
                        assert(hide_names(next) =~= hide_names(*right).push(name@));
                    }
                },
            }
            i = i + 1;
        }
        let ghost ob2 = views(out@);
        out.push(next);
        proof {
            assert(views(out@) =~= ob2.push(pview(next)));
        }
        i = i + 1;
    }
    (out, ok)
}

} // verus!
