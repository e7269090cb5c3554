//! Last lexing stage: glues punctuation into multi-character operator tokens.
use vstd::prelude::*;

use arrayvec::ArrayVec;
use vstd::string::StringSliceAdditionalSpecFns;

use crate::line_map::{line_starts, LineMap};
use crate::pre::{ranges_cover, ranges_ordered, PreLexer};
use crate::text::TextRange;
use crate::token::{fuse2, fuse3, lone, PreTextToken, PreToken, TextToken, Token};

verus! {

#[verifier::external_type_specification]
#[verifier::external_body]
#[verifier::reject_recursive_types(T)]
pub struct ExArrayVec<T, const CAP: usize>(ArrayVec<T, CAP>);

/// The tokens held by a lookahead buffer, from the oldest pushed to the newest.
pub uninterp spec fn buffered(v: ArrayVec<PreTextToken, 2>) -> Seq<PreTextToken>;

/// Relies on `ArrayVec::new`: a new vector holds no element.
#[verifier::external_body]
fn buffer_new() -> (r: ArrayVec<PreTextToken, 2>)
    ensures
        buffered(r) == Seq::<PreTextToken>::empty(),
{
    ArrayVec::new()
}

/// Relies on `ArrayVec::push`: appends the element at the end; it panics on a full vector.
#[verifier::external_body]
fn buffer_push(v: &mut ArrayVec<PreTextToken, 2>, t: PreTextToken)
    requires
        buffered(*old(v)).len() < 2,
    ensures
        buffered(*final(v)) == buffered(*old(v)).push(t),
{
    v.push(t)
}

/// Relies on `ArrayVec::pop`: removes and returns the last element, or `None` when empty.
#[verifier::external_body]
fn buffer_pop(v: &mut ArrayVec<PreTextToken, 2>) -> (r: Option<PreTextToken>)
    ensures
        buffered(*old(v)).len() == 0 ==> r is None && buffered(*final(v)) == buffered(*old(v)),
        buffered(*old(v)).len() > 0 ==> r == Some(buffered(*old(v)).last()) && buffered(*final(v))
            == buffered(*old(v)).drop_last(),
{
    v.pop()
}

/// A stack's elements from the top down.
pub open spec fn top_down(s: Seq<PreTextToken>) -> Seq<PreTextToken> {
    Seq::new(s.len(), |i: int| s[s.len() - 1 - i])
}

/// The glued token at the head of a pre-token stream, and how many pre-tokens it takes:
/// the longest operator among three, two, or one of them.
pub open spec fn glue_first(p: Seq<PreTextToken>) -> (TextToken, int) {
    if p.len() >= 3 && fuse3(p[0].kind, p[1].kind, p[2].kind) is Some {
        (
            TextToken {
                kind: fuse3(p[0].kind, p[1].kind, p[2].kind)->0,
                range: TextRange { start: p[0].range.start, end: p[2].range.end },
            },
            3,
        )
    } else {
        glue_pair(p)
    }
}

/// The glued token at the head of a pre-token stream among two or one pre-tokens.
pub open spec fn glue_pair(p: Seq<PreTextToken>) -> (TextToken, int) {
    if p.len() >= 2 && fuse2(p[0].kind, p[1].kind) is Some {
        (
            TextToken {
                kind: fuse2(p[0].kind, p[1].kind)->0,
                range: TextRange { start: p[0].range.start, end: p[1].range.end },
            },
            2,
        )
    } else {
        (TextToken { kind: lone(p[0].kind), range: p[0].range }, 1)
    }
}

/// The glued tokens of a pre-token stream.
pub open spec fn glue(p: Seq<PreTextToken>) -> Seq<TextToken>
    decreases p.len(),
{
    if p.len() == 0 {
        Seq::empty()
    } else {
        seq![glue_first(p).0] + glue(p.skip(glue_first(p).1))
    }
}

/// Every glued token of an ordered pre-token stream covers pre-tokens that lie in
/// `[lo, hi)`: it is not empty, lies in `[lo, hi)`, and starts at or after the end of the
/// token before it.
pub proof fn lemma_glue_ranges(p: Seq<PreTextToken>, lo: int, hi: int)
    requires
        ranges_ordered(p, lo, hi),
    ensures
        forall|k: int|
            0 <= k < glue(p).len() ==> lo <= (#[trigger] glue(p)[k]).range.start < glue(p)[k].range.end
                <= hi,
        forall|k: int|
            #![trigger glue(p)[k], glue(p)[k + 1]]
            0 <= k < glue(p).len() - 1 ==> glue(p)[k].range.end <= glue(p)[k + 1].range.start,
    decreases p.len(),
{
    if p.len() > 0 {
        let (t, n) = glue_first(p);
        let rest = p.skip(n);
        assert(ranges_ordered(rest, lo, hi)) by {
            assert forall|k: int| #![trigger rest[k], rest[k + 1]] 0 <= k < rest.len() - 1 implies rest[k].range.end
                <= rest[k + 1].range.start by {
                assert(rest[k] == p[k + n] && rest[k + 1] == p[k + n + 1]);
            }
            assert forall|k: int| 0 <= k < rest.len() implies lo <= (#[trigger] rest[k]).range.start
                < rest[k].range.end <= hi by {
                assert(rest[k] == p[k + n]);
            }
        }
        lemma_glue_ranges(rest, lo, hi);
        let g = glue(p);
        let gr = glue(rest);
        assert(g == seq![t] + gr);
        assert(p[0].range.start < p[0].range.end);
        if n >= 2 {
            assert(p[0].range.end <= p[1].range.start);
        }
        if n == 3 {
            let one: int = 1;
            assert(p[one].range.end <= p[one + 1].range.start);
        }
        if rest.len() > 0 {
            assert(rest[0] == p[n]);
            let m: int = n - 1;
            assert(p[m].range.end <= p[m + 1].range.start);
        }
        assert forall|k: int| 0 <= k < g.len() implies lo <= (#[trigger] g[k]).range.start
            < g[k].range.end <= hi by {
            if k > 0 {
                assert(g[k] == gr[k - 1]);
            }
        }
        assert forall|k: int| #![trigger g[k], g[k + 1]] 0 <= k < g.len() - 1 implies g[k].range.end
            <= g[k + 1].range.start by {
            if k > 0 {
                let j = k - 1;
                assert(g[k] == gr[j] && g[k + 1] == gr[j + 1]);
            } else {
                assert(g[1] == gr[0]);
            }
        }
    }
}

/// Tokens lie end to end from `lo` to `hi` (no token when `lo == hi`).
pub open spec fn text_ranges_cover(ts: Seq<TextToken>, lo: int, hi: int) -> bool {
    &&& ts.len() == 0 ==> lo == hi
    &&& ts.len() > 0 ==> ts[0].range.start == lo && ts.last().range.end == hi
    &&& forall|k: int|
        #![trigger ts[k], ts[k + 1]]
        0 <= k < ts.len() - 1 ==> ts[k].range.end == ts[k + 1].range.start
}

/// Gluing keeps a stream that lies end to end from `lo` to `hi` lying end to end.
pub proof fn lemma_glue_cover(p: Seq<PreTextToken>, base: int, lo: int, hi: int)
    requires
        ranges_ordered(p, base, hi),
        ranges_cover(p, lo, hi),
    ensures
        text_ranges_cover(glue(p), lo, hi),
    decreases p.len(),
{
    if p.len() > 0 {
        let (t, n) = glue_first(p);
        let rest = p.skip(n);
        let mid = p[n - 1].range.end as int;
        assert(t.range.start == lo);
        assert(t.range.end == mid);
        assert(ranges_ordered(rest, base, hi)) by {
            assert forall|k: int| #![trigger rest[k], rest[k + 1]] 0 <= k < rest.len() - 1 implies rest[k].range.end
                <= rest[k + 1].range.start by {
                assert(rest[k] == p[k + n] && rest[k + 1] == p[k + n + 1]);
            }
            assert forall|k: int| 0 <= k < rest.len() implies base <= (#[trigger] rest[k]).range.start
                < rest[k].range.end <= hi by {
                assert(rest[k] == p[k + n]);
            }
        }
        assert(ranges_cover(rest, mid, hi)) by {
            assert forall|k: int| #![trigger rest[k], rest[k + 1]] 0 <= k < rest.len() - 1 implies rest[k].range.end
                == rest[k + 1].range.start by {
                assert(rest[k] == p[k + n] && rest[k + 1] == p[k + n + 1]);
            }
            if rest.len() > 0 {
                assert(rest[0] == p[n]);
                let m: int = n - 1;
                assert(p[m].range.end == p[m + 1].range.start);
                assert(rest.last() == p.last());
            } else {
                assert(p.len() == n);
            }
        }
        lemma_glue_cover(rest, base, mid, hi);
        let g = glue(p);
        let gr = glue(rest);
        assert(g == seq![t] + gr);
        assert forall|k: int| #![trigger g[k], g[k + 1]] 0 <= k < g.len() - 1 implies g[k].range.end
            == g[k + 1].range.start by {
            if k > 0 {
                let j = k - 1;
                assert(g[k] == gr[j] && g[k + 1] == gr[j + 1]);
            } else {
                assert(g[1] == gr[0]);
            }
        }
        if gr.len() > 0 {
            assert(g.last() == gr.last());
        }
    }
}

proof fn lemma_ordered_skip(s: Seq<PreTextToken>, lo: int, hi: int)
    requires
        ranges_ordered(s, lo, hi),
        s.len() > 0,
    ensures
        ranges_ordered(s.skip(1), lo, hi),
{
    let t = s.skip(1);
    assert forall|k: int| #![trigger t[k], t[k + 1]] 0 <= k < t.len() - 1 implies t[k].range.end
        <= t[k + 1].range.start by {
        assert(t[k] == s[k + 1]);
        assert(t[k + 1] == s[k + 2]);
        assert(s[k + 1].range.end <= s[k + 1 + 1].range.start);
    }
    assert forall|k: int| 0 <= k < t.len() implies lo <= (#[trigger] t[k]).range.start
        < t[k].range.end <= hi by {
        assert(t[k] == s[k + 1]);
    }
}

proof fn lemma_ordered_concat(a: Seq<PreTextToken>, c: Seq<PreTextToken>, mid: int, hi: int)
    requires
        ranges_ordered(a, 0, hi),
        ranges_ordered(c, mid, hi),
        forall|k: int| 0 <= k < a.len() ==> (#[trigger] a[k]).range.end <= mid,
        mid >= 0,
    ensures
        ranges_ordered(a + c, 0, hi),
{
    let s = a + c;
    assert forall|k: int| #![trigger s[k], s[k + 1]] 0 <= k < s.len() - 1 implies s[k].range.end
        <= s[k + 1].range.start by {
        if k + 1 < a.len() {
            assert(s[k] == a[k] && s[k + 1] == a[k + 1]);
        } else if k + 1 == a.len() {
            assert(s[k] == a[k] && s[k + 1] == c[0]);
        } else {
            let j = k - a.len();
            assert(s[k] == c[j] && s[k + 1] == c[j + 1]);
        }
    }
    assert forall|k: int| 0 <= k < s.len() implies 0 <= (#[trigger] s[k]).range.start
        < s[k].range.end <= hi by {
        if k < a.len() {
            assert(s[k] == a[k]);
        } else {
            assert(s[k] == c[k - a.len()]);
        }
    }
}

fn fuse2_exec(a: PreToken, b: PreToken) -> (r: Option<Token>)
    ensures
        r == fuse2(a, b),
{
    match (a, b) {
        (PreToken::PLUS, PreToken::PLUS) => Some(Token::INC_OP),
        (PreToken::PLUS, PreToken::EQUAL) => Some(Token::ADD_ASSIGN),
        (PreToken::DASH, PreToken::DASH) => Some(Token::DEC_OP),
        (PreToken::DASH, PreToken::EQUAL) => Some(Token::SUB_ASSIGN),
        (PreToken::SLASH, PreToken::EQUAL) => Some(Token::DIV_ASSIGN),
        (PreToken::ASTERISK, PreToken::EQUAL) => Some(Token::MUL_ASSIGN),
        (PreToken::PERCENT, PreToken::EQUAL) => Some(Token::MOD_ASSIGN),
        (PreToken::LANGLE, PreToken::LANGLE) => Some(Token::LEFT_OP),
        (PreToken::LANGLE, PreToken::EQUAL) => Some(Token::LE_OP),
        (PreToken::RANGLE, PreToken::RANGLE) => Some(Token::RIGHT_OP),
        (PreToken::RANGLE, PreToken::EQUAL) => Some(Token::GE_OP),
        (PreToken::CARET, PreToken::CARET) => Some(Token::XOR_OP),
        (PreToken::CARET, PreToken::EQUAL) => Some(Token::XOR_ASSIGN),
        (PreToken::BAR, PreToken::BAR) => Some(Token::OR_OP),
        (PreToken::BAR, PreToken::EQUAL) => Some(Token::OR_ASSIGN),
        (PreToken::AMPERSAND, PreToken::AMPERSAND) => Some(Token::AND_OP),
        (PreToken::AMPERSAND, PreToken::EQUAL) => Some(Token::AND_ASSIGN),
        (PreToken::EQUAL, PreToken::EQUAL) => Some(Token::EQ_OP),
        (PreToken::BANG, PreToken::EQUAL) => Some(Token::NE_OP),
        (PreToken::HASH, PreToken::HASH) => Some(Token::PP_CONCAT),
        (PreToken::PERIOD, PreToken::DIGITS) => Some(Token::DIGITS),
        _ => None,
    }
}

fn fuse3_exec(a: PreToken, b: PreToken, c: PreToken) -> (r: Option<Token>)
    ensures
        r == fuse3(a, b, c),
{
    match (a, b, c) {
        (PreToken::LANGLE, PreToken::LANGLE, PreToken::EQUAL) => Some(Token::LEFT_ASSIGN),
        (PreToken::RANGLE, PreToken::RANGLE, PreToken::EQUAL) => Some(Token::RIGHT_ASSIGN),
        _ => None,
    }
}

/// Final stage lexer: wraps the pre-lexer and glues punctuation together into the longest
/// multi-character operator tokens.
#[derive(Debug)]
pub struct Lexer<'i> {
    input: PreLexer<'i>,
    /// Unglued tokens taken ahead: at most three tokens are glued and one is always
    /// returned, so two pending tokens are all there can be.
    buffer: ArrayVec<PreTextToken, 2>,
}

impl<'i> Lexer<'i> {
    /// The pre-tokens still to be glued, in order.
    pub closed spec fn pending(&self) -> Seq<PreTextToken> {
        top_down(buffered(self.buffer)) + self.input.rest()
    }

    /// The pre-tokens taken ahead and given back, in order.
    pub closed spec fn lookahead(&self) -> Seq<PreTextToken> {
        top_down(buffered(self.buffer))
    }

    /// Offset up to which the pre-lexer has read the source.
    pub closed spec fn offset(&self) -> int {
        self.input.offset()
    }

    /// The glued tokens still to come.
    pub open spec fn tokens(&self) -> Seq<TextToken> {
        glue(self.pending())
    }

    /// The bytes of the source text.
    pub closed spec fn source(&self) -> Seq<u8> {
        self.input.source()
    }

    /// The source text.
    pub closed spec fn text(&self) -> &'i str {
        self.input.text()
    }

    pub closed spec fn wf(&self) -> bool {
        &&& self.input.wf()
        &&& buffered(self.buffer).len() <= 2
        &&& forall|k: int|
            0 <= k < buffered(self.buffer).len() ==> (#[trigger] buffered(self.buffer)[k]).range.end
                <= self.input.offset()
        &&& ranges_ordered(self.pending(), 0, self.source().len() as int)
    }

    /// Every pending pre-token lies inside the source, in order.
    pub proof fn lemma_wf(&self)
        requires
            self.wf(),
        ensures
            ranges_ordered(self.pending(), 0, self.source().len() as int),
            self.source() == self.text().spec_bytes(),
            self.source().len() < u32::MAX,
    {
        self.input.lemma_wf();
    }

    pub fn new(input: &'i str) -> (r: Lexer<'i>)
        requires
            input.spec_bytes().len() < u32::MAX,
        ensures
            r.wf(),
            r.text() == input,
            r.source() == input.spec_bytes(),
            r.pending() == crate::pre::pre_tokens(input.spec_bytes(), 0, false),
    {
        let pre = PreLexer::new(input);
        let buffer = buffer_new();
        let r = Lexer { input: pre, buffer };
        proof {
            pre.lemma_wf();
            assert(top_down(buffered(buffer)) =~= Seq::<PreTextToken>::empty());
            assert(r.pending() =~= pre.rest());
        }
        r
    }

    /// The source text.
    pub fn input(&self) -> (r: &'i str)
        ensures
            r == self.text(),
    {
        self.input.input()
    }

    /// The map of the physical lines of the source.
    pub fn line_map(&self) -> (r: &LineMap)
        requires
            self.wf(),
        ensures
            r.wf(),
            r.starts() == line_starts(self.source(), self.source().len() as int),
    {
        self.input.line_map()
    }

    /// Consumes this lexer and returns the map of the physical lines of the source.
    pub fn into_line_map(self) -> (r: LineMap)
        requires
            self.wf(),
        ensures
            r.wf(),
            r.starts() == line_starts(self.source(), self.source().len() as int),
    {
        self.input.into_line_map()
    }

    /// Tells the lexer whether the next `<` starts an angle-quoted string, as in the path of
    /// an import directive. Tokens already taken ahead are kept.
    pub fn set_expect_angle_string(&mut self, expect_angle_string: bool)
        requires
            old(self).wf(),
        ensures
            final(self).wf(),
            final(self).source() == old(self).source(),
            final(self).text() == old(self).text(),
            final(self).pending() == old(self).lookahead() + crate::pre::pre_tokens(
                old(self).source(),
                old(self).offset(),
                expect_angle_string,
            ),
    {
        proof {
            self.input.lemma_wf();
        }
        self.input.set_expect_angle_string(expect_angle_string);
        proof {
            self.input.lemma_wf();
            let a = top_down(buffered(self.buffer));
            let old_p = a + old(self).input.rest();
            assert forall|k: int| 0 <= k < a.len() implies (#[trigger] a[k]) == old_p[k] by {}
            assert(ranges_ordered(a, 0, self.source().len() as int)) by {
                assert forall|k: int| #![trigger a[k], a[k + 1]] 0 <= k < a.len() - 1 implies a[k].range.end
                    <= a[k + 1].range.start by {
                    assert(a[k] == old_p[k] && a[k + 1] == old_p[k + 1]);
                }
                assert forall|k: int| 0 <= k < a.len() implies 0 <= (#[trigger] a[k]).range.start
                    < a[k].range.end <= self.source().len() by {
                    assert(a[k] == old_p[k]);
                }
            }
            let n = buffered(self.buffer).len();
            assert forall|k: int| 0 <= k < a.len() implies (#[trigger] a[k]).range.end
                <= self.input.offset() by {
                assert(a[k] == buffered(self.buffer)[n - 1 - k]);
            }
            lemma_ordered_concat(a, self.input.rest(), self.input.offset(), self.source().len() as int);
        }
    }

    /// Takes the next pre-token: from the lookahead buffer, else from the pre-lexer.
    fn pull(&mut self) -> (r: Option<PreTextToken>)
        requires
            old(self).wf(),
        ensures
            final(self).wf(),
            final(self).source() == old(self).source(),
            final(self).text() == old(self).text(),
            old(self).pending().len() == 0 ==> r is None && final(self).pending().len() == 0
                && buffered(final(self).buffer).len() == 0,
            old(self).pending().len() > 0 ==> r == Some(old(self).pending()[0])
                && final(self).pending() == old(self).pending().skip(1)
                && buffered(final(self).buffer).len() <= buffered(old(self).buffer).len()
                && (buffered(final(self).buffer).len() == buffered(old(self).buffer).len() - 1
                || (buffered(old(self).buffer).len() == 0 && buffered(final(self).buffer).len() == 0
                && r->0.range.end == final(self).input.offset())),
            r is Some ==> r->0.range.end <= final(self).input.offset(),
            final(self).input.offset() >= old(self).input.offset(),
    {
        let ghost old_p = self.pending();
        let ghost n = self.source().len() as int;
        proof {
            self.input.lemma_wf();
        }
        let popped = buffer_pop(&mut self.buffer);
        match popped {
            Some(t) => {
                proof {
                    let b0 = buffered(old(self).buffer);
                    assert(top_down(b0)[0] == t);
                    assert(top_down(buffered(self.buffer)) =~= top_down(b0).skip(1));
                    assert(self.pending() =~= old_p.skip(1));
                    lemma_ordered_skip(old_p, 0, n);
                    assert forall|k: int| 0 <= k < buffered(self.buffer).len() implies (
                    #[trigger] buffered(self.buffer)[k]).range.end <= self.input.offset() by {
                        assert(buffered(self.buffer)[k] == b0[k]);
                    }
                    assert(b0[b0.len() - 1] == t);
                }
                Some(t)
            },
            None => {
                let r = self.input.next();
                proof {
                    assert(top_down(buffered(self.buffer)) =~= Seq::<PreTextToken>::empty());
                    assert(old_p =~= old(self).input.rest());
                    assert(self.pending() =~= self.input.rest());
                    if old_p.len() > 0 {
                        lemma_ordered_skip(old_p, 0, n);
                        assert(old_p[0].range.start >= old(self).input.offset());
                    }
                }
                r
            },
        }
    }

    /// Gives back the pre-token just pulled.
    fn unpull(&mut self, t: PreTextToken)
        requires
            old(self).wf(),
            buffered(old(self).buffer).len() < 2,
            ranges_ordered(seq![t] + old(self).pending(), 0, old(self).source().len() as int),
            t.range.end <= old(self).input.offset(),
        ensures
            final(self).wf(),
            final(self).source() == old(self).source(),
            final(self).text() == old(self).text(),
            final(self).pending() == seq![t] + old(self).pending(),
            buffered(final(self).buffer).len() == buffered(old(self).buffer).len() + 1,
            final(self).input == old(self).input,
    {
        buffer_push(&mut self.buffer, t);
        proof {
            let b0 = buffered(old(self).buffer);
            let b1 = buffered(self.buffer);
            assert(top_down(b1) =~= seq![t] + top_down(b0));
            assert(self.pending() =~= seq![t] + old(self).pending());
            assert forall|k: int| 0 <= k < b1.len() implies (#[trigger] b1[k]).range.end
                <= self.input.offset() by {
                if k < b0.len() {
                    assert(b1[k] == b0[k]);
                }
            }
        }
    }

    /// Glues `token`, just pulled, with the next pre-token where the two form an operator.
    fn maybe_concat(&mut self, token: PreTextToken) -> (r: TextToken)
        requires
            old(self).wf(),
            ranges_ordered(seq![token] + old(self).pending(), 0, old(self).source().len() as int),
        ensures
            final(self).wf(),
            final(self).source() == old(self).source(),
            final(self).text() == old(self).text(),
            r == glue_pair(seq![token] + old(self).pending()).0,
            final(self).pending() == (seq![token] + old(self).pending()).skip(
                glue_pair(seq![token] + old(self).pending()).1,
            ),
    {
        let ghost p = seq![token] + self.pending();
        proof {
            assert(p[0] == token);
        }
        match self.pull() {
            Some(next_token) => {
                proof {
                    assert(p[1] == next_token);
                    assert(p.skip(2) =~= self.pending());
                }
                match fuse2_exec(token.kind, next_token.kind) {
                    Some(kind) => TextToken {
                        kind,
                        range: TextRange::new(token.range.start, next_token.range.end),
                    },
                    None => {
                        proof {
                            assert(seq![next_token] + self.pending() =~= old(self).pending());
                        }
                        self.unpull(next_token);
                        proof {
                            assert(p.skip(1) =~= self.pending());
                        }
                        token.transmute()
                    },
                }
            },
            None => {
                proof {
                    assert(p.skip(1) =~= self.pending());
                }
                token.transmute()
            },
        }
    }

    /// Glues `token`, just pulled, with the next two pre-tokens where the three form an
    /// operator, else as `maybe_concat` does.
    fn maybe_concat2(&mut self, token: PreTextToken) -> (r: TextToken)
        requires
            old(self).wf(),
            ranges_ordered(seq![token] + old(self).pending(), 0, old(self).source().len() as int),
        ensures
            final(self).wf(),
            final(self).source() == old(self).source(),
            final(self).text() == old(self).text(),
            r == glue_first(seq![token] + old(self).pending()).0,
            final(self).pending() == (seq![token] + old(self).pending()).skip(
                glue_first(seq![token] + old(self).pending()).1,
            ),
    {
        let ghost p = seq![token] + self.pending();
        let ghost p0 = self.pending();
        proof {
            assert(p[0] == token);
        }
        match self.pull() {
            Some(next_token) => {
                let ghost p1 = self.pending();
                proof {
                    assert(p[1] == next_token);
                }
                match self.pull() {
                    Some(after_token) => {
                        proof {
                            assert(p[2] == after_token);
                            assert(p.skip(3) =~= self.pending());
                        }
                        match fuse3_exec(token.kind, next_token.kind, after_token.kind) {
                            Some(kind) => {
                                proof {
                                    assert(p[0].range.end <= p[1].range.start);
                                    let one: int = 1;
                                    assert(p[one].range.end <= p[one + 1].range.start);
                                }
                                TextToken {
                                    kind,
                                    range: TextRange::new(token.range.start, after_token.range.end),
                                }
                            },
                            None => {
                                proof {
                                    assert(seq![after_token] + self.pending() =~= p1);
                                }
                                self.unpull(after_token);
                                proof {
                                    assert(seq![next_token] + self.pending() =~= p0);
                                }
                                self.unpull(next_token);
                                self.maybe_concat(token)
                            },
                        }
                    },
                    None => {
                        proof {
                            assert(seq![next_token] + self.pending() =~= p0);
                        }
                        self.unpull(next_token);
                        self.maybe_concat(token)
                    },
                }
            },
            None => {
                proof {
                    assert(p.skip(1) =~= self.pending());
                }
                token.transmute()
            },
        }
    }

    /// The next glued token, or `None` at the end of the source.
    pub fn next(&mut self) -> (r: Option<TextToken>)
        requires
            old(self).wf(),
        ensures
            final(self).wf(),
            final(self).source() == old(self).source(),
            final(self).text() == old(self).text(),
            old(self).pending().len() == 0 ==> r is None && final(self).pending().len() == 0,
            old(self).pending().len() > 0 ==> r == Some(glue_first(old(self).pending()).0)
                && final(self).pending() == old(self).pending().skip(
                glue_first(old(self).pending()).1,
            ),
            old(self).tokens() == match r {
                Some(t) => seq![t] + final(self).tokens(),
                None => Seq::<TextToken>::empty(),
            },
            r is Some ==> final(self).pending().len() < old(self).pending().len(),
    {
        let ghost p = self.pending();
        match self.pull() {
            Some(token) => {
                proof {
                    assert(p =~= seq![token] + self.pending());
                }
                let r = match token.kind {
                    PreToken::LANGLE | PreToken::RANGLE => self.maybe_concat2(token),
                    PreToken::PLUS | PreToken::DASH | PreToken::SLASH | PreToken::ASTERISK
                    | PreToken::PERCENT | PreToken::CARET | PreToken::BAR | PreToken::AMPERSAND
                    | PreToken::EQUAL | PreToken::BANG | PreToken::HASH | PreToken::PERIOD => {
                        self.maybe_concat(token)
                    },
                    _ => {
                        proof {
                            assert(p.skip(1) =~= self.pending());
                        }
                        token.transmute()
                    },
                };
                Some(r)
            },
            None => None,
        }
    }
}

} // verus!
