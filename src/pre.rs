use vstd::prelude::*;

use vstd::string::StringSliceAdditionalSpecFns;
use crate::line_map::{line_starts, LineMap};
use crate::text::TextRange;
use crate::token::{PreTextToken, PreToken};

verus! {

/// Character classes that form runs of one token.
#[derive(Debug, Clone, Copy, PartialEq, Eq, Structural)]
pub enum Run {
    Ident,
    Digits,
    Space,
    High,
}

pub open spec fn is_alpha(c: u8) -> bool {
    (97u8 <= c && c <= 122u8) || (65u8 <= c && c <= 90u8) || c == 95u8
}

pub open spec fn is_digit(c: u8) -> bool {
    48u8 <= c && c <= 57u8
}

pub open spec fn is_space(c: u8) -> bool {
    c == 32u8 || c == 9u8 || c == 11u8 || c == 12u8
}

pub open spec fn is_newline(c: u8) -> bool {
    c == 10u8 || c == 13u8
}

pub open spec fn in_run(class: Run, c: u8) -> bool {
    match class {
        Run::Ident => is_alpha(c) || is_digit(c),
        Run::Digits => is_digit(c),
        Run::Space => is_space(c),
        Run::High => c >= 128,
    }
}

/// Length of the line continuation (a backslash and one newline sequence) at `i`, or 0.
pub open spec fn cont_len(b: Seq<u8>, i: int) -> int {
    if 0 <= i < b.len() && b[i] == 92u8 {
        if i + 2 < b.len() && ((b[i + 1] == 13u8 && b[i + 2] == 10u8) || (b[i + 1] == 10u8
            && b[i + 2] == 13u8)) {
            3
        } else if i + 1 < b.len() && is_newline(b[i + 1]) {
            2
        } else {
            0
        }
    } else {
        0
    }
}

/// The first offset at or after `i` that does not start a line continuation.
pub open spec fn skip_conts(b: Seq<u8>, i: int) -> int
    decreases b.len() - i,
{
    if 0 <= i < b.len() && cont_len(b, i) > 0 {
        skip_conts(b, i + cont_len(b, i))
    } else {
        i
    }
}

/// End of the run of `class` characters from `j`, through line continuations that are
/// followed by more of the run.
pub open spec fn run_end(b: Seq<u8>, j: int, class: Run) -> int
    decreases b.len() - j,
{
    if j < 0 || j >= b.len() {
        j
    } else if in_run(class, b[j]) {
        run_end(b, j + 1, class)
    } else if cont_len(b, j) > 0 {
        let e = run_end(b, j + cont_len(b, j), class);
        if e > j + cont_len(b, j) {
            e
        } else {
            j
        }
    } else {
        j
    }
}

/// End of a quoted text from `j`: just past `stop`, or at the end of the line.
pub open spec fn quoted_end(b: Seq<u8>, j: int, stop: u8) -> int
    decreases b.len() - j,
{
    if j < 0 || j >= b.len() || is_newline(b[j]) {
        j
    } else if b[j] == stop {
        j + 1
    } else {
        quoted_end(b, j + 1, stop)
    }
}

/// End of a line comment: the next newline byte that no backslash continues, or the end
/// of the input.
pub open spec fn line_end(b: Seq<u8>, j: int) -> int
    decreases b.len() - j,
{
    if j < 0 || j >= b.len() {
        j
    } else if cont_len(b, j) > 0 {
        line_end(b, j + cont_len(b, j))
    } else if is_newline(b[j]) {
        j
    } else {
        line_end(b, j + 1)
    }
}

/// End of a block comment: just past the next `*/`, or the end of the input.
pub open spec fn block_end(b: Seq<u8>, j: int) -> int
    decreases b.len() - j,
{
    if j < 0 || j >= b.len() {
        b.len() as int
    } else if j + 1 < b.len() && b[j] == 42u8 && b[j + 1] == 47u8 {
        j + 2
    } else {
        block_end(b, j + 1)
    }
}

/// The single-character token of a byte.
pub open spec fn punct(c: u8) -> PreToken {
    if c == 46u8 {
        PreToken::PERIOD
    } else if c == 43u8 {
        PreToken::PLUS
    } else if c == 45u8 {
        PreToken::DASH
    } else if c == 47u8 {
        PreToken::SLASH
    } else if c == 42u8 {
        PreToken::ASTERISK
    } else if c == 37u8 {
        PreToken::PERCENT
    } else if c == 60u8 {
        PreToken::LANGLE
    } else if c == 62u8 {
        PreToken::RANGLE
    } else if c == 91u8 {
        PreToken::LBRACKET
    } else if c == 93u8 {
        PreToken::RBRACKET
    } else if c == 40u8 {
        PreToken::LPAREN
    } else if c == 41u8 {
        PreToken::RPAREN
    } else if c == 123u8 {
        PreToken::LBRACE
    } else if c == 125u8 {
        PreToken::RBRACE
    } else if c == 94u8 {
        PreToken::CARET
    } else if c == 124u8 {
        PreToken::BAR
    } else if c == 38u8 {
        PreToken::AMPERSAND
    } else if c == 126u8 {
        PreToken::TILDE
    } else if c == 61u8 {
        PreToken::EQUAL
    } else if c == 33u8 {
        PreToken::BANG
    } else if c == 58u8 {
        PreToken::COLON
    } else if c == 59u8 {
        PreToken::SEMICOLON
    } else if c == 44u8 {
        PreToken::COMMA
    } else if c == 63u8 {
        PreToken::QUESTION
    } else if c == 35u8 {
        PreToken::HASH
    } else if c == 92u8 {
        PreToken::BACKSLASH
    } else {
        PreToken::ERROR
    }
}

/// Kind and end offset of the token that starts at `s` (which starts no line continuation).
#[verifier::opaque]
pub open spec fn token_at(b: Seq<u8>, s: int, angle: bool) -> (PreToken, int) {
    let c = b[s];
    if is_alpha(c) {
        (PreToken::IDENT_KW, run_end(b, s + 1, Run::Ident))
    } else if is_digit(c) {
        (PreToken::DIGITS, run_end(b, s + 1, Run::Digits))
    } else if is_space(c) {
        (PreToken::WS, run_end(b, s + 1, Run::Space))
    } else if c >= 128 {
        (PreToken::ERROR, run_end(b, s + 1, Run::High))
    } else if c == 10u8 {
        (PreToken::NEWLINE, s + 1)
    } else if c == 13u8 {
        (PreToken::NEWLINE, if s + 1 < b.len() && b[s + 1] == 10u8 { s + 2 } else { s + 1 })
    } else if c == 47u8 && s + 1 < b.len() && b[s + 1] == 47u8 {
        (PreToken::COMMENT, line_end(b, s + 2))
    } else if c == 47u8 && s + 1 < b.len() && b[s + 1] == 42u8 {
        (PreToken::COMMENT, block_end(b, s + 2))
    } else if c == 34u8 {
        (PreToken::QUOTE_STRING, quoted_end(b, s + 1, 34u8))
    } else if c == 60u8 && angle {
        (PreToken::ANGLE_STRING, quoted_end(b, s + 1, 62u8))
    } else {
        (punct(c), s + 1)
    }
}

/// The pre-tokens of `b` from offset `i` on, with `<` opening an angle string iff `angle`.
/// Line continuations before a token belong to it; continuations at the very end form a
/// blank token, so that the tokens cover the input.
pub open spec fn pre_tokens(b: Seq<u8>, i: int, angle: bool) -> Seq<PreTextToken>
    decreases b.len() - i,
{
    let s = skip_conts(b, i);
    if i < 0 || i >= b.len() || s < i {
        Seq::empty()
    } else if s >= b.len() {
        seq![PreTextToken { kind: PreToken::WS, range: TextRange { start: #[verifier::truncate] (i as u32), end: #[verifier::truncate] (b.len() as u32) } }]
    } else {
        let (k, e) = token_at(b, s, angle);
        if e <= s || e > b.len() {
            Seq::empty()
        } else {
            seq![PreTextToken { kind: k, range: TextRange { start: #[verifier::truncate] (i as u32), end: #[verifier::truncate] (e as u32) } }]
                + pre_tokens(b, e, angle)
        }
    }
}

proof fn lemma_skip_conts_bounds(b: Seq<u8>, i: int)
    requires
        0 <= i <= b.len(),
    ensures
        i <= skip_conts(b, i) <= b.len(),
        skip_conts(b, i) < b.len() ==> cont_len(b, skip_conts(b, i)) == 0,
    decreases b.len() - i,
{
    if i < b.len() && cont_len(b, i) > 0 {
        lemma_skip_conts_bounds(b, i + cont_len(b, i));
    }
}

proof fn lemma_run_end_bounds(b: Seq<u8>, j: int, class: Run)
    requires
        0 <= j <= b.len(),
    ensures
        j <= run_end(b, j, class) <= b.len(),
    decreases b.len() - j,
{
    if j < b.len() {
        if in_run(class, b[j]) {
            lemma_run_end_bounds(b, j + 1, class);
        } else if cont_len(b, j) > 0 {
            lemma_run_end_bounds(b, j + cont_len(b, j), class);
        }
    }
}

proof fn lemma_quoted_end_bounds(b: Seq<u8>, j: int, stop: u8)
    requires
        0 <= j <= b.len(),
    ensures
        j <= quoted_end(b, j, stop) <= b.len(),
        j <= block_end(b, j) <= b.len(),
    decreases b.len() - j,
{
    if j < b.len() {
        lemma_quoted_end_bounds(b, j + 1, stop);
    }
}

proof fn lemma_line_end_bounds(b: Seq<u8>, j: int)
    requires
        0 <= j <= b.len(),
    ensures
        j <= line_end(b, j) <= b.len(),
    decreases b.len() - j,
{
    if j < b.len() {
        if cont_len(b, j) > 0 {
            lemma_line_end_bounds(b, j + cont_len(b, j));
        } else {
            lemma_line_end_bounds(b, j + 1);
        }
    }
}

proof fn lemma_token_at_bounds(b: Seq<u8>, s: int, angle: bool)
    requires
        0 <= s < b.len(),
    ensures
        s < token_at(b, s, angle).1 <= b.len(),
{
    reveal(token_at);
    lemma_run_end_bounds(b, s + 1, Run::Ident);
    lemma_run_end_bounds(b, s + 1, Run::Digits);
    lemma_run_end_bounds(b, s + 1, Run::Space);
    lemma_run_end_bounds(b, s + 1, Run::High);
    lemma_quoted_end_bounds(b, s + 1, 34u8);
    lemma_quoted_end_bounds(b, s + 1, 62u8);
    if s + 2 <= b.len() {
        lemma_quoted_end_bounds(b, s + 2, 0u8);
        lemma_line_end_bounds(b, s + 2);
    }
}

/// Tokens lie in `[lo, hi)`, are not empty, and each starts at or after the end of the one
/// before it.
pub open spec fn ranges_ordered(ts: Seq<PreTextToken>, lo: int, hi: int) -> bool {
    &&& forall|k: int|
        0 <= k < ts.len() ==> lo <= (#[trigger] ts[k]).range.start < ts[k].range.end <= hi
    &&& forall|k: int|
        #![trigger ts[k], ts[k + 1]]
        0 <= k < ts.len() - 1 ==> ts[k].range.end <= ts[k + 1].range.start
}

/// Tokens lie end to end from `lo` to `hi`: the first starts at `lo`, each ends where the
/// next starts, and the last ends at `hi` (no token when `lo == hi`).
pub open spec fn ranges_cover(ts: Seq<PreTextToken>, lo: int, hi: int) -> bool {
    &&& ts.len() == 0 ==> lo == hi
    &&& ts.len() > 0 ==> ts[0].range.start == lo && ts.last().range.end == hi
    &&& forall|k: int|
        #![trigger ts[k], ts[k + 1]]
        0 <= k < ts.len() - 1 ==> ts[k].range.end == ts[k + 1].range.start
}

/// Every pre-token lies inside the input and is not empty, and the tokens lie end to end
/// from `i` to the end of the input.
pub proof fn lemma_pre_tokens_ranges(b: Seq<u8>, i: int, angle: bool)
    requires
        0 <= i <= b.len(),
        b.len() <= u32::MAX,
    ensures
        ranges_ordered(pre_tokens(b, i, angle), i, b.len() as int),
        ranges_cover(pre_tokens(b, i, angle), i, b.len() as int),
    decreases b.len() - i,
{
    lemma_skip_conts_bounds(b, i);
    let s = skip_conts(b, i);
    let all = pre_tokens(b, i, angle);
    if i >= b.len() {
        assert(all.len() == 0);
    } else if s >= b.len() {
        let t0 = PreTextToken {
            kind: PreToken::WS,
            range: TextRange { start: i as u32, end: b.len() as u32 },
        };
        assert(all == seq![t0]);
    } else {
        lemma_token_at_bounds(b, s, angle);
        let (k0, e) = token_at(b, s, angle);
        lemma_pre_tokens_ranges(b, e, angle);
        let rest = pre_tokens(b, e, angle);
        let t0 = PreTextToken { kind: k0, range: TextRange { start: i as u32, end: e as u32 } };
        assert(all == seq![t0] + rest);
        assert forall|k: int| 0 < k < all.len() implies #[trigger] all[k] == rest[k - 1] by {}
        assert(ranges_ordered(all, i, b.len() as int)) by {
            assert forall|k: int| #![trigger all[k], all[k + 1]] 0 <= k < all.len() - 1 implies all[k].range.end
                <= all[k + 1].range.start by {
                if k > 0 {
                    let j = k - 1;
                    assert(all[k] == rest[j]);
                    assert(all[k + 1] == rest[j + 1]);
                    assert(rest[j].range.end <= rest[j + 1].range.start);
                } else {
                    assert(all[0] == t0);
                    assert(all[1] == rest[0]);
                }
            }
            assert forall|k: int| 0 <= k < all.len() implies i <= (#[trigger] all[k]).range.start
                < all[k].range.end <= b.len() by {
                if k > 0 {
                    assert(all[k] == rest[k - 1]);
                }
            }
        }
        assert(ranges_cover(all, i, b.len() as int)) by {
            assert forall|k: int| #![trigger all[k], all[k + 1]] 0 <= k < all.len() - 1 implies all[k].range.end
                == all[k + 1].range.start by {
                if k > 0 {
                    let j = k - 1;
                    assert(all[k] == rest[j]);
                    assert(all[k + 1] == rest[j + 1]);
                    assert(rest[j].range.end == rest[j + 1].range.start);
                } else {
                    assert(all[0] == t0);
                    assert(all[1] == rest[0]);
                }
            }
            if rest.len() > 0 {
                assert(all.last() == rest.last());
            }
        }
    }
}

fn cont_len_exec(b: &[u8], i: usize) -> (r: usize)
    requires
        i <= b@.len(),
    ensures
        r == cont_len(b@, i as int),
{
    let n = b.len();
    if i < n && b[i] == 92u8 {
        if n - i > 2 && ((b[i + 1] == 13u8 && b[i + 2] == 10u8) || (b[i + 1] == 10u8 && b[i + 2]
            == 13u8)) {
            3
        } else if n - i > 1 && (b[i + 1] == 10u8 || b[i + 1] == 13u8) {
            2
        } else {
            0
        }
    } else {
        0
    }
}

fn skip_conts_exec(b: &[u8], i: usize) -> (r: usize)
    requires
        i <= b@.len(),
    ensures
        r == skip_conts(b@, i as int),
{
    let mut j = i;
    loop
        invariant
            i <= j <= b@.len(),
            skip_conts(b@, j as int) == skip_conts(b@, i as int),
        decreases b@.len() - j,
    {
        let c = cont_len_exec(b, j);
        if j < b.len() && c > 0 {
            j = j + c;
        } else {
            return j;
        }
    }
}

fn in_run_exec(class: Run, c: u8) -> (r: bool)
    ensures
        r == in_run(class, c),
{
    match class {
        Run::Ident => (97u8 <= c && c <= 122u8) || (65u8 <= c && c <= 90u8) || c == 95u8 || (48u8
            <= c && c <= 57u8),
        Run::Digits => 48u8 <= c && c <= 57u8,
        Run::Space => c == 32u8 || c == 9u8 || c == 11u8 || c == 12u8,
        Run::High => c >= 128u8,
    }
}

fn run_end_exec(b: &[u8], j0: usize, class: Run) -> (r: usize)
    requires
        j0 <= b@.len(),
    ensures
        r == run_end(b@, j0 as int, class),
{
    proof {
        lemma_run_end_bounds(b@, j0 as int, class);
    }
    let mut j = j0;
    let mut last = j0;
    loop
        invariant
            j0 <= last <= j <= b@.len(),
            run_end(b@, j0 as int, class) == (if run_end(b@, j as int, class) > j {
                run_end(b@, j as int, class)
            } else {
                last as int
            }),
        decreases b@.len() - j,
    {
        if j >= b.len() {
            return last;
        }
        let c = cont_len_exec(b, j);
        if in_run_exec(class, b[j]) {
            proof {
                lemma_run_end_bounds(b@, j + 1, class);
            }
            j = j + 1;
            last = j;
        } else if c > 0 {
            proof {
                lemma_run_end_bounds(b@, j + c, class);
            }
            j = j + c;
        } else {
            return last;
        }
    }
}

fn quoted_end_exec(b: &[u8], j0: usize, stop: u8) -> (r: usize)
    requires
        j0 <= b@.len(),
    ensures
        r == quoted_end(b@, j0 as int, stop),
{
    let mut j = j0;
    loop
        invariant
            j0 <= j <= b@.len(),
            quoted_end(b@, j as int, stop) == quoted_end(b@, j0 as int, stop),
        decreases b@.len() - j,
    {
        if j >= b.len() || b[j] == 10u8 || b[j] == 13u8 {
            return j;
        } else if b[j] == stop {
            return j + 1;
        }
        j = j + 1;
    }
}

fn line_end_exec(b: &[u8], j0: usize) -> (r: usize)
    requires
        j0 <= b@.len(),
    ensures
        r == line_end(b@, j0 as int),
{
    let mut j = j0;
    loop
        invariant
            j0 <= j <= b@.len(),
            line_end(b@, j as int) == line_end(b@, j0 as int),
        decreases b@.len() - j,
    {
        if j >= b.len() {
            return j;
        }
        let c = cont_len_exec(b, j);
        if c > 0 {
            j = j + c;
        } else if b[j] == 10u8 || b[j] == 13u8 {
            return j;
        } else {
            j = j + 1;
        }
    }
}

fn block_end_exec(b: &[u8], j0: usize) -> (r: usize)
    requires
        j0 <= b@.len(),
    ensures
        r == block_end(b@, j0 as int),
{
    let mut j = j0;
    loop
        invariant
            j0 <= j <= b@.len(),
            block_end(b@, j as int) == block_end(b@, j0 as int),
        decreases b@.len() - j,
    {
        if j >= b.len() {
            return j;
        } else if j + 1 < b.len() && b[j] == 42u8 && b[j + 1] == 47u8 {
            return j + 2;
        }
        j = j + 1;
    }
}

fn punct_exec(c: u8) -> (r: PreToken)
    ensures
        r == punct(c),
{
    if c == 46u8 {
        PreToken::PERIOD
    } else if c == 43u8 {
        PreToken::PLUS
    } else if c == 45u8 {
        PreToken::DASH
    } else if c == 47u8 {
        PreToken::SLASH
    } else if c == 42u8 {
        PreToken::ASTERISK
    } else if c == 37u8 {
        PreToken::PERCENT
    } else if c == 60u8 {
        PreToken::LANGLE
    } else if c == 62u8 {
        PreToken::RANGLE
    } else if c == 91u8 {
        PreToken::LBRACKET
    } else if c == 93u8 {
        PreToken::RBRACKET
    } else if c == 40u8 {
        PreToken::LPAREN
    } else if c == 41u8 {
        PreToken::RPAREN
    } else if c == 123u8 {
        PreToken::LBRACE
    } else if c == 125u8 {
        PreToken::RBRACE
    } else if c == 94u8 {
        PreToken::CARET
    } else if c == 124u8 {
        PreToken::BAR
    } else if c == 38u8 {
        PreToken::AMPERSAND
    } else if c == 126u8 {
        PreToken::TILDE
    } else if c == 61u8 {
        PreToken::EQUAL
    } else if c == 33u8 {
        PreToken::BANG
    } else if c == 58u8 {
        PreToken::COLON
    } else if c == 59u8 {
        PreToken::SEMICOLON
    } else if c == 44u8 {
        PreToken::COMMA
    } else if c == 63u8 {
        PreToken::QUESTION
    } else if c == 35u8 {
        PreToken::HASH
    } else if c == 92u8 {
        PreToken::BACKSLASH
    } else {
        PreToken::ERROR
    }
}

fn token_at_exec(b: &[u8], s: usize, angle: bool) -> (r: (PreToken, usize))
    requires
        s < b@.len(),
    ensures
        r.0 == token_at(b@, s as int, angle).0,
        r.1 == token_at(b@, s as int, angle).1,
{
    reveal(token_at);
    let c = b[s];
    let n = b.len();
    if (97u8 <= c && c <= 122u8) || (65u8 <= c && c <= 90u8) || c == 95u8 {
        (PreToken::IDENT_KW, run_end_exec(b, s + 1, Run::Ident))
    } else if 48u8 <= c && c <= 57u8 {
        (PreToken::DIGITS, run_end_exec(b, s + 1, Run::Digits))
    } else if c == 32u8 || c == 9u8 || c == 11u8 || c == 12u8 {
        (PreToken::WS, run_end_exec(b, s + 1, Run::Space))
    } else if c >= 128u8 {
        (PreToken::ERROR, run_end_exec(b, s + 1, Run::High))
    } else if c == 10u8 {
        (PreToken::NEWLINE, s + 1)
    } else if c == 13u8 {
        if s + 1 < n && b[s + 1] == 10u8 {
            (PreToken::NEWLINE, s + 2)
        } else {
            (PreToken::NEWLINE, s + 1)
        }
    } else if c == 47u8 && s + 1 < n && b[s + 1] == 47u8 {
        (PreToken::COMMENT, line_end_exec(b, s + 2))
    } else if c == 47u8 && s + 1 < n && b[s + 1] == 42u8 {
        (PreToken::COMMENT, block_end_exec(b, s + 2))
    } else if c == 34u8 {
        (PreToken::QUOTE_STRING, quoted_end_exec(b, s + 1, 34u8))
    } else if c == 60u8 && angle {
        (PreToken::ANGLE_STRING, quoted_end_exec(b, s + 1, 62u8))
    } else {
        (punct_exec(c), s + 1)
    }
}

/// First lexing stage: splits a source text into pre-tokens, eliding line continuations.
#[derive(Debug, Clone)]
pub struct PreLexer<'i> {
    input: &'i str,
    bytes: &'i [u8],
    pos: usize,
    expect_angle_string: bool,
    line_map: LineMap,
}

impl<'i> PreLexer<'i> {
    /// The bytes of the source text.
    pub closed spec fn source(&self) -> Seq<u8> {
        self.bytes@
    }

    /// Offset up to which the source has been lexed.
    pub closed spec fn offset(&self) -> int {
        self.pos as int
    }

    /// Whether a `<` opens an angle string.
    pub closed spec fn angle(&self) -> bool {
        self.expect_angle_string
    }

    /// The pre-tokens that are still to come.
    pub open spec fn rest(&self) -> Seq<PreTextToken> {
        pre_tokens(self.source(), self.offset(), self.angle())
    }

    pub closed spec fn wf(&self) -> bool {
        &&& self.bytes@ == self.input.spec_bytes()
        &&& self.bytes@.len() < u32::MAX
        &&& self.pos <= self.bytes@.len()
        &&& self.line_map.wf()
        &&& self.line_map.starts() == line_starts(self.bytes@, self.bytes@.len() as int)
    }

    /// The source text.
    pub closed spec fn text(&self) -> &'i str {
        self.input
    }

    /// The pre-tokens still to come lie in order between the offset read so far and the end
    /// of the source.
    pub proof fn lemma_wf(&self)
        requires
            self.wf(),
        ensures
            0 <= self.offset() <= self.source().len() < u32::MAX,
            self.source() == self.text().spec_bytes(),
            ranges_ordered(self.rest(), self.offset(), self.source().len() as int),
    {
        lemma_pre_tokens_ranges(self.bytes@, self.pos as int, self.expect_angle_string);
    }

    pub fn new(input: &'i str) -> (r: PreLexer<'i>)
        requires
            input.spec_bytes().len() < u32::MAX,
        ensures
            r.wf(),
            r.text() == input,
            r.source() == input.spec_bytes(),
            r.offset() == 0,
            !r.angle(),
    {
        let bytes = input.as_bytes();
        let line_map = LineMap::of_bytes(bytes);
        PreLexer { input, bytes, pos: 0, expect_angle_string: false, line_map }
    }

    /// The source text.
    pub fn input(&self) -> (r: &'i str)
        ensures
            r == self.text(),
    {
        self.input
    }

    /// The map of the physical lines of the source.
    pub fn line_map(&self) -> (r: &LineMap)
        requires
            self.wf(),
        ensures
            r.wf(),
            r.starts() == line_starts(self.source(), self.source().len() as int),
    {
        &self.line_map
    }

    /// Consumes the lexer and returns the map of the physical lines of the source.
    pub fn into_line_map(self) -> (r: LineMap)
        requires
            self.wf(),
        ensures
            r.wf(),
            r.starts() == line_starts(self.source(), self.source().len() as int),
    {
        self.line_map
    }

    /// Sets whether the next `<` opens an angle string (for the path of an import directive).
    pub fn set_expect_angle_string(&mut self, expect_angle_string: bool)
        requires
            old(self).wf(),
        ensures
            final(self).wf(),
            final(self).angle() == expect_angle_string,
            final(self).source() == old(self).source(),
            final(self).offset() == old(self).offset(),
            final(self).text() == old(self).text(),
    {
        self.expect_angle_string = expect_angle_string;
    }

    /// The next pre-token, or `None` at the end of the source.
    pub fn next(&mut self) -> (r: Option<PreTextToken>)
        requires
            old(self).wf(),
        ensures
            final(self).wf(),
            final(self).source() == old(self).source(),
            final(self).angle() == old(self).angle(),
            final(self).text() == old(self).text(),
            old(self).rest().len() == 0 ==> r is None && final(self).rest().len() == 0
                && final(self).offset() == old(self).offset(),
            old(self).rest().len() > 0 ==> r == Some(old(self).rest()[0]) && final(self).rest()
                == old(self).rest().skip(1) && final(self).offset() == r->0.range.end,
    {
        let ghost b = self.bytes@;
        let ghost old_rest = self.rest();
        proof {
            lemma_skip_conts_bounds(b, self.pos as int);
        }
        let i = self.pos;
        let n = self.bytes.len();
        if i >= n {
            return None;
        }
        let s = skip_conts_exec(self.bytes, i);
        if s >= n {
            self.pos = n;
            let t = PreTextToken { kind: PreToken::WS, range: TextRange::new(i as u32, n as u32) };
            proof {
                assert(old_rest == seq![t]);
                assert(old_rest.skip(1) =~= Seq::<PreTextToken>::empty());
            }
            return Some(t);
        }
        let (kind, e) = token_at_exec(self.bytes, s, self.expect_angle_string);
        proof {
            lemma_token_at_bounds(b, s as int, self.expect_angle_string);
        }
        self.pos = e;
        let t = PreTextToken { kind, range: TextRange::new(i as u32, e as u32) };
        proof {
            let tail = pre_tokens(b, e as int, self.expect_angle_string);
            assert(old_rest == seq![t] + tail);
            assert(old_rest.skip(1) =~= tail);
        }
        Some(t)
    }
}

} // verus!
