//! Token-level syntax of a source text, and the errors of processing one without a
//! filesystem.
use vstd::prelude::*;
use vstd::string::StringSliceAdditionalSpecFns;

use crate::glue::{glue, lemma_glue_cover, lemma_glue_ranges, text_ranges_cover, Lexer};
use crate::line_map::{line_starts, LineMap};
use crate::pre::pre_tokens;
use crate::token::TextToken;

verus! {

/// The token-level syntax of a source text: its glued tokens, whitespace and comments
/// included, and the map of its lines.
#[derive(Debug, Clone)]
pub struct Ast {
    pub tokens: Vec<TextToken>,
    pub line_map: LineMap,
}

/// The glued tokens of a source text.
pub open spec fn tokens_of(input: &str) -> Seq<TextToken> {
    glue(pre_tokens(input.spec_bytes(), 0, false))
}

/// Splits a source text into its tokens.
pub fn parse(input: &str) -> (r: Ast)
    requires
        input.spec_bytes().len() < u32::MAX,
    ensures
        r.tokens@ == tokens_of(input),
        r.line_map.wf(),
        r.line_map.starts() == line_starts(input.spec_bytes(), input.spec_bytes().len() as int),
{
    let mut lexer = Lexer::new(input);
    let mut tokens: Vec<TextToken> = Vec::new();
    loop
        invariant
            lexer.wf(),
            lexer.source() == input.spec_bytes(),
            tokens@ + lexer.tokens() == tokens_of(input),
        decreases lexer.pending().len(),
    {
        match lexer.next() {
            Some(t) => {
                proof {
                    assert(tokens@.push(t) + lexer.tokens() =~= tokens@ + (seq![t]
                        + lexer.tokens()));
                }
                tokens.push(t);
            },
            None => {
                proof {
                    assert(tokens@ =~= tokens_of(input));
                }
                let line_map = lexer.into_line_map();
                return Ast { tokens, line_map };
            },
        }
    }
}

/// Every token of a source text is a non-empty range of its bytes, and the tokens lie end
/// to end over the whole text: nothing of it, whitespace, comments and line continuations
/// included, is left out of the tokens.
pub proof fn lemma_tokens_in_source(input: &str)
    requires
        input.spec_bytes().len() < u32::MAX,
    ensures
        forall|k: int|
            0 <= k < tokens_of(input).len() ==> 0 <= (#[trigger] tokens_of(input)[k]).range.start
                < tokens_of(input)[k].range.end <= input.spec_bytes().len(),
        forall|k: int|
            #![trigger tokens_of(input)[k], tokens_of(input)[k + 1]]
            0 <= k < tokens_of(input).len() - 1 ==> tokens_of(input)[k].range.end <= tokens_of(
                input,
            )[k + 1].range.start,
        text_ranges_cover(tokens_of(input), 0, input.spec_bytes().len() as int),
{
    let b = input.spec_bytes();
    crate::pre::lemma_pre_tokens_ranges(b, 0, false);
    lemma_glue_ranges(pre_tokens(b, 0, false), 0, b.len() as int);
    lemma_glue_cover(pre_tokens(b, 0, false), 0, 0, b.len() as int);
}

/// How an import path was quoted.
#[derive(Debug, Clone, Copy, PartialEq, Eq, Structural)]
pub enum PathType {
    Angle,
    Quote,
}

/// An import path as written in a directive.
#[derive(Debug, Clone, PartialEq, Eq)]
pub struct ParsedPath {
    pub path: String,
    pub ty: PathType,
}

/// Error of processing a string without a filesystem.
#[derive(Debug, Clone, PartialEq, Eq)]
pub enum ProcessStrError {
    /// An import was requested without a filesystem context.
    ImportRequested(ParsedPath),
}

impl ProcessStrError {
    /// The message of this error.
    pub fn message(&self) -> (r: String)
        ensures
            r@ == "an import was requested without a filesystem context"@,
    {
        String::from_str("an import was requested without a filesystem context")
    }
}

} // verus!
