//! Errors of the preprocessor's parser, with their positions and messages.
use vstd::prelude::*;

use crate::conditional::ConditionalError;
use crate::line_map::{line_and_col, LineMap};
use crate::processor::FileId;
use crate::text::TextRange;
use crate::token::{token_name, Token};
use crate::unescaped::{chars_of, string_of_chars};

verus! {

/// The character of a decimal digit.
pub open spec fn digit_char(d: nat) -> char {
    if d == 0 {
        '0'
    } else if d == 1 {
        '1'
    } else if d == 2 {
        '2'
    } else if d == 3 {
        '3'
    } else if d == 4 {
        '4'
    } else if d == 5 {
        '5'
    } else if d == 6 {
        '6'
    } else if d == 7 {
        '7'
    } else if d == 8 {
        '8'
    } else {
        '9'
    }
}

/// The decimal notation of `n`.
pub open spec fn decimal(n: nat) -> Seq<char>
    decreases n,
{
    if n < 10 {
        seq![digit_char(n)]
    } else {
        decimal(n / 10) + seq![digit_char(n % 10)]
    }
}

/// The names of `ts`, separated by `, `.
pub open spec fn joined(ts: Seq<Token>) -> Seq<char>
    decreases ts.len(),
{
    if ts.len() == 0 {
        Seq::empty()
    } else if ts.len() == 1 {
        token_name(ts[0])
    } else {
        joined(ts.drop_last()) + ", "@ + token_name(ts.last())
    }
}

/// A list of tokens as diagnostics print it: `[A, B]`.
pub open spec fn list_text(ts: Seq<Token>) -> Seq<char> {
    "["@ + joined(ts) + "]"@
}

fn push_str(v: &mut Vec<char>, s: &str)
    ensures
        final(v)@ == old(v)@ + s@,
{
    let c = chars_of(s);
    let mut i: usize = 0;
    while i < c.len()
        invariant
            i <= c@.len(),
            c@ == s@,
            v@ == old(v)@ + c@.subrange(0, i as int),
        decreases c@.len() - i,
    {
        v.push(c[i]);
        i = i + 1;
        proof {
            assert(v@ =~= old(v)@ + c@.subrange(0, i as int));
        }
    }
    proof {
        assert(c@.subrange(0, i as int) =~= c@);
    }
}

fn digit_exec(d: u32) -> (r: char)
    requires
        d < 10,
    ensures
        r == digit_char(d as nat),
{
    if d == 0 {
        '0'
    } else if d == 1 {
        '1'
    } else if d == 2 {
        '2'
    } else if d == 3 {
        '3'
    } else if d == 4 {
        '4'
    } else if d == 5 {
        '5'
    } else if d == 6 {
        '6'
    } else if d == 7 {
        '7'
    } else if d == 8 {
        '8'
    } else {
        '9'
    }
}

pub(crate) fn push_decimal(v: &mut Vec<char>, n: u32)
    ensures
        final(v)@ == old(v)@ + decimal(n as nat),
    decreases n,
{
    if n < 10 {
        v.push(digit_exec(n));
    } else {
        push_decimal(v, n / 10);
        v.push(digit_exec(n % 10));
        proof {
            assert(final(v)@ =~= old(v)@ + decimal(n as nat));
        }
    }
}

fn push_list(v: &mut Vec<char>, ts: &Vec<Token>)
    ensures
        final(v)@ == old(v)@ + list_text(ts@),
{
    push_str(v, "[");
    let mut i: usize = 0;
    while i < ts.len()
        invariant
            i <= ts@.len(),
            v@ == old(v)@ + "["@ + joined(ts@.subrange(0, i as int)),
        decreases ts@.len() - i,
    {
        let ghost before = v@;
        if i > 0 {
            push_str(v, ", ");
        }
        push_str(v, ts[i].name());
        proof {
            let p = ts@.subrange(0, i as int + 1);
            assert(p.drop_last() =~= ts@.subrange(0, i as int));
            if i == 0 {
                assert(joined(ts@.subrange(0, 0)) =~= Seq::<char>::empty());
            }
            assert(v@ =~= old(v)@ + "["@ + joined(p));
        }
        i = i + 1;
    }
    push_str(v, "]");
    proof {
        assert(ts@.subrange(0, i as int) =~= ts@);
        assert(v@ =~= old(v)@ + list_text(ts@));
    }
}

/// What went wrong.
#[derive(Debug, Clone, PartialEq, Eq)]
pub enum ErrorKind {
    UnknownPreprocessorDirective { name: String },
    ExtraTokensInPreprocessorDirective,
    UnexpectedTokensInDefineArgs,
    Unexpected { actual: Token, expected: Vec<Token> },
    EndOfInput { expected: Vec<Token> },
    InvalidConditionalExpression,
    InvalidTokenPaste,
    IncludeDisabled,
    Conditional(ConditionalError),
    /// An `#error` directive, with the text that follows its name.
    ErrorDirective { message: String },
}

/// The message of a misuse of the conditional directives.
pub open spec fn conditional_text(e: ConditionalError) -> Seq<char> {
    match e {
        ConditionalError::ElifWithoutIf => "#elif without #if"@,
        ConditionalError::ElifAfterElse => "#elif after #else"@,
        ConditionalError::ElseWithoutIf => "#else without #if"@,
        ConditionalError::ElseAfterElse => "#else after #else"@,
        ConditionalError::EndifWithoutIf => "#endif without #if"@,
        ConditionalError::Unterminated => "unterminated #if"@,
    }
}

/// The message of an error kind.
pub open spec fn kind_text(k: ErrorKind) -> Seq<char> {
    match k {
        ErrorKind::UnknownPreprocessorDirective { name } => "unknown preprocessor directive `#"@
            + name@ + "`"@,
        ErrorKind::ExtraTokensInPreprocessorDirective => "extra tokens in preprocessor directive"@,
        ErrorKind::UnexpectedTokensInDefineArgs => "unexpected tokens in #define function arguments"@,
        ErrorKind::EndOfInput { expected } => if expected@.len() == 0 {
            "unexpected end of input"@
        } else {
            "unexpected end of input: "@ + list_text(expected@)
        },
        ErrorKind::InvalidConditionalExpression => "invalid expression in conditional directive"@,
        ErrorKind::InvalidTokenPaste => "`##` does not form a token"@,
        ErrorKind::IncludeDisabled => "#include without an enabled include extension"@,
        ErrorKind::Conditional(e) => conditional_text(e),
        ErrorKind::ErrorDirective { message } => "'#error'"@ + message@,
        ErrorKind::Unexpected { actual, expected } => if expected@.len() == 0 {
            "unexpected "@ + token_name(actual)
        } else {
            "unexpected "@ + token_name(actual) + ", expected "@ + list_text(expected@)
        },
    }
}

impl ErrorKind {
    fn push_message(&self, v: &mut Vec<char>)
        ensures
            final(v)@ == old(v)@ + kind_text(*self),
    {
        match self {
            ErrorKind::UnknownPreprocessorDirective { name } => {
                push_str(v, "unknown preprocessor directive `#");
                push_str(v, name.as_str());
                push_str(v, "`");
            },
            ErrorKind::ExtraTokensInPreprocessorDirective => {
                push_str(v, "extra tokens in preprocessor directive");
            },
            ErrorKind::UnexpectedTokensInDefineArgs => {
                push_str(v, "unexpected tokens in #define function arguments");
            },
            ErrorKind::EndOfInput { expected } => {
                if expected.len() == 0 {
                    push_str(v, "unexpected end of input");
                } else {
                    push_str(v, "unexpected end of input: ");
                    push_list(v, expected);
                }
            },
            ErrorKind::InvalidConditionalExpression => {
                push_str(v, "invalid expression in conditional directive");
            },
            ErrorKind::InvalidTokenPaste => {
                push_str(v, "`##` does not form a token");
            },
            ErrorKind::IncludeDisabled => {
                push_str(v, "#include without an enabled include extension");
            },
            ErrorKind::Conditional(e) => {
                let text = match e {
                    ConditionalError::ElifWithoutIf => "#elif without #if",
                    ConditionalError::ElifAfterElse => "#elif after #else",
                    ConditionalError::ElseWithoutIf => "#else without #if",
                    ConditionalError::ElseAfterElse => "#else after #else",
                    ConditionalError::EndifWithoutIf => "#endif without #if",
                    ConditionalError::Unterminated => "unterminated #if",
                };
                push_str(v, text);
            },
            ErrorKind::ErrorDirective { message } => {
                push_str(v, "'#error'");
                push_str(v, message.as_str());
            },
            ErrorKind::Unexpected { actual, expected } => {
                push_str(v, "unexpected ");
                push_str(v, actual.name());
                if expected.len() > 0 {
                    push_str(v, ", expected ");
                    push_list(v, expected);
                }
            },
        }
        proof {
            assert(final(v)@ =~= old(v)@ + kind_text(*self));
        }
    }

    /// The message of this error kind.
    pub fn message(&self) -> (r: String)
        ensures
            r@ == kind_text(*self),
    {
        let mut v: Vec<char> = Vec::new();
        self.push_message(&mut v);
        proof {
            assert(v@ =~= kind_text(*self));
        }
        string_of_chars(&v)
    }
}

/// An error of the preprocessor's parser, with the range it concerns and the 0-based line
/// and column where that range starts.
#[derive(Debug, Clone)]
pub struct Error {
    kind: ErrorKind,
    pos: TextRange,
    line: u32,
    col: u32,
}

impl Error {
    pub closed spec fn kind_spec(&self) -> ErrorKind {
        self.kind
    }

    pub closed spec fn pos_spec(&self) -> TextRange {
        self.pos
    }

    pub closed spec fn user_pos_spec(&self) -> (u32, u32) {
        (self.line, self.col)
    }

    pub fn new(kind: ErrorKind, pos: TextRange, line_map: &LineMap) -> (r: Error)
        requires
            line_map.wf(),
        ensures
            r.kind_spec() == kind,
            r.pos_spec() == pos,
            r.user_pos_spec().0 == line_and_col(line_map.starts(), pos.start).0,
            r.user_pos_spec().1 == line_and_col(line_map.starts(), pos.start).1,
            r.user_pos_spec().0 < u32::MAX,
    {
        let (line, col) = line_map.get_line_and_col(pos.start);
        Error { kind, pos, line, col }
    }

    pub fn kind(&self) -> (r: &ErrorKind)
        ensures
            *r == self.kind_spec(),
    {
        &self.kind
    }

    pub fn pos(&self) -> (r: TextRange)
        ensures
            r == self.pos_spec(),
    {
        self.pos
    }

    /// The error as diagnostics print it: `LINE:COL: message`, with a 1-based line and a
    /// 0-based column.
    pub fn message(&self) -> (r: String)
        requires
            self.user_pos_spec().0 < u32::MAX,
        ensures
            r@ == decimal((self.user_pos_spec().0 + 1) as nat) + ":"@ + decimal(self.user_pos_spec().1 as nat)
                + ": "@ + kind_text(self.kind_spec()),
    {
        let mut v: Vec<char> = Vec::new();
        push_decimal(&mut v, self.line + 1);
        push_str(&mut v, ":");
        push_decimal(&mut v, self.col);
        push_str(&mut v, ": ");
        self.kind.push_message(&mut v);
        proof {
            assert(v@ =~= decimal((self.user_pos_spec().0 + 1) as nat) + ":"@ + decimal(
                self.user_pos_spec().1 as nat,
            ) + ": "@ + kind_text(self.kind_spec()));
        }
        string_of_chars(&v)
    }

    /// The error as diagnostics print it for the source unit `file`: `FILE:LINE:COL: message`.
    pub fn message_in(&self, file: FileId) -> (r: String)
        requires
            self.user_pos_spec().0 < u32::MAX,
        ensures
            r@ == decimal(file.id as nat) + ":"@ + decimal((self.user_pos_spec().0 + 1) as nat)
                + ":"@ + decimal(self.user_pos_spec().1 as nat) + ": "@ + kind_text(
                self.kind_spec(),
            ),
    {
        let mut v: Vec<char> = Vec::new();
        push_decimal(&mut v, file.id);
        push_str(&mut v, ":");
        push_decimal(&mut v, self.line + 1);
        push_str(&mut v, ":");
        push_decimal(&mut v, self.col);
        push_str(&mut v, ": ");
        self.kind.push_message(&mut v);
        proof {
            assert(v@ =~= decimal(file.id as nat) + ":"@ + decimal(
                (self.user_pos_spec().0 + 1) as nat,
            ) + ":"@ + decimal(self.user_pos_spec().1 as nat) + ": "@ + kind_text(
                self.kind_spec(),
            ));
        }
        string_of_chars(&v)
    }
}

} // verus!
