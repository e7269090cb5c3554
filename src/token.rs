use vstd::prelude::*;

use crate::text::TextRange;

verus! {

/// Raw lexical atom, as classified by the first lexing stage.
#[allow(non_camel_case_types)]
#[derive(Debug, Clone, Copy, PartialEq, Eq, Structural)]
pub enum PreToken {
    IDENT_KW,
    DIGITS,
    PERIOD,
    PLUS,
    DASH,
    SLASH,
    ASTERISK,
    PERCENT,
    LANGLE,
    RANGLE,
    LBRACKET,
    RBRACKET,
    LPAREN,
    RPAREN,
    LBRACE,
    RBRACE,
    CARET,
    BAR,
    AMPERSAND,
    TILDE,
    EQUAL,
    BANG,
    COLON,
    SEMICOLON,
    COMMA,
    QUESTION,
    HASH,
    QUOTE_STRING,
    ANGLE_STRING,
    BACKSLASH,
    WS,
    NEWLINE,
    COMMENT,
    ERROR,
}

/// Lexical token after multi-character operators have been glued together.
#[allow(non_camel_case_types)]
#[derive(Debug, Clone, Copy, PartialEq, Eq, Structural)]
pub enum Token {
    IDENT_KW,
    DIGITS,
    PERIOD,
    PLUS,
    DASH,
    SLASH,
    ASTERISK,
    PERCENT,
    LANGLE,
    RANGLE,
    LBRACKET,
    RBRACKET,
    LPAREN,
    RPAREN,
    LBRACE,
    RBRACE,
    CARET,
    BAR,
    AMPERSAND,
    TILDE,
    EQUAL,
    BANG,
    COLON,
    SEMICOLON,
    COMMA,
    QUESTION,
    HASH,
    QUOTE_STRING,
    ANGLE_STRING,
    BACKSLASH,
    WS,
    NEWLINE,
    COMMENT,
    ERROR,
    INC_OP,
    DEC_OP,
    ADD_ASSIGN,
    SUB_ASSIGN,
    MUL_ASSIGN,
    DIV_ASSIGN,
    MOD_ASSIGN,
    LEFT_OP,
    RIGHT_OP,
    LE_OP,
    GE_OP,
    LEFT_ASSIGN,
    RIGHT_ASSIGN,
    XOR_OP,
    XOR_ASSIGN,
    OR_OP,
    OR_ASSIGN,
    AND_OP,
    AND_ASSIGN,
    EQ_OP,
    NE_OP,
    PP_CONCAT,
}

/// A pre-token together with the source bytes it spans.
#[derive(Debug, Clone, Copy, PartialEq, Eq, Structural)]
pub struct PreTextToken {
    pub kind: PreToken,
    pub range: TextRange,
}

/// A glued token together with the source bytes it spans.
#[derive(Debug, Clone, Copy, PartialEq, Eq, Structural)]
pub struct TextToken {
    pub kind: Token,
    pub range: TextRange,
}

/// The glued token that stands for a lone pre-token of the same name.
pub open spec fn lone(k: PreToken) -> Token {
    match k {
        PreToken::IDENT_KW => Token::IDENT_KW,
        PreToken::DIGITS => Token::DIGITS,
        PreToken::PERIOD => Token::PERIOD,
        PreToken::PLUS => Token::PLUS,
        PreToken::DASH => Token::DASH,
        PreToken::SLASH => Token::SLASH,
        PreToken::ASTERISK => Token::ASTERISK,
        PreToken::PERCENT => Token::PERCENT,
        PreToken::LANGLE => Token::LANGLE,
        PreToken::RANGLE => Token::RANGLE,
        PreToken::LBRACKET => Token::LBRACKET,
        PreToken::RBRACKET => Token::RBRACKET,
        PreToken::LPAREN => Token::LPAREN,
        PreToken::RPAREN => Token::RPAREN,
        PreToken::LBRACE => Token::LBRACE,
        PreToken::RBRACE => Token::RBRACE,
        PreToken::CARET => Token::CARET,
        PreToken::BAR => Token::BAR,
        PreToken::AMPERSAND => Token::AMPERSAND,
        PreToken::TILDE => Token::TILDE,
        PreToken::EQUAL => Token::EQUAL,
        PreToken::BANG => Token::BANG,
        PreToken::COLON => Token::COLON,
        PreToken::SEMICOLON => Token::SEMICOLON,
        PreToken::COMMA => Token::COMMA,
        PreToken::QUESTION => Token::QUESTION,
        PreToken::HASH => Token::HASH,
        PreToken::QUOTE_STRING => Token::QUOTE_STRING,
        PreToken::ANGLE_STRING => Token::ANGLE_STRING,
        PreToken::BACKSLASH => Token::BACKSLASH,
        PreToken::WS => Token::WS,
        PreToken::NEWLINE => Token::NEWLINE,
        PreToken::COMMENT => Token::COMMENT,
        PreToken::ERROR => Token::ERROR,
    }
}

/// The operator that two adjacent pre-tokens form, if any.
pub open spec fn fuse2(a: PreToken, b: PreToken) -> Option<Token> {
    match (a, b) {
        (PreToken::PLUS, PreToken::PLUS) => Some(Token::INC_OP),
        (PreToken::PLUS, PreToken::EQUAL) => Some(Token::ADD_ASSIGN),
        (PreToken::DASH, PreToken::DASH) => Some(Token::DEC_OP),
        (PreToken::DASH, PreToken::EQUAL) => Some(Token::SUB_ASSIGN),
        (PreToken::SLASH, PreToken::EQUAL) => Some(Token::DIV_ASSIGN),
        (PreToken::ASTERISK, PreToken::EQUAL) => Some(Token::MUL_ASSIGN),
        (PreToken::PERCENT, PreToken::EQUAL) => Some(Token::MOD_ASSIGN),
        (PreToken::LANGLE, PreToken::LANGLE) => Some(Token::LEFT_OP),
        (PreToken::LANGLE, PreToken::EQUAL) => Some(Token::LE_OP),
        (PreToken::RANGLE, PreToken::RANGLE) => Some(Token::RIGHT_OP),
        (PreToken::RANGLE, PreToken::EQUAL) => Some(Token::GE_OP),
        (PreToken::CARET, PreToken::CARET) => Some(Token::XOR_OP),
        (PreToken::CARET, PreToken::EQUAL) => Some(Token::XOR_ASSIGN),
        (PreToken::BAR, PreToken::BAR) => Some(Token::OR_OP),
        (PreToken::BAR, PreToken::EQUAL) => Some(Token::OR_ASSIGN),
        (PreToken::AMPERSAND, PreToken::AMPERSAND) => Some(Token::AND_OP),
        (PreToken::AMPERSAND, PreToken::EQUAL) => Some(Token::AND_ASSIGN),
        (PreToken::EQUAL, PreToken::EQUAL) => Some(Token::EQ_OP),
        (PreToken::BANG, PreToken::EQUAL) => Some(Token::NE_OP),
        (PreToken::HASH, PreToken::HASH) => Some(Token::PP_CONCAT),
        (PreToken::PERIOD, PreToken::DIGITS) => Some(Token::DIGITS),
        _ => None,
    }
}

/// The operator that three adjacent pre-tokens form, if any.
pub open spec fn fuse3(a: PreToken, b: PreToken, c: PreToken) -> Option<Token> {
    match (a, b, c) {
        (PreToken::LANGLE, PreToken::LANGLE, PreToken::EQUAL) => Some(Token::LEFT_ASSIGN),
        (PreToken::RANGLE, PreToken::RANGLE, PreToken::EQUAL) => Some(Token::RIGHT_ASSIGN),
        _ => None,
    }
}

impl Token {
    /// Turns a pre-token into the glued token of the same name.
    pub fn from_pre(k: PreToken) -> (r: Token)
        ensures
            r == lone(k),
    {
        match k {
            PreToken::IDENT_KW => Token::IDENT_KW,
            PreToken::DIGITS => Token::DIGITS,
            PreToken::PERIOD => Token::PERIOD,
            PreToken::PLUS => Token::PLUS,
            PreToken::DASH => Token::DASH,
            PreToken::SLASH => Token::SLASH,
            PreToken::ASTERISK => Token::ASTERISK,
            PreToken::PERCENT => Token::PERCENT,
            PreToken::LANGLE => Token::LANGLE,
            PreToken::RANGLE => Token::RANGLE,
            PreToken::LBRACKET => Token::LBRACKET,
            PreToken::RBRACKET => Token::RBRACKET,
            PreToken::LPAREN => Token::LPAREN,
            PreToken::RPAREN => Token::RPAREN,
            PreToken::LBRACE => Token::LBRACE,
            PreToken::RBRACE => Token::RBRACE,
            PreToken::CARET => Token::CARET,
            PreToken::BAR => Token::BAR,
            PreToken::AMPERSAND => Token::AMPERSAND,
            PreToken::TILDE => Token::TILDE,
            PreToken::EQUAL => Token::EQUAL,
            PreToken::BANG => Token::BANG,
            PreToken::COLON => Token::COLON,
            PreToken::SEMICOLON => Token::SEMICOLON,
            PreToken::COMMA => Token::COMMA,
            PreToken::QUESTION => Token::QUESTION,
            PreToken::HASH => Token::HASH,
            PreToken::QUOTE_STRING => Token::QUOTE_STRING,
            PreToken::ANGLE_STRING => Token::ANGLE_STRING,
            PreToken::BACKSLASH => Token::BACKSLASH,
            PreToken::WS => Token::WS,
            PreToken::NEWLINE => Token::NEWLINE,
            PreToken::COMMENT => Token::COMMENT,
            PreToken::ERROR => Token::ERROR,
        }
    }
}

impl PreTextToken {
    /// The same token, under the glued token kind of the same name.
    pub fn transmute(self) -> (r: TextToken)
        ensures
            r.kind == lone(self.kind),
            r.range == self.range,
    {
        TextToken { kind: Token::from_pre(self.kind), range: self.range }
    }
}

/// The name of a token kind, as diagnostics print it.
pub open spec fn token_name(t: Token) -> Seq<char> {
    match t {
        Token::IDENT_KW => "IDENT_KW"@,
        Token::DIGITS => "DIGITS"@,
        Token::PERIOD => "PERIOD"@,
        Token::PLUS => "PLUS"@,
        Token::DASH => "DASH"@,
        Token::SLASH => "SLASH"@,
        Token::ASTERISK => "ASTERISK"@,
        Token::PERCENT => "PERCENT"@,
        Token::LANGLE => "LANGLE"@,
        Token::RANGLE => "RANGLE"@,
        Token::LBRACKET => "LBRACKET"@,
        Token::RBRACKET => "RBRACKET"@,
        Token::LPAREN => "LPAREN"@,
        Token::RPAREN => "RPAREN"@,
        Token::LBRACE => "LBRACE"@,
        Token::RBRACE => "RBRACE"@,
        Token::CARET => "CARET"@,
        Token::BAR => "BAR"@,
        Token::AMPERSAND => "AMPERSAND"@,
        Token::TILDE => "TILDE"@,
        Token::EQUAL => "EQUAL"@,
        Token::BANG => "BANG"@,
        Token::COLON => "COLON"@,
        Token::SEMICOLON => "SEMICOLON"@,
        Token::COMMA => "COMMA"@,
        Token::QUESTION => "QUESTION"@,
        Token::HASH => "HASH"@,
        Token::QUOTE_STRING => "QUOTE_STRING"@,
        Token::ANGLE_STRING => "ANGLE_STRING"@,
        Token::BACKSLASH => "BACKSLASH"@,
        Token::WS => "WS"@,
        Token::NEWLINE => "NEWLINE"@,
        Token::COMMENT => "COMMENT"@,
        Token::ERROR => "ERROR"@,
        Token::INC_OP => "INC_OP"@,
        Token::DEC_OP => "DEC_OP"@,
        Token::ADD_ASSIGN => "ADD_ASSIGN"@,
        Token::SUB_ASSIGN => "SUB_ASSIGN"@,
        Token::MUL_ASSIGN => "MUL_ASSIGN"@,
        Token::DIV_ASSIGN => "DIV_ASSIGN"@,
        Token::MOD_ASSIGN => "MOD_ASSIGN"@,
        Token::LEFT_OP => "LEFT_OP"@,
        Token::RIGHT_OP => "RIGHT_OP"@,
        Token::LE_OP => "LE_OP"@,
        Token::GE_OP => "GE_OP"@,
        Token::LEFT_ASSIGN => "LEFT_ASSIGN"@,
        Token::RIGHT_ASSIGN => "RIGHT_ASSIGN"@,
        Token::XOR_OP => "XOR_OP"@,
        Token::XOR_ASSIGN => "XOR_ASSIGN"@,
        Token::OR_OP => "OR_OP"@,
        Token::OR_ASSIGN => "OR_ASSIGN"@,
        Token::AND_OP => "AND_OP"@,
        Token::AND_ASSIGN => "AND_ASSIGN"@,
        Token::EQ_OP => "EQ_OP"@,
        Token::NE_OP => "NE_OP"@,
        Token::PP_CONCAT => "PP_CONCAT"@,
    }
}

impl Token {
    /// The name of this token kind, as diagnostics print it.
    pub fn name(&self) -> (r: &'static str)
        ensures
            r@ == token_name(*self),
    {
        match self {
            Token::IDENT_KW => "IDENT_KW",
            Token::DIGITS => "DIGITS",
            Token::PERIOD => "PERIOD",
            Token::PLUS => "PLUS",
            Token::DASH => "DASH",
            Token::SLASH => "SLASH",
            Token::ASTERISK => "ASTERISK",
            Token::PERCENT => "PERCENT",
            Token::LANGLE => "LANGLE",
            Token::RANGLE => "RANGLE",
            Token::LBRACKET => "LBRACKET",
            Token::RBRACKET => "RBRACKET",
            Token::LPAREN => "LPAREN",
            Token::RPAREN => "RPAREN",
            Token::LBRACE => "LBRACE",
            Token::RBRACE => "RBRACE",
            Token::CARET => "CARET",
            Token::BAR => "BAR",
            Token::AMPERSAND => "AMPERSAND",
            Token::TILDE => "TILDE",
            Token::EQUAL => "EQUAL",
            Token::BANG => "BANG",
            Token::COLON => "COLON",
            Token::SEMICOLON => "SEMICOLON",
            Token::COMMA => "COMMA",
            Token::QUESTION => "QUESTION",
            Token::HASH => "HASH",
            Token::QUOTE_STRING => "QUOTE_STRING",
            Token::ANGLE_STRING => "ANGLE_STRING",
            Token::BACKSLASH => "BACKSLASH",
            Token::WS => "WS",
            Token::NEWLINE => "NEWLINE",
            Token::COMMENT => "COMMENT",
            Token::ERROR => "ERROR",
            Token::INC_OP => "INC_OP",
            Token::DEC_OP => "DEC_OP",
            Token::ADD_ASSIGN => "ADD_ASSIGN",
            Token::SUB_ASSIGN => "SUB_ASSIGN",
            Token::MUL_ASSIGN => "MUL_ASSIGN",
            Token::DIV_ASSIGN => "DIV_ASSIGN",
            Token::MOD_ASSIGN => "MOD_ASSIGN",
            Token::LEFT_OP => "LEFT_OP",
            Token::RIGHT_OP => "RIGHT_OP",
            Token::LE_OP => "LE_OP",
            Token::GE_OP => "GE_OP",
            Token::LEFT_ASSIGN => "LEFT_ASSIGN",
            Token::RIGHT_ASSIGN => "RIGHT_ASSIGN",
            Token::XOR_OP => "XOR_OP",
            Token::XOR_ASSIGN => "XOR_ASSIGN",
            Token::OR_OP => "OR_OP",
            Token::OR_ASSIGN => "OR_ASSIGN",
            Token::AND_OP => "AND_OP",
            Token::AND_ASSIGN => "AND_ASSIGN",
            Token::EQ_OP => "EQ_OP",
            Token::NE_OP => "NE_OP",
            Token::PP_CONCAT => "PP_CONCAT",
        }
    }
}

} // verus!
