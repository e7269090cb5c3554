//! Evaluation of the constant expressions of `#if` and `#elif`.
use vstd::prelude::*;

use crate::token::Token;

verus! {

/// An atom of a constant expression: a value, or an operator or parenthesis.
#[derive(Debug, Clone, Copy, PartialEq, Eq, Structural)]
pub enum Item {
    Num(i64),
    Op(Token),
}

/// Binding strength of a binary operator; 0 for a token that is none.
pub open spec fn prec(t: Token) -> int {
    match t {
        Token::OR_OP => 1,
        Token::AND_OP => 2,
        Token::BAR => 3,
        Token::CARET => 4,
        Token::AMPERSAND => 5,
        Token::EQ_OP | Token::NE_OP => 6,
        Token::LANGLE | Token::RANGLE | Token::LE_OP | Token::GE_OP => 7,
        Token::LEFT_OP | Token::RIGHT_OP => 8,
        Token::PLUS | Token::DASH => 9,
        Token::ASTERISK | Token::SLASH | Token::PERCENT => 10,
        _ => 0,
    }
}

pub open spec fn truth(b: bool) -> i64 {
    if b {
        1
    } else {
        0
    }
}

/// The value of a binary operation on signed 64-bit integers; `None` where it overflows,
/// divides by zero, or shifts by a negative amount or by 64 or more.
pub open spec fn apply(op: Token, a: i64, b: i64) -> Option<i64> {
    match op {
        Token::OR_OP => Some(truth(a != 0 || b != 0)),
        Token::AND_OP => Some(truth(a != 0 && b != 0)),
        Token::BAR => Some(a | b),
        Token::CARET => Some(a ^ b),
        Token::AMPERSAND => Some(a & b),
        Token::EQ_OP => Some(truth(a == b)),
        Token::NE_OP => Some(truth(a != b)),
        Token::LANGLE => Some(truth(a < b)),
        Token::RANGLE => Some(truth(a > b)),
        Token::LE_OP => Some(truth(a <= b)),
        Token::GE_OP => Some(truth(a >= b)),
        Token::LEFT_OP => if 0 <= b < 64 {
            Some(a.wrapping_shl(b as u32))
        } else {
            None
        },
        Token::RIGHT_OP => if 0 <= b < 64 {
            Some(a.wrapping_shr(b as u32))
        } else {
            None
        },
        Token::PLUS => a.checked_add(b),
        Token::DASH => a.checked_sub(b),
        Token::ASTERISK => a.checked_mul(b),
        Token::SLASH => a.checked_div(b),
        Token::PERCENT => a.checked_rem(b),
        _ => None,
    }
}

/// A unary expression at `pos`: its value and the position after it.
pub open spec fn unary(items: Seq<Item>, pos: int, fuel: nat) -> Option<(i64, int)>
    decreases fuel, 0nat,
{
    if fuel == 0 || pos < 0 || pos >= items.len() {
        None
    } else {
        match items[pos] {
            Item::Num(v) => Some((v, pos + 1)),
            Item::Op(Token::BANG) => match unary(items, pos + 1, (fuel - 1) as nat) {
                Some((v, p)) => Some((truth(v == 0), p)),
                None => None,
            },
            Item::Op(Token::TILDE) => match unary(items, pos + 1, (fuel - 1) as nat) {
                Some((v, p)) => Some((!v, p)),
                None => None,
            },
            Item::Op(Token::PLUS) => unary(items, pos + 1, (fuel - 1) as nat),
            Item::Op(Token::DASH) => match unary(items, pos + 1, (fuel - 1) as nat) {
                Some((v, p)) => match 0i64.checked_sub(v) {
                    Some(n) => Some((n, p)),
                    None => None,
                },
                None => None,
            },
            Item::Op(Token::LPAREN) => match expr(items, pos + 1, 1, (fuel - 1) as nat) {
                Some((v, p)) => if 0 <= p < items.len() && items[p] == Item::Op(Token::RPAREN) {
                    Some((v, p + 1))
                } else {
                    None
                },
                None => None,
            },
            _ => None,
        }
    }
}

/// An expression at `pos` whose binary operators bind at least as strongly as `min`.
pub open spec fn expr(items: Seq<Item>, pos: int, min: int, fuel: nat) -> Option<(i64, int)>
    decreases fuel, 1nat,
{
    if fuel == 0 {
        None
    } else {
        match unary(items, pos, (fuel - 1) as nat) {
            Some((lhs, p)) => climb(items, p, lhs, min, (fuel - 1) as nat),
            None => None,
        }
    }
}

/// Continues an expression whose left operand `lhs` ends before `pos`.
pub open spec fn climb(items: Seq<Item>, pos: int, lhs: i64, min: int, fuel: nat) -> Option<
    (i64, int),
>
    decreases fuel, 2nat,
{
    if fuel == 0 {
        None
    } else if 0 <= pos < items.len() && items[pos] is Op && prec(items[pos]->Op_0) > 0 && prec(
        items[pos]->Op_0,
    ) >= min {
        let op = items[pos]->Op_0;
        match expr(items, pos + 1, prec(op) + 1, (fuel - 1) as nat) {
            Some((rhs, p)) => match apply(op, lhs, rhs) {
                Some(v) => climb(items, p, v, min, (fuel - 1) as nat),
                None => None,
            },
            None => None,
        }
    } else {
        Some((lhs, pos))
    }
}

/// The value of a whole constant expression, if it is well formed and evaluates without
/// overflow or division by zero.
pub open spec fn evaluate(items: Seq<Item>) -> Option<i64> {
    match expr(items, 0, 1, (4 * items.len() + 4) as nat) {
        Some((v, p)) => if p == items.len() {
            Some(v)
        } else {
            None
        },
        None => None,
    }
}

fn prec_exec(t: Token) -> (r: u8)
    ensures
        r as int == prec(t),
{
    match t {
        Token::OR_OP => 1,
        Token::AND_OP => 2,
        Token::BAR => 3,
        Token::CARET => 4,
        Token::AMPERSAND => 5,
        Token::EQ_OP | Token::NE_OP => 6,
        Token::LANGLE | Token::RANGLE | Token::LE_OP | Token::GE_OP => 7,
        Token::LEFT_OP | Token::RIGHT_OP => 8,
        Token::PLUS | Token::DASH => 9,
        Token::ASTERISK | Token::SLASH | Token::PERCENT => 10,
        _ => 0,
    }
}

fn apply_exec(op: Token, a: i64, b: i64) -> (r: Option<i64>)
    ensures
        r == apply(op, a, b),
{
    match op {
        Token::OR_OP => Some(if a != 0 || b != 0 { 1 } else { 0 }),
        Token::AND_OP => Some(if a != 0 && b != 0 { 1 } else { 0 }),
        Token::BAR => Some(a | b),
        Token::CARET => Some(a ^ b),
        Token::AMPERSAND => Some(a & b),
        Token::EQ_OP => Some(if a == b { 1 } else { 0 }),
        Token::NE_OP => Some(if a != b { 1 } else { 0 }),
        Token::LANGLE => Some(if a < b { 1 } else { 0 }),
        Token::RANGLE => Some(if a > b { 1 } else { 0 }),
        Token::LE_OP => Some(if a <= b { 1 } else { 0 }),
        Token::GE_OP => Some(if a >= b { 1 } else { 0 }),
        Token::LEFT_OP => if 0 <= b && b < 64 {
            Some(a.wrapping_shl(b as u32))
        } else {
            None
        },
        Token::RIGHT_OP => if 0 <= b && b < 64 {
            Some(a.wrapping_shr(b as u32))
        } else {
            None
        },
        Token::PLUS => a.checked_add(b),
        Token::DASH => a.checked_sub(b),
        Token::ASTERISK => a.checked_mul(b),
        Token::SLASH => a.checked_div(b),
        Token::PERCENT => a.checked_rem(b),
        _ => None,
    }
}

fn unary_exec(items: &Vec<Item>, pos: usize, fuel: u64) -> (r: Option<(i64, usize)>)
    requires
        pos <= items@.len(),
    ensures
        match r {
            Some((v, p)) => unary(items@, pos as int, fuel as nat) == Some((v, p as int)) && p
                <= items@.len(),
            None => unary(items@, pos as int, fuel as nat) is None,
        },
    decreases fuel, 0nat,
{
    if fuel == 0 || pos >= items.len() {
        return None;
    }
    match items[pos] {
        Item::Num(v) => Some((v, pos + 1)),
        Item::Op(Token::BANG) => match unary_exec(items, pos + 1, fuel - 1) {
            Some((v, p)) => Some((if v == 0 { 1 } else { 0 }, p)),
            None => None,
        },
        Item::Op(Token::TILDE) => match unary_exec(items, pos + 1, fuel - 1) {
            Some((v, p)) => Some((!v, p)),
            None => None,
        },
        Item::Op(Token::PLUS) => unary_exec(items, pos + 1, fuel - 1),
        Item::Op(Token::DASH) => match unary_exec(items, pos + 1, fuel - 1) {
            Some((v, p)) => match 0i64.checked_sub(v) {
                Some(n) => Some((n, p)),
                None => None,
            },
            None => None,
        },
        Item::Op(Token::LPAREN) => match expr_exec(items, pos + 1, 1, fuel - 1) {
            Some((v, p)) => {
                if p < items.len() && items[p] == Item::Op(Token::RPAREN) {
                    Some((v, p + 1))
                } else {
                    None
                }
            },
            None => None,
        },
        _ => None,
    }
}

fn expr_exec(items: &Vec<Item>, pos: usize, min: u8, fuel: u64) -> (r: Option<(i64, usize)>)
    requires
        pos <= items@.len(),
    ensures
        match r {
            Some((v, p)) => expr(items@, pos as int, min as int, fuel as nat) == Some((v, p as int))
                && p <= items@.len(),
            None => expr(items@, pos as int, min as int, fuel as nat) is None,
        },
    decreases fuel, 1nat,
{
    if fuel == 0 {
        return None;
    }
    match unary_exec(items, pos, fuel - 1) {
        Some((lhs, p)) => climb_exec(items, p, lhs, min, fuel - 1),
        None => None,
    }
}

fn climb_exec(items: &Vec<Item>, pos: usize, lhs: i64, min: u8, fuel: u64) -> (r: Option<
    (i64, usize),
>)
    requires
        pos <= items@.len(),
    ensures
        match r {
            Some((v, p)) => climb(items@, pos as int, lhs, min as int, fuel as nat) == Some(
                (v, p as int),
            ) && p <= items@.len(),
            None => climb(items@, pos as int, lhs, min as int, fuel as nat) is None,
        },
    decreases fuel, 2nat,
{
    if fuel == 0 {
        return None;
    }
    if pos < items.len() {
        match items[pos] {
            Item::Op(op) => {
                let p = prec_exec(op);
                if p > 0 && p >= min {
                    return match expr_exec(items, pos + 1, p + 1, fuel - 1) {
                        Some((rhs, q)) => match apply_exec(op, lhs, rhs) {
                            Some(v) => climb_exec(items, q, v, min, fuel - 1),
                            None => None,
                        },
                        None => None,
                    };
                }
            },
            _ => {},
        }
    }
    Some((lhs, pos))
}

/// The value of a constant expression, or `None` where it is malformed, overflows or
/// divides by zero.
pub fn evaluate_items(items: &Vec<Item>) -> (r: Option<i64>)
    requires
        items@.len() < u32::MAX,
    ensures
        r == evaluate(items@),
{
    let fuel: u64 = 4 * (items.len() as u64) + 4;
    match expr_exec(items, 0, 1, fuel) {
        Some((v, p)) => {
            if p == items.len() {
                Some(v)
            } else {
                None
            }
        },
        None => None,
    }
}

} // verus!
