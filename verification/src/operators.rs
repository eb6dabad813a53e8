//! The spelling of operators, and the classes of operators that the lexer
//! and the parser treat alike.

use vstd::prelude::*;
use crate::syntax::Operator;
use crate::ascii::{AMP, BACKSLASH, BANG, CARET, COLON, DOT, EQ, GT, LOWER_A, LOWER_D, LOWER_N, LOWER_O, LOWER_R, LOWER_S, LOWER_T, LT, MINUS, PERCENT, PIPE, PLUS, SLASH, STAR};

verus! {

/// The one-character operators.
pub open spec fn op1(c: u8) -> Option<Operator> {
    if c == PLUS {
        Some(Operator::Add)
    } else if c == MINUS {
        Some(Operator::Sub)
    } else if c == STAR {
        Some(Operator::Mul)
    } else if c == SLASH {
        Some(Operator::Div)
    } else if c == PERCENT {
        Some(Operator::Mod)
    } else if c == EQ {
        Some(Operator::Assign)
    } else if c == GT {
        Some(Operator::Gt)
    } else if c == LT {
        Some(Operator::Lt)
    } else if c == AMP {
        Some(Operator::BitAnd)
    } else if c == PIPE {
        Some(Operator::BitOr)
    } else if c == CARET {
        Some(Operator::BitXor)
    } else if c == BANG {
        Some(Operator::Not)
    } else if c == DOT {
        Some(Operator::Dot)
    } else if c == COLON {
        Some(Operator::Colon)
    } else {
        None
    }
}

/// The two-character operators, the words `as` and `or` among them.
pub open spec fn op2(a: u8, b: u8) -> Option<Operator> {
    if a == SLASH && b == SLASH {
        Some(Operator::FloorDiv)
    } else if a == STAR && b == STAR {
        Some(Operator::Pow)
    } else if a == PLUS && b == PLUS {
        Some(Operator::Inc)
    } else if a == MINUS && b == MINUS {
        Some(Operator::Dec)
    } else if a == PLUS && b == EQ {
        Some(Operator::AddAssign)
    } else if a == MINUS && b == EQ {
        Some(Operator::SubAssign)
    } else if a == STAR && b == EQ {
        Some(Operator::MulAssign)
    } else if a == SLASH && b == EQ {
        Some(Operator::DivAssign)
    } else if a == DOT && b == EQ {
        Some(Operator::ConcatAssign)
    } else if a == LT && b == MINUS {
        Some(Operator::Arrow)
    } else if a == EQ && b == EQ {
        Some(Operator::Eq)
    } else if a == BANG && b == EQ {
        Some(Operator::Ne)
    } else if a == GT && b == EQ {
        Some(Operator::Ge)
    } else if a == LT && b == EQ {
        Some(Operator::Le)
    } else if a == AMP && b == AMP {
        Some(Operator::And)
    } else if a == PIPE && b == PIPE {
        Some(Operator::Or)
    } else if a == DOT && b == BACKSLASH {
        Some(Operator::Backdot)
    } else if a == DOT && b == DOT {
        Some(Operator::Range)
    } else if a == COLON && b == COLON {
        Some(Operator::BiColon)
    } else if a == LOWER_A && b == LOWER_S {
        Some(Operator::As)
    } else if a == LOWER_O && b == LOWER_R {
        Some(Operator::Or)
    } else {
        None
    }
}

/// The three-character operators, the words `and` and `not` among them.
pub open spec fn op3(a: u8, b: u8, c: u8) -> Option<Operator> {
    if a == DOT && b == DOT && c == EQ {
        Some(Operator::RangeInclusive)
    } else if a == LOWER_A && b == LOWER_N && c == LOWER_D {
        Some(Operator::And)
    } else if a == LOWER_N && b == LOWER_O && c == LOWER_T {
        Some(Operator::Not)
    } else {
        None
    }
}

/// The operator that the text `s` spells, if any.
pub open spec fn operator_of(s: Seq<u8>) -> Option<Operator> {
    if s.len() == 1 {
        op1(s[0])
    } else if s.len() == 2 {
        op2(s[0], s[1])
    } else if s.len() == 3 {
        op3(s[0], s[1], s[2])
    } else {
        None
    }
}

/// Reads the operator spelled by `bytes[from..to]`.
pub fn operator_from_bytes(bytes: &[u8], from: usize, to: usize) -> (r: Option<Operator>)
    requires
        from <= to <= bytes@.len(),
    ensures
        r == operator_of(bytes@.subrange(from as int, to as int)),
{
    let n = to - from;
    if n == 1 {
        let a = bytes[from];
        if a == PLUS {
            Some(Operator::Add)
        } else if a == MINUS {
            Some(Operator::Sub)
        } else if a == STAR {
            Some(Operator::Mul)
        } else if a == SLASH {
            Some(Operator::Div)
        } else if a == PERCENT {
            Some(Operator::Mod)
        } else if a == EQ {
            Some(Operator::Assign)
        } else if a == GT {
            Some(Operator::Gt)
        } else if a == LT {
            Some(Operator::Lt)
        } else if a == AMP {
            Some(Operator::BitAnd)
        } else if a == PIPE {
            Some(Operator::BitOr)
        } else if a == CARET {
            Some(Operator::BitXor)
        } else if a == BANG {
            Some(Operator::Not)
        } else if a == DOT {
            Some(Operator::Dot)
        } else if a == COLON {
            Some(Operator::Colon)
        } else {
            None
        }
    } else if n == 2 {
        let a = bytes[from];
        let b = bytes[from + 1];
        if a == SLASH && b == SLASH {
            Some(Operator::FloorDiv)
        } else if a == STAR && b == STAR {
            Some(Operator::Pow)
        } else if a == PLUS && b == PLUS {
            Some(Operator::Inc)
        } else if a == MINUS && b == MINUS {
            Some(Operator::Dec)
        } else if a == PLUS && b == EQ {
            Some(Operator::AddAssign)
        } else if a == MINUS && b == EQ {
            Some(Operator::SubAssign)
        } else if a == STAR && b == EQ {
            Some(Operator::MulAssign)
        } else if a == SLASH && b == EQ {
            Some(Operator::DivAssign)
        } else if a == DOT && b == EQ {
            Some(Operator::ConcatAssign)
        } else if a == LT && b == MINUS {
            Some(Operator::Arrow)
        } else if a == EQ && b == EQ {
            Some(Operator::Eq)
        } else if a == BANG && b == EQ {
            Some(Operator::Ne)
        } else if a == GT && b == EQ {
            Some(Operator::Ge)
        } else if a == LT && b == EQ {
            Some(Operator::Le)
        } else if a == AMP && b == AMP {
            Some(Operator::And)
        } else if a == PIPE && b == PIPE {
            Some(Operator::Or)
        } else if a == DOT && b == BACKSLASH {
            Some(Operator::Backdot)
        } else if a == DOT && b == DOT {
            Some(Operator::Range)
        } else if a == COLON && b == COLON {
            Some(Operator::BiColon)
        } else if a == LOWER_A && b == LOWER_S {
            Some(Operator::As)
        } else if a == LOWER_O && b == LOWER_R {
            Some(Operator::Or)
        } else {
            None
        }
    } else if n == 3 {
        let a = bytes[from];
        let b = bytes[from + 1];
        let c = bytes[from + 2];
        if a == DOT && b == DOT && c == EQ {
            Some(Operator::RangeInclusive)
        } else if a == LOWER_A && b == LOWER_N && c == LOWER_D {
            Some(Operator::And)
        } else if a == LOWER_N && b == LOWER_O && c == LOWER_T {
            Some(Operator::Not)
        } else {
            None
        }
    } else {
        None
    }
}

/// The assignment operators: plain, compound, and input (`<-`).
pub open spec fn spec_is_assign(op: Operator) -> bool {
    match op {
        Operator::Assign | Operator::AddAssign | Operator::SubAssign | Operator::MulAssign
        | Operator::DivAssign | Operator::FloorDivAssign | Operator::ConcatAssign
        | Operator::Arrow => true,
        _ => false,
    }
}

/// Whether `op` is an assignment operator.
pub fn is_assign(op: Operator) -> (r: bool)
    ensures
        r == spec_is_assign(op),
{
    match op {
        Operator::Assign | Operator::AddAssign | Operator::SubAssign | Operator::MulAssign
        | Operator::DivAssign | Operator::FloorDivAssign | Operator::ConcatAssign
        | Operator::Arrow => true,
        _ => false,
    }
}

/// The operators that may end a statement (postfix `++` and `--`).
pub open spec fn spec_can_breaker(op: Operator) -> bool {
    op == Operator::Inc || op == Operator::Dec
}

/// Whether `op` may end a statement.
pub fn can_breaker(op: Operator) -> (r: bool)
    ensures
        r == spec_can_breaker(op),
{
    op == Operator::Inc || op == Operator::Dec
}

/// How an operator is written with symbols (for `as`, its word), as bytes.
pub open spec fn op_text(op: Operator) -> Option<Seq<u8>> {
    match op {
        Operator::Add => Some(seq![0x2bu8]), // +
        Operator::Sub => Some(seq![0x2du8]), // -
        Operator::Mul => Some(seq![0x2au8]), // *
        Operator::Div => Some(seq![0x2fu8]), // /
        Operator::Mod => Some(seq![0x25u8]), // %
        Operator::Assign => Some(seq![0x3du8]), // =
        Operator::Gt => Some(seq![0x3eu8]), // >
        Operator::Lt => Some(seq![0x3cu8]), // <
        Operator::BitAnd => Some(seq![0x26u8]), // &
        Operator::BitOr => Some(seq![0x7cu8]), // |
        Operator::BitXor => Some(seq![0x5eu8]), // ^
        Operator::Not => Some(seq![0x21u8]), // !
        Operator::Dot => Some(seq![0x2eu8]), // .
        Operator::Colon => Some(seq![0x3au8]), // :
        Operator::FloorDiv => Some(seq![0x2fu8, 0x2fu8]), // //
        Operator::Pow => Some(seq![0x2au8, 0x2au8]), // **
        Operator::Inc => Some(seq![0x2bu8, 0x2bu8]), // ++
        Operator::Dec => Some(seq![0x2du8, 0x2du8]), // --
        Operator::AddAssign => Some(seq![0x2bu8, 0x3du8]), // +=
        Operator::SubAssign => Some(seq![0x2du8, 0x3du8]), // -=
        Operator::MulAssign => Some(seq![0x2au8, 0x3du8]), // *=
        Operator::DivAssign => Some(seq![0x2fu8, 0x3du8]), // /=
        Operator::ConcatAssign => Some(seq![0x2eu8, 0x3du8]), // .=
        Operator::Arrow => Some(seq![0x3cu8, 0x2du8]), // <-
        Operator::Eq => Some(seq![0x3du8, 0x3du8]), // ==
        Operator::Ne => Some(seq![0x21u8, 0x3du8]), // !=
        Operator::Ge => Some(seq![0x3eu8, 0x3du8]), // >=
        Operator::Le => Some(seq![0x3cu8, 0x3du8]), // <=
        Operator::And => Some(seq![0x26u8, 0x26u8]), // &&
        Operator::Or => Some(seq![0x7cu8, 0x7cu8]), // ||
        Operator::Backdot => Some(seq![0x2eu8, 0x5cu8]), // .\\
        Operator::Range => Some(seq![0x2eu8, 0x2eu8]), // ..
        Operator::BiColon => Some(seq![0x3au8, 0x3au8]), // ::
        Operator::RangeInclusive => Some(seq![0x2eu8, 0x2eu8, 0x3du8]), // ..=
        Operator::As => Some(seq![0x61u8, 0x73u8]), // as
        _ => None,
    }
}

/// The word that also writes an operator, as bytes.
pub open spec fn op_word(op: Operator) -> Option<Seq<u8>> {
    match op {
        Operator::And => Some(seq![0x61u8, 0x6eu8, 0x64u8]), // and
        Operator::Or => Some(seq![0x6fu8, 0x72u8]), // or
        Operator::Not => Some(seq![0x6eu8, 0x6fu8, 0x74u8]), // not
        _ => None,
    }
}

/// Operators are read back from their spelling: the text of each operator
/// is read as that operator, and a text is read as an operator only when it
/// is one of that operator's spellings.
pub proof fn law_operator_spellings(op: Operator, t: Seq<u8>)
    ensures
        op_text(op) matches Some(w) ==> operator_of(w) == Some(op),
        op_word(op) matches Some(w) ==> operator_of(w) == Some(op),
        operator_of(t) == Some(op) ==> op_text(op) == Some(t) || op_word(op) == Some(t),
{
    if operator_of(t) == Some(op) {
        if t.len() == 1 {
            assert(t =~= seq![t[0]]);
        } else if t.len() == 2 {
            assert(t =~= seq![t[0], t[1]]);
        } else {
            assert(t =~= seq![t[0], t[1], t[2]]);
        }
    }
}

} // verus!
