//! Classes of bytes for lexical analysis.

use vstd::prelude::*;
use crate::ascii::{
    UPPER_A, UPPER_Z, LOWER_A, LOWER_Z, DIGIT_0, DIGIT_1, DIGIT_7, DIGIT_9, UNDERSCORE, DOLLAR,
    UPPER_F, LOWER_F, LOWER_E, UPPER_E, MINUS, PLUS, LOWER_N, LT, EQ, BANG, PIPE, AMP, STAR,
    SLASH, CARET, PERCENT, GT, DOT, BACKSLASH, TILDE, QUESTION, COLON,
};

verus! {

pub open spec fn spec_is_alpha(b: u8) -> bool {
    (UPPER_A <= b <= UPPER_Z) || (LOWER_A <= b <= LOWER_Z)
}

pub open spec fn spec_is_digit(b: u8) -> bool {
    DIGIT_0 <= b <= DIGIT_9
}

/// The special bytes allowed in identifiers and in interpolated names.
pub open spec fn spec_is_special(b: u8) -> bool {
    b == UNDERSCORE
}

/// The special bytes allowed in identifiers.
pub open spec fn spec_is_special_dollar(b: u8) -> bool {
    b == UNDERSCORE || b == DOLLAR
}

pub open spec fn spec_is_ident_start(b: u8) -> bool {
    spec_is_alpha(b) || spec_is_special_dollar(b)
}

pub open spec fn spec_is_ident(b: u8) -> bool {
    spec_is_alpha(b) || spec_is_digit(b) || spec_is_special_dollar(b)
}

pub open spec fn spec_is_interpolation_ident_start(b: u8) -> bool {
    spec_is_alpha(b) || spec_is_special(b)
}

pub open spec fn spec_is_interpolation_ident(b: u8) -> bool {
    spec_is_alpha(b) || spec_is_digit(b) || spec_is_special(b)
}

/// A byte that may start an identifier.
pub fn is_ident_start(b: u8) -> (r: bool)
    ensures
        r == spec_is_ident_start(b),
{
    (UPPER_A <= b && b <= UPPER_Z) || (LOWER_A <= b && b <= LOWER_Z) || b == UNDERSCORE
        || b == DOLLAR
}

/// A byte that may continue an identifier.
pub fn is_ident(b: u8) -> (r: bool)
    ensures
        r == spec_is_ident(b),
{
    (UPPER_A <= b && b <= UPPER_Z) || (LOWER_A <= b && b <= LOWER_Z) || (DIGIT_0 <= b && b
        <= DIGIT_9) || b == UNDERSCORE || b == DOLLAR
}

/// A byte that may start a name interpolated with `$`.
pub fn is_interpolation_ident_start(b: u8) -> (r: bool)
    ensures
        r == spec_is_interpolation_ident_start(b),
{
    (UPPER_A <= b && b <= UPPER_Z) || (LOWER_A <= b && b <= LOWER_Z) || b == UNDERSCORE
}

/// A byte that may continue a name interpolated with `$`.
pub fn is_interpolation_ident(b: u8) -> (r: bool)
    ensures
        r == spec_is_interpolation_ident(b),
{
    (UPPER_A <= b && b <= UPPER_Z) || (LOWER_A <= b && b <= LOWER_Z) || (DIGIT_0 <= b && b
        <= DIGIT_9) || b == UNDERSCORE
}

/// How an operator that starts with a given byte may go on: the byte that
/// started it, and the greatest length it may reach.
#[derive(Debug, Clone, Copy, PartialEq, Eq, Structural)]
pub struct OpInfo {
    pub first: u8,
    pub max_len: usize,
}

/// The greatest length of an operator that starts with `b` (0 when no
/// operator starts with it).
pub open spec fn op_max_len(b: u8) -> usize {
    if b == LT || b == EQ || b == BANG || b == PIPE || b == AMP || b == MINUS || b == PLUS
        || b == GT || b == STAR || b == SLASH || b == CARET || b == PERCENT || b == COLON {
        2
    } else if b == DOT {
        3
    } else if b == TILDE || b == QUESTION {
        1
    } else {
        0
    }
}

/// Whether `b` may go on an operator that started with `first`.
pub open spec fn spec_op_follows(first: u8, b: u8) -> bool {
    if first == LT {
        b == MINUS || b == LT || b == EQ
    } else if first == EQ || first == BANG {
        b == EQ || b == TILDE
    } else if first == PIPE {
        b == PIPE || b == EQ
    } else if first == AMP {
        b == AMP || b == EQ
    } else if first == MINUS {
        b == MINUS || b == EQ || b == DOT
    } else if first == PLUS {
        b == PLUS || b == EQ
    } else if first == GT {
        b == GT || b == EQ
    } else if first == STAR {
        b == STAR || b == EQ
    } else if first == SLASH {
        b == SLASH || b == EQ
    } else if first == CARET {
        b == CARET || b == EQ
    } else if first == PERCENT {
        b == PERCENT || b == EQ
    } else if first == DOT {
        b == DOT || b == EQ || b == BACKSLASH
    } else if first == COLON {
        b == COLON
    } else {
        false
    }
}

/// Whether `b` may go on an operator that started with `first`.
pub fn op_follows(first: u8, b: u8) -> (r: bool)
    ensures
        r == spec_op_follows(first, b),
{
    if first == LT {
        b == MINUS || b == LT || b == EQ
    } else if first == EQ || first == BANG {
        b == EQ || b == TILDE
    } else if first == PIPE {
        b == PIPE || b == EQ
    } else if first == AMP {
        b == AMP || b == EQ
    } else if first == MINUS {
        b == MINUS || b == EQ || b == DOT
    } else if first == PLUS {
        b == PLUS || b == EQ
    } else if first == GT {
        b == GT || b == EQ
    } else if first == STAR {
        b == STAR || b == EQ
    } else if first == SLASH {
        b == SLASH || b == EQ
    } else if first == CARET {
        b == CARET || b == EQ
    } else if first == PERCENT {
        b == PERCENT || b == EQ
    } else if first == DOT {
        b == DOT || b == EQ || b == BACKSLASH
    } else if first == COLON {
        b == COLON
    } else {
        false
    }
}

/// The way an operator starting with `ch` may go on, when one may start
/// with it.
pub fn is_op_start(ch: u8) -> (r: Option<OpInfo>)
    ensures
        r == (if op_max_len(ch) > 0 {
            Some(OpInfo { first: ch, max_len: op_max_len(ch) })
        } else {
            None::<OpInfo>
        }),
{
    let max_len: usize = if ch == LT || ch == EQ || ch == BANG || ch == PIPE || ch == AMP || ch
        == MINUS || ch == PLUS || ch == GT || ch == STAR || ch == SLASH || ch == CARET || ch
        == PERCENT || ch == COLON {
        2
    } else if ch == DOT {
        3
    } else if ch == TILDE || ch == QUESTION {
        1
    } else {
        0
    };
    if max_len > 0 {
        Some(OpInfo { first: ch, max_len })
    } else {
        None
    }
}

/// A decimal digit.
pub fn is_digit(b: u8) -> (r: bool)
    ensures
        r == spec_is_digit(b),
{
    DIGIT_0 <= b && b <= DIGIT_9
}

/// A hexadecimal digit, of either case.
pub fn is_hex_digit(b: u8) -> (r: bool)
    ensures
        r == ((DIGIT_0 <= b <= DIGIT_9) || (LOWER_A <= b <= LOWER_F) || (UPPER_A <= b <= UPPER_F)),
{
    (DIGIT_0 <= b && b <= DIGIT_9) || (LOWER_A <= b && b <= LOWER_F) || (UPPER_A <= b && b
        <= UPPER_F)
}

/// A binary digit.
pub fn is_binary_digit(b: u8) -> (r: bool)
    ensures
        r == (b == DIGIT_0 || b == DIGIT_1),
{
    b == DIGIT_0 || b == DIGIT_1
}

/// An octal digit.
pub fn is_octal_digit(b: u8) -> (r: bool)
    ensures
        r == (DIGIT_0 <= b <= DIGIT_7),
{
    DIGIT_0 <= b && b <= DIGIT_7
}

/// The exponent mark of scientific notation.
pub fn is_sci_exp(b: u8) -> (r: bool)
    ensures
        r == (b == LOWER_E || b == UPPER_E),
{
    b == LOWER_E || b == UPPER_E
}

/// A byte that may follow the exponent mark.
pub fn is_sci_digit(b: u8) -> (r: bool)
    ensures
        r == (spec_is_digit(b) || b == MINUS || b == PLUS),
{
    (DIGIT_0 <= b && b <= DIGIT_9) || b == MINUS || b == PLUS
}

/// The suffix of a big-integer literal.
pub fn is_bigint_posfix(b: u8) -> (r: bool)
    ensures
        r == (b == LOWER_N),
{
    b == LOWER_N
}

} // verus!
