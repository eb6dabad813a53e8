//! The matching of delimiters: which token closes which, and what is
//! reported when one is missing.

use vstd::prelude::*;
use crate::syntax::{Token, TokenView, TokenType};
use crate::parser::errors::ParseErrorType;

verus! {

/// The parser: it turns tokens into bytecode.
pub struct Parser;

/// The tokens that the parser keeps on its operator stack as delimiters.
pub open spec fn is_stack_delimiter(t: TokenType) -> bool {
    match t {
        TokenType::LParen | TokenType::LBracket | TokenType::LBrace | TokenType::LString
        | TokenType::LBraceExpr | TokenType::Indent | TokenType::End | TokenType::If
        | TokenType::Else | TokenType::Elif | TokenType::While | TokenType::For
        | TokenType::Return | TokenType::Break | TokenType::Continue | TokenType::Class
        | TokenType::Is | TokenType::In => true,
        _ => false,
    }
}

/// The token that matches a delimiter: the closing one of an opening one,
/// the opening one of a closing one; any other token matches itself.
pub open spec fn counteract(t: TokenType) -> TokenType {
    match t {
        TokenType::LParen => TokenType::RParen,
        TokenType::LBrace => TokenType::RBrace,
        TokenType::LBracket => TokenType::RBracket,
        TokenType::LString => TokenType::RString,
        TokenType::LBraceExpr => TokenType::RBraceExpr,
        TokenType::RParen => TokenType::LParen,
        TokenType::RBrace => TokenType::LBrace,
        TokenType::RBracket => TokenType::LBracket,
        TokenType::RString => TokenType::LString,
        TokenType::RBraceExpr => TokenType::LBraceExpr,
        _ => t,
    }
}

/// A line break after the token before index `i` continues the statement:
/// there is such a token, and it is no delimiter, comma or operator.
pub open spec fn continues_after(i: int, tokens: Seq<TokenView>) -> bool {
    &&& 0 < i <= tokens.len()
    &&& !(is_stack_delimiter(tokens[i - 1].typ) || tokens[i - 1].typ == TokenType::Comma
        || tokens[i - 1].typ is Op)
}

impl Parser {
    /// The tokens that the parser keeps on its operator stack as delimiters.
    pub const STACK_DELIMITERS: [TokenType; 18] = [
        TokenType::LParen,
        TokenType::LBracket,
        TokenType::LBrace,
        TokenType::LString,
        TokenType::LBraceExpr,
        TokenType::Indent,
        TokenType::End,
        TokenType::If,
        TokenType::Else,
        TokenType::Elif,
        TokenType::While,
        TokenType::For,
        TokenType::Return,
        TokenType::Break,
        TokenType::Continue,
        TokenType::Class,
        TokenType::Is,
        TokenType::In,
    ];

    /// Whether `t` is one of the stack delimiters.
    pub fn is_stack_delimiter(t: TokenType) -> (r: bool)
        ensures
            r == is_stack_delimiter(t),
    {
        match t {
            TokenType::LParen | TokenType::LBracket | TokenType::LBrace | TokenType::LString
            | TokenType::LBraceExpr | TokenType::Indent | TokenType::End | TokenType::If
            | TokenType::Else | TokenType::Elif | TokenType::While | TokenType::For
            | TokenType::Return | TokenType::Break | TokenType::Continue | TokenType::Class
            | TokenType::Is | TokenType::In => true,
            _ => false,
        }
    }

    /// What is reported when the delimiter `delim_type` is left unmatched.
    pub fn get_delimiter_error_message(delim_type: TokenType) -> (r: ParseErrorType)
        ensures
            r == (match delim_type {
                TokenType::LParen => ParseErrorType::ExpectedToken(")"),
                TokenType::LBrace => ParseErrorType::ExpectedToken("}"),
                TokenType::LBracket => ParseErrorType::ExpectedToken("]"),
                TokenType::LString => ParseErrorType::ExpectedToken("string terminator"),
                TokenType::LBraceExpr => ParseErrorType::ExpectedToken("}"),
                TokenType::RParen => ParseErrorType::ExpectedToken("("),
                TokenType::RBrace => ParseErrorType::ExpectedToken("{"),
                TokenType::RBracket => ParseErrorType::ExpectedToken("["),
                TokenType::RString => ParseErrorType::ExpectedToken("string initializer"),
                TokenType::RBraceExpr => ParseErrorType::ExpectedToken("{"),
                TokenType::IsMatch => ParseErrorType::ExpectedIndentedBlock("is"),
                TokenType::InMatch => ParseErrorType::ExpectedIndentedBlock("in"),
                TokenType::If => ParseErrorType::ExpectedIndentedBlock("if"),
                TokenType::Else => ParseErrorType::ExpectedIndentedBlock("else"),
                TokenType::Elif => ParseErrorType::ExpectedIndentedBlock("elif"),
                TokenType::While => ParseErrorType::ExpectedIndentedBlock("while"),
                TokenType::For => ParseErrorType::ExpectedIndentedBlock("for"),
                TokenType::Is => ParseErrorType::ExpectedIndentedBlock("is"),
                TokenType::In => ParseErrorType::ExpectedIndentedBlock("in"),
                TokenType::Function => ParseErrorType::ExpectedIndentedBlock("function"),
                TokenType::Class => ParseErrorType::ExpectedIndentedBlock("class"),
                _ => ParseErrorType::MismatchedDelimiter("unrecognized delimiter"),
            }),
    {
        match delim_type {
            TokenType::LParen => ParseErrorType::ExpectedToken(")"),
            TokenType::LBrace => ParseErrorType::ExpectedToken("}"),
            TokenType::LBracket => ParseErrorType::ExpectedToken("]"),
            TokenType::LString => ParseErrorType::ExpectedToken("string terminator"),
            TokenType::LBraceExpr => ParseErrorType::ExpectedToken("}"),
            TokenType::RParen => ParseErrorType::ExpectedToken("("),
            TokenType::RBrace => ParseErrorType::ExpectedToken("{"),
            TokenType::RBracket => ParseErrorType::ExpectedToken("["),
            TokenType::RString => ParseErrorType::ExpectedToken("string initializer"),
            TokenType::RBraceExpr => ParseErrorType::ExpectedToken("{"),
            TokenType::IsMatch => ParseErrorType::ExpectedIndentedBlock("is"),
            TokenType::InMatch => ParseErrorType::ExpectedIndentedBlock("in"),
            TokenType::If => ParseErrorType::ExpectedIndentedBlock("if"),
            TokenType::Else => ParseErrorType::ExpectedIndentedBlock("else"),
            TokenType::Elif => ParseErrorType::ExpectedIndentedBlock("elif"),
            TokenType::While => ParseErrorType::ExpectedIndentedBlock("while"),
            TokenType::For => ParseErrorType::ExpectedIndentedBlock("for"),
            TokenType::Is => ParseErrorType::ExpectedIndentedBlock("is"),
            TokenType::In => ParseErrorType::ExpectedIndentedBlock("in"),
            TokenType::Function => ParseErrorType::ExpectedIndentedBlock("function"),
            TokenType::Class => ParseErrorType::ExpectedIndentedBlock("class"),
            _ => ParseErrorType::MismatchedDelimiter("unrecognized delimiter"),
        }
    }

    /// The token that matches the delimiter `delim_type`.
    pub fn get_counteract_delim(delim_type: TokenType) -> (r: TokenType)
        ensures
            r == counteract(delim_type),
    {
        match delim_type {
            TokenType::LParen => TokenType::RParen,
            TokenType::LBrace => TokenType::RBrace,
            TokenType::LBracket => TokenType::RBracket,
            TokenType::LString => TokenType::RString,
            TokenType::LBraceExpr => TokenType::RBraceExpr,
            TokenType::RParen => TokenType::LParen,
            TokenType::RBrace => TokenType::LBrace,
            TokenType::RBracket => TokenType::LBracket,
            TokenType::RString => TokenType::LString,
            TokenType::RBraceExpr => TokenType::LBraceExpr,
            _ => delim_type,
        }
    }

    /// Whether a line break after the token before index `i` continues the
    /// statement.
    pub fn is_continuous(i: usize, tokens: &[Token]) -> (r: bool)
        ensures
            r == continues_after(i as int, tokens@.map_values(|t: Token| t@)),
    {
        if i == 0 || i > tokens.len() {
            return false;
        }
        let t = &tokens[i - 1];
        let is_op = match t.typ {
            TokenType::Op(_) => true,
            _ => false,
        };
        !(Parser::is_stack_delimiter(t.typ) || t.typ == TokenType::Comma || is_op)
    }
}

/// Matching is an involution: the match of the match of a token is the
/// token itself.
pub proof fn law_counteract_involution(t: TokenType)
    ensures
        counteract(counteract(t)) == t,
{
}

/// An opening delimiter and its match are different tokens, and the match
/// of a delimiter is a delimiter of the other side.
pub proof fn law_counteract_opposite(t: TokenType)
    requires
        t is LParen || t is LBrace || t is LBracket || t is LString || t is LBraceExpr,
    ensures
        counteract(t) != t,
        counteract(t) is RParen || counteract(t) is RBrace || counteract(t) is RBracket
            || counteract(t) is RString || counteract(t) is RBraceExpr,
{
}

/// The delimiter `open` opens what `close` closes: parentheses, braces,
/// brackets, strings, and interpolated expressions (`${` and its `}`).
pub open spec fn delimiter_pair(open: TokenType, close: TokenType) -> bool {
    ||| open == TokenType::LParen && close == TokenType::RParen
    ||| open == TokenType::LBrace && close == TokenType::RBrace
    ||| open == TokenType::LBracket && close == TokenType::RBracket
    ||| open == TokenType::LString && close == TokenType::RString
    ||| open == TokenType::LBraceExpr && close == TokenType::RBraceExpr
}

/// Each delimiter is matched by the other delimiter of its own pair, an
/// opening one by the closing one of the same kind and the other way
/// round; a token that belongs to no pair matches itself.
pub proof fn law_counteract_pairs(open: TokenType, close: TokenType, t: TokenType)
    ensures
        delimiter_pair(open, close) ==> counteract(open) == close && counteract(close) == open,
        (forall|c: TokenType| !delimiter_pair(t, c)) && (forall|o: TokenType| !delimiter_pair(o, t))
            ==> counteract(t) == t,
{
    if (forall|c: TokenType| !delimiter_pair(t, c)) && (forall|o: TokenType| !delimiter_pair(o, t)) {
        assert(!delimiter_pair(t, TokenType::RParen) && !delimiter_pair(t, TokenType::RBrace)
            && !delimiter_pair(t, TokenType::RBracket) && !delimiter_pair(t, TokenType::RString)
            && !delimiter_pair(t, TokenType::RBraceExpr));
        assert(!delimiter_pair(TokenType::LParen, t) && !delimiter_pair(TokenType::LBrace, t)
            && !delimiter_pair(TokenType::LBracket, t) && !delimiter_pair(TokenType::LString, t)
            && !delimiter_pair(TokenType::LBraceExpr, t));
    }
}

} // verus!
