//! The token vocabulary of the language: token kinds, operators, token
//! values and the token record that the lexer produces.

use vstd::prelude::*;

verus! {

/// The operators of the language.
#[derive(Debug, Clone, Copy, PartialEq, Eq, Structural)]
pub enum Operator {
    Add,
    Sub,
    Mul,
    Div,
    FloorDiv,
    Mod,
    Pow,
    Inc,
    Dec,
    Assign,
    AddAssign,
    SubAssign,
    MulAssign,
    DivAssign,
    FloorDivAssign,
    ConcatAssign,
    Arrow,
    Eq,
    Ne,
    Gt,
    Lt,
    Ge,
    Le,
    BitAnd,
    BitOr,
    BitXor,
    And,
    Or,
    Not,
    Dot,
    Backdot,
    Range,
    RangeInclusive,
    Colon,
    BiColon,
    As,
    SetMember,
    SetIndex,
}

/// The kinds of tokens.
#[derive(Debug, Clone, Copy, PartialEq, Eq, Structural)]
pub enum TokenType {
    Integer,
    BigInt,
    Float,
    Bool,
    String,
    Null,
    Identifier,
    DollarCall,
    DotAccess,
    NativeAccess,
    Comma,
    Op(Operator),
    LParen,
    RParen,
    LBracket,
    RBracket,
    LBrace,
    RBrace,
    LBraceExpr,
    RBraceExpr,
    LString,
    RString,
    If,
    Elif,
    Else,
    Is,
    In,
    IsMatch,
    InMatch,
    While,
    For,
    Return,
    Break,
    Continue,
    Class,
    Function,
    Redirect,
    Indent,
    Dedent,
    End,
}

/// The value that a token carries.
///
/// A floating-point literal is carried as its normalised literal text (sign
/// included, digit separators removed); its conversion to a binary float is
/// left to the consumer of the tokens.
#[derive(Debug, Clone, PartialEq)]
pub enum TokenValue {
    Integer(i64),
    Float(String),
    BigInt(String),
    Bool(bool),
    String(String),
    NaN,
    Infinity,
    Empty,
}

/// A source position: line, column and length in bytes.
pub type Pos = Option<(u32, u32, usize)>;

/// A token: its kind, its value, where it stands in the source, and the two
/// flags that the lexer infers for operators.
#[derive(Debug, Clone, PartialEq)]
pub struct Token {
    pub typ: TokenType,
    pub value: TokenValue,
    pub line: Option<u32>,
    pub column: Option<u32>,
    pub length: Option<usize>,
    pub is_unary: bool,
    pub is_breaker: bool,
}

/// The value that a token carries, as a mathematical value.
pub enum ValueView {
    Integer(i64),
    Float(Seq<char>),
    BigInt(Seq<char>),
    Bool(bool),
    String(Seq<char>),
    NaN,
    Infinity,
    Empty,
}

impl View for TokenValue {
    type V = ValueView;

    open spec fn view(&self) -> ValueView {
        match self {
            TokenValue::Integer(v) => ValueView::Integer(*v),
            TokenValue::Float(s) => ValueView::Float(s@),
            TokenValue::BigInt(s) => ValueView::BigInt(s@),
            TokenValue::Bool(b) => ValueView::Bool(*b),
            TokenValue::String(s) => ValueView::String(s@),
            TokenValue::NaN => ValueView::NaN,
            TokenValue::Infinity => ValueView::Infinity,
            TokenValue::Empty => ValueView::Empty,
        }
    }
}

/// A token as a mathematical value.
pub struct TokenView {
    pub typ: TokenType,
    pub value: ValueView,
    pub line: Option<u32>,
    pub column: Option<u32>,
    pub length: Option<usize>,
    pub is_unary: bool,
    pub is_breaker: bool,
}

impl View for Token {
    type V = TokenView;

    open spec fn view(&self) -> TokenView {
        TokenView {
            typ: self.typ,
            value: self.value@,
            line: self.line,
            column: self.column,
            length: self.length,
            is_unary: self.is_unary,
            is_breaker: self.is_breaker,
        }
    }
}

pub open spec fn pos_line(pos: Pos) -> Option<u32> {
    match pos {
        Some(p) => Some(p.0),
        None => None,
    }
}

pub open spec fn pos_column(pos: Pos) -> Option<u32> {
    match pos {
        Some(p) => Some(p.1),
        None => None,
    }
}

pub open spec fn pos_length(pos: Pos) -> Option<usize> {
    match pos {
        Some(p) => Some(p.2),
        None => None,
    }
}

/// The token of kind `typ` with value `value` at `pos`, with both flags unset.
pub open spec fn token_at(typ: TokenType, value: ValueView, pos: Pos) -> TokenView {
    TokenView {
        typ,
        value,
        line: pos_line(pos),
        column: pos_column(pos),
        length: pos_length(pos),
        is_unary: false,
        is_breaker: false,
    }
}

/// After a token of this kind, a line break does not end the statement, and
/// no implicit separator is inserted before the next token.
pub open spec fn spec_is_continuous(t: TokenView) -> bool {
    match t.typ {
        TokenType::Op(_) => !t.is_breaker,
        TokenType::LParen | TokenType::LBracket | TokenType::LBrace | TokenType::LBraceExpr
        | TokenType::LString | TokenType::Comma | TokenType::Function | TokenType::Class
        | TokenType::Redirect => true,
        _ => false,
    }
}

/// Before a token of this kind no implicit separator is inserted.
pub open spec fn spec_is_delimiter(t: TokenView) -> bool {
    match t.typ {
        TokenType::Op(_) => !t.is_unary,
        TokenType::RParen | TokenType::RBracket | TokenType::RBrace | TokenType::RBraceExpr
        | TokenType::RString | TokenType::Comma | TokenType::End | TokenType::Indent
        | TokenType::Dedent | TokenType::DotAccess | TokenType::NativeAccess => true,
        _ => false,
    }
}

fn pos_parts(pos: Pos) -> (r: (Option<u32>, Option<u32>, Option<usize>))
    ensures
        r == (pos_line(pos), pos_column(pos), pos_length(pos)),
{
    match pos {
        Some(p) => (Some(p.0), Some(p.1), Some(p.2)),
        None => (None, None, None),
    }
}

impl Token {
    /// A token of kind `typ` with value `value` at `pos`.
    pub fn new(typ: TokenType, value: TokenValue, pos: Pos) -> (t: Token)
        ensures
            t@ == token_at(typ, value@, pos),
    {
        let (line, column, length) = pos_parts(pos);
        Token { typ, value, line, column, length, is_unary: false, is_breaker: false }
    }

    /// A structural token (delimiter or keyword) without value.
    pub fn delim(typ: TokenType, pos: Pos) -> (t: Token)
        ensures
            t@ == token_at(typ, ValueView::Empty, pos),
    {
        Token::new(typ, TokenValue::Empty, pos)
    }

    /// The end of a statement.
    pub fn end(pos: Pos) -> (t: Token)
        ensures
            t@ == token_at(TokenType::End, ValueView::Empty, pos),
    {
        Token::new(TokenType::End, TokenValue::Empty, pos)
    }

    /// A separator between arguments.
    pub fn comma(pos: Pos) -> (t: Token)
        ensures
            t@ == token_at(TokenType::Comma, ValueView::Empty, pos),
    {
        Token::new(TokenType::Comma, TokenValue::Empty, pos)
    }

    /// An operator.
    pub fn op(op: Operator, pos: Pos) -> (t: Token)
        ensures
            t@ == token_at(TokenType::Op(op), ValueView::Empty, pos),
    {
        Token::new(TokenType::Op(op), TokenValue::Empty, pos)
    }

    /// A piece of string literal.
    pub fn string(s: String, pos: Pos) -> (t: Token)
        ensures
            t@ == token_at(TokenType::String, ValueView::String(s@), pos),
    {
        Token::new(TokenType::String, TokenValue::String(s), pos)
    }

    /// An integer literal.
    pub fn integer(v: i64, pos: Pos) -> (t: Token)
        ensures
            t@ == token_at(TokenType::Integer, ValueView::Integer(v), pos),
    {
        Token::new(TokenType::Integer, TokenValue::Integer(v), pos)
    }

    /// A floating-point literal, carried as its literal text.
    pub fn float(text: String, pos: Pos) -> (t: Token)
        ensures
            t@ == token_at(TokenType::Float, ValueView::Float(text@), pos),
    {
        Token::new(TokenType::Float, TokenValue::Float(text), pos)
    }

    /// A big-integer literal, carried as its digits.
    pub fn bigint(digits: String, pos: Pos) -> (t: Token)
        ensures
            t@ == token_at(TokenType::BigInt, ValueView::BigInt(digits@), pos),
    {
        Token::new(TokenType::BigInt, TokenValue::BigInt(digits), pos)
    }

    /// A boolean literal.
    pub fn bool(b: bool, pos: Pos) -> (t: Token)
        ensures
            t@ == token_at(TokenType::Bool, ValueView::Bool(b), pos),
    {
        Token::new(TokenType::Bool, TokenValue::Bool(b), pos)
    }

    /// The `none` literal.
    pub fn none(pos: Pos) -> (t: Token)
        ensures
            t@ == token_at(TokenType::Null, ValueView::Empty, pos),
    {
        Token::new(TokenType::Null, TokenValue::Empty, pos)
    }

    /// The `nan` literal.
    pub fn nan(pos: Pos) -> (t: Token)
        ensures
            t@ == token_at(TokenType::Float, ValueView::NaN, pos),
    {
        Token::new(TokenType::Float, TokenValue::NaN, pos)
    }

    /// The `infi` literal.
    pub fn infi(pos: Pos) -> (t: Token)
        ensures
            t@ == token_at(TokenType::Float, ValueView::Infinity, pos),
    {
        Token::new(TokenType::Float, TokenValue::Infinity, pos)
    }

    /// An identifier.
    pub fn identifier(name: String, pos: Pos) -> (t: Token)
        ensures
            t@ == token_at(TokenType::Identifier, ValueView::String(name@), pos),
    {
        Token::new(TokenType::Identifier, TokenValue::String(name), pos)
    }

    /// A member access written `.name`.
    pub fn dot_access(name: String, pos: Pos) -> (t: Token)
        ensures
            t@ == token_at(TokenType::DotAccess, ValueView::String(name@), pos),
    {
        Token::new(TokenType::DotAccess, TokenValue::String(name), pos)
    }

    /// A native member access written `.\name`.
    pub fn native_access(name: String, pos: Pos) -> (t: Token)
        ensures
            t@ == token_at(TokenType::NativeAccess, ValueView::String(name@), pos),
    {
        Token::new(TokenType::NativeAccess, TokenValue::String(name), pos)
    }

    /// The callee of a dollar call `$(name ...)`.
    pub fn dollar_call(name: String, pos: Pos) -> (t: Token)
        ensures
            t@ == token_at(TokenType::DollarCall, ValueView::String(name@), pos),
    {
        Token::new(TokenType::DollarCall, TokenValue::String(name), pos)
    }

    /// The head `>` of a literal block redirection.
    pub fn redirect(pos: Pos) -> (t: Token)
        ensures
            t@ == token_at(TokenType::Redirect, ValueView::Empty, pos),
    {
        Token::new(TokenType::Redirect, TokenValue::Empty, pos)
    }

    /// The head `::` of a class definition.
    pub fn class(pos: Pos) -> (t: Token)
        ensures
            t@ == token_at(TokenType::Class, ValueView::Empty, pos),
    {
        Token::new(TokenType::Class, TokenValue::Empty, pos)
    }

    /// The head `:` of a function definition.
    pub fn function(pos: Pos) -> (t: Token)
        ensures
            t@ == token_at(TokenType::Function, ValueView::Empty, pos),
    {
        Token::new(TokenType::Function, TokenValue::Empty, pos)
    }

    /// The same token with its unary flag set to `u`.
    pub fn with_unary(self, u: bool) -> (t: Token)
        ensures
            t@ == (TokenView { is_unary: u, ..self@ }),
    {
        Token { is_unary: u, ..self }
    }

    /// The same token with its breaker flag set to `b`.
    pub fn with_breaker(self, b: bool) -> (t: Token)
        ensures
            t@ == (TokenView { is_breaker: b, ..self@ }),
    {
        Token { is_breaker: b, ..self }
    }

    /// Whether a line break after this token continues the statement.
    pub fn is_continuous(&self) -> (r: bool)
        ensures
            r == spec_is_continuous(self@),
    {
        match self.typ {
            TokenType::Op(_) => !self.is_breaker,
            TokenType::LParen | TokenType::LBracket | TokenType::LBrace | TokenType::LBraceExpr
            | TokenType::LString | TokenType::Comma | TokenType::Function | TokenType::Class
            | TokenType::Redirect => true,
            _ => false,
        }
    }

    /// Whether no implicit separator goes before this token.
    pub fn is_delimiter(&self) -> (r: bool)
        ensures
            r == spec_is_delimiter(self@),
    {
        match self.typ {
            TokenType::Op(_) => !self.is_unary,
            TokenType::RParen | TokenType::RBracket | TokenType::RBrace | TokenType::RBraceExpr
            | TokenType::RString | TokenType::Comma | TokenType::End | TokenType::Indent
            | TokenType::Dedent | TokenType::DotAccess | TokenType::NativeAccess => true,
            _ => false,
        }
    }
}

} // verus!
