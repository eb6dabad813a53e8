//! The errors of the lexer.

use vstd::prelude::*;
use crate::diagnostic::{
    Diagnostic, DiagnosticPart, ErrorKind, PartView, Section, TextColor, message, note, parts_view,
    push_part,
};

verus! {

/// Why a numeric literal could not be read.
#[derive(Debug, Clone, Copy, PartialEq, Eq, Structural)]
pub enum NumericError {
    /// No digit follows the base prefix.
    Empty,
    /// A character that is not a digit of the literal's base.
    InvalidDigit,
    /// The value does not fit in a 64-bit signed integer.
    Overflow,
    /// A floating-point literal that is not of the form
    /// `digits[.digits][(e|E)[+|-]digits]`.
    MalformedFloat,
}

/// What the report of a numeric error says.
pub open spec fn numeric_error_text(e: NumericError) -> Seq<char> {
    match e {
        NumericError::Empty => "expected digits after the base prefix"@,
        NumericError::InvalidDigit => "invalid digit in numeric literal"@,
        NumericError::Overflow => "integer literal too large"@,
        NumericError::MalformedFloat => "malformed floating-point literal"@,
    }
}

impl NumericError {
    /// What the report of the error says.
    pub fn message(&self) -> (r: &'static str)
        ensures
            r@ == numeric_error_text(*self),
    {
        match self {
            NumericError::Empty => "expected digits after the base prefix",
            NumericError::InvalidDigit => "invalid digit in numeric literal",
            NumericError::Overflow => "integer literal too large",
            NumericError::MalformedFloat => "malformed floating-point literal",
        }
    }
}

/// The kinds of lexical error.
#[derive(Debug, Clone, PartialEq, Eq)]
pub enum LexErrorType {
    NumericParse(NumericError),
    UnexpectedToken(&'static str),
    InvalidOperator,
    OperatorNotAllowed,
    UnexpectedDollarCall,
    UnexpectedLogicalContinuation,
    UnexpectedTokenAfterDot,
    UnexpectedBlankAfterDot,
    DollarCallWithSpace,
    ReservedKeywordAsIdentifier,
    UnterminatedMultilineComment,
    EmptyLiteralBlockString,
    /// An error whose message is given as it is.
    Custom(&'static str),
}

/// A lexical error and the place (line, column) where it was found.
#[derive(Debug, Clone)]
pub struct LexError {
    pub typ: LexErrorType,
    pub line: u32,
    pub column: u32,
}

impl LexError {
    /// The error `typ` at `line` and `column`.
    pub fn new(typ: LexErrorType, line: u32, column: u32) -> (r: LexError)
        ensures
            r == (LexError { typ, line, column }),
    {
        LexError { typ, line, column }
    }

    /// The report of the error: a lexer error at its place, with its message
    /// and, for most kinds, a note on how to mend it.
    pub fn into_diagnostic(self) -> (d: Diagnostic)
        ensures
            d.kind == ErrorKind::Lexer,
            d.line == self.line,
            d.column == self.column,
            parts_view(d.parts@) == lex_error_parts(self.typ),
    {
        let mut parts: Vec<DiagnosticPart> = Vec::new();
        let m = Section::Message;
        let n = Section::Note;
        let c = TextColor::Default;
        match self.typ {
            LexErrorType::NumericParse(e) => {
                push_part(&mut parts, m, e.message(), c);
            },
            LexErrorType::UnexpectedToken(msg) => {
                push_part(&mut parts, m, msg, c);
            },
            LexErrorType::InvalidOperator => {
                push_part(&mut parts, m, "invalid operator", c);
            },
            LexErrorType::OperatorNotAllowed => {
                push_part(&mut parts, m, "operator not allowed here", c);
            },
            LexErrorType::UnexpectedDollarCall => {
                push_part(&mut parts, m, "unexpected dollar call", c);
            },
            LexErrorType::UnexpectedLogicalContinuation => {
                push_part(&mut parts, m, "incomplete expression", c);
                push_part(&mut parts, n, "ensure the expression ends properly", c);
            },
            LexErrorType::UnexpectedTokenAfterDot => {
                push_part(&mut parts, m, "unexpected token after '.'", c);
                push_part(&mut parts, n, "dot access must be followed by an identifier", c);
            },
            LexErrorType::UnexpectedBlankAfterDot => {
                push_part(&mut parts, m, "unexpected space after '.'", c);
                push_part(&mut parts, n, "dot access cannot have spaces between the dot and the identifier", c);
            },
            LexErrorType::DollarCallWithSpace => {
                push_part(&mut parts, m, "unexpected space after '$'", c);
                push_part(&mut parts, n, "dollar calls cannot have spaces between '$' and '('", c);
            },
            LexErrorType::ReservedKeywordAsIdentifier => {
                push_part(&mut parts, m, "reserved keyword used as identifier", c);
            },
            LexErrorType::UnterminatedMultilineComment => {
                push_part(&mut parts, m, "unterminated multiline comment", c);
                push_part(&mut parts, n, "multiline comments must be closed with '*#'", c);
            },
            LexErrorType::EmptyLiteralBlockString => {
                push_part(&mut parts, m, "literal block string cannot be empty", c);
                push_part(&mut parts, n, "block strings must contain at least one character", c);
            },
            LexErrorType::Custom(msg) => {
                push_part(&mut parts, m, msg, c);
            },
        }
        Diagnostic { kind: ErrorKind::Lexer, line: self.line, column: self.column, parts }
    }
}

/// The text of the report of a lexical error, all of it in the default color.
pub open spec fn lex_error_parts(t: LexErrorType) -> Seq<PartView> {
    let c = TextColor::Default;
    match t {
        LexErrorType::NumericParse(e) => seq![message(numeric_error_text(e), c)],
        LexErrorType::UnexpectedToken(msg) => seq![message(msg@, c)],
        LexErrorType::InvalidOperator => seq![message("invalid operator"@, c)],
        LexErrorType::OperatorNotAllowed => seq![message("operator not allowed here"@, c)],
        LexErrorType::UnexpectedDollarCall => seq![message("unexpected dollar call"@, c)],
        LexErrorType::UnexpectedLogicalContinuation => seq![
            message("incomplete expression"@, c),
            note("ensure the expression ends properly"@, c),
        ],
        LexErrorType::UnexpectedTokenAfterDot => seq![
            message("unexpected token after '.'"@, c),
            note("dot access must be followed by an identifier"@, c),
        ],
        LexErrorType::UnexpectedBlankAfterDot => seq![
            message("unexpected space after '.'"@, c),
            note("dot access cannot have spaces between the dot and the identifier"@, c),
        ],
        LexErrorType::DollarCallWithSpace => seq![
            message("unexpected space after '$'"@, c),
            note("dollar calls cannot have spaces between '$' and '('"@, c),
        ],
        LexErrorType::ReservedKeywordAsIdentifier => seq![message("reserved keyword used as identifier"@, c)],
        LexErrorType::UnterminatedMultilineComment => seq![
            message("unterminated multiline comment"@, c),
            note("multiline comments must be closed with '*#'"@, c),
        ],
        LexErrorType::EmptyLiteralBlockString => seq![
            message("literal block string cannot be empty"@, c),
            note("block strings must contain at least one character"@, c),
        ],
        LexErrorType::Custom(msg) => seq![message(msg@, c)],
    }
}

} // verus!
