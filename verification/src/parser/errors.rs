//! The errors of the parser.

use vstd::prelude::*;
use crate::syntax::{Token, TokenView};
use crate::lexer::errors::{NumericError, numeric_error_text};
use crate::diagnostic::{
    Diagnostic, DiagnosticPart, ErrorKind, PartView, Section, TextColor, message, note, parts_view,
    push_part, push_owned_part, decimal, decimal_string,
};

verus! {

/// The kinds of syntax error.
#[derive(Debug, Clone, PartialEq, Eq)]
pub enum ParseErrorType {
    ExpectedToken(&'static str),
    ExpectedIdentifier(&'static str),
    ExpectedExpression(&'static str),
    ExpectedIndentedBlock(&'static str),
    MismatchedDelimiter(&'static str),
    InvalidControlFlow(&'static str),
    FunctionResolutionError(&'static str),
    UnexpectedToken(&'static str),
    InvalidOperator(&'static str),
    NumericParse(NumericError),
    Custom(String),
    MultipleReturnValues,
    NativePropertyAssignment,
    UnsupportedBackdotOperator,
    MultipleMainFunction,
    PrefixIncrementDecrementNotSupported,
    EmptyMatchComparison,
    InvalidAssignmentTarget,
    UndefinedVariable { name: String, suggestion: Option<String> },
    UnknownType { name: String, suggestion: Option<String> },
    MatchCorrespondenceError { expected_values: usize, actual_values: usize },
    MissingTokenValue,
}

/// A syntax error and the place (line, column) where it was found.
#[derive(Debug, Clone)]
pub struct ParseError {
    pub typ: ParseErrorType,
    pub line: u32,
    pub column: u32,
}

/// The place of a token, (0, 0) where it has none.
pub open spec fn token_place(t: TokenView) -> (u32, u32) {
    (
        match t.line {
            Some(l) => l,
            None => 0,
        },
        match t.column {
            Some(c) => c,
            None => 0,
        },
    )
}

impl ParseError {
    /// The error `typ` at `line` and `column`.
    pub fn new(typ: ParseErrorType, line: u32, column: u32) -> (r: ParseError)
        ensures
            r == (ParseError { typ, line, column }),
    {
        ParseError { typ, line, column }
    }

    /// The error `typ` at the place of `token`.
    pub fn from_token(typ: ParseErrorType, token: &Token) -> (r: ParseError)
        ensures
            r == (ParseError { typ, line: token_place(token@).0, column: token_place(token@).1 }),
    {
        let line = match token.line {
            Some(l) => l,
            None => 0,
        };
        let column = match token.column {
            Some(c) => c,
            None => 0,
        };
        ParseError { typ, line, column }
    }

    /// The report of the error: a parser error at its place, with its
    /// message, the names and counts in it set off in white bold, and for
    /// some kinds a note in green.
    pub fn into_diagnostic(self) -> (d: Diagnostic)
        ensures
            d.kind == ErrorKind::Parser,
            d.line == self.line,
            d.column == self.column,
            parts_view(d.parts@) == parse_error_parts(self.typ),
    {
        let mut parts: Vec<DiagnosticPart> = Vec::new();
        let m = Section::Message;
        let n = Section::Note;
        let c = TextColor::Default;
        let bold = TextColor::WhiteBold;
        let green = TextColor::Green;
        match self.typ {
            ParseErrorType::ExpectedToken(token) => {
                push_part(&mut parts, m, "expected '", c);
                push_part(&mut parts, m, token, bold);
                push_part(&mut parts, m, "'", c);
            },
            ParseErrorType::ExpectedIdentifier(what) => {
                push_part(&mut parts, m, "expected ", c);
                push_part(&mut parts, m, what, bold);
            },
            ParseErrorType::ExpectedExpression(msg) => {
                push_part(&mut parts, m, "expected expression: ", c);
                push_part(&mut parts, m, msg, bold);
            },
            ParseErrorType::ExpectedIndentedBlock(keyword) => {
                push_part(&mut parts, m, "expected indented block after '", c);
                push_part(&mut parts, m, keyword, bold);
                push_part(&mut parts, m, "'", c);
            },
            ParseErrorType::MismatchedDelimiter(msg) => {
                push_part(&mut parts, m, msg, c);
            },
            ParseErrorType::InvalidControlFlow(msg) => {
                push_part(&mut parts, m, msg, c);
                push_part(&mut parts, n, "check the context where this statement is used", green);
            },
            ParseErrorType::FunctionResolutionError(msg) => {
                push_part(&mut parts, m, msg, c);
            },
            ParseErrorType::UnexpectedToken(msg) => {
                push_part(&mut parts, m, msg, c);
            },
            ParseErrorType::InvalidOperator(msg) => {
                push_part(&mut parts, m, msg, c);
            },
            ParseErrorType::NumericParse(e) => {
                push_part(&mut parts, m, e.message(), c);
            },
            ParseErrorType::Custom(msg) => {
                push_owned_part(&mut parts, m, msg, c);
            },
            ParseErrorType::MultipleReturnValues => {
                push_part(&mut parts, m, "multiple return values are not supported", c);
            },
            ParseErrorType::NativePropertyAssignment => {
                push_part(&mut parts, m, "cannot assign to a native property", c);
            },
            ParseErrorType::UnsupportedBackdotOperator => {
                push_part(&mut parts, m, "unsupported backdot operator in this context", c);
            },
            ParseErrorType::MultipleMainFunction => {
                push_part(&mut parts, m, "multiple 'main' functions defined", c);
                push_part(&mut parts, n, "only one 'main' function is allowed per program", green);
            },
            ParseErrorType::PrefixIncrementDecrementNotSupported => {
                push_part(&mut parts, m, "prefix '++' / '--' is not supported", c);
                push_part(&mut parts, n, "use postfix form: 'i++' or 'i--'", green);
            },
            ParseErrorType::EmptyMatchComparison => {
                push_part(&mut parts, m, "empty match comparison", c);
            },
            ParseErrorType::InvalidAssignmentTarget => {
                push_part(&mut parts, m, "invalid assignment target", c);
            },
            ParseErrorType::UndefinedVariable { name, suggestion } => {
                push_part(&mut parts, m, "undefined variable '", c);
                push_owned_part(&mut parts, m, name, bold);
                push_part(&mut parts, m, "'", c);
                if let Some(s) = suggestion {
                    push_part(&mut parts, n, "did you mean '", green);
                    push_owned_part(&mut parts, n, s, bold);
                    push_part(&mut parts, n, "'?", green);
                }
            },
            ParseErrorType::UnknownType { name, suggestion } => {
                push_part(&mut parts, m, "unknown type '", c);
                push_owned_part(&mut parts, m, name, bold);
                push_part(&mut parts, m, "'", c);
                if let Some(s) = suggestion {
                    push_part(&mut parts, n, "did you mean '", green);
                    push_owned_part(&mut parts, n, s, bold);
                    push_part(&mut parts, n, "'?", green);
                }
            },
            ParseErrorType::MatchCorrespondenceError { expected_values, actual_values } => {
                push_part(&mut parts, m, "match expected ", c);
                push_owned_part(&mut parts, m, decimal_string(expected_values), bold);
                push_part(&mut parts, m, " values, got ", c);
                push_owned_part(&mut parts, m, decimal_string(actual_values), bold);
            },
            ParseErrorType::MissingTokenValue => {
                push_part(&mut parts, m, "missing token value", c);
            },
        }
        Diagnostic { kind: ErrorKind::Parser, line: self.line, column: self.column, parts }
    }
}

/// The note that suggests a name, if there is a suggestion.
pub open spec fn suggestion_parts(suggestion: Option<String>) -> Seq<PartView> {
    match suggestion {
        Some(s) => seq![
            note("did you mean '"@, TextColor::Green),
            note(s@, TextColor::WhiteBold),
            note("'?"@, TextColor::Green),
        ],
        None => seq![],
    }
}

/// The text of the report of a syntax error.
pub open spec fn parse_error_parts(t: ParseErrorType) -> Seq<PartView> {
    let c = TextColor::Default;
    let bold = TextColor::WhiteBold;
    let green = TextColor::Green;
    match t {
        ParseErrorType::ExpectedToken(token) => seq![
            message("expected '"@, c),
            message(token@, bold),
            message("'"@, c),
        ],
        ParseErrorType::ExpectedIdentifier(what) => seq![message("expected "@, c), message(what@, bold)],
        ParseErrorType::ExpectedExpression(msg) => seq![
            message("expected expression: "@, c),
            message(msg@, bold),
        ],
        ParseErrorType::ExpectedIndentedBlock(keyword) => seq![
            message("expected indented block after '"@, c),
            message(keyword@, bold),
            message("'"@, c),
        ],
        ParseErrorType::MismatchedDelimiter(msg) => seq![message(msg@, c)],
        ParseErrorType::InvalidControlFlow(msg) => seq![
            message(msg@, c),
            note("check the context where this statement is used"@, green),
        ],
        ParseErrorType::FunctionResolutionError(msg) => seq![message(msg@, c)],
        ParseErrorType::UnexpectedToken(msg) => seq![message(msg@, c)],
        ParseErrorType::InvalidOperator(msg) => seq![message(msg@, c)],
        ParseErrorType::NumericParse(e) => seq![message(numeric_error_text(e), c)],
        ParseErrorType::Custom(msg) => seq![message(msg@, c)],
        ParseErrorType::MultipleReturnValues => seq![message("multiple return values are not supported"@, c)],
        ParseErrorType::NativePropertyAssignment => seq![message("cannot assign to a native property"@, c)],
        ParseErrorType::UnsupportedBackdotOperator => seq![
            message("unsupported backdot operator in this context"@, c),
        ],
        ParseErrorType::MultipleMainFunction => seq![
            message("multiple 'main' functions defined"@, c),
            note("only one 'main' function is allowed per program"@, green),
        ],
        ParseErrorType::PrefixIncrementDecrementNotSupported => seq![
            message("prefix '++' / '--' is not supported"@, c),
            note("use postfix form: 'i++' or 'i--'"@, green),
        ],
        ParseErrorType::EmptyMatchComparison => seq![message("empty match comparison"@, c)],
        ParseErrorType::InvalidAssignmentTarget => seq![message("invalid assignment target"@, c)],
        ParseErrorType::UndefinedVariable { name, suggestion } => seq![
            message("undefined variable '"@, c),
            message(name@, bold),
            message("'"@, c),
        ] + suggestion_parts(suggestion),
        ParseErrorType::UnknownType { name, suggestion } => seq![
            message("unknown type '"@, c),
            message(name@, bold),
            message("'"@, c),
        ] + suggestion_parts(suggestion),
        ParseErrorType::MatchCorrespondenceError { expected_values, actual_values } => seq![
            message("match expected "@, c),
            message(decimal(expected_values as nat), bold),
            message(" values, got "@, c),
            message(decimal(actual_values as nat), bold),
        ],
        ParseErrorType::MissingTokenValue => seq![message("missing token value"@, c)],
    }
}

} // verus!
