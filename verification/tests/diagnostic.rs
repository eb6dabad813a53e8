use dinocode::diagnostic::{decimal_string, Diagnostic, ErrorKind, Section, TextColor};
use dinocode::lexer::errors::{LexError, LexErrorType, NumericError};
use dinocode::parser::errors::{ParseError, ParseErrorType};

fn texts(d: &Diagnostic) -> Vec<(Section, String, TextColor)> {
    d.parts.iter().map(|p| (p.section, p.text.clone(), p.color)).collect()
}

#[test]
fn parse_error_report_with_note() {
    let d = ParseError::new(ParseErrorType::MultipleMainFunction, 7, 1).into_diagnostic();
    assert_eq!((d.kind, d.line, d.column), (ErrorKind::Parser, 7, 1));
    assert_eq!(
        texts(&d),
        vec![
            (Section::Message, "multiple 'main' functions defined".to_string(), TextColor::Default),
            (Section::Note, "only one 'main' function is allowed per program".to_string(), TextColor::Green),
        ]
    );
}

#[test]
fn parse_error_report_names_and_suggestion() {
    let typ = ParseErrorType::UndefinedVariable { name: "cnt".to_string(), suggestion: Some("count".to_string()) };
    let d = ParseError::new(typ, 2, 5).into_diagnostic();
    let joined: String = d.parts.iter().map(|p| p.text.as_str()).collect();
    assert_eq!(joined, "undefined variable 'cnt'did you mean 'count'?");
    assert_eq!(d.parts[1].color, TextColor::WhiteBold);
    assert_eq!(d.parts[3].section, Section::Note);
    let typ = ParseErrorType::UnknownType { name: "Foo".to_string(), suggestion: None };
    let d = ParseError::new(typ, 1, 1).into_diagnostic();
    assert_eq!(d.parts.len(), 3);
    let d = ParseError::new(ParseErrorType::ExpectedToken(")"), 1, 1).into_diagnostic();
    let joined: String = d.parts.iter().map(|p| p.text.as_str()).collect();
    assert_eq!(joined, "expected ')'");
}

#[test]
fn parse_error_report_counts_in_decimal() {
    let typ = ParseErrorType::MatchCorrespondenceError { expected_values: 12, actual_values: 3 };
    let d = ParseError::new(typ, 1, 1).into_diagnostic();
    let joined: String = d.parts.iter().map(|p| p.text.as_str()).collect();
    assert_eq!(joined, "match expected 12 values, got 3");
    assert_eq!(decimal_string(0), "0");
    assert_eq!(decimal_string(1234567), "1234567");
    assert_eq!(decimal_string(usize::MAX), usize::MAX.to_string());
}

#[test]
fn lex_error_reports() {
    let d = LexError::new(LexErrorType::UnexpectedTokenAfterDot, 3, 9).into_diagnostic();
    assert_eq!((d.kind, d.line, d.column), (ErrorKind::Lexer, 3, 9));
    assert_eq!(
        texts(&d),
        vec![
            (Section::Message, "unexpected token after '.'".to_string(), TextColor::Default),
            (Section::Note, "dot access must be followed by an identifier".to_string(), TextColor::Default),
        ]
    );
    let d = LexError::new(LexErrorType::UnexpectedToken("unexpected semicolon"), 1, 4).into_diagnostic();
    assert_eq!(texts(&d), vec![(Section::Message, "unexpected semicolon".to_string(), TextColor::Default)]);
    let d = LexError::new(LexErrorType::NumericParse(NumericError::Overflow), 1, 1).into_diagnostic();
    assert_eq!(d.parts[0].text, NumericError::Overflow.message());
}

#[test]
fn lex_error_report_of_unclosed_comment() {
    let d = LexError::new(LexErrorType::Custom("Unterminated multiline comment"), 2, 3).into_diagnostic();
    assert_eq!(
        texts(&d),
        vec![(Section::Message, "Unterminated multiline comment".to_string(), TextColor::Default)]
    );
}
