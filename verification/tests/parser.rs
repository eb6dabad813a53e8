use dinocode::parser::delimiters::Parser;
use dinocode::parser::context::ParserContext;
use dinocode::parser::frames::{FuncFrame, GroupFrame, LogicFrame};
use dinocode::parser::errors::{ParseError, ParseErrorType};
use dinocode::syntax::{Operator, Token, TokenType};

#[test]
fn counteract_delimiters() {
    assert_eq!(Parser::get_counteract_delim(TokenType::LParen), TokenType::RParen);
    assert_eq!(Parser::get_counteract_delim(TokenType::RBraceExpr), TokenType::LBraceExpr);
    assert_eq!(Parser::get_counteract_delim(TokenType::Comma), TokenType::Comma);
    for t in [TokenType::LBrace, TokenType::RString, TokenType::If, TokenType::LBracket] {
        assert_eq!(Parser::get_counteract_delim(Parser::get_counteract_delim(t)), t);
    }
}

#[test]
fn delimiter_messages() {
    assert_eq!(Parser::get_delimiter_error_message(TokenType::LParen), ParseErrorType::ExpectedToken(")"));
    assert_eq!(
        Parser::get_delimiter_error_message(TokenType::While),
        ParseErrorType::ExpectedIndentedBlock("while")
    );
    assert_eq!(
        Parser::get_delimiter_error_message(TokenType::Comma),
        ParseErrorType::MismatchedDelimiter("unrecognized delimiter")
    );
}

#[test]
fn continuity() {
    let tokens = vec![
        Token::identifier("a".to_string(), None),
        Token::op(Operator::Add, None),
        Token::delim(TokenType::LParen, None),
        Token::comma(None),
    ];
    assert!(!Parser::is_continuous(0, &tokens));
    assert!(Parser::is_continuous(1, &tokens));
    assert!(!Parser::is_continuous(2, &tokens));
    assert!(!Parser::is_continuous(3, &tokens));
    assert!(!Parser::is_continuous(4, &tokens));
    assert!(!Parser::is_continuous(5, &tokens));
    assert_eq!(Parser::STACK_DELIMITERS.len(), 18);
    assert!(Parser::is_stack_delimiter(TokenType::Indent));
    assert!(!Parser::is_stack_delimiter(TokenType::Dedent));
}

#[test]
fn parse_error_places() {
    let t = Token::delim(TokenType::RParen, Some((3, 7, 1)));
    let e = ParseError::from_token(ParseErrorType::MultipleReturnValues, &t);
    assert_eq!((e.line, e.column), (3, 7));
    let e = ParseError::from_token(ParseErrorType::MissingTokenValue, &Token::end(None));
    assert_eq!((e.line, e.column), (0, 0));
    let e = ParseError::new(ParseErrorType::MultipleMainFunction, 2, 4);
    assert_eq!((e.line, e.column, e.typ), (2, 4, ParseErrorType::MultipleMainFunction));
}

fn call_frame(depth: u32) -> FuncFrame {
    FuncFrame {
        depth,
        output_len: 0,
        is_method: false,
        is_dollar: false,
        is_explicit_call: true,
        name: Some("f".to_string()),
    }
}

#[test]
fn context_starts_empty() {
    let ctx = ParserContext::new(10, "x = 1");
    assert!(ctx.instructions.is_empty() && ctx.source_map.is_empty() && ctx.op_stack.is_empty());
    assert!(ctx.func_frames.is_empty() && ctx.group_frames.is_empty() && ctx.logic_frames.is_empty());
    assert!(ctx.allow_main);
    assert_eq!(ctx.source, "x = 1");
}

#[test]
fn context_takes_frames_only_at_their_depth() {
    let mut ctx = ParserContext::new(0, "");
    ctx.func_frames.push(call_frame(1));
    ctx.func_frames.push(call_frame(2));
    assert!(ctx.is_call_depth(2));
    assert!(!ctx.is_call_depth(1));
    assert!(ctx.call_with_depth(1).is_none());
    assert_eq!(ctx.func_frames.len(), 2);
    assert_eq!(ctx.call_with_depth(2).map(|f| f.depth), Some(2));
    assert_eq!(ctx.func_frames.len(), 1);
    assert!(ctx.is_call_depth(1));
    assert!(!ctx.is_group_depth(0));
    assert!(ctx.group_with_depth(0).is_none());
    ctx.group_frames.push(GroupFrame { depth: 0, output_len: 3 });
    assert!(ctx.is_group_depth(0));
    assert_eq!(ctx.group_with_depth(0).map(|g| g.output_len), Some(3));
    assert!(ctx.object_with_depth(0).is_none() && ctx.array_with_depth(0).is_none());
    assert!(!ctx.is_object_depth(0) && !ctx.is_array_depth(0));
    ctx.logic_frames.push(LogicFrame { depth: 4, jumps: vec![], count: 0 });
    assert!(ctx.is_logic_depth(4) && !ctx.is_logic_depth(5));
}

#[test]
fn context_emit_records_known_locations() {
    let mut ctx = ParserContext::new(0, "");
    ctx.emit(7, Some(&Token::delim(TokenType::LParen, Some((3, 5, 1)))));
    ctx.emit(8, None);
    ctx.emit(9, Some(&Token::end(None)));
    ctx.emit(10, Some(&Token::delim(TokenType::RParen, Some((0, 5, 1)))));
    ctx.emit(11, Some(&Token::delim(TokenType::RParen, Some((4, 2, 1)))));
    assert_eq!(ctx.instructions, vec![7, 8, 9, 10, 11]);
    assert_eq!(ctx.source_map, vec![(0, 3, 5), (4, 4, 2)]);
}
