use dinocode::lexer::context::{LexerContext, ParseMode};
use dinocode::lexer::context_info::LexerContextInfo;
use dinocode::lexer::counter::Counter;
use dinocode::lexer::errors::{LexErrorType, NumericError};
use dinocode::lexer::keywords::{keyword, Keyword};
use dinocode::lexer::token_list::TokenList;
use dinocode::lexer::utils::buffer::{process_op, push_bigint, push_buffer, push_dollar, push_ident, push_number};
use dinocode::lexer::context::BufType;
use dinocode::lexer::utils::char_utils::{
    is_bigint_posfix, is_binary_digit, is_digit, is_hex_digit, is_ident, is_ident_start,
    is_interpolation_ident, is_interpolation_ident_start, is_octal_digit, is_op_start,
    is_sci_digit, is_sci_exp, op_follows,
};
use dinocode::lexer::utils::headers::get_header_len;
use dinocode::lexer::utils::numeric::{float_literal_text, is_float_literal, parse_i64_lex};
use dinocode::lexer::utils::string::{handle_escape, handle_interpolation, push_utf8_char};
use dinocode::operators::{can_breaker, is_assign, operator_from_bytes};
use dinocode::syntax::{Operator, Token, TokenType, TokenValue};

#[test]
fn char_classes() {
    assert!(is_ident_start(b'a') && is_ident_start(b'Z') && is_ident_start(b'_') && is_ident_start(b'$'));
    assert!(!is_ident_start(b'1') && !is_ident_start(b'-'));
    assert!(is_ident(b'9') && is_ident(b'$'));
    assert!(is_interpolation_ident_start(b'_') && !is_interpolation_ident_start(b'$'));
    assert!(is_interpolation_ident(b'7') && !is_interpolation_ident(b'$'));
    assert!(is_digit(b'0') && !is_digit(b'a'));
    assert!(is_hex_digit(b'F') && is_hex_digit(b'a') && !is_hex_digit(b'g'));
    assert!(is_binary_digit(b'1') && !is_binary_digit(b'2'));
    assert!(is_octal_digit(b'7') && !is_octal_digit(b'8'));
    assert!(is_sci_exp(b'E') && is_sci_exp(b'e') && !is_sci_exp(b'x'));
    assert!(is_sci_digit(b'-') && is_sci_digit(b'+') && is_sci_digit(b'3'));
    assert!(is_bigint_posfix(b'n') && !is_bigint_posfix(b'N'));
}

#[test]
fn operator_starts() {
    let dot = is_op_start(b'.').unwrap();
    assert_eq!(dot.max_len, 3);
    assert!(op_follows(dot.first, b'.') && op_follows(dot.first, b'=') && !op_follows(dot.first, b'a'));
    assert_eq!(is_op_start(b'+').unwrap().max_len, 2);
    assert_eq!(is_op_start(b'~').unwrap().max_len, 1);
    assert!(is_op_start(b'a').is_none());
}

#[test]
fn operator_spelling() {
    assert_eq!(operator_from_bytes(b"x//y", 1, 3), Some(Operator::FloorDiv));
    assert_eq!(operator_from_bytes(b"..=", 0, 3), Some(Operator::RangeInclusive));
    assert_eq!(operator_from_bytes(b"and", 0, 3), Some(Operator::And));
    assert_eq!(operator_from_bytes(b"<-", 0, 2), Some(Operator::Arrow));
    assert_eq!(operator_from_bytes(b"~", 0, 1), None);
    assert!(is_assign(Operator::AddAssign) && is_assign(Operator::Arrow) && !is_assign(Operator::Eq));
    assert!(can_breaker(Operator::Inc) && can_breaker(Operator::Dec) && !can_breaker(Operator::Add));
}

#[test]
fn header_length() {
    assert_eq!(get_header_len(&[0xEF, 0xBB, 0xBF, b'a']), 3);
    assert_eq!(get_header_len(b"abc"), 0);
    assert_eq!(get_header_len(&[0xEF, 0xBB]), 0);
}

#[test]
fn integer_literals() {
    assert_eq!(parse_i64_lex(b"42", false), Ok(42));
    assert_eq!(parse_i64_lex(b"42", true), Ok(-42));
    assert_eq!(parse_i64_lex(b"0x1F", false), Ok(31));
    assert_eq!(parse_i64_lex(b"0b1010", false), Ok(10));
    assert_eq!(parse_i64_lex(b"0o777", false), Ok(511));
    assert_eq!(parse_i64_lex(b"9223372036854775807", false), Ok(i64::MAX));
    assert_eq!(parse_i64_lex(b"9223372036854775808", false), Err(NumericError::Overflow));
    assert_eq!(parse_i64_lex(b"0b", false), Err(NumericError::Empty));
    assert_eq!(parse_i64_lex(b"0b12", false), Err(NumericError::InvalidDigit));
    assert_eq!(parse_i64_lex(b"", false), Err(NumericError::Empty));
}

#[test]
fn float_literals() {
    assert!(is_float_literal(b"1.5"));
    assert!(is_float_literal(b"1."));
    assert!(is_float_literal(b"1.5e-3"));
    assert!(is_float_literal(b"2E10"));
    assert!(!is_float_literal(b".5"));
    assert!(!is_float_literal(b"1e"));
    assert!(!is_float_literal(b"1e+"));
    assert!(!is_float_literal(b"1e3-4"));
    assert_eq!(float_literal_text(b"2.25", true), Ok("-2.25".to_string()));
    assert_eq!(float_literal_text(b"2.25", false), Ok("2.25".to_string()));
    assert_eq!(float_literal_text(b"2x", false), Err(NumericError::MalformedFloat));
}

#[test]
fn utf8_characters() {
    let mut s = String::new();
    assert_eq!(push_utf8_char(&mut s, "añ".as_bytes(), 1), 2);
    assert_eq!(s, "ñ");
    assert_eq!(push_utf8_char(&mut s, "a".as_bytes(), 0), 1);
    assert_eq!(s, "ña");
    assert_eq!(push_utf8_char(&mut s, &[0xC3], 0), 1);
    assert_eq!(s, "ña\u{c3}");
    assert_eq!(push_utf8_char(&mut s, &[0xFF, b'x'], 0), 1);
    assert_eq!(s, "ña\u{c3}\u{ff}");
    assert_eq!(push_utf8_char(&mut s, b"x", 5), 0);
}

#[test]
fn escapes() {
    let mut s = String::new();
    handle_escape(b'n', &mut s);
    handle_escape(b'"', &mut s);
    handle_escape(b'$', &mut s);
    handle_escape(b'z', &mut s);
    assert_eq!(s, "\n\"$\\z");
}

#[test]
fn interpolated_name() {
    let bytes = b"\"ab $name!\"";
    let mut i: usize = 4;
    let mut column: u32 = 5;
    let info = LexerContextInfo::new();
    let mut text = "ab ".to_string();
    let mut tokens = TokenList::new();
    let mut ctx = LexerContext::new();
    handle_interpolation(bytes, &mut i, 1, &mut column, &info, &mut text, &mut tokens, &mut ctx);
    assert_eq!(i, 8);
    assert_eq!(column, 9);
    assert!(text.is_empty());
    let kinds: Vec<TokenType> = tokens.iter().map(|t| t.typ).collect();
    assert_eq!(kinds, vec![TokenType::String, TokenType::Comma, TokenType::Identifier]);
    assert_eq!(tokens.get(2).unwrap().value, TokenValue::String("name".to_string()));
    assert_eq!(tokens.get(2).unwrap().column, Some(6));
}

#[test]
fn interpolated_dollar_alone() {
    let bytes = b"\"a$\"";
    let mut i: usize = 2;
    let mut column: u32 = 3;
    let info = LexerContextInfo::new();
    let mut text = "a".to_string();
    let mut tokens = TokenList::new();
    let mut ctx = LexerContext::new();
    handle_interpolation(bytes, &mut i, 1, &mut column, &info, &mut text, &mut tokens, &mut ctx);
    assert_eq!(text, "a$");
    assert_eq!(i, 2);
    assert!(tokens.is_empty());
}

#[test]
fn keywords() {
    assert_eq!(keyword(b"while"), Some(Keyword::While));
    assert_eq!(keyword(b"continue"), Some(Keyword::Continue));
    assert_eq!(keyword(b"$"), Some(Keyword::Dollar));
    assert_eq!(keyword(b"While"), None);
    assert_eq!(keyword(b"whilst"), None);
}

#[test]
fn counter_levels() {
    let mut c = Counter::new();
    assert_eq!(c.get(), 0);
    c.push(4);
    c.push(8);
    assert_eq!(c.get(), 8);
    c.leave();
    assert_eq!(c.get(), 4);
    c.leave();
    c.leave();
    assert_eq!(c.get(), 0);
}

#[test]
fn context_modes() {
    let mut ctx = LexerContext::new();
    assert_eq!(ctx.current_mode(), ParseMode::Normal);
    ctx.push_mode(ParseMode::InFString);
    assert_eq!(ctx.current_mode, ParseMode::InFString);
    ctx.push_mode(ParseMode::InFStringExpr(0));
    ctx.pop_mode();
    assert_eq!(ctx.current_mode, ParseMode::InFString);
    ctx.pop_mode();
    assert_eq!(ctx.current_mode, ParseMode::Normal);
    assert_eq!(ctx.parse_stack.len(), 1);
}

#[test]
fn context_breaks() {
    let mut ctx = LexerContext::new();
    ctx.break_next();
    ctx.is_unary = true;
    assert!(ctx.is_artificial_unary());
    ctx.shift_break();
    assert!(ctx.is_continuous && !ctx.is_unary && ctx.is_artificial_break);
    ctx.discard_break();
    assert!(!ctx.is_artificial_break && ctx.is_unary);
    ctx.update_unary(3);
    assert!(ctx.is_unary);
    ctx.is_continuous = false;
    ctx.update_unary(3);
    assert!(!ctx.is_unary);
    ctx.update_unary(0);
    assert!(ctx.is_unary);
    ctx.start_indent();
    ctx.start_redirect();
    assert!(ctx.allow_indent && ctx.allow_redirect);
    ctx.stop_indent();
    ctx.stop_redirect();
    assert!(!ctx.allow_indent && !ctx.allow_redirect);
    ctx.join_next();
    assert!(ctx.is_continuous);
}

#[test]
fn context_info_flags() {
    let mut info = LexerContextInfo::new();
    assert_eq!((info.from_line, info.from_column, info.from_byte), (1, 1, 0));
    info.unary_minus = true;
    assert!(info.has_sign());
    info.reset_number_flags();
    assert!(!info.has_sign());
    info.set_may_dot_access();
    assert!(info.has_dot_access());
    info.blank = true;
    assert!(!info.has_dot_access());
    info.set_dot_access();
    assert!(info.has_dot_access());
    info.reset_dot_access();
    assert!(!info.has_dot_access());
    info.set_dollar_call();
    info.update_flags(7, 2, 3);
    assert_eq!((info.from_byte, info.from_line, info.from_column), (7, 2, 3));
    assert!(info.had_blank && !info.expect_dollar_call);
    info.set_dollar_call();
    info.reset_dollar_call();
    assert!(!info.expect_dollar_call);
}

#[test]
fn token_list_separators() {
    let mut ctx = LexerContext::new();
    let mut list = TokenList::new();
    list.push(Token::identifier("a".to_string(), None), &mut ctx);
    assert!(!ctx.is_leading);
    list.push(Token::identifier("b".to_string(), None), &mut ctx);
    assert_eq!(list.len(), 3);
    assert_eq!(list.get(1).unwrap().typ, TokenType::Comma);
    ctx.is_leading = true;
    ctx.allow_indent = true;
    ctx.current_indent = 4;
    list.push(Token::identifier("c".to_string(), None), &mut ctx);
    assert_eq!(list.get(3).unwrap().typ, TokenType::Indent);
    assert_eq!(ctx.indent_counter.get(), 4);
    ctx.is_leading = true;
    ctx.current_indent = 0;
    list.push(Token::identifier("d".to_string(), None), &mut ctx);
    let kinds: Vec<TokenType> = list.iter().map(|t| t.typ).collect();
    assert_eq!(
        kinds,
        vec![
            TokenType::Identifier,
            TokenType::Comma,
            TokenType::Identifier,
            TokenType::Indent,
            TokenType::Identifier,
            TokenType::End,
            TokenType::Dedent,
            TokenType::Identifier,
        ]
    );
    let last = list.pop().unwrap();
    assert_eq!(last.value, TokenValue::String("d".to_string()));
    assert_eq!(list.last().unwrap().typ, TokenType::Dedent);
    list.push_raw(Token::end(None));
    assert_eq!(list.len(), 8);
    assert!(!list.is_empty());
}

#[test]
fn token_list_continuation() {
    let mut ctx = LexerContext::new();
    let mut list = TokenList::new();
    list.push(Token::identifier("a".to_string(), None), &mut ctx);
    list.push(Token::op(Operator::Add, None), &mut ctx);
    assert!(ctx.is_continuous);
    list.push(Token::integer(1, None), &mut ctx);
    assert_eq!(list.len(), 3);
}

#[test]
fn push_number_negative_and_float() {
    let bytes = b"3_5";
    let mut info = LexerContextInfo::new();
    info.has_underscores = true;
    info.unary_minus = true;
    let mut tokens = TokenList::new();
    let mut ctx = LexerContext::new();
    push_number(bytes, 3, &mut info, &mut tokens, &mut ctx).unwrap();
    assert_eq!(tokens.get(0).unwrap().value, TokenValue::Integer(-35));
    assert_eq!(tokens.get(0).unwrap().length, Some(3));
    let mut info = LexerContextInfo::new();
    info.has_dot = true;
    let mut tokens = TokenList::new();
    let mut ctx = LexerContext::new();
    push_number(b"0.25", 4, &mut info, &mut tokens, &mut ctx).unwrap();
    assert_eq!(tokens.get(0).unwrap().value, TokenValue::Float("0.25".to_string()));
}

#[test]
fn push_ident_kinds() {
    let mut info = LexerContextInfo::new();
    let mut tokens = TokenList::new();
    let mut ctx = LexerContext::new();
    push_ident(b"Else", 4, &mut info, &mut ctx, &mut tokens).unwrap();
    assert_eq!(tokens.get(0).unwrap().typ, TokenType::Else);
    assert!(ctx.allow_indent);
    let e = push_ident(b"elif", 4, &mut info, &mut ctx, &mut tokens).unwrap_err();
    assert_eq!(e.typ, LexErrorType::ReservedKeywordAsIdentifier);
    push_ident(b"not", 3, &mut info, &mut ctx, &mut tokens).unwrap();
    assert_eq!(tokens.last().unwrap().typ, TokenType::Op(Operator::Not));
    assert!(tokens.last().unwrap().is_unary);
}

#[test]
fn process_op_leading_colon() {
    let mut info = LexerContextInfo::new();
    let mut tokens = TokenList::new();
    let mut ctx = LexerContext::new();
    process_op(b"::", 2, &mut ctx, &mut info, &mut tokens).unwrap();
    assert_eq!(tokens.get(0).unwrap().typ, TokenType::Class);
    assert!(ctx.allow_indent);
    let e = process_op(b"?", 1, &mut ctx, &mut info, &mut tokens).unwrap_err();
    assert_eq!(e.typ, LexErrorType::InvalidOperator);
}

#[test]
fn process_op_unary_not_allowed() {
    let mut info = LexerContextInfo::new();
    let mut tokens = TokenList::new();
    let mut ctx = LexerContext::new();
    ctx.is_unary = true;
    let e = process_op(b"*", 1, &mut ctx, &mut info, &mut tokens).unwrap_err();
    assert_eq!(e.typ, LexErrorType::OperatorNotAllowed);
    assert!(tokens.is_empty());
}

#[test]
fn push_buffer_pending_operator() {
    let mut info = LexerContextInfo::new();
    let mut tokens = TokenList::new();
    let mut ctx = LexerContext::new();
    let mut text = String::new();
    let e = push_buffer(b"+", 1, BufType::Operator, 1, &mut info, &mut tokens, &mut ctx, &mut text).unwrap_err();
    assert_eq!(e.typ, LexErrorType::InvalidOperator);
    push_buffer(b"--", 2, BufType::Operator, 1, &mut info, &mut tokens, &mut ctx, &mut text).unwrap();
    assert!(tokens.get(0).unwrap().is_breaker);
}

#[test]
fn push_buffer_closes_literal_block() {
    let mut info = LexerContextInfo::new();
    let mut tokens = TokenList::new();
    let mut ctx = LexerContext::new();
    ctx.push_mode(ParseMode::InBlockString(0));
    let mut text = "line\r\n".to_string();
    push_buffer(b"", 0, BufType::Empty, 3, &mut info, &mut tokens, &mut ctx, &mut text).unwrap();
    assert_eq!(tokens.get(0).unwrap().value, TokenValue::String("line".to_string()));
    assert_eq!(tokens.get(1).unwrap().typ, TokenType::RString);
    assert!(text.is_empty());
    assert_eq!(ctx.current_mode, ParseMode::Normal);
    assert!(ctx.is_leading);
}

#[test]
fn lexeme_text_is_utf8() {
    let src = "caf\u{e9}".as_bytes();
    let mut info = LexerContextInfo::new();
    let mut tokens = TokenList::new();
    let mut ctx = LexerContext::new();
    push_ident(src, src.len(), &mut info, &mut ctx, &mut tokens).unwrap();
    assert_eq!(tokens.get(0).unwrap().value, TokenValue::String("caf\u{e9}".to_string()));
    assert_eq!(tokens.get(0).unwrap().length, Some(5));
    let mut tokens = TokenList::new();
    push_dollar(src, src.len(), &mut info, &mut tokens, &mut ctx);
    assert_eq!(tokens.last().unwrap().value, TokenValue::String("caf\u{e9}".to_string()));
    let digits = "12\u{e9}".as_bytes();
    let mut tokens = TokenList::new();
    push_bigint(digits, digits.len(), &mut info, &mut tokens, &mut ctx).unwrap();
    assert_eq!(tokens.get(0).unwrap().value, TokenValue::BigInt("12\u{e9}".to_string()));
}
