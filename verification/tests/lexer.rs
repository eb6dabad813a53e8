use dinocode::lexer::tokenizer::Lexer;
use dinocode::lexer::token_list::TokenList;
use dinocode::lexer::errors::{LexErrorType, NumericError};
use dinocode::syntax::{Operator, TokenType, TokenValue};

fn types(list: &TokenList) -> Vec<TokenType> {
    list.iter().map(|t| t.typ).collect()
}

fn values(list: &TokenList) -> Vec<TokenValue> {
    list.iter().map(|t| t.value.clone()).collect()
}

#[test]
fn tokenize_assignment() {
    let list = Lexer::tokenize("x = 1").unwrap();
    assert_eq!(
        types(&list),
        vec![TokenType::Identifier, TokenType::Op(Operator::Assign), TokenType::Integer, TokenType::End]
    );
    assert_eq!(values(&list)[0], TokenValue::String("x".to_string()));
    assert_eq!(values(&list)[2], TokenValue::Integer(1));
    let first = list.get(0).unwrap();
    assert_eq!((first.line, first.column, first.length), (Some(1), Some(1), Some(1)));
    let op = list.get(1).unwrap();
    assert!(!op.is_unary);
    assert_eq!((op.line, op.column, op.length), (Some(1), Some(3), Some(1)));
    let end = list.get(3).unwrap();
    assert_eq!((end.line, end.column, end.length), (Some(1), Some(6), Some(1)));
}

#[test]
fn tokenize_empty_source() {
    let list = Lexer::tokenize("").unwrap();
    assert!(list.is_empty());
    let list = Lexer::tokenize("   # only a comment").unwrap();
    assert!(list.is_empty());
}

#[test]
fn tokenize_skips_byte_order_mark() {
    let list = Lexer::tokenize("\u{feff}x").unwrap();
    assert_eq!(types(&list), vec![TokenType::Identifier, TokenType::End]);
    assert_eq!(list.get(0).unwrap().column, Some(1));
}

#[test]
fn tokenize_call_with_string_argument() {
    let list = Lexer::tokenize("print \"hi\"").unwrap();
    assert_eq!(
        types(&list),
        vec![
            TokenType::Identifier,
            TokenType::Comma,
            TokenType::LString,
            TokenType::String,
            TokenType::RString,
            TokenType::End,
        ]
    );
    assert_eq!(values(&list)[3], TokenValue::String("hi".to_string()));
}

#[test]
fn tokenize_statements_on_lines() {
    let list = Lexer::tokenize("x\ny").unwrap();
    assert_eq!(
        types(&list),
        vec![TokenType::Identifier, TokenType::End, TokenType::Identifier, TokenType::End]
    );
    let y = list.get(2).unwrap();
    assert_eq!((y.line, y.column), (Some(2), Some(1)));
}

#[test]
fn tokenize_indented_block() {
    let list = Lexer::tokenize("if x\n  y\n").unwrap();
    assert_eq!(
        types(&list),
        vec![
            TokenType::If,
            TokenType::Comma,
            TokenType::Identifier,
            TokenType::Indent,
            TokenType::Identifier,
            TokenType::End,
            TokenType::Dedent,
        ]
    );
}

#[test]
fn tokenize_nested_blocks_close_at_end() {
    let list = Lexer::tokenize("while a\n  if b\n    c\n").unwrap();
    let t = types(&list);
    let indents = t.iter().filter(|x| **x == TokenType::Indent).count();
    let dedents = t.iter().filter(|x| **x == TokenType::Dedent).count();
    assert_eq!(indents, 2);
    assert_eq!(dedents, 2);
    assert_eq!(t[t.len() - 1], TokenType::Dedent);
    assert_eq!(t[t.len() - 2], TokenType::Dedent);
    assert_eq!(t[t.len() - 3], TokenType::End);
}

#[test]
fn tokenize_readme_example_is_balanced() {
    let source = ":suma a b\n    return a + b\n\n:main args\n    print \"Hola mundo!\"\n\n    x = 10\n    y = 1.5\n\n    print [   # Nueva lista\n\n        # Suma\n        x+y\n\n        # Multiplicación\n        x*y\n    ]\n    \n    for arg in args\n        print arg\n";
    let list = Lexer::tokenize(source).unwrap();
    let t = types(&list);
    let indents = t.iter().filter(|x| **x == TokenType::Indent).count();
    let dedents = t.iter().filter(|x| **x == TokenType::Dedent).count();
    assert_eq!(indents, dedents);
    assert!(indents >= 3);
    assert_eq!(t[0], TokenType::Function);
    assert!(t.contains(&TokenType::For));
    assert!(t.contains(&TokenType::In));
    assert!(t.contains(&TokenType::Return));
    assert!(values(&list).contains(&TokenValue::Float("1.5".to_string())));
    assert!(values(&list).contains(&TokenValue::String("Hola mundo!".to_string())));
}

#[test]
fn tokenize_negative_number_takes_the_sign() {
    let list = Lexer::tokenize("-5").unwrap();
    assert_eq!(types(&list), vec![TokenType::Integer, TokenType::End]);
    assert_eq!(values(&list)[0], TokenValue::Integer(-5));
}

#[test]
fn tokenize_numeric_literals() {
    let list = Lexer::tokenize("a 1_000 0xff 0b101 0o17 12n 1.5 2e3").unwrap();
    let v = values(&list);
    assert!(v.contains(&TokenValue::Integer(1000)));
    assert!(v.contains(&TokenValue::Integer(255)));
    assert!(v.contains(&TokenValue::Integer(5)));
    assert!(v.contains(&TokenValue::Integer(15)));
    assert!(v.contains(&TokenValue::BigInt("12".to_string())));
    assert!(v.contains(&TokenValue::Float("1.5".to_string())));
    assert!(v.contains(&TokenValue::Float("2e3".to_string())));
}

#[test]
fn tokenize_keywords_and_literals() {
    let list = Lexer::tokenize("x = TRUE\ny = none\nz = nan").unwrap();
    let v = values(&list);
    assert!(v.contains(&TokenValue::Bool(true)));
    assert!(v.contains(&TokenValue::NaN));
    assert!(types(&list).contains(&TokenType::Null));
}

#[test]
fn tokenize_single_quoted_string_keeps_dollar() {
    let list = Lexer::tokenize("x = 'a$b'").unwrap();
    assert!(values(&list).contains(&TokenValue::String("a$b".to_string())));
}

#[test]
fn tokenize_interpolation() {
    let list = Lexer::tokenize("x = \"a $b c\"").unwrap();
    assert_eq!(
        types(&list),
        vec![
            TokenType::Identifier,
            TokenType::Op(Operator::Assign),
            TokenType::LString,
            TokenType::String,
            TokenType::Comma,
            TokenType::Identifier,
            TokenType::Comma,
            TokenType::String,
            TokenType::RString,
            TokenType::End,
        ]
    );
    let v = values(&list);
    assert_eq!(v[3], TokenValue::String("a ".to_string()));
    assert_eq!(v[5], TokenValue::String("b".to_string()));
    assert_eq!(v[7], TokenValue::String(" c".to_string()));
}

#[test]
fn tokenize_expression_interpolation() {
    let list = Lexer::tokenize("x = \"${y}\"").unwrap();
    assert_eq!(
        types(&list),
        vec![
            TokenType::Identifier,
            TokenType::Op(Operator::Assign),
            TokenType::LString,
            TokenType::LBraceExpr,
            TokenType::Identifier,
            TokenType::RBraceExpr,
            TokenType::RString,
            TokenType::End,
        ]
    );
}

#[test]
fn tokenize_escapes() {
    let list = Lexer::tokenize("x = \"a\\tb\\q\"").unwrap();
    assert!(values(&list).contains(&TokenValue::String("a\tb\\q".to_string())));
    let list = Lexer::tokenize("x = \"say \"\"hi\"\"\"").unwrap();
    assert!(values(&list).contains(&TokenValue::String("say \"hi\"".to_string())));
}

#[test]
fn tokenize_utf8_in_strings() {
    let list = Lexer::tokenize("x = 'ñandú'").unwrap();
    let s = list.iter().find(|t| t.typ == TokenType::String).unwrap();
    assert_eq!(s.value, TokenValue::String("ñandú".to_string()));
    assert_eq!(s.length, Some(7));
}

#[test]
fn tokenize_member_access() {
    let list = Lexer::tokenize("a.b").unwrap();
    assert_eq!(types(&list), vec![TokenType::Identifier, TokenType::DotAccess, TokenType::End]);
    assert_eq!(values(&list)[1], TokenValue::String("b".to_string()));
}

#[test]
fn tokenize_function_definition() {
    let list = Lexer::tokenize(":f a\n  return a\n").unwrap();
    let t = types(&list);
    assert_eq!(t[0], TokenType::Function);
    assert!(t.contains(&TokenType::Indent));
    assert!(t.contains(&TokenType::Return));
    assert_eq!(t[t.len() - 1], TokenType::Dedent);
}

#[test]
fn tokenize_postfix_increment() {
    let list = Lexer::tokenize("x++").unwrap();
    assert_eq!(types(&list), vec![TokenType::Identifier, TokenType::Op(Operator::Inc), TokenType::End]);
    assert!(list.get(1).unwrap().is_breaker);
}

#[test]
fn tokenize_literal_block() {
    let list = Lexer::tokenize("> v\n  hello\n  world\n").unwrap();
    let t = types(&list);
    assert_eq!(t[0], TokenType::Redirect);
    assert!(t.contains(&TokenType::Op(Operator::Assign)));
    assert!(t.contains(&TokenType::LString));
    assert!(t.contains(&TokenType::RString));
    assert!(values(&list).contains(&TokenValue::String(" hello\n world".to_string())));
}

#[test]
fn tokenize_error_unexpected_character() {
    let e = Lexer::tokenize("@").unwrap_err();
    assert_eq!(e.typ, LexErrorType::UnexpectedToken("unexpected character"));
    assert_eq!((e.line, e.column), (1, 1));
}

#[test]
fn tokenize_error_numeric() {
    let e = Lexer::tokenize("0x").unwrap_err();
    assert_eq!(e.typ, LexErrorType::NumericParse(NumericError::Empty));
    let e = Lexer::tokenize("99999999999999999999").unwrap_err();
    assert_eq!(e.typ, LexErrorType::NumericParse(NumericError::Overflow));
    let e = Lexer::tokenize("12x3").unwrap_err();
    assert_eq!(e.typ, LexErrorType::NumericParse(NumericError::InvalidDigit));
    let e = Lexer::tokenize("1e").unwrap_err();
    assert_eq!(e.typ, LexErrorType::NumericParse(NumericError::MalformedFloat));
}

#[test]
fn tokenize_error_after_dot() {
    let e = Lexer::tokenize("1.2.3").unwrap_err();
    assert_eq!(e.typ, LexErrorType::UnexpectedTokenAfterDot);
    assert_eq!((e.line, e.column), (1, 4));
}

#[test]
fn tokenize_error_unterminated_comment() {
    let e = Lexer::tokenize("#* open").unwrap_err();
    assert_eq!(e.typ, LexErrorType::Custom("Unterminated multiline comment"));
}

#[test]
fn tokenize_error_reserved_keyword() {
    let e = Lexer::tokenize("x = if").unwrap_err();
    assert_eq!(e.typ, LexErrorType::ReservedKeywordAsIdentifier);
    assert_eq!((e.line, e.column), (1, 5));
}

#[test]
fn tokenize_error_semicolon_after_operator() {
    let e = Lexer::tokenize("x = ;").unwrap_err();
    assert_eq!(e.typ, LexErrorType::UnexpectedToken("unexpected semicolon"));
}

#[test]
fn tokenize_error_invalid_operator() {
    let e = Lexer::tokenize("a ~ b").unwrap_err();
    assert_eq!(e.typ, LexErrorType::InvalidOperator);
}

#[test]
fn tokenize_error_dollar_call_at_end() {
    let e = Lexer::tokenize("$(foo").unwrap_err();
    assert_eq!(e.typ, LexErrorType::UnexpectedDollarCall);
}

#[test]
fn tokenize_error_dollar_call_with_space() {
    let e = Lexer::tokenize("$ (f)").unwrap_err();
    assert_eq!(e.typ, LexErrorType::DollarCallWithSpace);
}

#[test]
fn tokenize_dollar_call() {
    let list = Lexer::tokenize("$(f)").unwrap();
    assert_eq!(
        types(&list),
        vec![TokenType::LParen, TokenType::DollarCall, TokenType::RParen, TokenType::End]
    );
    assert_eq!(values(&list)[1], TokenValue::String("f".to_string()));
}

#[test]
fn tokenize_sign_inside_interpolation_can_swallow_a_dedent() {
    // A sign left pending inside `${...}` is still pending when the block
    // closes, and the Dedent is taken for the operand it waits for.
    let list = Lexer::tokenize("if a\n  x = \"${-}\";5").unwrap();
    let ts = types(&list);
    let indents = ts.iter().filter(|t| **t == TokenType::Indent).count();
    let dedents = ts.iter().filter(|t| **t == TokenType::Dedent).count();
    assert_eq!((indents, dedents), (1, 0), "{:?}", ts);
}

#[test]
fn tokenize_long_source() {
    let n = 5000;
    let source = "x = 1\n".repeat(n);
    let list = Lexer::tokenize(&source).unwrap();
    assert_eq!(list.len(), 4 * n);
}

#[test]
fn tokenize_blocks_balance_with_interpolation() {
    let list = Lexer::tokenize("if a\n  print \"v=${a + 1} and ${-b}\"\n  if b\n    x = \"${c}\"\nd = 2").unwrap();
    let ts = types(&list);
    let indents = ts.iter().filter(|t| **t == TokenType::Indent).count();
    let dedents = ts.iter().filter(|t| **t == TokenType::Dedent).count();
    assert_eq!((indents, dedents), (2, 2), "{:?}", ts);
}

#[test]
fn tokenize_code_after_multiline_comment() {
    let list = Lexer::tokenize("#* c *# x").unwrap();
    assert_eq!(types(&list), vec![TokenType::Identifier, TokenType::End]);
    assert_eq!(values(&list)[0], TokenValue::String("x".to_string()));
    let x = list.get(0).unwrap();
    assert_eq!((x.line, x.column), (Some(1), Some(9)));
}

#[test]
fn tokenize_byte_order_mark_changes_nothing() {
    for src in ["x = 1\nif x\n  print \"${x}\"", "  bad\u{1}", "#* note *#\ny = -2"] {
        let with_mark = format!("\u{feff}{}", src);
        match (Lexer::tokenize(src), Lexer::tokenize(&with_mark)) {
            (Ok(a), Ok(b)) => {
                let a: Vec<_> = a.iter().cloned().collect();
                let b: Vec<_> = b.iter().cloned().collect();
                assert_eq!(a, b);
            },
            (Err(a), Err(b)) => assert_eq!((a.typ, a.line, a.column), (b.typ, b.line, b.column)),
            _ => panic!("different outcomes for {:?}", src),
        }
    }
}

#[test]
fn tokenize_blocks_open_before_they_close() {
    let list = Lexer::tokenize("if a\n  if b\n    c\n  d\ne\nwhile f\n  g").unwrap();
    let mut depth: i64 = 0;
    for t in list.iter() {
        match t.typ {
            TokenType::Indent => depth += 1,
            TokenType::Dedent => depth -= 1,
            _ => {}
        }
        assert!(depth >= 0);
    }
    assert_eq!(depth, 0);
}
