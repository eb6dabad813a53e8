//! The lexer proper: a scan of the source bytes, one step at a time, with
//! a state made of the position, the tokens read, the context, the current
//! lexeme and the text of the string being read.

use vstd::prelude::*;
use vstd::utf8::{encode_utf8, valid_utf8};
use crate::ascii::{
    SPACE, TAB, CR, LF, SEMICOLON, LPAREN, RPAREN, LBRACKET, RBRACKET, LBRACE, RBRACE, COMMA,
    DQUOTE, QUOTE, HASH, STAR, DOT, UNDERSCORE, LOWER_X, LOWER_B, LOWER_O, LOWER_E, UPPER_E,
    LOWER_N, MINUS, PLUS, DIGIT_0, DIGIT_1, DIGIT_7, DIGIT_9, LOWER_A, LOWER_F, UPPER_A, UPPER_F,
    BACKSLASH, DOLLAR,
};
use crate::syntax::{Token, TokenView, TokenType, ValueView, Operator, Pos, token_at};
use crate::lexer::context::{LexerContext, CtxView, BufType, ParseMode, top_mode};
use crate::lexer::context_info::{LexerContextInfo, initial_info};
use crate::lexer::token_list::{
    TokenList, tokens_after_push, ctx_after_push, with_separators, ctx_after_separators,
    repeat_token, dedent_count, lemma_push_frame, lemma_separators_frame,
};
use crate::lexer::errors::{LexError, LexErrorType};
use crate::lexer::utils::char_utils::{
    OpInfo, op_max_len, spec_op_follows, spec_is_ident, spec_is_ident_start, is_ident,
    is_ident_start, is_op_start, op_follows, is_digit, is_hex_digit, is_binary_digit,
    is_octal_digit, is_sci_exp, is_sci_digit, is_bigint_posfix,
};
use crate::lexer::utils::headers::{get_header_len, starts_with_bom, without_bom};
use crate::lexer::utils::numeric::is_dec;
use crate::lexer::utils::string::{
    utf8_char_at, escape_text, interpolation, flush_text, push_utf8_char, handle_escape,
    handle_interpolation, flush_string, lemma_name_run_bounds,
};
use crate::lexer::utils::buffer::{
    Scan, error_at, number_scan, integer_scan, float_scan, bigint_scan, ident_scan, dollar_scan,
    op_scan, buffer_scan, close_block, keeps_frame, lemma_op_scan_frame, lemma_ident_scan_frame,
    lemma_literal_scan_frame, push_number, push_hex, push_bit, push_octal, push_bigint,
    push_scientific, push_ident, push_dollar, push_operator, push_buffer, trim_block_string,
    literal_text,
};
use crate::text::{string_push, ascii_bytes, lemma_ascii_utf8, lemma_ascii_without, without};
use crate::lexer::balance::code_mode;

verus! {

broadcast use lemma_push_frame;

/// The state of the scan, as a mathematical value.
pub struct LexState {
    /// The byte being read.
    pub i: int,
    pub line: u32,
    pub column: u32,
    pub tokens: Seq<TokenView>,
    pub ctx: CtxView,
    pub info: LexerContextInfo,
    /// The kind of the lexeme being buffered.
    pub buf: BufType,
    /// How the operator being buffered may go on.
    pub op: OpInfo,
    /// The text of the string being read.
    pub text: Seq<char>,
}

/// The state before the first byte of the code: line 1, column 1.
pub open spec fn initial_state(bytes: Seq<u8>) -> LexState {
    LexState {
        i: 0,
        line: 1,
        column: 1,
        tokens: Seq::empty(),
        ctx: CtxView::initial(),
        info: initial_info(),
        buf: BufType::Empty,
        op: OpInfo { first: 0, max_len: 0 },
        text: Seq::empty(),
    }
}

/// The byte after the current one is `c`.
pub open spec fn next_is(bytes: Seq<u8>, i: int, c: u8) -> bool {
    i + 1 < bytes.len() && bytes[i + 1] == c
}

/// `n` bytes further on the same line.
pub open spec fn advance(s: LexState, n: int) -> LexState {
    LexState { i: s.i + n, column: (s.column + n) as u32, ..s }
}

/// The position of the current byte.
pub open spec fn pos_now(s: LexState) -> Pos {
    Some((s.line, s.column, 1usize))
}

/// The position of the current lexeme, up to the current byte.
pub open spec fn pos_lexeme(s: LexState) -> Pos {
    Some((s.info.from_line, s.info.from_column, (s.i - s.info.from_byte) as usize))
}

/// The state after appending `t`.
pub open spec fn push_state(s: LexState, t: TokenView) -> LexState {
    LexState {
        tokens: tokens_after_push(s.tokens, s.ctx, t),
        ctx: ctx_after_push(s.ctx, s.tokens.len(), t),
        ..s
    }
}

/// The state with the tokens, context and information that a read left.
pub open spec fn with_scan(s: LexState, sc: Scan) -> LexState {
    LexState { tokens: sc.tokens, ctx: sc.ctx, info: sc.info, ..s }
}

/// The tokens without their last one.
pub open spec fn drop_last_token(t: Seq<TokenView>) -> Seq<TokenView> {
    if t.len() > 0 {
        t.drop_last()
    } else {
        t
    }
}

/// A literal that ends at the current byte, read as `sc`; after a
/// big-integer suffix the suffix is consumed and the step ends.
pub open spec fn close_literal(s: LexState, sc: Scan, big: bool) -> Result<
    (LexState, bool),
    LexError,
> {
    match sc.result {
        Err(e) => Err(e),
        Ok(_) => {
            let s1 = LexState {
                info: sc.info.without_number_flags(),
                buf: BufType::Empty,
                ..with_scan(s, sc)
            };
            if big {
                Ok((advance(s1, 1), true))
            } else {
                Ok((s1, false))
            }
        },
    }
}

/// A digit separator was read.
pub open spec fn with_separator(s: LexState) -> LexState {
    LexState { info: LexerContextInfo { has_underscores: true, ..s.info }, ..s }
}

/// A byte offered to a pending decimal literal.
pub open spec fn step_number(bytes: Seq<u8>, s: LexState) -> Result<(LexState, bool), LexError> {
    let b = bytes[s.i];
    if is_dec(b) {
        Ok((s, false))
    } else if b == UNDERSCORE {
        Ok((with_separator(s), false))
    } else if b == DOT && !s.info.has_dot && !next_is(bytes, s.i, DOT) {
        Ok((LexState { info: LexerContextInfo { has_dot: true, ..s.info }, ..s }, false))
    } else if b == LOWER_X {
        Ok((LexState { buf: BufType::HexNumber, ..s }, false))
    } else if b == LOWER_B {
        Ok((LexState { buf: BufType::BitNumber, ..s }, false))
    } else if b == LOWER_O {
        Ok((LexState { buf: BufType::OctalNumber, ..s }, false))
    } else if b == LOWER_E || b == UPPER_E {
        Ok((LexState { buf: BufType::ScientificNumber, ..s }, false))
    } else {
        step_end_number(bytes, s)
    }
}

/// A decimal literal ends at the current byte (read as a big integer when
/// the byte is its suffix).
pub open spec fn step_end_number(bytes: Seq<u8>, s: LexState) -> Result<(LexState, bool), LexError> {
    if bytes[s.i] == LOWER_N {
        close_literal(s, bigint_scan(bytes, s.i, s.info, s.tokens, s.ctx), true)
    } else {
        close_literal(s, number_scan(bytes, s.i, s.info, s.tokens, s.ctx), false)
    }
}

/// The digits of the base of a pending literal.
pub open spec fn radix_digit(buf: BufType, b: u8) -> bool {
    match buf {
        BufType::HexNumber => (DIGIT_0 <= b <= DIGIT_9) || (LOWER_A <= b <= LOWER_F) || (UPPER_A <= b
            <= UPPER_F),
        BufType::BitNumber => b == DIGIT_0 || b == DIGIT_1,
        _ => DIGIT_0 <= b <= DIGIT_7,
    }
}

/// A byte offered to a pending literal with a base prefix.
pub open spec fn step_radix(bytes: Seq<u8>, s: LexState) -> Result<(LexState, bool), LexError> {
    let b = bytes[s.i];
    if radix_digit(s.buf, b) {
        Ok((s, false))
    } else if b == UNDERSCORE {
        Ok((with_separator(s), false))
    } else if b == LOWER_N {
        close_literal(s, bigint_scan(bytes, s.i, s.info, s.tokens, s.ctx), true)
    } else {
        close_literal(s, integer_scan(bytes, s.i, s.info, s.tokens, s.ctx), false)
    }
}

/// A byte offered to a pending scientific literal.
pub open spec fn step_scientific(bytes: Seq<u8>, s: LexState) -> Result<(LexState, bool), LexError> {
    let b = bytes[s.i];
    if is_dec(b) || b == MINUS || b == PLUS {
        Ok((s, false))
    } else if b == UNDERSCORE {
        Ok((with_separator(s), false))
    } else {
        close_literal(s, float_scan(bytes, s.i, s.info, s.tokens, s.ctx), false)
    }
}

/// A byte offered to a pending name.
pub open spec fn step_name(bytes: Seq<u8>, s: LexState) -> Result<(LexState, bool), LexError> {
    if spec_is_ident(bytes[s.i]) {
        Ok((s, false))
    } else {
        let sc = ident_scan(bytes, s.i, s.info, s.tokens, s.ctx);
        match sc.result {
            Err(e) => Err(e),
            Ok(_) => Ok((LexState { buf: BufType::Empty, ..with_scan(s, sc) }, false)),
        }
    }
}

/// A byte offered to a pending dollar-call callee.
pub open spec fn step_callee(bytes: Seq<u8>, s: LexState) -> Result<(LexState, bool), LexError> {
    if spec_is_ident(bytes[s.i]) {
        Ok((s, false))
    } else {
        let (t, c) = dollar_scan(bytes, s.i, s.info, s.tokens, s.ctx);
        Ok((LexState { tokens: t, ctx: c, buf: BufType::Empty, ..s }, false))
    }
}

/// A byte offered to a pending operator.
pub open spec fn step_operator(bytes: Seq<u8>, s: LexState) -> Result<(LexState, bool), LexError> {
    if s.i - s.info.from_byte < s.op.max_len && spec_op_follows(s.op.first, bytes[s.i]) {
        Ok((s, false))
    } else {
        let sc = op_scan(bytes.subrange(s.info.from_byte as int, s.i), s.i, s.info, s.tokens, s.ctx);
        match sc.result {
            Err(e) => Err(e),
            Ok(_) => Ok((LexState { buf: BufType::Empty, ..with_scan(s, sc) }, false)),
        }
    }
}

/// A byte offered to a pending comment.
pub open spec fn step_comment(bytes: Seq<u8>, s: LexState) -> Result<(LexState, bool), LexError> {
    let b = bytes[s.i];
    if s.buf == BufType::Comment {
        if b == LF {
            Ok((LexState { buf: BufType::Empty, ..s }, false))
        } else {
            Ok((s, false))
        }
    } else if b == STAR && next_is(bytes, s.i, HASH) {
        Ok((LexState { buf: BufType::Empty, ..advance(s, 2) }, true))
    } else if b == LF {
        Ok((LexState { line: (s.line + 1) as u32, column: 1, ..s }, false))
    } else {
        Ok((s, false))
    }
}

/// The state after the current byte is offered to the lexeme being
/// buffered, and whether the step ends there.
pub open spec fn step_buffered(bytes: Seq<u8>, s: LexState) -> Result<(LexState, bool), LexError> {
    match s.buf {
        BufType::Number => step_number(bytes, s),
        BufType::HexNumber | BufType::BitNumber | BufType::OctalNumber => step_radix(bytes, s),
        BufType::ScientificNumber => step_scientific(bytes, s),
        BufType::Identifier => step_name(bytes, s),
        BufType::DollarCall => step_callee(bytes, s),
        BufType::Operator => step_operator(bytes, s),
        BufType::Comment | BufType::MultiLineComment => step_comment(bytes, s),
        _ => Ok((s, false)),
    }
}

/// A line break in code: at depth 0 and when the line does not go on, it
/// starts a statement, or opens the literal block of a pending redirection.
pub open spec fn step_newline(s: LexState) -> Result<LexState, LexError> {
    let s1 = LexState {
        line: (s.line + 1) as u32,
        info: LexerContextInfo { blank: true, ..s.info },
        i: s.i + 1,
        column: 1,
        ..s
    };
    if s.ctx.depth == 0 && !s.ctx.is_continuous {
        if s.ctx.allow_redirect {
            let assign = token_at(TokenType::Op(Operator::Assign), ValueView::Empty, pos_now(s));
            let s2 = push_state(s, assign);
            let s3 = LexState {
                ctx: s2.ctx.push_mode(ParseMode::InBlockString(s2.ctx.current_indent)),
                ..s2
            };
            let s4 = push_state(s3, token_at(TokenType::LString, ValueView::Empty, pos_lexeme(s)));
            Ok(
                LexState {
                    tokens: s4.tokens,
                    ctx: CtxView { current_indent: 0, ..s4.ctx.stop_redirect() },
                    text: Seq::empty(),
                    ..s1
                },
            )
        } else {
            Ok(
                LexState {
                    ctx: CtxView { is_leading: true, current_indent: 0, ..s.ctx },
                    ..s1
                },
            )
        }
    } else if s.ctx.allow_redirect {
        Err(error_at(s.info, LexErrorType::UnexpectedLogicalContinuation))
    } else {
        Ok(s1)
    }
}

/// A `;`: the statement ends here.
pub open spec fn step_semicolon(s: LexState) -> Result<LexState, LexError> {
    if s.ctx.is_continuous {
        Err(
            LexError {
                typ: LexErrorType::UnexpectedToken("unexpected semicolon"),
                line: s.info.from_line,
                column: s.column,
            },
        )
    } else {
        let c0 = CtxView { current_indent: 0, is_leading: true, ..s.ctx };
        Ok(
            advance(
                LexState {
                    tokens: with_separators(s.tokens, c0, false, pos_now(s)),
                    ctx: ctx_after_separators(c0, s.tokens.len(), false).join_next(),
                    ..s
                },
                1,
            ),
        )
    }
}

/// The context with the brace depth of the innermost interpolation moved
/// to `d`.
pub open spec fn with_expr_depth(c: CtxView, d: usize) -> CtxView {
    CtxView { stack: c.stack.update(c.stack.len() - 1, ParseMode::InFStringExpr(d)), ..c }
}

/// A byte that starts a token, or a lexeme to buffer: the state after it,
/// and whether it is relevant (a lexeme start to record).
pub open spec fn step_open(bytes: Seq<u8>, s: LexState) -> Result<(LexState, bool), LexError> {
    let b = bytes[s.i];
    let pos = pos_now(s);
    if b == LPAREN {
        let joined = !s.info.blank && !s.info.expect_dollar_call;
        let c0 = if joined {
            s.ctx.join_next().discard_break()
        } else {
            s.ctx
        };
        let s1 = push_state(LexState { ctx: c0, ..s }, token_at(TokenType::LParen, ValueView::Empty, pos));
        Ok(
            (
                LexState { ctx: CtxView { depth: (s1.ctx.depth + 1) as i32, ..s1.ctx }, ..s1 },
                !(!s.info.blank && s.info.expect_dollar_call),
            ),
        )
    } else if b == RPAREN {
        let s1 = push_state(s, token_at(TokenType::RParen, ValueView::Empty, pos));
        Ok((LexState { ctx: CtxView { depth: (s1.ctx.depth - 1) as i32, ..s1.ctx }, ..s1 }, true))
    } else if b == LBRACKET {
        let c0 = if !s.info.blank {
            s.ctx.join_next().discard_break()
        } else {
            s.ctx
        };
        let s1 = push_state(LexState { ctx: c0, ..s }, token_at(TokenType::LBracket, ValueView::Empty, pos));
        Ok((LexState { ctx: CtxView { depth: (s1.ctx.depth + 1) as i32, ..s1.ctx }, ..s1 }, true))
    } else if b == RBRACKET {
        let s1 = push_state(s, token_at(TokenType::RBracket, ValueView::Empty, pos));
        Ok((LexState { ctx: CtxView { depth: (s1.ctx.depth - 1) as i32, ..s1.ctx }, ..s1 }, true))
    } else if b == LBRACE {
        let c0 = match top_mode(s.ctx.stack) {
            ParseMode::InFStringExpr(d) => with_expr_depth(s.ctx, (d + 1) as usize),
            _ => s.ctx,
        };
        let s1 = push_state(LexState { ctx: c0, ..s }, token_at(TokenType::LBrace, ValueView::Empty, pos));
        Ok((LexState { ctx: CtxView { depth: (s1.ctx.depth + 1) as i32, ..s1.ctx }, ..s1 }, true))
    } else if b == RBRACE {
        let s1 = push_state(s, token_at(TokenType::RBrace, ValueView::Empty, pos));
        Ok((LexState { ctx: CtxView { depth: (s1.ctx.depth - 1) as i32, ..s1.ctx }, ..s1 }, true))
    } else if b == COMMA {
        let s1 = push_state(s, token_at(TokenType::Comma, ValueView::Empty, pos));
        Ok((LexState { ctx: s1.ctx.discard_break(), ..s1 }, true))
    } else if b == DQUOTE {
        let s1 = push_state(
            LexState { ctx: s.ctx.push_mode(ParseMode::InFString), ..s },
            token_at(TokenType::LString, ValueView::Empty, pos),
        );
        Ok((LexState { text: Seq::empty(), ..s1 }, true))
    } else if b == QUOTE {
        let s1 = push_state(
            LexState { ctx: s.ctx.push_mode(ParseMode::InString), ..s },
            token_at(TokenType::LString, ValueView::Empty, pos),
        );
        Ok((LexState { text: Seq::empty(), ..s1 }, true))
    } else if is_dec(b) {
        Ok((LexState { buf: BufType::Number, ..s }, true))
    } else if b == HASH {
        Ok(
            (
                LexState {
                    buf: if next_is(bytes, s.i, STAR) {
                        BufType::MultiLineComment
                    } else {
                        BufType::Comment
                    },
                    ..s
                },
                false,
            ),
        )
    } else {
        let s1 = LexState { ctx: s.ctx.update_unary(s.tokens.len()), ..s };
        if spec_is_ident_start(b) {
            Ok(
                (
                    LexState {
                        buf: if s.info.expect_dollar_call {
                            BufType::DollarCall
                        } else {
                            BufType::Identifier
                        },
                        ..s1
                    },
                    true,
                ),
            )
        } else if op_max_len(b) > 0 {
            Ok(
                (
                    LexState {
                        buf: BufType::Operator,
                        op: OpInfo { first: b, max_len: op_max_len(b) },
                        ..s1
                    },
                    true,
                ),
            )
        } else {
            Err(
                LexError {
                    typ: LexErrorType::UnexpectedToken("unexpected character"),
                    line: s.info.from_line,
                    column: s.column,
                },
            )
        }
    }
}

/// After a relevant byte: the checks on a pending dollar call or member
/// access, the sign taken into a number, and the start of the new lexeme.
pub open spec fn step_relevant(s: LexState) -> Result<LexState, LexError> {
    let info = s.info;
    if info.expect_dollar_call && s.buf != BufType::DollarCall {
        Err(
            error_at(
                info,
                if info.blank {
                    LexErrorType::DollarCallWithSpace
                } else {
                    LexErrorType::UnexpectedToken("unexpected dollar call")
                },
            ),
        )
    } else if info.dot_access_due() && s.buf != BufType::Identifier {
        Err(error_at(info, LexErrorType::UnexpectedTokenAfterDot))
    } else if info.dot_access_due() && info.blank {
        Err(error_at(info, LexErrorType::UnexpectedBlankAfterDot))
    } else {
        let t1 = if info.dot_access_due() && info.maybe_dot_access {
            drop_last_token(s.tokens)
        } else {
            s.tokens
        };
        let i1 = if info.dot_access_due() {
            LexerContextInfo { expect_dot_access: true, ..info }
        } else {
            info
        };
        let t2 = if i1.signed() && s.buf == BufType::Number {
            drop_last_token(t1)
        } else {
            t1
        };
        let i2 = if i1.signed() && s.buf != BufType::Number {
            i1.without_number_flags()
        } else {
            i1
        };
        Ok(LexState { tokens: t2, info: i2.started_at(s.i as usize, s.line, s.column), ..s })
    }
}

/// A blank or a carriage return: a blank on a leading line adds to its
/// indentation (1 for a space, 4 for a tab).
pub open spec fn step_blank(s: LexState, b: u8) -> LexState {
    if b == CR {
        LexState { i: s.i + 1, ..s }
    } else {
        let c1 = if s.ctx.is_leading {
            CtxView {
                current_indent: (s.ctx.current_indent + if b == SPACE {
                    1int
                } else {
                    4int
                }) as usize,
                ..s.ctx
            }
        } else {
            s.ctx
        };
        advance(LexState { ctx: c1, info: LexerContextInfo { blank: true, ..s.info }, ..s }, 1)
    }
}

/// A `}` here closes a brace opened in an interpolated expression, or the
/// expression itself.
pub open spec fn closes_expr(s: LexState) -> bool {
    top_mode(s.ctx.stack) is InFStringExpr && (top_mode(s.ctx.stack)->InFStringExpr_0 > 0
        || s.ctx.stack.len() > 1)
}

/// A `}` in an interpolated expression.
pub open spec fn step_close_expr(s: LexState) -> LexState {
    let d = top_mode(s.ctx.stack)->InFStringExpr_0;
    if d > 0 {
        let s1 = LexState { ctx: with_expr_depth(s.ctx, (d - 1) as usize), ..s };
        advance(push_state(s1, token_at(TokenType::RBrace, ValueView::Empty, pos_now(s))), 1)
    } else {
        let s1 = push_state(s, token_at(TokenType::RBraceExpr, ValueView::Empty, pos_now(s)));
        let c2 = s1.ctx.pop_mode();
        advance(LexState { ctx: CtxView { depth: (c2.depth - 1) as i32, ..c2 }, ..s1 }, 1)
    }
}

/// A byte that starts a token or a lexeme.
pub open spec fn step_token(bytes: Seq<u8>, s: LexState) -> Result<LexState, LexError> {
    match step_open(bytes, s) {
        Err(e) => Err(e),
        Ok((s1, relevant)) => {
            let s2 = if relevant {
                step_relevant(s1)
            } else {
                Ok(s1)
            };
            match s2 {
                Err(e) => Err(e),
                Ok(s3) => Ok(
                    advance(LexState { info: LexerContextInfo { blank: false, ..s3.info }, ..s3 }, 1),
                ),
            }
        },
    }
}

/// A byte of code read with no lexeme pending.
pub open spec fn step_dispatch(bytes: Seq<u8>, s: LexState) -> Result<LexState, LexError> {
    let b = bytes[s.i];
    if b == SPACE || b == TAB || b == CR {
        Ok(step_blank(s, b))
    } else if b == LF {
        step_newline(s)
    } else if b == SEMICOLON {
        step_semicolon(s)
    } else if b == RBRACE && closes_expr(s) {
        Ok(step_close_expr(s))
    } else {
        step_token(bytes, s)
    }
}

/// A step in code (`Normal` mode or an interpolated expression).
pub open spec fn step_code(bytes: Seq<u8>, s: LexState) -> Result<LexState, LexError> {
    match step_buffered(bytes, s) {
        Err(e) => Err(e),
        Ok((s1, done)) => if done {
            Ok(s1)
        } else if s1.buf == BufType::Empty {
            step_dispatch(bytes, s1)
        } else {
            Ok(advance(s1, 1))
        },
    }
}

/// A `$` in a string.
pub open spec fn step_interpolation(bytes: Seq<u8>, s: LexState) -> LexState {
    let (i1, c1, text, tokens, ctx) = interpolation(
        bytes,
        s.i,
        s.line,
        s.column,
        s.info,
        s.text,
        s.tokens,
        s.ctx,
    );
    advance(LexState { i: i1, column: c1, text, tokens, ctx, ..s }, 1)
}

/// A character of a string, taken as it is.
pub open spec fn step_char(bytes: Seq<u8>, s: LexState) -> LexState {
    let (cs, n) = utf8_char_at(bytes, s.i);
    advance(LexState { text: s.text + cs, ..s }, n)
}

/// A line break in a string.
pub open spec fn step_string_newline(s: LexState) -> LexState {
    LexState { i: s.i + 1, line: (s.line + 1) as u32, column: 2, text: s.text.push('\n'), ..s }
}

/// A step in a `"..."` string.
pub open spec fn step_fstring(bytes: Seq<u8>, s: LexState) -> LexState {
    let b = bytes[s.i];
    if b == BACKSLASH && s.i + 1 < bytes.len() {
        advance(LexState { text: s.text + escape_text(bytes[s.i + 1]), ..s }, 2)
    } else if b == LF {
        step_string_newline(s)
    } else if b == DOLLAR {
        step_interpolation(bytes, s)
    } else if b == DQUOTE {
        if next_is(bytes, s.i, DQUOTE) {
            advance(LexState { text: s.text.push('"'), ..s }, 2)
        } else {
            let (t1, c1) = flush_text(s.tokens, s.ctx, s.text, s.line, s.info.from_column);
            let s1 = LexState { tokens: t1, ctx: c1.pop_mode(), text: Seq::empty(), ..s };
            advance(push_state(s1, token_at(TokenType::RString, ValueView::Empty, pos_lexeme(s))), 1)
        }
    } else {
        step_char(bytes, s)
    }
}

/// A step in a `'...'` string.
pub open spec fn step_string(bytes: Seq<u8>, s: LexState) -> LexState {
    let b = bytes[s.i];
    if b == LF {
        step_string_newline(s)
    } else if b == QUOTE {
        if next_is(bytes, s.i, QUOTE) {
            advance(LexState { text: s.text.push('\''), ..s }, 2)
        } else {
            let st = token_at(
                TokenType::String,
                ValueView::String(s.text),
                Some((s.line, s.info.from_column, crate::lexer::utils::string::utf8_len(s.text))),
            );
            let s1 = push_state(push_state(s, st), token_at(TokenType::RString, ValueView::Empty, pos_lexeme(s)));
            advance(LexState { text: Seq::empty(), ctx: s1.ctx.pop_mode(), ..s1 }, 1)
        }
    } else {
        step_char(bytes, s)
    }
}

/// The indentation of a line of a literal block: the end of the blanks
/// read from `i` while the indentation `local` does not pass `base`, and
/// the indentation reached.
pub open spec fn block_indent(bytes: Seq<u8>, i: int, local: int, base: usize) -> (int, int)
    decreases bytes.len() - i,
{
    if 0 <= i < bytes.len() && local <= base && (bytes[i] == SPACE || bytes[i] == TAB) {
        block_indent(
            bytes,
            i + 1,
            local + if bytes[i] == SPACE {
                1int
            } else {
                4int
            },
            base,
        )
    } else {
        (i, local)
    }
}

/// A step in a literal block whose header is indented by `base`.
pub open spec fn step_block(bytes: Seq<u8>, s: LexState, base: usize) -> Result<LexState, LexError> {
    if s.ctx.current_indent == 0 {
        let (j, local) = block_indent(bytes, s.i, 0, base);
        let s1 = LexState {
            i: j,
            column: (s.column + (j - s.i)) as u32,
            ctx: CtxView { current_indent: local as usize, ..s.ctx },
            ..s
        };
        if local <= base {
            if s.text.len() > 0 {
                let (t, c) = close_block(s.text, s1.line, s.info.from_column, pos_lexeme(s1), s1.tokens, s1.ctx);
                Ok(LexState { tokens: t, ctx: c, text: Seq::empty(), ..s1 })
            } else {
                Err(error_at(s.info, LexErrorType::EmptyLiteralBlockString))
            }
        } else {
            Ok(s1)
        }
    } else {
        let b = bytes[s.i];
        if b == LF {
            Ok(LexState { ctx: CtxView { current_indent: 0, ..s.ctx }, ..step_string_newline(s) })
        } else if b == DOLLAR {
            Ok(step_interpolation(bytes, s))
        } else {
            Ok(step_char(bytes, s))
        }
    }
}

/// One step of the scan, at byte `s.i`.
pub open spec fn lex_step(bytes: Seq<u8>, s: LexState) -> Result<LexState, LexError> {
    match s.ctx.current_mode {
        ParseMode::Normal | ParseMode::InFStringExpr(_) => step_code(bytes, s),
        ParseMode::InFString => Ok(step_fstring(bytes, s)),
        ParseMode::InString => Ok(step_string(bytes, s)),
        ParseMode::InBlockString(base) => step_block(bytes, s, base),
    }
}

/// The tokens at the end of the source: what is pending is closed, a last
/// statement is ended, and every open indentation level is closed.
pub open spec fn lex_finish(bytes: Seq<u8>, s: LexState) -> Result<Seq<TokenView>, LexError> {
    let (sc, _text) = buffer_scan(bytes, bytes.len() as int, s.buf, s.line, s.info, s.tokens, s.ctx, s.text);
    match sc.result {
        Err(e) => Err(e),
        Ok(_) => {
            let pos = Some((s.line, s.column, 1usize));
            let end = token_at(TokenType::End, ValueView::Empty, pos);
            let (t, c) = if sc.tokens.len() > 0 && sc.tokens.last().typ != TokenType::End {
                (tokens_after_push(sc.tokens, sc.ctx, end), ctx_after_push(sc.ctx, sc.tokens.len(), end))
            } else {
                (sc.tokens, sc.ctx)
            };
            Ok(t + repeat_token(token_at(TokenType::Dedent, ValueView::Empty, pos), dedent_count(c.levels, 0)))
        },
    }
}

/// The scan from state `s`, with at most `fuel` steps; `2 * n + 2` steps
/// always suffice for `n` bytes (each step consumes a byte, or leaves a
/// mode that a consumed byte entered).
pub open spec fn lex_run(bytes: Seq<u8>, s: LexState, fuel: nat) -> Result<Seq<TokenView>, LexError>
    decreases fuel,
{
    if s.i >= bytes.len() || fuel == 0 {
        lex_finish(bytes, s)
    } else {
        match lex_step(bytes, s) {
            Err(e) => Err(e),
            Ok(s2) => lex_run(bytes, s2, (fuel - 1) as nat),
        }
    }
}

/// The tokens of the code whose bytes are `code`, or the first lexical
/// error in it.
pub open spec fn lex_code(code: Seq<u8>) -> Result<Seq<TokenView>, LexError> {
    lex_run(code, initial_state(code), 2 * code.len() + 2)
}

/// The tokens of the source whose bytes are `bytes` (its code, after the
/// byte-order mark, if any), or the first lexical error in it.
pub open spec fn lex(bytes: Seq<u8>) -> Result<Seq<TokenView>, LexError> {
    lex_code(without_bom(bytes))
}

/// The UTF-8 byte-order mark.
pub open spec fn bom() -> Seq<u8> {
    seq![0xEFu8, 0xBBu8, 0xBFu8]
}

/// A byte-order mark before a source changes nothing: the source lexes to
/// the same tokens, at the same lines and columns, or fails with the same
/// error. (A source that already begins with one loses only its own.)
pub proof fn law_byte_order_mark_skipped(bytes: Seq<u8>)
    requires
        !starts_with_bom(bytes),
    ensures
        lex(bom() + bytes) == lex(bytes),
{
    assert((bom() + bytes).subrange(3, (bom() + bytes).len() as int) =~= bytes);
}

/// A source whose every count fits the machine: brace depth (an `i32`),
/// lines and columns (`u32`) count at most one per byte, and indentation
/// (a `usize`) at most 4 per byte.
pub open spec fn source_fits(n: nat) -> bool {
    n < 0x8000_0000 && 4 * n <= usize::MAX
}

/// The bounds that the scan keeps: the position within the source, lines,
/// columns, depths and indentation within what the bytes read so far allow,
/// and a well-formed context.
pub open spec fn lex_inv(bytes: Seq<u8>, s: LexState) -> bool {
    &&& source_fits(bytes.len())
    &&& 0 <= s.i <= bytes.len()
    &&& s.line <= s.i + 1
    &&& s.column <= s.i + 1
    &&& s.info.from_byte <= s.i
    &&& s.ctx.wf()
    &&& -s.i <= s.ctx.depth <= s.i
    &&& s.ctx.current_indent <= 4 * s.i
    &&& forall|k: int| 0 <= k < s.ctx.stack.len() ==> expr_depth_within(#[trigger] s.ctx.stack[k], s.i)
}

/// The brace depth of an interpolated expression is within `bound`.
pub open spec fn expr_depth_within(m: ParseMode, bound: int) -> bool {
    match m {
        ParseMode::InFStringExpr(d) => d <= bound,
        _ => true,
    }
}

/// What decreases at each step: two per byte left, one per open mode.
pub open spec fn lex_measure(bytes: Seq<u8>, s: LexState) -> int {
    2 * (bytes.len() - s.i) + s.ctx.stack.len()
}

/// The effect of a step on the state, or its error.
pub open spec fn stepped(r: Result<(), LexError>, s: LexState, expected: Result<LexState, LexError>) -> bool {
    match expected {
        Ok(s2) => r is Ok && s == s2,
        Err(e) => r == Err::<(), LexError>(e),
    }
}

/// A pending name or number.
pub open spec fn lexeme_buf(b: BufType) -> bool {
    b is Number || b is HexNumber || b is BitNumber || b is OctalNumber || b is ScientificNumber
        || b is Identifier || b is DollarCall
}

/// A pending name or number stands in code, and its bytes read so far are
/// ASCII.
pub open spec fn lexeme_ascii(bytes: Seq<u8>, s: LexState) -> bool {
    lexeme_buf(s.buf) ==> code_mode(s.ctx.current_mode) && ascii_bytes(
        bytes.subrange(s.info.from_byte as int, s.i),
    )
}

/// The text of a pending literal, ASCII so far, is valid UTF-8.
proof fn lemma_literal_ascii(bytes: Seq<u8>, s: LexState)
    requires
        lex_inv(bytes, s),
        lexeme_ascii(bytes, s),
        lexeme_buf(s.buf),
    ensures
        valid_utf8(literal_text(bytes, s.info, s.i)),
{
    let t = bytes.subrange(s.info.from_byte as int, s.i);
    if s.info.has_underscores {
        lemma_ascii_without(t, UNDERSCORE);
        lemma_ascii_utf8(without(t, UNDERSCORE));
    } else {
        lemma_ascii_utf8(t);
    }
}

/// The state of the scan.
struct Lexing {
    i: usize,
    line: u32,
    column: u32,
    tokens: TokenList,
    ctx: LexerContext,
    info: LexerContextInfo,
    buf_type: BufType,
    op_info: OpInfo,
    string_buf: String,
}

impl View for Lexing {
    type V = LexState;

    closed spec fn view(&self) -> LexState {
        LexState {
            i: self.i as int,
            line: self.line,
            column: self.column,
            tokens: self.tokens@,
            ctx: self.ctx@,
            info: self.info,
            buf: self.buf_type,
            op: self.op_info,
            text: self.string_buf@,
        }
    }
}

/// The effect of offering a byte to the pending lexeme, or its error.
pub open spec fn buffered(r: Result<bool, LexError>, s: LexState, expected: Result<(LexState, bool), LexError>) -> bool {
    match expected {
        Ok((s2, done)) => r == Ok::<bool, LexError>(done) && s == s2,
        Err(e) => r == Err::<bool, LexError>(e),
    }
}

/// The lexeme is closed: its number flags are cleared, and a big-integer
/// suffix is consumed.
fn end_literal(st: &mut Lexing, big: bool) -> (r: bool)
    requires
        old(st).column < 0xffff_ffff,
        old(st).i < usize::MAX,
    ensures
        r == big,
        final(st)@ == (if big {
            advance(
                LexState { info: old(st)@.info.without_number_flags(), buf: BufType::Empty, ..old(st)@ },
                1,
            )
        } else {
            LexState { info: old(st)@.info.without_number_flags(), buf: BufType::Empty, ..old(st)@ }
        }),
{
    st.info.reset_number_flags();
    st.buf_type = BufType::Empty;
    if big {
        st.i = st.i + 1;
        st.column = st.column + 1;
    }
    big
}

/// A byte offered to a pending decimal literal.
#[verifier::rlimit(30)]
fn run_number(st: &mut Lexing, bytes: &[u8]) -> (r: Result<bool, LexError>)
    requires
        lexeme_ascii(bytes@, old(st)@),
        lex_inv(bytes@, old(st)@),
        old(st)@.i < bytes@.len(),
        old(st).buf_type == BufType::Number,
    ensures
        buffered(r, final(st)@, step_number(bytes@, old(st)@)),
{
    let b = bytes[st.i];
    if is_digit(b) {
        Ok(false)
    } else if b == UNDERSCORE {
        st.info.has_underscores = true;
        Ok(false)
    } else if b == DOT && !st.info.has_dot && !(st.i + 1 < bytes.len() && bytes[st.i + 1] == DOT) {
        st.info.has_dot = true;
        Ok(false)
    } else if b == LOWER_X {
        st.buf_type = BufType::HexNumber;
        Ok(false)
    } else if b == LOWER_B {
        st.buf_type = BufType::BitNumber;
        Ok(false)
    } else if b == LOWER_O {
        st.buf_type = BufType::OctalNumber;
        Ok(false)
    } else if is_sci_exp(b) {
        st.buf_type = BufType::ScientificNumber;
        Ok(false)
    } else {
        run_end_number(st, bytes)
    }
}

/// A decimal literal ends at the current byte.
#[verifier::rlimit(30)]
fn run_end_number(st: &mut Lexing, bytes: &[u8]) -> (r: Result<bool, LexError>)
    requires
        lexeme_ascii(bytes@, old(st)@),
        lex_inv(bytes@, old(st)@),
        old(st)@.i < bytes@.len(),
        old(st).buf_type == BufType::Number,
    ensures
        buffered(r, final(st)@, step_end_number(bytes@, old(st)@)),
{
    let big = is_bigint_posfix(bytes[st.i]);
    proof {
        lemma_literal_ascii(bytes@, st@);
    }
    let r = if big {
        push_bigint(bytes, st.i, &mut st.info, &mut st.tokens, &mut st.ctx)
    } else {
        push_number(bytes, st.i, &mut st.info, &mut st.tokens, &mut st.ctx)
    };
    match r {
        Err(e) => Err(e),
        Ok(()) => Ok(end_literal(st, big)),
    }
}

/// A byte offered to a pending literal with a base prefix.
#[verifier::rlimit(30)]
fn run_radix(st: &mut Lexing, bytes: &[u8]) -> (r: Result<bool, LexError>)
    requires
        lexeme_ascii(bytes@, old(st)@),
        lex_inv(bytes@, old(st)@),
        old(st)@.i < bytes@.len(),
        old(st).buf_type == BufType::HexNumber || old(st).buf_type == BufType::BitNumber
            || old(st).buf_type == BufType::OctalNumber,
    ensures
        buffered(r, final(st)@, step_radix(bytes@, old(st)@)),
{
    let b = bytes[st.i];
    let is_digit_of_base = match st.buf_type {
        BufType::HexNumber => is_hex_digit(b),
        BufType::BitNumber => is_binary_digit(b),
        _ => is_octal_digit(b),
    };
    if is_digit_of_base {
        Ok(false)
    } else if b == UNDERSCORE {
        st.info.has_underscores = true;
        Ok(false)
    } else {
        let big = is_bigint_posfix(b);
        proof {
            lemma_literal_ascii(bytes@, st@);
        }
        let r = if big {
            push_bigint(bytes, st.i, &mut st.info, &mut st.tokens, &mut st.ctx)
        } else {
            match st.buf_type {
                BufType::HexNumber => push_hex(bytes, st.i, &mut st.info, &mut st.tokens, &mut st.ctx),
                BufType::BitNumber => push_bit(bytes, st.i, &mut st.info, &mut st.tokens, &mut st.ctx),
                _ => push_octal(bytes, st.i, &mut st.info, &mut st.tokens, &mut st.ctx),
            }
        };
        match r {
            Err(e) => Err(e),
            Ok(()) => Ok(end_literal(st, big)),
        }
    }
}

/// A byte offered to a pending scientific literal.
#[verifier::rlimit(30)]
fn run_scientific(st: &mut Lexing, bytes: &[u8]) -> (r: Result<bool, LexError>)
    requires
        lex_inv(bytes@, old(st)@),
        old(st)@.i < bytes@.len(),
        old(st).buf_type == BufType::ScientificNumber,
    ensures
        buffered(r, final(st)@, step_scientific(bytes@, old(st)@)),
{
    let b = bytes[st.i];
    if is_sci_digit(b) {
        Ok(false)
    } else if b == UNDERSCORE {
        st.info.has_underscores = true;
        Ok(false)
    } else {
        match push_scientific(bytes, st.i, &mut st.info, &mut st.tokens, &mut st.ctx) {
            Err(e) => Err(e),
            Ok(()) => Ok(end_literal(st, false)),
        }
    }
}

/// A byte offered to a pending name.
#[verifier::rlimit(30)]
fn run_name(st: &mut Lexing, bytes: &[u8]) -> (r: Result<bool, LexError>)
    requires
        lexeme_ascii(bytes@, old(st)@),
        lex_inv(bytes@, old(st)@),
        old(st)@.i < bytes@.len(),
        old(st).buf_type == BufType::Identifier,
    ensures
        buffered(r, final(st)@, step_name(bytes@, old(st)@)),
{
    if !is_ident(bytes[st.i]) {
        proof {
            lemma_ident_scan_frame(bytes@, st.i as int, st.info, st.tokens@, st.ctx@);
            lemma_ascii_utf8(bytes@.subrange(st.info.from_byte as int, st.i as int));
        }
        match push_ident(bytes, st.i, &mut st.info, &mut st.ctx, &mut st.tokens) {
            Err(e) => {
                return Err(e);
            },
            Ok(()) => {},
        }
        st.buf_type = BufType::Empty;
    }
    Ok(false)
}

/// A byte offered to a pending dollar-call callee.
#[verifier::rlimit(30)]
fn run_callee(st: &mut Lexing, bytes: &[u8]) -> (r: Result<bool, LexError>)
    requires
        lexeme_ascii(bytes@, old(st)@),
        lex_inv(bytes@, old(st)@),
        old(st)@.i < bytes@.len(),
        old(st).buf_type == BufType::DollarCall,
    ensures
        buffered(r, final(st)@, step_callee(bytes@, old(st)@)),
{
    if !is_ident(bytes[st.i]) {
        proof {
            lemma_ascii_utf8(bytes@.subrange(st.info.from_byte as int, st.i as int));
        }
        push_dollar(bytes, st.i, &mut st.info, &mut st.tokens, &mut st.ctx);
        st.buf_type = BufType::Empty;
    }
    Ok(false)
}

/// A byte offered to a pending operator.
#[verifier::rlimit(30)]
fn run_operator(st: &mut Lexing, bytes: &[u8]) -> (r: Result<bool, LexError>)
    requires
        lex_inv(bytes@, old(st)@),
        old(st)@.i < bytes@.len(),
        old(st).buf_type == BufType::Operator,
    ensures
        buffered(r, final(st)@, step_operator(bytes@, old(st)@)),
{
    if !(st.i - st.info.from_byte < st.op_info.max_len && op_follows(st.op_info.first, bytes[st.i])) {
        proof {
            lemma_op_scan_frame(
                bytes@.subrange(st.info.from_byte as int, st.i as int),
                st.i as int,
                st.info,
                st.tokens@,
                st.ctx@,
            );
        }
        match push_operator(bytes, st.i, &mut st.info, &mut st.tokens, &mut st.ctx) {
            Err(e) => {
                return Err(e);
            },
            Ok(()) => {},
        }
        st.buf_type = BufType::Empty;
    }
    Ok(false)
}

/// A byte offered to a pending comment.
#[verifier::rlimit(30)]
fn run_comment(st: &mut Lexing, bytes: &[u8]) -> (r: Result<bool, LexError>)
    requires
        lex_inv(bytes@, old(st)@),
        old(st)@.i < bytes@.len(),
        old(st).buf_type == BufType::Comment || old(st).buf_type == BufType::MultiLineComment,
    ensures
        buffered(r, final(st)@, step_comment(bytes@, old(st)@)),
{
    let b = bytes[st.i];
    if st.buf_type == BufType::Comment {
        if b == LF {
            st.buf_type = BufType::Empty;
        }
        Ok(false)
    } else if b == STAR && st.i + 1 < bytes.len() && bytes[st.i + 1] == HASH {
        st.i = st.i + 2;
        st.column = st.column + 2;
        st.buf_type = BufType::Empty;
        Ok(true)
    } else {
        if b == LF {
            st.line = st.line + 1;
            st.column = 1;
        }
        Ok(false)
    }
}

/// The current byte offered to the pending lexeme.
#[verifier::rlimit(30)]
fn run_buffered(st: &mut Lexing, bytes: &[u8]) -> (r: Result<bool, LexError>)
    requires
        lexeme_ascii(bytes@, old(st)@),
        lex_inv(bytes@, old(st)@),
        old(st)@.i < bytes@.len(),
    ensures
        buffered(r, final(st)@, step_buffered(bytes@, old(st)@)),
{
    match st.buf_type {
        BufType::Number => run_number(st, bytes),
        BufType::HexNumber | BufType::BitNumber | BufType::OctalNumber => run_radix(st, bytes),
        BufType::ScientificNumber => run_scientific(st, bytes),
        BufType::Identifier => run_name(st, bytes),
        BufType::DollarCall => run_callee(st, bytes),
        BufType::Operator => run_operator(st, bytes),
        BufType::Comment | BufType::MultiLineComment => run_comment(st, bytes),
        _ => Ok(false),
    }
}


/// Every interpolated expression on the stack has a brace depth within
/// `bound`, which is no less than `old_bound`.
proof fn lemma_expr_depths_grow(stack: Seq<ParseMode>, old_bound: int, bound: int)
    requires
        old_bound <= bound,
        forall|k: int| 0 <= k < stack.len() ==> expr_depth_within(#[trigger] stack[k], old_bound),
    ensures
        forall|k: int| 0 <= k < stack.len() ==> expr_depth_within(#[trigger] stack[k], bound),
{
    assert forall|k: int| 0 <= k < stack.len() implies expr_depth_within(#[trigger] stack[k], bound) by {
        assert(expr_depth_within(stack[k], old_bound));
    }
}

/// A blank keeps the bounds, and the measure decreases.
proof fn lemma_blank_progress(bytes: Seq<u8>, s: LexState, b: u8)
    requires
        lex_inv(bytes, s),
        s.i < bytes.len(),
        b == SPACE || b == TAB || b == CR,
    ensures
        lex_inv(bytes, step_blank(s, b)),
        lex_measure(bytes, step_blank(s, b)) < lex_measure(bytes, s),
{
    lemma_expr_depths_grow(s.ctx.stack, s.i, s.i + 1);
}

/// A byte that starts a token keeps the bounds, once it is consumed.
proof fn lemma_open_progress(bytes: Seq<u8>, s: LexState)
    requires
        lex_inv(bytes, s),
        s.i < bytes.len(),
    ensures
        step_open(bytes, s) matches Ok((s1, _)) ==> lex_inv(bytes, advance(s1, 1)) && s1.i == s.i
            && s1.ctx.stack.len() <= s.ctx.stack.len() + 1,
{
    lemma_expr_depths_grow(s.ctx.stack, s.i, s.i + 1);
    let b = bytes[s.i];
    if b == LBRACE {
        let st = s.ctx.stack;
        if top_mode(st) is InFStringExpr {
            let st2 = st.update(st.len() - 1, ParseMode::InFStringExpr((top_mode(st)->InFStringExpr_0 + 1) as usize));
            assert(expr_depth_within(st[st.len() - 1], s.i));
            assert forall|k: int| 0 <= k < st2.len() implies expr_depth_within(#[trigger] st2[k], s.i + 1) by {
                if k != st.len() - 1 {
                    assert(st2[k] == st[k]);
                }
            }
        }
    } else if b == DQUOTE || b == QUOTE {
        let m = if b == DQUOTE { ParseMode::InFString } else { ParseMode::InString };
        let st2 = s.ctx.stack.push(m);
        assert forall|k: int| 0 <= k < st2.len() implies expr_depth_within(#[trigger] st2[k], s.i + 1) by {
            if k < s.ctx.stack.len() {
                assert(st2[k] == s.ctx.stack[k]);
            }
        }
    }
}

/// The checks after a relevant byte keep the bounds, once it is consumed.
proof fn lemma_relevant_progress(bytes: Seq<u8>, s: LexState)
    requires
        lex_inv(bytes, advance(s, 1)),
        0 <= s.i < bytes.len(),
    ensures
        step_relevant(s) matches Ok(s1) ==> lex_inv(bytes, advance(s1, 1)) && s1.i == s.i && s1.ctx
            == s.ctx,
{
    if let Ok(s1) = step_relevant(s) {
        assert((s.i as usize) as int == s.i);
    }
}

/// A byte that starts a token keeps the bounds and decreases the measure.
proof fn lemma_token_progress(bytes: Seq<u8>, s: LexState)
    requires
        lex_inv(bytes, s),
        s.i < bytes.len(),
    ensures
        step_token(bytes, s) matches Ok(s2) ==> lex_inv(bytes, s2) && lex_measure(bytes, s2)
            < lex_measure(bytes, s),
{
    lemma_open_progress(bytes, s);
    if let Ok((s1, relevant)) = step_open(bytes, s) {
        if relevant {
            lemma_relevant_progress(bytes, s1);
        }
    }
}

/// What offering a byte to the pending lexeme keeps: the modes; it moves on
/// by a byte when the step ends there; the bounds hold, at least once the
/// byte is consumed.
pub open spec fn buffer_kept(bytes: Seq<u8>, s: LexState, res: Result<(LexState, bool), LexError>) -> bool {
    res matches Ok((s1, done)) ==> {
        &&& done ==> lex_inv(bytes, s1) && s.i < s1.i <= s.i + 2 && s1.ctx.stack == s.ctx.stack
        &&& !done ==> s1.i == s.i && s1.ctx.stack == s.ctx.stack && lex_inv(bytes, advance(s1, 1))
            && (s1.buf == BufType::Empty ==> lex_inv(bytes, s1))
    }
}

proof fn lemma_close_literal_kept(bytes: Seq<u8>, s: LexState, sc: Scan, big: bool)
    requires
        lex_inv(bytes, s),
        s.i < bytes.len(),
        keeps_frame(sc, s.ctx, s.info),
    ensures
        buffer_kept(bytes, s, close_literal(s, sc, big)),
{
    lemma_expr_depths_grow(s.ctx.stack, s.i, s.i + 1);
}

proof fn lemma_number_kept(bytes: Seq<u8>, s: LexState)
    requires
        lex_inv(bytes, s),
        s.i < bytes.len(),
    ensures
        buffer_kept(bytes, s, step_number(bytes, s)),
{
    lemma_expr_depths_grow(s.ctx.stack, s.i, s.i + 1);
    lemma_literal_scan_frame(bytes, s.i, s.info, s.tokens, s.ctx);
    lemma_close_literal_kept(bytes, s, bigint_scan(bytes, s.i, s.info, s.tokens, s.ctx), true);
    lemma_close_literal_kept(bytes, s, number_scan(bytes, s.i, s.info, s.tokens, s.ctx), false);
}

proof fn lemma_radix_kept(bytes: Seq<u8>, s: LexState)
    requires
        lex_inv(bytes, s),
        s.i < bytes.len(),
    ensures
        buffer_kept(bytes, s, step_radix(bytes, s)),
        buffer_kept(bytes, s, step_scientific(bytes, s)),
{
    lemma_expr_depths_grow(s.ctx.stack, s.i, s.i + 1);
    lemma_literal_scan_frame(bytes, s.i, s.info, s.tokens, s.ctx);
    lemma_close_literal_kept(bytes, s, bigint_scan(bytes, s.i, s.info, s.tokens, s.ctx), true);
    lemma_close_literal_kept(bytes, s, integer_scan(bytes, s.i, s.info, s.tokens, s.ctx), false);
    lemma_close_literal_kept(bytes, s, float_scan(bytes, s.i, s.info, s.tokens, s.ctx), false);
}

proof fn lemma_word_kept(bytes: Seq<u8>, s: LexState)
    requires
        lex_inv(bytes, s),
        s.i < bytes.len(),
    ensures
        buffer_kept(bytes, s, step_name(bytes, s)),
        buffer_kept(bytes, s, step_callee(bytes, s)),
        buffer_kept(bytes, s, step_operator(bytes, s)),
{
    lemma_expr_depths_grow(s.ctx.stack, s.i, s.i + 1);
    lemma_ident_scan_frame(bytes, s.i, s.info, s.tokens, s.ctx);
    lemma_op_scan_frame(bytes.subrange(s.info.from_byte as int, s.i), s.i, s.info, s.tokens, s.ctx);
}

proof fn lemma_comment_kept(bytes: Seq<u8>, s: LexState)
    requires
        lex_inv(bytes, s),
        s.i < bytes.len(),
        s.buf == BufType::Comment || s.buf == BufType::MultiLineComment,
    ensures
        buffer_kept(bytes, s, step_comment(bytes, s)),
{
    lemma_expr_depths_grow(s.ctx.stack, s.i, s.i + 1);
    let b = bytes[s.i];
    if s.buf == BufType::Comment {
        assert(lex_inv(bytes, advance(s, 1)));
    } else if b == STAR && next_is(bytes, s.i, HASH) {
        lemma_expr_depths_grow(s.ctx.stack, s.i, s.i + 2);
        let s1 = LexState { buf: BufType::Empty, ..advance(s, 2) };
        assert(lex_inv(bytes, s1));
    } else if b == LF {
        lemma_expr_depths_grow(s.ctx.stack, s.i, s.i + 2);
        let s1 = LexState { line: (s.line + 1) as u32, column: 1, ..s };
        assert(s1.line == s.line + 1);
        assert(lex_inv(bytes, advance(s1, 1)));
    } else {
        assert(lex_inv(bytes, advance(s, 1)));
    }
}

/// Offering a byte to the pending lexeme keeps what `buffer_kept` says.
pub proof fn lemma_buffered_progress(bytes: Seq<u8>, s: LexState)
    requires
        lex_inv(bytes, s),
        s.i < bytes.len(),
    ensures
        buffer_kept(bytes, s, step_buffered(bytes, s)),
{
    lemma_expr_depths_grow(s.ctx.stack, s.i, s.i + 1);
    match s.buf {
        BufType::Number => lemma_number_kept(bytes, s),
        BufType::HexNumber | BufType::BitNumber | BufType::OctalNumber | BufType::ScientificNumber => {
            lemma_radix_kept(bytes, s)
        },
        BufType::Identifier | BufType::DollarCall | BufType::Operator => lemma_word_kept(bytes, s),
        BufType::Comment | BufType::MultiLineComment => lemma_comment_kept(bytes, s),
        _ => {},
    }
}

/// A line break in code keeps the bounds and decreases the measure.
proof fn lemma_newline_progress(bytes: Seq<u8>, s: LexState)
    requires
        lex_inv(bytes, s),
        s.i < bytes.len(),
    ensures
        step_newline(s) matches Ok(s2) ==> lex_inv(bytes, s2) && lex_measure(bytes, s2) < lex_measure(
            bytes,
            s,
        ),
{
    lemma_expr_depths_grow(s.ctx.stack, s.i, s.i + 1);
    if s.ctx.depth == 0 && !s.ctx.is_continuous && s.ctx.allow_redirect {
        let st2 = s.ctx.stack.push(ParseMode::InBlockString(s.ctx.current_indent));
        assert forall|k: int| 0 <= k < st2.len() implies expr_depth_within(#[trigger] st2[k], s.i + 1) by {
            if k < s.ctx.stack.len() {
                assert(st2[k] == s.ctx.stack[k]);
            }
        }
    }
}

/// A `;` keeps the bounds and decreases the measure.
proof fn lemma_semicolon_progress(bytes: Seq<u8>, s: LexState)
    requires
        lex_inv(bytes, s),
        s.i < bytes.len(),
    ensures
        step_semicolon(s) matches Ok(s2) ==> lex_inv(bytes, s2) && lex_measure(bytes, s2)
            < lex_measure(bytes, s),
{
    broadcast use lemma_separators_frame;
    lemma_expr_depths_grow(s.ctx.stack, s.i, s.i + 1);
}

/// A `}` in an interpolated expression keeps the bounds and decreases the
/// measure.
proof fn lemma_close_expr_progress(bytes: Seq<u8>, s: LexState)
    requires
        lex_inv(bytes, s),
        s.i < bytes.len(),
        closes_expr(s),
    ensures
        lex_inv(bytes, step_close_expr(s)),
        lex_measure(bytes, step_close_expr(s)) < lex_measure(bytes, s),
{
    lemma_expr_depths_grow(s.ctx.stack, s.i, s.i + 1);
    let st = s.ctx.stack;
    let d = top_mode(st)->InFStringExpr_0;
    if d > 0 {
        let st2 = st.update(st.len() - 1, ParseMode::InFStringExpr((d - 1) as usize));
        assert forall|k: int| 0 <= k < st2.len() implies expr_depth_within(#[trigger] st2[k], s.i + 1) by {
            if k != st.len() - 1 {
                assert(st2[k] == st[k]);
            }
        }
    } else {
        let st2 = st.drop_last();
        assert forall|k: int| 0 <= k < st2.len() implies expr_depth_within(#[trigger] st2[k], s.i + 1) by {
            assert(st2[k] == st[k]);
        }
    }
}

/// A byte of code with no lexeme pending keeps the bounds and decreases
/// the measure.
proof fn lemma_dispatch_progress(bytes: Seq<u8>, s: LexState)
    requires
        lex_inv(bytes, s),
        s.i < bytes.len(),
    ensures
        step_dispatch(bytes, s) matches Ok(s2) ==> lex_inv(bytes, s2) && lex_measure(bytes, s2)
            < lex_measure(bytes, s),
{
    let b = bytes[s.i];
    if b == SPACE || b == TAB || b == CR {
        lemma_blank_progress(bytes, s, b);
    } else if b == LF {
        lemma_newline_progress(bytes, s);
    } else if b == SEMICOLON {
        lemma_semicolon_progress(bytes, s);
    } else if b == RBRACE && closes_expr(s) {
        lemma_close_expr_progress(bytes, s);
    } else {
        lemma_token_progress(bytes, s);
    }
}

/// A step in code keeps the bounds and decreases the measure.
proof fn lemma_code_progress(bytes: Seq<u8>, s: LexState)
    requires
        lex_inv(bytes, s),
        s.i < bytes.len(),
    ensures
        step_code(bytes, s) matches Ok(s2) ==> lex_inv(bytes, s2) && lex_measure(bytes, s2)
            < lex_measure(bytes, s),
{
    lemma_buffered_progress(bytes, s);
    if let Ok((s1, done)) = step_buffered(bytes, s) {
        if !done && s1.buf == BufType::Empty {
            lemma_dispatch_progress(bytes, s1);
        }
    }
}

/// The character read at `i` takes at least a byte, within the source.
proof fn lemma_char_bounds(bytes: Seq<u8>, i: int)
    requires
        0 <= i < bytes.len(),
    ensures
        1 <= utf8_char_at(bytes, i).1 <= bytes.len() - i,
{
}

/// A `$` in a string keeps the bounds and decreases the measure.
proof fn lemma_interpolation_progress(bytes: Seq<u8>, s: LexState)
    requires
        lex_inv(bytes, s),
        s.i < bytes.len(),
    ensures
        lex_inv(bytes, step_interpolation(bytes, s)),
        lex_measure(bytes, step_interpolation(bytes, s)) < lex_measure(bytes, s),
{
    lemma_expr_depths_grow(s.ctx.stack, s.i, s.i + 2);
    lemma_name_run_bounds(bytes, s.i + 1);
    if s.i + 1 < bytes.len() && bytes[s.i + 1] == LBRACE {
        let (t1, c1) = flush_text(s.tokens, s.ctx, s.text, s.info.from_line, s.info.from_column);
        let st2 = c1.stack.push(ParseMode::InFStringExpr(0));
        assert forall|k: int| 0 <= k < st2.len() implies expr_depth_within(#[trigger] st2[k], s.i + 2) by {
            if k < c1.stack.len() {
                assert(st2[k] == c1.stack[k]);
            }
        }
    }
}

/// A step in a `"..."` string keeps the bounds and decreases the measure.
proof fn lemma_fstring_progress(bytes: Seq<u8>, s: LexState)
    requires
        lex_inv(bytes, s),
        s.i < bytes.len(),
        s.ctx.current_mode == ParseMode::InFString,
    ensures
        lex_inv(bytes, step_fstring(bytes, s)),
        lex_measure(bytes, step_fstring(bytes, s)) < lex_measure(bytes, s),
{
    lemma_expr_depths_grow(s.ctx.stack, s.i, s.i + 2);
    lemma_char_bounds(bytes, s.i);
    lemma_interpolation_progress(bytes, s);
    let st = s.ctx.stack;
    let st2 = st.drop_last();
    assert forall|k: int| 0 <= k < st2.len() implies expr_depth_within(#[trigger] st2[k], s.i + 1) by {
        assert(st2[k] == st[k]);
    }
}

/// A step in a `'...'` string keeps the bounds and decreases the measure.
proof fn lemma_string_progress(bytes: Seq<u8>, s: LexState)
    requires
        lex_inv(bytes, s),
        s.i < bytes.len(),
        s.ctx.current_mode == ParseMode::InString,
    ensures
        lex_inv(bytes, step_string(bytes, s)),
        lex_measure(bytes, step_string(bytes, s)) < lex_measure(bytes, s),
{
    lemma_expr_depths_grow(s.ctx.stack, s.i, s.i + 2);
    lemma_char_bounds(bytes, s.i);
    let st = s.ctx.stack;
    let st2 = st.drop_last();
    assert forall|k: int| 0 <= k < st2.len() implies expr_depth_within(#[trigger] st2[k], s.i + 1) by {
        assert(st2[k] == st[k]);
    }
}

/// The blanks at the start of a line of a literal block stay within the
/// source, and each adds at most 4 to the indentation.
proof fn lemma_block_indent(bytes: Seq<u8>, i: int, local: int, base: usize)
    requires
        0 <= i <= bytes.len(),
        0 <= local,
    ensures
        i <= block_indent(bytes, i, local, base).0 <= bytes.len(),
        local <= block_indent(bytes, i, local, base).1 <= local + 4 * (block_indent(bytes, i, local, base).0 - i),
        block_indent(bytes, i, local, base).0 == i ==> block_indent(bytes, i, local, base).1 == local,
    decreases bytes.len() - i,
{
    if 0 <= i < bytes.len() && local <= base && (bytes[i] == SPACE || bytes[i] == TAB) {
        let w: int = if bytes[i] == SPACE { 1 } else { 4 };
        lemma_block_indent(bytes, i + 1, local + w, base);
    }
}

/// A step in a literal block keeps the bounds and decreases the measure.
proof fn lemma_block_progress(bytes: Seq<u8>, s: LexState, base: usize)
    requires
        lex_inv(bytes, s),
        s.i < bytes.len(),
        s.ctx.current_mode == ParseMode::InBlockString(base),
    ensures
        step_block(bytes, s, base) matches Ok(s2) ==> lex_inv(bytes, s2) && lex_measure(bytes, s2)
            < lex_measure(bytes, s),
{
    lemma_expr_depths_grow(s.ctx.stack, s.i, s.i + 2);
    lemma_char_bounds(bytes, s.i);
    lemma_interpolation_progress(bytes, s);
    if s.ctx.current_indent == 0 {
        lemma_block_indent(bytes, s.i, 0, base);
        let (j, local) = block_indent(bytes, s.i, 0, base);
        lemma_expr_depths_grow(s.ctx.stack, s.i, j);
        let st = s.ctx.stack;
        let st2 = st.drop_last();
        assert forall|k: int| 0 <= k < st2.len() implies expr_depth_within(#[trigger] st2[k], j) by {
            assert(st2[k] == st[k]);
        }
    }
}

/// The state before the first byte keeps the bounds.
pub proof fn lemma_initial_inv(bytes: Seq<u8>)
    requires
        source_fits(bytes.len()),
    ensures
        lex_inv(bytes, initial_state(bytes)),
{
    let s = initial_state(bytes);
    assert forall|k: int| 0 <= k < s.ctx.stack.len() implies expr_depth_within(#[trigger] s.ctx.stack[k], s.i) by {
        assert(s.ctx.stack[k] == ParseMode::Normal);
    }
}

/// A step keeps the bounds and decreases the measure.
pub proof fn lemma_step_progress(bytes: Seq<u8>, s: LexState)
    requires
        lex_inv(bytes, s),
        s.i < bytes.len(),
    ensures
        lex_step(bytes, s) matches Ok(s2) ==> lex_inv(bytes, s2) && lex_measure(bytes, s2) < lex_measure(
            bytes,
            s,
        ),
{
    match s.ctx.current_mode {
        ParseMode::Normal | ParseMode::InFStringExpr(_) => lemma_code_progress(bytes, s),
        ParseMode::InFString => lemma_fstring_progress(bytes, s),
        ParseMode::InString => lemma_string_progress(bytes, s),
        ParseMode::InBlockString(base) => lemma_block_progress(bytes, s, base),
    }
}

/// A pending lexeme grown by an ASCII byte stays ASCII.
proof fn lemma_ascii_extend(bytes: Seq<u8>, from: int, i: int)
    requires
        0 <= from <= i < bytes.len(),
        ascii_bytes(bytes.subrange(from, i)),
        bytes[i] < 128,
    ensures
        ascii_bytes(bytes.subrange(from, i + 1)),
{
    let t = bytes.subrange(from, i + 1);
    assert forall|k: int| 0 <= k < t.len() implies #[trigger] t[k] < 128 by {
        if k < i - from {
            assert(t[k] == bytes.subrange(from, i)[k]);
        }
    }
}

/// A lexeme that starts at byte `i` is ASCII once that ASCII byte is read.
proof fn lemma_ascii_start(bytes: Seq<u8>, i: int)
    requires
        0 <= i < bytes.len(),
        bytes[i] < 128,
    ensures
        ascii_bytes(bytes.subrange(i, i + 1)),
{
    assert(bytes.subrange(i, i) =~= Seq::<u8>::empty());
    lemma_ascii_extend(bytes, i, i);
}

/// What offering a byte to the pending lexeme does to it: a closed lexeme
/// leaves no buffer; an open one keeps its start, its place and its mode,
/// and a name or number goes on only with an ASCII byte.
pub open spec fn buffered_ascii(bytes: Seq<u8>, s: LexState, s1: LexState, done: bool) -> bool {
    &&& done ==> s1.buf == BufType::Empty
    &&& !done ==> s1.i == s.i && s1.info.from_byte == s.info.from_byte && s1.ctx.current_mode
        == s.ctx.current_mode
    &&& !done && lexeme_buf(s1.buf) ==> lexeme_buf(s.buf) && bytes[s.i] < 128
}

proof fn lemma_buffered_ascii(bytes: Seq<u8>, s: LexState)
    requires
        lex_inv(bytes, s),
        s.i < bytes.len(),
    ensures
        step_buffered(bytes, s) matches Ok((s1, done)) ==> buffered_ascii(bytes, s, s1, done),
{
    match s.buf {
        BufType::Number => {
            if !is_dec(bytes[s.i]) && bytes[s.i] != UNDERSCORE && bytes[s.i] != DOT && bytes[s.i]
                != LOWER_X && bytes[s.i] != LOWER_B && bytes[s.i] != LOWER_O && bytes[s.i]
                != LOWER_E && bytes[s.i] != UPPER_E {
                lemma_literal_scan_frame(bytes, s.i, s.info, s.tokens, s.ctx);
            }
        },
        BufType::HexNumber | BufType::BitNumber | BufType::OctalNumber => {
            lemma_literal_scan_frame(bytes, s.i, s.info, s.tokens, s.ctx);
        },
        BufType::ScientificNumber => {
            lemma_literal_scan_frame(bytes, s.i, s.info, s.tokens, s.ctx);
        },
        BufType::Identifier => {
            lemma_ident_scan_frame(bytes, s.i, s.info, s.tokens, s.ctx);
        },
        BufType::Operator => {
            lemma_op_scan_frame(bytes.subrange(s.info.from_byte as int, s.i), s.i, s.info, s.tokens, s.ctx);
        },
        _ => {},
    }
}

/// Opening a token or a lexeme at a byte starts a name or number only at
/// an ASCII byte, where the lexeme then begins.
proof fn lemma_token_ascii(bytes: Seq<u8>, s: LexState)
    requires
        lex_inv(bytes, s),
        s.i < bytes.len(),
        s.buf == BufType::Empty,
        code_mode(s.ctx.current_mode),
    ensures
        step_token(bytes, s) matches Ok(s2) ==> lexeme_ascii(bytes, s2),
{
    let b = bytes[s.i];
    if let Ok((s1, relevant)) = step_open(bytes, s) {
        if lexeme_buf(s1.buf) {
            assert(relevant);
            assert(b < 128);
            assert(s1.i == s.i);
            lemma_ascii_start(bytes, s.i);
        }
    }
}

/// A byte of code read with no lexeme pending keeps what `lexeme_ascii`
/// says.
proof fn lemma_dispatch_ascii(bytes: Seq<u8>, s: LexState)
    requires
        lex_inv(bytes, s),
        s.i < bytes.len(),
        s.buf == BufType::Empty,
        code_mode(s.ctx.current_mode),
    ensures
        step_dispatch(bytes, s) matches Ok(s2) ==> lexeme_ascii(bytes, s2),
{
    let b = bytes[s.i];
    if !(b == SPACE || b == TAB || b == CR || b == LF || b == SEMICOLON || (b == RBRACE && closes_expr(s))) {
        lemma_token_ascii(bytes, s);
    }
}

/// A step keeps a pending name or number in code and ASCII.
proof fn lemma_step_ascii(bytes: Seq<u8>, s: LexState)
    requires
        lex_inv(bytes, s),
        s.i < bytes.len(),
        lexeme_ascii(bytes, s),
    ensures
        lex_step(bytes, s) matches Ok(s2) ==> lexeme_ascii(bytes, s2),
{
    if code_mode(s.ctx.current_mode) {
        lemma_buffered_ascii(bytes, s);
        if let Ok((s1, done)) = step_buffered(bytes, s) {
            if !done && s1.buf == BufType::Empty {
                lemma_buffered_progress(bytes, s);
                lemma_dispatch_ascii(bytes, s1);
            } else if !done && lexeme_buf(s1.buf) {
                lemma_ascii_extend(bytes, s.info.from_byte as int, s.i);
            }
        }
    } else {
        assert(!lexeme_buf(s.buf));
    }
}

/// A blank or a carriage return.
#[verifier::rlimit(30)]
fn run_blank(st: &mut Lexing, bytes: &[u8])
    requires
        lex_inv(bytes@, old(st)@),
        old(st)@.i < bytes@.len(),
        bytes@[old(st)@.i] == SPACE || bytes@[old(st)@.i] == TAB || bytes@[old(st)@.i] == CR,
    ensures
        final(st)@ == step_blank(old(st)@, bytes@[old(st)@.i]),
{
    let b = bytes[st.i];
    if b == CR {
        st.i = st.i + 1;
    } else {
        if st.ctx.is_leading {
            let w: usize = if b == SPACE {
                1
            } else {
                4
            };
            st.ctx.current_indent = st.ctx.current_indent + w;
        }
        st.info.blank = true;
        st.i = st.i + 1;
        st.column = st.column + 1;
    }
}

/// A line break in code.
#[verifier::rlimit(30)]
fn run_newline(st: &mut Lexing, bytes: &[u8]) -> (r: Result<(), LexError>)
    requires
        lex_inv(bytes@, old(st)@),
        old(st)@.i < bytes@.len(),
    ensures
        stepped(r, final(st)@, step_newline(old(st)@)),
{
    if st.ctx.depth == 0 && !st.ctx.is_continuous {
        if st.ctx.allow_redirect {
            st.tokens.push(
                Token::op(Operator::Assign, Some((st.line, st.column, 1))).with_unary(false),
                &mut st.ctx,
            );
            let indent = st.ctx.current_indent;
            st.ctx.push_mode(ParseMode::InBlockString(indent));
            st.tokens.push(
                Token::delim(
                    TokenType::LString,
                    Some((st.info.from_line, st.info.from_column, st.i - st.info.from_byte)),
                ),
                &mut st.ctx,
            );
            st.string_buf = String::new();
            st.ctx.stop_redirect();
        } else {
            st.ctx.is_leading = true;
        }
        st.ctx.current_indent = 0;
    } else if st.ctx.allow_redirect {
        return Err(
            LexError::new(
                LexErrorType::UnexpectedLogicalContinuation,
                st.info.from_line,
                st.info.from_column,
            ),
        );
    }
    st.line = st.line + 1;
    st.info.blank = true;
    st.i = st.i + 1;
    st.column = 1;
    Ok(())
}

/// A `;` in code.
#[verifier::rlimit(30)]
fn run_semicolon(st: &mut Lexing, bytes: &[u8]) -> (r: Result<(), LexError>)
    requires
        lex_inv(bytes@, old(st)@),
        old(st)@.i < bytes@.len(),
    ensures
        stepped(r, final(st)@, step_semicolon(old(st)@)),
{
    broadcast use lemma_separators_frame;
    if st.ctx.is_continuous {
        return Err(
            LexError::new(
                LexErrorType::UnexpectedToken("unexpected semicolon"),
                st.info.from_line,
                st.column,
            ),
        );
    }
    st.ctx.current_indent = 0;
    st.ctx.is_leading = true;
    st.tokens.handle_virtual_delims(false, Some((st.line, st.column, 1)), &mut st.ctx);
    st.ctx.join_next();
    st.i = st.i + 1;
    st.column = st.column + 1;
    Ok(())
}

/// A `}` in an interpolated expression.
#[verifier::rlimit(30)]
fn run_close_expr(st: &mut Lexing, bytes: &[u8])
    requires
        lex_inv(bytes@, old(st)@),
        old(st)@.i < bytes@.len(),
        closes_expr(old(st)@),
    ensures
        final(st)@ == step_close_expr(old(st)@),
{
    let n = st.ctx.parse_stack.len();
    let pos = Some((st.line, st.column, 1));
    if let ParseMode::InFStringExpr(d) = st.ctx.parse_stack[n - 1] {
        if d > 0 {
            st.ctx.parse_stack[n - 1] = ParseMode::InFStringExpr(d - 1);
            st.tokens.push(Token::delim(TokenType::RBrace, pos), &mut st.ctx);
        } else {
            st.tokens.push(Token::delim(TokenType::RBraceExpr, pos), &mut st.ctx);
            st.ctx.pop_mode();
            st.ctx.depth = st.ctx.depth - 1;
        }
    }
    st.i = st.i + 1;
    st.column = st.column + 1;
}

/// An opening parenthesis or bracket; right after a name, it joins the name.
#[verifier::rlimit(30)]
fn run_opener(st: &mut Lexing, bytes: &[u8]) -> (r: Result<bool, LexError>)
    requires
        lex_inv(bytes@, old(st)@),
        old(st)@.i < bytes@.len(),
        bytes@[old(st)@.i] == LPAREN || bytes@[old(st)@.i] == LBRACKET,
    ensures
        buffered(r, final(st)@, step_open(bytes@, old(st)@)),
{
    let b = bytes[st.i];
    let pos = Some((st.line, st.column, 1));
    if b == LPAREN {
        let relevant = !(!st.info.blank && st.info.expect_dollar_call);
        if !st.info.blank && !st.info.expect_dollar_call {
            st.ctx.join_next();
            st.ctx.discard_break();
        }
        st.tokens.push(Token::delim(TokenType::LParen, pos), &mut st.ctx);
        st.ctx.depth = st.ctx.depth + 1;
        Ok(relevant)
    } else {
        if !st.info.blank {
            st.ctx.join_next();
            st.ctx.discard_break();
        }
        st.tokens.push(Token::delim(TokenType::LBracket, pos), &mut st.ctx);
        st.ctx.depth = st.ctx.depth + 1;
        Ok(true)
    }
}

/// An opening brace; within an interpolated expression, its brace depth
/// grows.
#[verifier::rlimit(30)]
fn run_lbrace(st: &mut Lexing, bytes: &[u8]) -> (r: Result<bool, LexError>)
    requires
        lex_inv(bytes@, old(st)@),
        old(st)@.i < bytes@.len(),
        bytes@[old(st)@.i] == LBRACE,
    ensures
        buffered(r, final(st)@, step_open(bytes@, old(st)@)),
{
    let pos = Some((st.line, st.column, 1));
    let n = st.ctx.parse_stack.len();
    if let ParseMode::InFStringExpr(d) = st.ctx.parse_stack[n - 1] {
        assert(expr_depth_within(st.ctx@.stack[n - 1], st.i as int));
        st.ctx.parse_stack[n - 1] = ParseMode::InFStringExpr(d + 1);
    }
    st.tokens.push(Token::delim(TokenType::LBrace, pos), &mut st.ctx);
    st.ctx.depth = st.ctx.depth + 1;
    Ok(true)
}

/// A closing parenthesis, bracket or brace.
#[verifier::rlimit(30)]
fn run_closer(st: &mut Lexing, bytes: &[u8]) -> (r: Result<bool, LexError>)
    requires
        lex_inv(bytes@, old(st)@),
        old(st)@.i < bytes@.len(),
        bytes@[old(st)@.i] == RPAREN || bytes@[old(st)@.i] == RBRACKET || bytes@[old(st)@.i] == RBRACE,
    ensures
        buffered(r, final(st)@, step_open(bytes@, old(st)@)),
{
    let b = bytes[st.i];
    let pos = Some((st.line, st.column, 1));
    let typ = if b == RPAREN {
        TokenType::RParen
    } else if b == RBRACKET {
        TokenType::RBracket
    } else {
        TokenType::RBrace
    };
    st.tokens.push(Token::delim(typ, pos), &mut st.ctx);
    st.ctx.depth = st.ctx.depth - 1;
    Ok(true)
}

/// A comma.
#[verifier::rlimit(30)]
fn run_comma(st: &mut Lexing, bytes: &[u8]) -> (r: Result<bool, LexError>)
    requires
        lex_inv(bytes@, old(st)@),
        old(st)@.i < bytes@.len(),
        bytes@[old(st)@.i] == COMMA,
    ensures
        buffered(r, final(st)@, step_open(bytes@, old(st)@)),
{
    st.tokens.push(Token::delim(TokenType::Comma, Some((st.line, st.column, 1))), &mut st.ctx);
    st.ctx.discard_break();
    Ok(true)
}

/// A quote, which opens a string.
#[verifier::rlimit(30)]
fn run_open_string(st: &mut Lexing, bytes: &[u8]) -> (r: Result<bool, LexError>)
    requires
        lex_inv(bytes@, old(st)@),
        old(st)@.i < bytes@.len(),
        bytes@[old(st)@.i] == DQUOTE || bytes@[old(st)@.i] == QUOTE,
    ensures
        buffered(r, final(st)@, step_open(bytes@, old(st)@)),
{
    let b = bytes[st.i];
    let pos = Some((st.line, st.column, 1));
    if b == DQUOTE {
        st.ctx.push_mode(ParseMode::InFString);
    } else {
        st.ctx.push_mode(ParseMode::InString);
    }
    st.tokens.push(Token::delim(TokenType::LString, pos), &mut st.ctx);
    st.string_buf = String::new();
    Ok(true)
}

/// A byte that starts a lexeme to buffer.
#[verifier::rlimit(30)]
fn run_open_lexeme(st: &mut Lexing, bytes: &[u8]) -> (r: Result<bool, LexError>)
    requires
        lex_inv(bytes@, old(st)@),
        old(st)@.i < bytes@.len(),
        !(bytes@[old(st)@.i] == LPAREN || bytes@[old(st)@.i] == RPAREN || bytes@[old(st)@.i] == LBRACKET
            || bytes@[old(st)@.i] == RBRACKET || bytes@[old(st)@.i] == LBRACE || bytes@[old(st)@.i]
            == RBRACE || bytes@[old(st)@.i] == COMMA || bytes@[old(st)@.i] == DQUOTE
            || bytes@[old(st)@.i] == QUOTE),
    ensures
        buffered(r, final(st)@, step_open(bytes@, old(st)@)),
{
    let b = bytes[st.i];
    if is_digit(b) {
        st.buf_type = BufType::Number;
        Ok(true)
    } else if b == HASH {
        st.buf_type = if st.i + 1 < bytes.len() && bytes[st.i + 1] == STAR {
            BufType::MultiLineComment
        } else {
            BufType::Comment
        };
        Ok(false)
    } else {
        let n = st.tokens.len();
        st.ctx.update_unary(n);
        if is_ident_start(b) {
            st.buf_type = if st.info.expect_dollar_call {
                BufType::DollarCall
            } else {
                BufType::Identifier
            };
            Ok(true)
        } else {
            match is_op_start(b) {
                Some(oi) => {
                    st.buf_type = BufType::Operator;
                    st.op_info = oi;
                    Ok(true)
                },
                None => Err(
                    LexError::new(
                        LexErrorType::UnexpectedToken("unexpected character"),
                        st.info.from_line,
                        st.column,
                    ),
                ),
            }
        }
    }
}

/// A byte that starts a token or a lexeme; tells whether it is relevant.
#[verifier::rlimit(30)]
fn run_open(st: &mut Lexing, bytes: &[u8]) -> (r: Result<bool, LexError>)
    requires
        lex_inv(bytes@, old(st)@),
        old(st)@.i < bytes@.len(),
    ensures
        buffered(r, final(st)@, step_open(bytes@, old(st)@)),
{
    let b = bytes[st.i];
    if b == LPAREN || b == LBRACKET {
        run_opener(st, bytes)
    } else if b == LBRACE {
        run_lbrace(st, bytes)
    } else if b == RPAREN || b == RBRACKET || b == RBRACE {
        run_closer(st, bytes)
    } else if b == COMMA {
        run_comma(st, bytes)
    } else if b == DQUOTE || b == QUOTE {
        run_open_string(st, bytes)
    } else {
        run_open_lexeme(st, bytes)
    }
}

/// After a relevant byte: the checks on a pending dollar call or member
/// access, the sign taken into a number, and the start of the new lexeme.
#[verifier::rlimit(30)]
fn run_relevant(st: &mut Lexing, bytes: &[u8]) -> (r: Result<(), LexError>)
    requires
        lex_inv(bytes@, advance(old(st)@, 1)),
        old(st)@.i < bytes@.len(),
    ensures
        stepped(r, final(st)@, step_relevant(old(st)@)),
{
    if st.info.expect_dollar_call && st.buf_type != BufType::DollarCall {
        if st.info.blank {
            return Err(
                LexError::new(LexErrorType::DollarCallWithSpace, st.info.from_line, st.info.from_column),
            );
        }
        return Err(
            LexError::new(
                LexErrorType::UnexpectedToken("unexpected dollar call"),
                st.info.from_line,
                st.info.from_column,
            ),
        );
    }
    if st.info.has_dot_access() {
        if st.buf_type != BufType::Identifier {
            return Err(
                LexError::new(LexErrorType::UnexpectedTokenAfterDot, st.info.from_line, st.info.from_column),
            );
        } else if st.info.blank {
            return Err(
                LexError::new(LexErrorType::UnexpectedBlankAfterDot, st.info.from_line, st.info.from_column),
            );
        }
        if st.info.maybe_dot_access {
            let _ = st.tokens.pop();
        }
        st.info.expect_dot_access = true;
    }
    if st.info.has_sign() {
        if st.buf_type == BufType::Number {
            let _ = st.tokens.pop();
        } else {
            st.info.reset_number_flags();
        }
    }
    st.info.update_flags(st.i, st.line, st.column);
    Ok(())
}

/// A byte that starts a token or a lexeme, then the byte is consumed.
#[verifier::rlimit(40)]
fn run_token(st: &mut Lexing, bytes: &[u8]) -> (r: Result<(), LexError>)
    requires
        lex_inv(bytes@, old(st)@),
        old(st)@.i < bytes@.len(),
    ensures
        stepped(r, final(st)@, step_token(bytes@, old(st)@)),
{
    let ghost s0 = st@;
    proof {
        lemma_open_progress(bytes@, s0);
    }
    match run_open(st, bytes) {
        Err(e) => Err(e),
        Ok(relevant) => {
            if relevant {
                match run_relevant(st, bytes) {
                    Err(e) => {
                        return Err(e);
                    },
                    Ok(()) => {},
                }
            }
            st.info.blank = false;
            st.i = st.i + 1;
            st.column = st.column + 1;
            Ok(())
        },
    }
}

/// A byte of code read with no lexeme pending.
#[verifier::rlimit(30)]
fn run_dispatch(st: &mut Lexing, bytes: &[u8]) -> (r: Result<(), LexError>)
    requires
        lex_inv(bytes@, old(st)@),
        old(st)@.i < bytes@.len(),
    ensures
        stepped(r, final(st)@, step_dispatch(bytes@, old(st)@)),
{
    let b = bytes[st.i];
    if b == SPACE || b == TAB || b == CR {
        run_blank(st, bytes);
        Ok(())
    } else if b == LF {
        run_newline(st, bytes)
    } else if b == SEMICOLON {
        run_semicolon(st, bytes)
    } else if b == RBRACE && closes_expr_now(st) {
        run_close_expr(st, bytes);
        Ok(())
    } else {
        run_token(st, bytes)
    }
}

/// Whether a `}` here closes a brace of an interpolated expression, or the
/// expression.
fn closes_expr_now(st: &Lexing) -> (r: bool)
    requires
        st@.ctx.wf(),
    ensures
        r == closes_expr(st@),
{
    let n = st.ctx.parse_stack.len();
    match st.ctx.parse_stack[n - 1] {
        ParseMode::InFStringExpr(d) => d > 0 || n > 1,
        _ => false,
    }
}


/// A step in code.
#[verifier::rlimit(40)]
fn run_code(st: &mut Lexing, bytes: &[u8]) -> (r: Result<(), LexError>)
    requires
        lexeme_ascii(bytes@, old(st)@),
        lex_inv(bytes@, old(st)@),
        old(st)@.i < bytes@.len(),
    ensures
        stepped(r, final(st)@, step_code(bytes@, old(st)@)),
{
    let ghost s0 = st@;
    proof {
        lemma_buffered_progress(bytes@, s0);
    }
    match run_buffered(st, bytes) {
        Err(e) => Err(e),
        Ok(done) => {
            if done {
                Ok(())
            } else if st.buf_type == BufType::Empty {
                run_dispatch(st, bytes)
            } else {
                st.i = st.i + 1;
                st.column = st.column + 1;
                Ok(())
            }
        },
    }
}

/// A `$` in a string.
#[verifier::rlimit(30)]
fn run_interpolation(st: &mut Lexing, bytes: &[u8])
    requires
        lex_inv(bytes@, old(st)@),
        old(st)@.i < bytes@.len(),
    ensures
        final(st)@ == step_interpolation(bytes@, old(st)@),
{
    proof {
        lemma_name_run_bounds(bytes@, st.i + 1);
    }
    handle_interpolation(
        bytes,
        &mut st.i,
        st.line,
        &mut st.column,
        &st.info,
        &mut st.string_buf,
        &mut st.tokens,
        &mut st.ctx,
    );
    st.i = st.i + 1;
    st.column = st.column + 1;
}

/// A character of a string, taken as it is.
#[verifier::rlimit(30)]
fn run_char(st: &mut Lexing, bytes: &[u8])
    requires
        lex_inv(bytes@, old(st)@),
        old(st)@.i < bytes@.len(),
    ensures
        final(st)@ == step_char(bytes@, old(st)@),
{
    let n = push_utf8_char(&mut st.string_buf, bytes, st.i);
    st.i = st.i + n;
    st.column = st.column + (n as u32);
}

/// A step in a `"..."` string.
#[verifier::rlimit(30)]
fn run_fstring(st: &mut Lexing, bytes: &[u8])
    requires
        lex_inv(bytes@, old(st)@),
        old(st)@.i < bytes@.len(),
    ensures
        final(st)@ == step_fstring(bytes@, old(st)@),
{
    let b = bytes[st.i];
    let len = bytes.len();
    if b == BACKSLASH && st.i + 1 < len {
        handle_escape(bytes[st.i + 1], &mut st.string_buf);
        st.i = st.i + 2;
        st.column = st.column + 2;
    } else if b == LF {
        st.column = 2;
        st.line = st.line + 1;
        string_push(&mut st.string_buf, '\n');
        st.i = st.i + 1;
    } else if b == DOLLAR {
        run_interpolation(st, bytes);
    } else if b == DQUOTE {
        if st.i + 1 < len && bytes[st.i + 1] == DQUOTE {
            string_push(&mut st.string_buf, '"');
            st.i = st.i + 2;
            st.column = st.column + 2;
        } else {
            flush_string(&mut st.string_buf, st.line, st.info.from_column, &mut st.tokens, &mut st.ctx);
            st.ctx.pop_mode();
            st.tokens.push(
                Token::delim(
                    TokenType::RString,
                    Some((st.info.from_line, st.info.from_column, st.i - st.info.from_byte)),
                ),
                &mut st.ctx,
            );
            st.i = st.i + 1;
            st.column = st.column + 1;
        }
    } else {
        run_char(st, bytes);
    }
}

/// A step in a `'...'` string.
#[verifier::rlimit(30)]
fn run_string(st: &mut Lexing, bytes: &[u8])
    requires
        lex_inv(bytes@, old(st)@),
        old(st)@.i < bytes@.len(),
    ensures
        final(st)@ == step_string(bytes@, old(st)@),
{
    let b = bytes[st.i];
    let len = bytes.len();
    if b == LF {
        st.column = 2;
        st.line = st.line + 1;
        string_push(&mut st.string_buf, '\n');
        st.i = st.i + 1;
    } else if b == QUOTE {
        if st.i + 1 < len && bytes[st.i + 1] == QUOTE {
            string_push(&mut st.string_buf, '\'');
            st.i = st.i + 2;
            st.column = st.column + 2;
        } else {
            let n = st.string_buf.as_str().len();
            st.tokens.push(
                Token::string(st.string_buf.clone(), Some((st.line, st.info.from_column, n))),
                &mut st.ctx,
            );
            st.tokens.push(
                Token::delim(
                    TokenType::RString,
                    Some((st.info.from_line, st.info.from_column, st.i - st.info.from_byte)),
                ),
                &mut st.ctx,
            );
            st.string_buf = String::new();
            st.ctx.pop_mode();
            st.i = st.i + 1;
            st.column = st.column + 1;
        }
    } else {
        run_char(st, bytes);
    }
}

/// The indentation at the start of a line of a literal block whose header
/// is indented by `base`; a line not deeper than `base` closes the block.
#[verifier::rlimit(30)]
fn run_block_indent(st: &mut Lexing, bytes: &[u8], base: usize) -> (r: Result<(), LexError>)
    requires
        lex_inv(bytes@, old(st)@),
        old(st)@.i < bytes@.len(),
        old(st)@.ctx.current_indent == 0,
        old(st)@.ctx.current_mode == ParseMode::InBlockString(base),
    ensures
        stepped(r, final(st)@, step_block(bytes@, old(st)@, base)),
{
    let len = bytes.len();
    let i0 = st.i;
    let mut i = st.i;
    let mut local: usize = 0;
    while i < len && local <= base && (bytes[i] == SPACE || bytes[i] == TAB)
        invariant
            i0 <= i <= len == bytes@.len(),
            source_fits(bytes@.len()),
            local <= 4 * (i - i0),
            block_indent(bytes@, i0 as int, 0, base) == block_indent(bytes@, i as int, local as int, base),
        decreases len - i,
    {
        local = local + if bytes[i] == SPACE {
            1
        } else {
            4
        };
        i = i + 1;
    }
    st.column = st.column + ((i - i0) as u32);
    st.i = i;
    st.ctx.current_indent = local;
    if local <= base {
        if st.string_buf.as_str().is_empty() {
            return Err(
                LexError::new(LexErrorType::EmptyLiteralBlockString, st.info.from_line, st.info.from_column),
            );
        }
        trim_block_string(&mut st.string_buf);
        let n = st.string_buf.as_str().len();
        st.tokens.push(
            Token::string(st.string_buf.clone(), Some((st.line, st.info.from_column, n))),
            &mut st.ctx,
        );
        st.string_buf = String::new();
        st.tokens.push(
            Token::delim(
                TokenType::RString,
                Some((st.info.from_line, st.info.from_column, st.i - st.info.from_byte)),
            ),
            &mut st.ctx,
        );
        st.ctx.pop_mode();
        st.ctx.is_leading = true;
    }
    Ok(())
}

/// A step in a literal block whose header is indented by `base`.
#[verifier::rlimit(30)]
fn run_block(st: &mut Lexing, bytes: &[u8], base: usize) -> (r: Result<(), LexError>)
    requires
        lex_inv(bytes@, old(st)@),
        old(st)@.i < bytes@.len(),
        old(st)@.ctx.current_mode == ParseMode::InBlockString(base),
    ensures
        stepped(r, final(st)@, step_block(bytes@, old(st)@, base)),
{
    if st.ctx.current_indent == 0 {
        return run_block_indent(st, bytes, base);
    }
    let b = bytes[st.i];
    if b == LF {
        st.line = st.line + 1;
        st.column = 2;
        st.ctx.current_indent = 0;
        string_push(&mut st.string_buf, '\n');
        st.i = st.i + 1;
    } else if b == DOLLAR {
        run_interpolation(st, bytes);
    } else {
        run_char(st, bytes);
    }
    Ok(())
}

/// One step of the scan.
#[verifier::rlimit(30)]
fn run_step(st: &mut Lexing, bytes: &[u8]) -> (r: Result<(), LexError>)
    requires
        lexeme_ascii(bytes@, old(st)@),
        lex_inv(bytes@, old(st)@),
        old(st)@.i < bytes@.len(),
    ensures
        stepped(r, final(st)@, lex_step(bytes@, old(st)@)),
{
    match st.ctx.current_mode {
        ParseMode::Normal | ParseMode::InFStringExpr(_) => run_code(st, bytes),
        ParseMode::InFString => {
            run_fstring(st, bytes);
            Ok(())
        },
        ParseMode::InString => {
            run_string(st, bytes);
            Ok(())
        },
        ParseMode::InBlockString(base) => run_block(st, bytes, base),
    }
}


/// The tokens without the `Dedent`s that end them.
pub open spec fn without_final_dedents(ts: Seq<TokenView>) -> Seq<TokenView>
    decreases ts.len(),
{
    if ts.len() > 0 && ts.last().typ == TokenType::Dedent {
        without_final_dedents(ts.drop_last())
    } else {
        ts
    }
}

/// Tokens whose last statement is ended: before the final `Dedent`s, the
/// last token is `End` (or there is no token at all).
pub open spec fn statements_ended(ts: Seq<TokenView>) -> bool {
    let body = without_final_dedents(ts);
    body.len() == 0 || body.last().typ == TokenType::End
}

proof fn lemma_dedents_stripped(t: Seq<TokenView>, d: TokenView, k: nat)
    requires
        d.typ == TokenType::Dedent,
        t.len() == 0 || t.last().typ == TokenType::End,
    ensures
        without_final_dedents(t + repeat_token(d, k)) == t,
    decreases k,
{
    if k == 0 {
        assert(t + repeat_token(d, 0) =~= t);
    } else {
        let full = t + repeat_token(d, k);
        assert(full.last() == d);
        assert(full.drop_last() =~= t + repeat_token(d, (k - 1) as nat));
        lemma_dedents_stripped(t, d, (k - 1) as nat);
    }
}

proof fn lemma_finish_ends_statements(bytes: Seq<u8>, s: LexState)
    ensures
        lex_finish(bytes, s) matches Ok(ts) ==> statements_ended(ts),
{
    let (sc, _text) = buffer_scan(bytes, bytes.len() as int, s.buf, s.line, s.info, s.tokens, s.ctx, s.text);
    if sc.result is Ok {
        let pos = Some((s.line, s.column, 1usize));
        let end = token_at(TokenType::End, ValueView::Empty, pos);
        let (t, c) = if sc.tokens.len() > 0 && sc.tokens.last().typ != TokenType::End {
            (tokens_after_push(sc.tokens, sc.ctx, end), ctx_after_push(sc.ctx, sc.tokens.len(), end))
        } else {
            (sc.tokens, sc.ctx)
        };
        lemma_dedents_stripped(t, token_at(TokenType::Dedent, ValueView::Empty, pos), dedent_count(c.levels, 0));
    }
}

proof fn lemma_run_ends_statements(bytes: Seq<u8>, s: LexState, fuel: nat)
    ensures
        lex_run(bytes, s, fuel) matches Ok(ts) ==> statements_ended(ts),
    decreases fuel,
{
    lemma_finish_ends_statements(bytes, s);
    if !(s.i >= bytes.len() || fuel == 0) {
        if let Ok(s2) = lex_step(bytes, s) {
            lemma_run_ends_statements(bytes, s2, (fuel - 1) as nat);
        }
    }
}

/// Every source that lexes ends its last statement: the tokens end with
/// `End`, then only the `Dedent`s that close the open blocks.
pub proof fn law_statements_ended(bytes: Seq<u8>)
    ensures
        lex(bytes) matches Ok(ts) ==> statements_ended(ts),
{
    let code = without_bom(bytes);
    lemma_run_ends_statements(code, initial_state(code), 2 * code.len() + 2);
}

/// A run with at least as many steps as the measure gives the same result
/// with any number of steps more.
proof fn lemma_run_enough_fuel(bytes: Seq<u8>, s: LexState, fuel: nat, extra: nat)
    requires
        lex_inv(bytes, s),
        fuel >= lex_measure(bytes, s),
    ensures
        lex_run(bytes, s, fuel + extra) == lex_run(bytes, s, fuel),
    decreases fuel,
{
    if s.i < bytes.len() {
        lemma_step_progress(bytes, s);
        match lex_step(bytes, s) {
            Err(_) => {},
            Ok(s2) => {
                lemma_run_enough_fuel(bytes, s2, (fuel - 1) as nat, extra);
                assert((fuel + extra - 1) as nat == ((fuel - 1) as nat + extra) as nat);
            },
        }
    }
}

/// Lexing is linear: code of n bytes is read in at most 2n + 2 steps, and
/// letting the scan run longer changes neither the tokens nor the error.
pub proof fn law_lexing_is_linear(code: Seq<u8>, extra: nat)
    requires
        source_fits(code.len()),
    ensures
        lex_run(code, initial_state(code), 2 * code.len() + 2 + extra) == lex_code(code),
{
    lemma_initial_inv(code);
    lemma_run_enough_fuel(code, initial_state(code), (2 * code.len() + 2) as nat, extra);
}

/// The end of the source: what is pending is closed, a last statement is
/// ended, and every open indentation level is closed.
fn finish(st: Lexing, bytes: &[u8]) -> (r: Result<TokenList, LexError>)
    requires
        st@.i >= bytes@.len(),
        lexeme_ascii(bytes@, st@),
        lex_inv(bytes@, st@),
    ensures
        match lex_finish(bytes@, st@) {
            Ok(ts) => r matches Ok(list) && list@ == ts,
            Err(e) => r matches Err(found) && found == e,
        },
{
    let mut st = st;
    proof {
        if st.buf_type == BufType::Identifier {
            lemma_ascii_utf8(bytes@.subrange(st.info.from_byte as int, bytes@.len() as int));
        }
    }
    match push_buffer(
        bytes,
        bytes.len(),
        st.buf_type,
        st.line,
        &mut st.info,
        &mut st.tokens,
        &mut st.ctx,
        &mut st.string_buf,
    ) {
        Err(e) => {
            return Err(e);
        },
        Ok(()) => {},
    }
    let end_needed = match st.tokens.last() {
        Some(t) => t.typ != TokenType::End,
        None => false,
    };
    let pos = Some((st.line, st.column, 1));
    if end_needed {
        st.tokens.push(Token::end(pos), &mut st.ctx);
    }
    let ghost start = st.tokens@;
    let ghost levels0 = st.ctx.indent_counter@;
    let ghost dedent = token_at(TokenType::Dedent, ValueView::Empty, pos);
    let ghost mut j: nat = 0;
    while st.ctx.indent_counter.get() > 0
        invariant
            dedent == token_at(TokenType::Dedent, ValueView::Empty, pos),
            st.tokens@ == start + repeat_token(dedent, j),
            st.ctx.indent_counter@ == levels0.subrange(0, levels0.len() - j),
            j <= levels0.len(),
            dedent_count(levels0, 0) == j + dedent_count(st.ctx.indent_counter@, 0),
        decreases st.ctx.indent_counter@.len(),
    {
        let ghost tokens_before = st.tokens@;
        st.ctx.indent_counter.leave();
        let t = Token::delim(TokenType::Dedent, pos);
        st.tokens.push_raw(t);
        proof {
            assert(st.ctx.indent_counter@ =~= levels0.subrange(0, levels0.len() - (j + 1)));
            assert(repeat_token(dedent, j + 1) =~= repeat_token(dedent, j).push(dedent));
            assert(st.tokens@ =~= start + repeat_token(dedent, j + 1));
            j = j + 1;
        }
    }
    proof {
        assert(dedent_count(st.ctx.indent_counter@, 0) == 0);
    }
    Ok(st.tokens)
}

/// The lexer of the language.
pub struct Lexer;

impl Lexer {
    /// The tokens of `source`, or the first lexical error in it.
    ///
    /// The source is read byte by byte (after a UTF-8 byte-order mark, when
    /// there is one); line breaks, indentation and juxtaposition become the
    /// implicit tokens `End`, `Indent`, `Dedent` and `Comma`, every open
    /// indentation level is closed at the end, and the last statement ends
    /// with `End`. The source must be short enough for its counts to fit
    /// their machine types (`source_fits`): under 2 GiB, for the brace depth,
    /// an `i32`, and lines and columns, `u32`s; and, where `usize` has 32
    /// bits, under 1 GiB, for the indentation width.
    pub fn tokenize(source: &str) -> (r: Result<TokenList, LexError>)
        requires
            source_fits(encode_utf8(source@).len()),
        ensures
            match lex(encode_utf8(source@)) {
                Ok(ts) => r matches Ok(list) && list@ == ts,
                Err(e) => r matches Err(found) && found == e,
            },
    {
        let all = source.as_bytes();
        let header = get_header_len(all);
        let bytes = vstd::slice::slice_subrange(all, header, all.len());
        let ghost bs = bytes@;
        assert(bs =~= without_bom(encode_utf8(source@)));
        let mut st = Lexing {
            i: 0,
            line: 1,
            column: 1,
            tokens: TokenList::new(),
            ctx: LexerContext::new(),
            info: LexerContextInfo::new(),
            buf_type: BufType::Empty,
            op_info: OpInfo { first: 0, max_len: 0 },
            string_buf: String::new(),
        };
        assert(st@ == initial_state(bs));
        let ghost mut fuel: nat = (2 * bs.len() + 2) as nat;
        while st.i < bytes.len()
            invariant
                bytes@ == bs,
                bs == without_bom(encode_utf8(source@)),
                lex_inv(bs, st@),
                fuel >= lex_measure(bs, st@),
                lex_run(bs, st@, fuel) == lex_code(bs),
                lexeme_ascii(bs, st@),
            decreases lex_measure(bs, st@),
        {
            let ghost before = st@;
            proof {
                lemma_step_progress(bs, before);
                lemma_step_ascii(bs, before);
            }
            match run_step(&mut st, bytes) {
                Err(e) => {
                    return Err(e);
                },
                Ok(()) => {},
            }
            proof {
                fuel = (fuel - 1) as nat;
            }
        }
        finish(st, bytes)
    }
}

} // verus!
