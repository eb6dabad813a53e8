//! The turning of a buffered lexeme into tokens: literals, names, keywords
//! and operators.

use vstd::prelude::*;
use crate::ascii::UNDERSCORE;
use crate::syntax::{Token, TokenView, TokenType, ValueView, Operator, Pos, token_at};
use crate::operators::{operator_of, operator_from_bytes, spec_is_assign, is_assign, spec_can_breaker, can_breaker};
use crate::lexer::context::{LexerContext, CtxView, BufType, ParseMode};
use crate::lexer::context_info::LexerContextInfo;
use crate::lexer::token_list::{TokenList, tokens_after_push, ctx_after_push};
use crate::lexer::errors::{LexError, LexErrorType, NumericError};
use crate::lexer::keywords::{
    Keyword, keyword_of, keyword, is_statement_keyword, statement_keyword, lower_word, lower_bytes,
    law_keyword_spellings,
};
use crate::lexer::token_list::law_push_appends;
use crate::lexer::utils::numeric::{int_literal, float_literal_ok, signed_text, parse_i64_lex, float_literal_text};
use crate::lexer::utils::string::utf8_len;
use crate::text::{without, bytes_without, bytes_range, string_pop, string_ends_with, utf8_string};
use vstd::utf8::{valid_utf8, decode_utf8};

verus! {

/// What reading a lexeme leaves: the tokens, the context, the lexeme
/// information, and whether it succeeded.
pub struct Scan {
    pub tokens: Seq<TokenView>,
    pub ctx: CtxView,
    pub info: LexerContextInfo,
    pub result: Result<(), LexError>,
}

/// A successful read that leaves these tokens, context and information.
pub open spec fn scan_ok(tokens: Seq<TokenView>, ctx: CtxView, info: LexerContextInfo) -> Scan {
    Scan { tokens, ctx, info, result: Ok(()) }
}

/// A successful read that appends `t`.
pub open spec fn scan_push(
    tokens: Seq<TokenView>,
    ctx: CtxView,
    info: LexerContextInfo,
    t: TokenView,
) -> Scan {
    scan_ok(tokens_after_push(tokens, ctx, t), ctx_after_push(ctx, tokens.len(), t), info)
}

/// The error `typ` at the start of the current lexeme.
pub open spec fn error_at(info: LexerContextInfo, typ: LexErrorType) -> LexError {
    LexError { typ, line: info.from_line, column: info.from_column }
}

/// The position of the lexeme that ends at byte `end`.
pub open spec fn lit_pos(info: LexerContextInfo, end: int) -> Pos {
    Some((info.from_line, info.from_column, (end - info.from_byte) as usize))
}

/// The position of a lexeme of `n` bytes.
pub open spec fn len_pos(info: LexerContextInfo, n: usize) -> Pos {
    Some((info.from_line, info.from_column, n))
}

/// The text of the literal that ends at byte `end`, without its digit
/// separators when it has some.
pub open spec fn literal_text(bytes: Seq<u8>, info: LexerContextInfo, end: int) -> Seq<u8> {
    let s = bytes.subrange(info.from_byte as int, end);
    if info.has_underscores {
        without(s, UNDERSCORE)
    } else {
        s
    }
}

/// Reading an integer literal (of any base) that ends at byte `end`.
pub open spec fn integer_scan(
    bytes: Seq<u8>,
    end: int,
    info: LexerContextInfo,
    tokens: Seq<TokenView>,
    ctx: CtxView,
) -> Scan {
    match int_literal(literal_text(bytes, info, end)) {
        Ok(v) => scan_push(
            tokens,
            ctx,
            info,
            token_at(
                TokenType::Integer,
                ValueView::Integer((if info.unary_minus { -v } else { v }) as i64),
                lit_pos(info, end),
            ),
        ),
        Err(e) => Scan {
            tokens,
            ctx,
            info,
            result: Err(error_at(info, LexErrorType::NumericParse(e))),
        },
    }
}

/// Reading a floating-point literal that ends at byte `end`.
pub open spec fn float_scan(
    bytes: Seq<u8>,
    end: int,
    info: LexerContextInfo,
    tokens: Seq<TokenView>,
    ctx: CtxView,
) -> Scan {
    let raw = literal_text(bytes, info, end);
    if float_literal_ok(raw) {
        scan_push(
            tokens,
            ctx,
            info,
            token_at(
                TokenType::Float,
                ValueView::Float(signed_text(raw, info.unary_minus)),
                lit_pos(info, end),
            ),
        )
    } else {
        Scan {
            tokens,
            ctx,
            info,
            result: Err(error_at(info, LexErrorType::NumericParse(NumericError::MalformedFloat))),
        }
    }
}

/// Reading a decimal literal: a float when it has a dot, else an integer.
pub open spec fn number_scan(
    bytes: Seq<u8>,
    end: int,
    info: LexerContextInfo,
    tokens: Seq<TokenView>,
    ctx: CtxView,
) -> Scan {
    if info.has_dot {
        float_scan(bytes, end, info, tokens, ctx)
    } else {
        integer_scan(bytes, end, info, tokens, ctx)
    }
}

/// Reading a big-integer literal: its text is kept as it is written.
pub open spec fn bigint_scan(
    bytes: Seq<u8>,
    end: int,
    info: LexerContextInfo,
    tokens: Seq<TokenView>,
    ctx: CtxView,
) -> Scan {
    scan_push(
        tokens,
        ctx,
        info,
        token_at(
            TokenType::BigInt,
            ValueView::BigInt(decode_utf8(literal_text(bytes, info, end))),
            lit_pos(info, end),
        ),
    )
}

/// The lexeme ends at byte `end`, within the source, after its start.
pub open spec fn lexeme_ok(bytes: Seq<u8>, info: LexerContextInfo, end: int) -> bool {
    info.from_byte <= end <= bytes.len()
}

/// The literal text of the lexeme that ends at `end_pos`.
fn literal_bytes(bytes: &[u8], info: &LexerContextInfo, end_pos: usize) -> (r: Vec<u8>)
    requires
        lexeme_ok(bytes@, *info, end_pos as int),
    ensures
        r@ == literal_text(bytes@, *info, end_pos as int),
{
    if info.has_underscores {
        bytes_without(bytes, info.from_byte, end_pos, UNDERSCORE)
    } else {
        bytes_range(bytes, info.from_byte, end_pos)
    }
}

/// Appends the integer literal that ends at `end_pos`.
fn push_integer(
    bytes: &[u8],
    end_pos: usize,
    info: &LexerContextInfo,
    tokens: &mut TokenList,
    ctx: &mut LexerContext,
) -> (r: Result<(), LexError>)
    requires
        lexeme_ok(bytes@, *info, end_pos as int),
    ensures
        (Scan { tokens: final(tokens)@, ctx: final(ctx)@, info: *info, result: r }) == integer_scan(
            bytes@,
            end_pos as int,
            *info,
            old(tokens)@,
            old(ctx)@,
        ),
{
    let raw = literal_bytes(bytes, info, end_pos);
    match parse_i64_lex(raw.as_slice(), info.unary_minus) {
        Ok(v) => {
            tokens.push(
                Token::integer(v, Some((info.from_line, info.from_column, end_pos - info.from_byte))),
                ctx,
            );
            Ok(())
        },
        Err(e) => Err(LexError::new(LexErrorType::NumericParse(e), info.from_line, info.from_column)),
    }
}

/// Appends the floating-point literal that ends at `end_pos`.
fn push_float(
    bytes: &[u8],
    end_pos: usize,
    info: &LexerContextInfo,
    tokens: &mut TokenList,
    ctx: &mut LexerContext,
) -> (r: Result<(), LexError>)
    requires
        lexeme_ok(bytes@, *info, end_pos as int),
    ensures
        (Scan { tokens: final(tokens)@, ctx: final(ctx)@, info: *info, result: r }) == float_scan(
            bytes@,
            end_pos as int,
            *info,
            old(tokens)@,
            old(ctx)@,
        ),
{
    let raw = literal_bytes(bytes, info, end_pos);
    match float_literal_text(raw.as_slice(), info.unary_minus) {
        Ok(text) => {
            tokens.push(
                Token::float(text, Some((info.from_line, info.from_column, end_pos - info.from_byte))),
                ctx,
            );
            Ok(())
        },
        Err(e) => Err(LexError::new(LexErrorType::NumericParse(e), info.from_line, info.from_column)),
    }
}

/// Appends the decimal literal that ends at `end_pos`: a float when it has
/// a dot, an integer otherwise.
pub fn push_number(
    bytes: &[u8],
    end_pos: usize,
    info: &mut LexerContextInfo,
    tokens: &mut TokenList,
    ctx: &mut LexerContext,
) -> (r: Result<(), LexError>)
    requires
        lexeme_ok(bytes@, *old(info), end_pos as int),
    ensures
        (Scan { tokens: final(tokens)@, ctx: final(ctx)@, info: *final(info), result: r })
            == number_scan(bytes@, end_pos as int, *old(info), old(tokens)@, old(ctx)@),
{
    if info.has_dot {
        push_float(bytes, end_pos, info, tokens, ctx)
    } else {
        push_integer(bytes, end_pos, info, tokens, ctx)
    }
}

/// Appends the hexadecimal literal (`0x...`) that ends at `end_pos`.
pub fn push_hex(
    bytes: &[u8],
    end_pos: usize,
    info: &mut LexerContextInfo,
    tokens: &mut TokenList,
    ctx: &mut LexerContext,
) -> (r: Result<(), LexError>)
    requires
        lexeme_ok(bytes@, *old(info), end_pos as int),
    ensures
        (Scan { tokens: final(tokens)@, ctx: final(ctx)@, info: *final(info), result: r })
            == integer_scan(bytes@, end_pos as int, *old(info), old(tokens)@, old(ctx)@),
{
    push_integer(bytes, end_pos, info, tokens, ctx)
}

/// Appends the binary literal (`0b...`) that ends at `end_pos`.
pub fn push_bit(
    bytes: &[u8],
    end_pos: usize,
    info: &mut LexerContextInfo,
    tokens: &mut TokenList,
    ctx: &mut LexerContext,
) -> (r: Result<(), LexError>)
    requires
        lexeme_ok(bytes@, *old(info), end_pos as int),
    ensures
        (Scan { tokens: final(tokens)@, ctx: final(ctx)@, info: *final(info), result: r })
            == integer_scan(bytes@, end_pos as int, *old(info), old(tokens)@, old(ctx)@),
{
    push_integer(bytes, end_pos, info, tokens, ctx)
}

/// Appends the octal literal (`0o...`) that ends at `end_pos`.
pub fn push_octal(
    bytes: &[u8],
    end_pos: usize,
    info: &mut LexerContextInfo,
    tokens: &mut TokenList,
    ctx: &mut LexerContext,
) -> (r: Result<(), LexError>)
    requires
        lexeme_ok(bytes@, *old(info), end_pos as int),
    ensures
        (Scan { tokens: final(tokens)@, ctx: final(ctx)@, info: *final(info), result: r })
            == integer_scan(bytes@, end_pos as int, *old(info), old(tokens)@, old(ctx)@),
{
    push_integer(bytes, end_pos, info, tokens, ctx)
}

/// Appends the big-integer literal that ends at `end_pos` (before its `n`).
pub fn push_bigint(
    bytes: &[u8],
    end_pos: usize,
    info: &mut LexerContextInfo,
    tokens: &mut TokenList,
    ctx: &mut LexerContext,
) -> (r: Result<(), LexError>)
    requires
        lexeme_ok(bytes@, *old(info), end_pos as int),
        valid_utf8(literal_text(bytes@, *old(info), end_pos as int)),
    ensures
        (Scan { tokens: final(tokens)@, ctx: final(ctx)@, info: *final(info), result: r })
            == bigint_scan(bytes@, end_pos as int, *old(info), old(tokens)@, old(ctx)@),
{
    let raw = literal_bytes(bytes, info, end_pos);
    let n = raw.len();
    assert(raw@.subrange(0, n as int) =~= raw@);
    let text = utf8_string(raw.as_slice(), 0, n);
    assert(raw@.subrange(0, n as int) =~= raw@);
    tokens.push(
        Token::bigint(text, Some((info.from_line, info.from_column, end_pos - info.from_byte))),
        ctx,
    );
    Ok(())
}

/// Appends the scientific literal that ends at `end_pos`.
pub fn push_scientific(
    bytes: &[u8],
    end_pos: usize,
    info: &mut LexerContextInfo,
    tokens: &mut TokenList,
    ctx: &mut LexerContext,
) -> (r: Result<(), LexError>)
    requires
        lexeme_ok(bytes@, *old(info), end_pos as int),
    ensures
        (Scan { tokens: final(tokens)@, ctx: final(ctx)@, info: *final(info), result: r })
            == float_scan(bytes@, end_pos as int, *old(info), old(tokens)@, old(ctx)@),
{
    push_float(bytes, end_pos, info, tokens, ctx)
}

/// What an operator does to the context and the lexeme information before
/// it is appended, whether it may stand as a unary operator, and whether it
/// ends a statement.
pub open spec fn op_effects(op: Operator, ctx: CtxView, info: LexerContextInfo) -> (
    CtxView,
    LexerContextInfo,
    bool,
    bool,
) {
    if op == Operator::Add && ctx.is_unary {
        (ctx, LexerContextInfo { unary_plus: true, ..info }, true, false)
    } else if op == Operator::Sub && ctx.is_unary {
        (ctx, LexerContextInfo { unary_minus: true, ..info }, true, false)
    } else if op == Operator::Not {
        (CtxView { is_unary: true, ..ctx }, info, true, false)
    } else if op == Operator::Inc || op == Operator::Dec {
        let c1 = if ctx.is_artificial_unary() && !info.had_blank {
            ctx.discard_break()
        } else {
            ctx
        };
        (c1, info, true, !c1.is_unary)
    } else if op == Operator::Dot || op == Operator::Backdot {
        (
            ctx,
            LexerContextInfo {
                is_native_access: op == Operator::Backdot,
                maybe_dot_access: true,
                ..info
            },
            false,
            false,
        )
    } else if ctx.is_artificial_unary() && spec_is_assign(op) {
        (ctx.discard_break(), info, false, false)
    } else {
        (ctx, info, false, false)
    }
}

/// Reading the operator spelled `text`, whose lexeme ends at byte `end`.
pub open spec fn op_scan(
    text: Seq<u8>,
    end: int,
    info: LexerContextInfo,
    tokens: Seq<TokenView>,
    ctx: CtxView,
) -> Scan {
    let pos = lit_pos(info, end);
    match operator_of(text) {
        None => Scan { tokens, ctx, info, result: Err(error_at(info, LexErrorType::InvalidOperator)) },
        Some(op) => if op == Operator::Gt && ctx.is_leading {
            let t = token_at(TokenType::Redirect, ValueView::Empty, pos);
            scan_ok(
                tokens_after_push(tokens, ctx, t),
                ctx_after_push(ctx, tokens.len(), t).start_redirect(),
                info,
            )
        } else if op == Operator::BiColon && ctx.is_leading {
            let t = token_at(TokenType::Class, ValueView::Empty, pos);
            scan_ok(
                tokens_after_push(tokens, ctx, t),
                ctx_after_push(ctx, tokens.len(), t).start_indent(),
                info,
            )
        } else if op == Operator::Colon && ctx.is_leading {
            let t = token_at(TokenType::Function, ValueView::Empty, pos);
            scan_ok(
                tokens_after_push(tokens, ctx, t),
                ctx_after_push(ctx, tokens.len(), t).start_indent(),
                info,
            )
        } else if (op == Operator::Dot || op == Operator::Backdot) && ctx.is_artificial_unary() {
            scan_ok(
                tokens,
                ctx.shift_break(),
                LexerContextInfo {
                    is_native_access: op == Operator::Backdot,
                    expect_dot_access: true,
                    ..info
                },
            )
        } else {
            plain_op_scan(op, pos, info, tokens, ctx)
        },
    }
}

/// Reading an operator `op` at `pos` that opens nothing: its effects, then
/// the operator token, unless it stands where only a unary operator may.
pub open spec fn plain_op_scan(
    op: Operator,
    pos: Pos,
    info: LexerContextInfo,
    tokens: Seq<TokenView>,
    ctx: CtxView,
) -> Scan {
    let (c1, i1, allowed, breaker) = op_effects(op, ctx, info);
    if c1.is_unary && !allowed {
        Scan { tokens, ctx: c1, info: i1, result: Err(error_at(i1, LexErrorType::OperatorNotAllowed)) }
    } else {
        scan_push(
            tokens,
            c1,
            i1,
            TokenView {
                is_unary: c1.is_unary,
                is_breaker: breaker,
                ..token_at(TokenType::Op(op), ValueView::Empty, pos)
            },
        )
    }
}

/// Applies the effects of the operator `op` on the context and the lexeme
/// information; tells whether it may stand as a unary operator, and whether
/// it ends a statement.
#[verifier::rlimit(40)]
fn apply_op_effects(op: Operator, ctx: &mut LexerContext, info: &mut LexerContextInfo) -> (r: (
    bool,
    bool,
))
    ensures
        (final(ctx)@, *final(info), r.0, r.1) == op_effects(op, old(ctx)@, *old(info)),
{
    if op == Operator::Add && ctx.is_unary {
        info.unary_plus = true;
        (true, false)
    } else if op == Operator::Sub && ctx.is_unary {
        info.unary_minus = true;
        (true, false)
    } else if op == Operator::Not {
        ctx.is_unary = true;
        (true, false)
    } else if op == Operator::Inc || op == Operator::Dec {
        if ctx.is_artificial_unary() && !info.had_blank {
            ctx.discard_break();
        }
        (true, !ctx.is_unary)
    } else if op == Operator::Dot || op == Operator::Backdot {
        info.is_native_access = op == Operator::Backdot;
        info.set_may_dot_access();
        (false, false)
    } else {
        if ctx.is_artificial_unary() && is_assign(op) {
            ctx.discard_break();
        }
        (false, false)
    }
}

/// An operator `op` that opens nothing is written as a token, not refused
/// as standing where only a unary operator may.
pub open spec fn plain_op_placed(op: Operator, ctx: CtxView, info: LexerContextInfo) -> bool {
    let (c1, i1, allowed, breaker) = op_effects(op, ctx, info);
    !(c1.is_unary && !allowed)
}

/// The operator spelled `text` is written as a token, so its place is read.
pub open spec fn op_placed(text: Seq<u8>, ctx: CtxView, info: LexerContextInfo) -> bool {
    match operator_of(text) {
        None => false,
        Some(op) => if (op == Operator::Gt || op == Operator::BiColon || op == Operator::Colon)
            && ctx.is_leading {
            true
        } else if (op == Operator::Dot || op == Operator::Backdot) && ctx.is_artificial_unary() {
            false
        } else {
            plain_op_placed(op, ctx, info)
        },
    }
}

/// Appends the operator `op`, whose lexeme ends at `end_pos`, after its
/// effects on the context.
fn push_plain_op(
    op: Operator,
    end_pos: usize,
    ctx: &mut LexerContext,
    info: &mut LexerContextInfo,
    tokens: &mut TokenList,
) -> (r: Result<(), LexError>)
    requires
        plain_op_placed(op, old(ctx)@, *old(info)) ==> old(info).from_byte <= end_pos,
    ensures
        (Scan { tokens: final(tokens)@, ctx: final(ctx)@, info: *final(info), result: r })
            == plain_op_scan(op, lit_pos(*old(info), end_pos as int), *old(info), old(tokens)@, old(ctx)@),
{
    let ghost info0 = *info;
    let (is_unary_allowed, is_breaker) = apply_op_effects(op, ctx, info);
    if ctx.is_unary && !is_unary_allowed {
        return Err(LexError::new(LexErrorType::OperatorNotAllowed, info.from_line, info.from_column));
    }
    assert(info.from_byte == info0.from_byte && info.from_line == info0.from_line && info.from_column == info0.from_column);
    let pos = Some((info.from_line, info.from_column, end_pos - info.from_byte));
    tokens.push(Token::op(op, pos).with_unary(ctx.is_unary).with_breaker(is_breaker), ctx);
    Ok(())
}

/// Appends the operator spelled `op_text`, whose lexeme ends at `end_pos`:
/// a leading `>`, `::` or `:` opens a redirection, a class or a function;
/// a sign before a number is recorded; a dot may open a member access.
pub fn process_op(
    op_text: &[u8],
    end_pos: usize,
    ctx: &mut LexerContext,
    info: &mut LexerContextInfo,
    tokens: &mut TokenList,
) -> (r: Result<(), LexError>)
    requires
        op_placed(op_text@, old(ctx)@, *old(info)) ==> old(info).from_byte <= end_pos,
    ensures
        (Scan { tokens: final(tokens)@, ctx: final(ctx)@, info: *final(info), result: r })
            == op_scan(op_text@, end_pos as int, *old(info), old(tokens)@, old(ctx)@),
{
    let n = op_text.len();
    assert(op_text@.subrange(0, n as int) =~= op_text@);
    let found = operator_from_bytes(op_text, 0, n);
    let op = match found {
        Some(op) => op,
        None => {
            return Err(LexError::new(LexErrorType::InvalidOperator, info.from_line, info.from_column));
        },
    };
    if op == Operator::Gt && ctx.is_leading {
        let pos = Some((info.from_line, info.from_column, end_pos - info.from_byte));
        tokens.push(Token::redirect(pos), ctx);
        ctx.start_redirect();
        Ok(())
    } else if op == Operator::BiColon && ctx.is_leading {
        let pos = Some((info.from_line, info.from_column, end_pos - info.from_byte));
        tokens.push(Token::class(pos), ctx);
        ctx.start_indent();
        Ok(())
    } else if op == Operator::Colon && ctx.is_leading {
        let pos = Some((info.from_line, info.from_column, end_pos - info.from_byte));
        tokens.push(Token::function(pos), ctx);
        ctx.start_indent();
        Ok(())
    } else if (op == Operator::Dot || op == Operator::Backdot) && ctx.is_artificial_unary() {
        info.is_native_access = op == Operator::Backdot;
        ctx.shift_break();
        info.set_dot_access();
        Ok(())
    } else {
        push_plain_op(op, end_pos, ctx, info, tokens)
    }
}

/// Appends the operator whose lexeme ends at `end_pos`.
pub fn push_operator(
    bytes: &[u8],
    end_pos: usize,
    info: &mut LexerContextInfo,
    tokens: &mut TokenList,
    ctx: &mut LexerContext,
) -> (r: Result<(), LexError>)
    requires
        lexeme_ok(bytes@, *old(info), end_pos as int),
    ensures
        (Scan { tokens: final(tokens)@, ctx: final(ctx)@, info: *final(info), result: r })
            == op_scan(
            bytes@.subrange(old(info).from_byte as int, end_pos as int),
            end_pos as int,
            *old(info),
            old(tokens)@,
            old(ctx)@,
        ),
{
    let op_text = vstd::slice::slice_subrange(bytes, info.from_byte, end_pos);
    process_op(op_text, end_pos, ctx, info, tokens)
}

/// Reading a name that is not a keyword: an identifier, or a member name
/// after a dot; a name that starts a statement requests a break after it.
pub open spec fn name_scan(
    word: Seq<u8>,
    info: LexerContextInfo,
    tokens: Seq<TokenView>,
    ctx: CtxView,
) -> Scan {
    let pos = len_pos(info, word.len() as usize);
    let text = ValueView::String(decode_utf8(word));
    let dotted = info.expect_dot_access || (info.maybe_dot_access && !info.blank);
    let i1 = if dotted {
        LexerContextInfo {
            expect_dot_access: false,
            maybe_dot_access: false,
            is_native_access: false,
            ..info
        }
    } else {
        info
    };
    let t = if dotted && info.is_native_access {
        token_at(TokenType::NativeAccess, text, pos)
    } else if dotted {
        token_at(TokenType::DotAccess, text, pos)
    } else {
        token_at(TokenType::Identifier, text, pos)
    };
    let c1 = ctx_after_push(ctx, tokens.len(), t);
    scan_ok(tokens_after_push(tokens, ctx, t), if ctx.is_leading { c1.break_next() } else { c1 }, i1)
}

/// Reading a keyword token of kind `typ`, `n` bytes long, that may open an
/// indented block (`indent`) and requests a break after it (`brk`).
pub open spec fn keyword_scan(
    typ: TokenType,
    n: usize,
    indent: bool,
    brk: bool,
    info: LexerContextInfo,
    tokens: Seq<TokenView>,
    ctx: CtxView,
) -> Scan {
    let t = token_at(typ, ValueView::Empty, len_pos(info, n));
    let c1 = ctx_after_push(ctx, tokens.len(), t);
    let c2 = if indent { c1.start_indent() } else { c1 };
    scan_ok(tokens_after_push(tokens, ctx, t), if brk { c2.break_next() } else { c2 }, info)
}

/// Reading the word that ends at byte `end`.
pub open spec fn ident_scan(
    bytes: Seq<u8>,
    end: int,
    info: LexerContextInfo,
    tokens: Seq<TokenView>,
    ctx: CtxView,
) -> Scan {
    let word = bytes.subrange(info.from_byte as int, end);
    let lower = lower_word(word);
    match keyword_of(lower) {
        Some(k) => if !ctx.is_leading && is_statement_keyword(k) {
            Scan {
                tokens,
                ctx,
                info,
                result: Err(error_at(info, LexErrorType::ReservedKeywordAsIdentifier)),
            }
        } else {
            match k {
                Keyword::True => scan_push(
                    tokens,
                    ctx,
                    info,
                    token_at(TokenType::Bool, ValueView::Bool(true), len_pos(info, 4)),
                ),
                Keyword::False => scan_push(
                    tokens,
                    ctx,
                    info,
                    token_at(TokenType::Bool, ValueView::Bool(false), len_pos(info, 5)),
                ),
                Keyword::Null => scan_push(
                    tokens,
                    ctx,
                    info,
                    token_at(TokenType::Null, ValueView::Empty, len_pos(info, 4)),
                ),
                Keyword::NaN => scan_push(
                    tokens,
                    ctx,
                    info,
                    token_at(TokenType::Float, ValueView::NaN, len_pos(info, 3)),
                ),
                Keyword::Infinity => scan_push(
                    tokens,
                    ctx,
                    info,
                    token_at(TokenType::Float, ValueView::Infinity, len_pos(info, 4)),
                ),
                Keyword::And | Keyword::Or | Keyword::Not | Keyword::As => op_scan(
                    lower,
                    end,
                    info,
                    tokens,
                    ctx,
                ),
                Keyword::If => keyword_scan(TokenType::If, 2, true, true, info, tokens, ctx),
                Keyword::Elif => keyword_scan(TokenType::Elif, 4, true, true, info, tokens, ctx),
                Keyword::Else => keyword_scan(TokenType::Else, 4, true, false, info, tokens, ctx),
                Keyword::Is => keyword_scan(TokenType::Is, 2, true, true, info, tokens, ctx),
                Keyword::In => keyword_scan(TokenType::In, 2, true, true, info, tokens, ctx),
                Keyword::While => keyword_scan(TokenType::While, 5, true, true, info, tokens, ctx),
                Keyword::For => keyword_scan(TokenType::For, 3, true, false, info, tokens, ctx),
                Keyword::Dollar => scan_ok(
                    tokens,
                    ctx,
                    LexerContextInfo { expect_dollar_call: true, ..info },
                ),
                Keyword::Return => keyword_scan(TokenType::Return, 6, false, true, info, tokens, ctx),
                Keyword::Break => keyword_scan(TokenType::Break, 5, false, true, info, tokens, ctx),
                Keyword::Continue => keyword_scan(
                    TokenType::Continue,
                    8,
                    false,
                    true,
                    info,
                    tokens,
                    ctx,
                ),
            }
        },
        None => name_scan(word, info, tokens, ctx),
    }
}

/// Appends a keyword token of kind `typ`, `n` bytes long.
fn push_keyword(
    typ: TokenType,
    n: usize,
    indent: bool,
    brk: bool,
    info: &LexerContextInfo,
    tokens: &mut TokenList,
    ctx: &mut LexerContext,
)
    ensures
        (Scan { tokens: final(tokens)@, ctx: final(ctx)@, info: *info, result: Ok(()) })
            == keyword_scan(typ, n, indent, brk, *info, old(tokens)@, old(ctx)@),
{
    tokens.push(Token::delim(typ, Some((info.from_line, info.from_column, n))), ctx);
    if indent {
        ctx.start_indent();
    }
    if brk {
        ctx.break_next();
    }
}

/// Appends the word that ends at `end_pos`: a literal, an operator word, a
/// keyword, or a name.
pub fn push_ident(
    bytes: &[u8],
    end_pos: usize,
    info: &mut LexerContextInfo,
    ctx: &mut LexerContext,
    tokens: &mut TokenList,
) -> (r: Result<(), LexError>)
    requires
        lexeme_ok(bytes@, *old(info), end_pos as int),
        valid_utf8(bytes@.subrange(old(info).from_byte as int, end_pos as int)),
    ensures
        (Scan { tokens: final(tokens)@, ctx: final(ctx)@, info: *final(info), result: r })
            == ident_scan(bytes@, end_pos as int, *old(info), old(tokens)@, old(ctx)@),
{
    let lower = lower_bytes(bytes, info.from_byte, end_pos);
    let kw = keyword(lower.as_slice());
    match kw {
        Some(k) => {
            if !ctx.is_leading && statement_keyword(k) {
                return Err(
                    LexError::new(
                        LexErrorType::ReservedKeywordAsIdentifier,
                        info.from_line,
                        info.from_column,
                    ),
                );
            }
            match k {
                Keyword::True => {
                    tokens.push(Token::bool(true, Some((info.from_line, info.from_column, 4))), ctx);
                },
                Keyword::False => {
                    tokens.push(Token::bool(false, Some((info.from_line, info.from_column, 5))), ctx);
                },
                Keyword::Null => {
                    tokens.push(Token::none(Some((info.from_line, info.from_column, 4))), ctx);
                },
                Keyword::NaN => {
                    tokens.push(Token::nan(Some((info.from_line, info.from_column, 3))), ctx);
                },
                Keyword::Infinity => {
                    tokens.push(Token::infi(Some((info.from_line, info.from_column, 4))), ctx);
                },
                Keyword::And | Keyword::Or | Keyword::Not | Keyword::As => {
                    return process_op(lower.as_slice(), end_pos, ctx, info, tokens);
                },
                Keyword::If => push_keyword(TokenType::If, 2, true, true, info, tokens, ctx),
                Keyword::Elif => push_keyword(TokenType::Elif, 4, true, true, info, tokens, ctx),
                Keyword::Else => push_keyword(TokenType::Else, 4, true, false, info, tokens, ctx),
                Keyword::Is => push_keyword(TokenType::Is, 2, true, true, info, tokens, ctx),
                Keyword::In => push_keyword(TokenType::In, 2, true, true, info, tokens, ctx),
                Keyword::While => push_keyword(TokenType::While, 5, true, true, info, tokens, ctx),
                Keyword::For => push_keyword(TokenType::For, 3, true, false, info, tokens, ctx),
                Keyword::Dollar => {
                    info.set_dollar_call();
                },
                Keyword::Return => push_keyword(TokenType::Return, 6, false, true, info, tokens, ctx),
                Keyword::Break => push_keyword(TokenType::Break, 5, false, true, info, tokens, ctx),
                Keyword::Continue => push_keyword(
                    TokenType::Continue,
                    8,
                    false,
                    true,
                    info,
                    tokens,
                    ctx,
                ),
            }
            Ok(())
        },
        None => {
            let was_leading = ctx.is_leading;
            let ident = utf8_string(bytes, info.from_byte, end_pos);
            let pos = Some((info.from_line, info.from_column, end_pos - info.from_byte));
            let token = if info.has_dot_access() {
                let is_native_access = info.is_native_access;
                info.reset_dot_access();
                if is_native_access {
                    Token::native_access(ident, pos)
                } else {
                    Token::dot_access(ident, pos)
                }
            } else {
                Token::identifier(ident, pos)
            };
            tokens.push(token, ctx);
            if was_leading {
                ctx.break_next();
            }
            Ok(())
        },
    }
}

/// Reading the callee of a dollar call that ends at byte `end`.
pub open spec fn dollar_scan(
    bytes: Seq<u8>,
    end: int,
    info: LexerContextInfo,
    tokens: Seq<TokenView>,
    ctx: CtxView,
) -> (Seq<TokenView>, CtxView) {
    let t = token_at(
        TokenType::DollarCall,
        ValueView::String(decode_utf8(bytes.subrange(info.from_byte as int, end))),
        lit_pos(info, end),
    );
    (tokens_after_push(tokens, ctx, t), ctx_after_push(ctx, tokens.len(), t).break_next())
}

/// Appends the callee of a dollar call, which ends at `end_pos`.
pub fn push_dollar(
    bytes: &[u8],
    end_pos: usize,
    info: &mut LexerContextInfo,
    tokens: &mut TokenList,
    ctx: &mut LexerContext,
)
    requires
        lexeme_ok(bytes@, *old(info), end_pos as int),
        valid_utf8(bytes@.subrange(old(info).from_byte as int, end_pos as int)),
    ensures
        *final(info) == *old(info),
        (final(tokens)@, final(ctx)@) == dollar_scan(
            bytes@,
            end_pos as int,
            *old(info),
            old(tokens)@,
            old(ctx)@,
        ),
{
    let ident = utf8_string(bytes, info.from_byte, end_pos);
    tokens.push(
        Token::dollar_call(ident, Some((info.from_line, info.from_column, end_pos - info.from_byte))),
        ctx,
    );
    ctx.break_next();
}

/// The text of a literal block without its last line break (`\n`, then
/// `\r`).
pub open spec fn trim_block_text(s: Seq<char>) -> Seq<char> {
    let s1 = if s.len() > 0 && s.last() == '\n' {
        s.drop_last()
    } else {
        s
    };
    if s1.len() > 0 && s1.last() == '\r' {
        s1.drop_last()
    } else {
        s1
    }
}

/// Drops the last line break of the text of a literal block.
pub fn trim_block_string(string_buf: &mut String)
    ensures
        final(string_buf)@ == trim_block_text(old(string_buf)@),
{
    if string_ends_with(string_buf, '\n') {
        let _ = string_pop(string_buf);
    }
    if string_ends_with(string_buf, '\r') {
        let _ = string_pop(string_buf);
    }
}

/// The tokens and context when a literal block closes on `line`: its text,
/// when it has some, then the closing delimiter at `pos`; the mode is left,
/// and a statement starts.
pub open spec fn close_block(
    text: Seq<char>,
    line: u32,
    from_column: u32,
    pos: Pos,
    tokens: Seq<TokenView>,
    ctx: CtxView,
) -> (Seq<TokenView>, CtxView) {
    let body = trim_block_text(text);
    let st = token_at(
        TokenType::String,
        ValueView::String(body),
        Some((line, from_column, utf8_len(body))),
    );
    let (t1, c1) = if text.len() > 0 {
        (tokens_after_push(tokens, ctx, st), ctx_after_push(ctx, tokens.len(), st))
    } else {
        (tokens, ctx)
    };
    let rs = token_at(TokenType::RString, ValueView::Empty, pos);
    (
        tokens_after_push(t1, c1, rs),
        CtxView { is_leading: true, ..ctx_after_push(c1, t1.len(), rs).pop_mode() },
    )
}

/// What the end of the source does with the pending lexeme of kind `buf`:
/// the scan, and the text buffer left.
pub open spec fn buffer_scan(
    bytes: Seq<u8>,
    end: int,
    buf: BufType,
    line: u32,
    info: LexerContextInfo,
    tokens: Seq<TokenView>,
    ctx: CtxView,
    text: Seq<char>,
) -> (Scan, Seq<char>) {
    if ctx.current_mode is InBlockString {
        let (t, c) = close_block(
            text,
            line,
            info.from_column,
            Some((line, info.from_column, 0)),
            tokens,
            ctx,
        );
        (scan_ok(t, c, info), Seq::empty())
    } else {
        let scan = match buf {
            BufType::Number => number_scan(bytes, end, info, tokens, ctx),
            BufType::HexNumber => integer_scan(bytes, end, info, tokens, ctx),
            BufType::BitNumber => integer_scan(bytes, end, info, tokens, ctx),
            BufType::OctalNumber => integer_scan(bytes, end, info, tokens, ctx),
            BufType::ScientificNumber => float_scan(bytes, end, info, tokens, ctx),
            BufType::Identifier => ident_scan(bytes, end, info, tokens, ctx),
            BufType::DollarCall => Scan {
                tokens,
                ctx,
                info,
                result: Err(error_at(info, LexErrorType::UnexpectedDollarCall)),
            },
            BufType::Operator => match operator_of(bytes.subrange(info.from_byte as int, end)) {
                Some(op) => if spec_can_breaker(op) {
                    let c1 = if ctx.is_artificial_unary() && !info.had_blank {
                        ctx.discard_break()
                    } else {
                        ctx
                    };
                    scan_push(
                        tokens,
                        c1,
                        info,
                        TokenView {
                            is_unary: c1.is_unary,
                            is_breaker: true,
                            ..token_at(TokenType::Op(op), ValueView::Empty, lit_pos(info, end))
                        },
                    )
                } else {
                    Scan {
                        tokens,
                        ctx,
                        info,
                        result: Err(error_at(info, LexErrorType::InvalidOperator)),
                    }
                },
                None => Scan {
                    tokens,
                    ctx,
                    info,
                    result: Err(error_at(info, LexErrorType::InvalidOperator)),
                },
            },
            BufType::MultiLineComment => Scan {
                tokens,
                ctx,
                info,
                result: Err(error_at(info, LexErrorType::Custom("Unterminated multiline comment"))),
            },
            _ => scan_ok(tokens, ctx, info),
        };
        (scan, text)
    }
}

/// Closing a pending lexeme of kind `buf` reads its bytes: a number, a name
/// or an operator outside a literal block.
pub open spec fn buffer_reads_lexeme(buf: BufType, ctx: CtxView) -> bool {
    &&& !(ctx.current_mode is InBlockString)
    &&& (buf is Number || buf is HexNumber || buf is BitNumber || buf is OctalNumber
        || buf is ScientificNumber || buf is Identifier || buf is Operator)
}

/// Closes what is pending at the end of the source: a literal block, or the
/// lexeme of kind `buf_type` that ends at `end_pos`. An operator left
/// pending there may only be a postfix `++` or `--`.
pub fn push_buffer(
    bytes: &[u8],
    end_pos: usize,
    buf_type: BufType,
    line: u32,
    info: &mut LexerContextInfo,
    tokens: &mut TokenList,
    ctx: &mut LexerContext,
    string_buf: &mut String,
) -> (r: Result<(), LexError>)
    requires
        buffer_reads_lexeme(buf_type, old(ctx)@) ==> lexeme_ok(bytes@, *old(info), end_pos as int),
        buffer_reads_lexeme(buf_type, old(ctx)@) && buf_type == BufType::Identifier ==> valid_utf8(
            bytes@.subrange(old(info).from_byte as int, end_pos as int),
        ),
    ensures
        ((Scan { tokens: final(tokens)@, ctx: final(ctx)@, info: *final(info), result: r }),
        final(string_buf)@) == buffer_scan(
            bytes@,
            end_pos as int,
            buf_type,
            line,
            *old(info),
            old(tokens)@,
            old(ctx)@,
            old(string_buf)@,
        ),
{
    if let ParseMode::InBlockString(_) = ctx.current_mode {
        if !string_buf.as_str().is_empty() {
            trim_block_string(string_buf);
            let n = string_buf.as_str().len();
            tokens.push(Token::string(string_buf.clone(), Some((line, info.from_column, n))), ctx);
            *string_buf = String::new();
        }
        tokens.push(Token::delim(TokenType::RString, Some((line, info.from_column, 0))), ctx);
        ctx.pop_mode();
        ctx.is_leading = true;
        return Ok(());
    }
    match buf_type {
        BufType::Number => push_number(bytes, end_pos, info, tokens, ctx),
        BufType::HexNumber => push_hex(bytes, end_pos, info, tokens, ctx),
        BufType::BitNumber => push_bit(bytes, end_pos, info, tokens, ctx),
        BufType::OctalNumber => push_octal(bytes, end_pos, info, tokens, ctx),
        BufType::ScientificNumber => push_scientific(bytes, end_pos, info, tokens, ctx),
        BufType::Identifier => push_ident(bytes, end_pos, info, ctx, tokens),
        BufType::DollarCall => Err(
            LexError::new(LexErrorType::UnexpectedDollarCall, info.from_line, info.from_column),
        ),
        BufType::Operator => {
            match operator_from_bytes(bytes, info.from_byte, end_pos) {
                Some(op) => {
                    if can_breaker(op) {
                        if ctx.is_artificial_unary() && !info.had_blank {
                            ctx.discard_break();
                        }
                        tokens.push(
                            Token::op(
                                op,
                                Some((info.from_line, info.from_column, end_pos - info.from_byte)),
                            ).with_unary(ctx.is_unary).with_breaker(true),
                            ctx,
                        );
                        Ok(())
                    } else {
                        Err(LexError::new(LexErrorType::InvalidOperator, info.from_line, info.from_column))
                    }
                },
                None => Err(
                    LexError::new(LexErrorType::InvalidOperator, info.from_line, info.from_column),
                ),
            }
        },
        BufType::MultiLineComment => Err(
            LexError::new(
                LexErrorType::Custom("Unterminated multiline comment"),
                info.from_line,
                info.from_column,
            ),
        ),
        _ => Ok(()),
    }
}

/// A read leaves the depth, the indentation of the line, the modes and the
/// start of the lexeme as they were.
pub open spec fn keeps_frame(sc: Scan, ctx: CtxView, info: LexerContextInfo) -> bool {
    &&& sc.ctx.depth == ctx.depth
    &&& sc.ctx.current_indent == ctx.current_indent
    &&& sc.ctx.stack == ctx.stack
    &&& sc.ctx.current_mode == ctx.current_mode
    &&& sc.info.from_byte == info.from_byte
}

/// Reading an operator keeps the frame.
pub proof fn lemma_op_scan_frame(
    text: Seq<u8>,
    end: int,
    info: LexerContextInfo,
    tokens: Seq<TokenView>,
    ctx: CtxView,
)
    ensures
        keeps_frame(op_scan(text, end, info, tokens, ctx), ctx, info),
{
    broadcast use crate::lexer::token_list::lemma_push_frame;
}

/// Reading a keyword keeps the frame.
pub proof fn lemma_keyword_scan_frame(
    typ: TokenType,
    n: usize,
    indent: bool,
    brk: bool,
    info: LexerContextInfo,
    tokens: Seq<TokenView>,
    ctx: CtxView,
)
    ensures
        keeps_frame(keyword_scan(typ, n, indent, brk, info, tokens, ctx), ctx, info),
{
    broadcast use crate::lexer::token_list::lemma_push_frame;
}

/// Reading a name keeps the frame.
pub proof fn lemma_name_scan_frame(
    word: Seq<u8>,
    info: LexerContextInfo,
    tokens: Seq<TokenView>,
    ctx: CtxView,
)
    ensures
        keeps_frame(name_scan(word, info, tokens, ctx), ctx, info),
{
    broadcast use crate::lexer::token_list::lemma_push_frame;
}

/// Reading a word keeps the frame.
pub proof fn lemma_ident_scan_frame(
    bytes: Seq<u8>,
    end: int,
    info: LexerContextInfo,
    tokens: Seq<TokenView>,
    ctx: CtxView,
)
    ensures
        keeps_frame(ident_scan(bytes, end, info, tokens, ctx), ctx, info),
{
    broadcast use crate::lexer::token_list::lemma_push_frame;
    let word = bytes.subrange(info.from_byte as int, end);
    let lower = lower_word(word);
    lemma_op_scan_frame(lower, end, info, tokens, ctx);
    lemma_name_scan_frame(word, info, tokens, ctx);
    match keyword_of(lower) {
        Some(k) => {
            let (typ, n, indent, brk) = match k {
                Keyword::If => (TokenType::If, 2usize, true, true),
                Keyword::Elif => (TokenType::Elif, 4usize, true, true),
                Keyword::Else => (TokenType::Else, 4usize, true, false),
                Keyword::Is => (TokenType::Is, 2usize, true, true),
                Keyword::In => (TokenType::In, 2usize, true, true),
                Keyword::While => (TokenType::While, 5usize, true, true),
                Keyword::For => (TokenType::For, 3usize, true, false),
                Keyword::Return => (TokenType::Return, 6usize, false, true),
                Keyword::Break => (TokenType::Break, 5usize, false, true),
                _ => (TokenType::Continue, 8usize, false, true),
            };
            lemma_keyword_scan_frame(typ, n, indent, brk, info, tokens, ctx);
        },
        None => {},
    }
}

/// Reading a literal keeps the frame.
pub proof fn lemma_literal_scan_frame(
    bytes: Seq<u8>,
    end: int,
    info: LexerContextInfo,
    tokens: Seq<TokenView>,
    ctx: CtxView,
)
    ensures
        keeps_frame(number_scan(bytes, end, info, tokens, ctx), ctx, info),
        keeps_frame(integer_scan(bytes, end, info, tokens, ctx), ctx, info),
        keeps_frame(float_scan(bytes, end, info, tokens, ctx), ctx, info),
        keeps_frame(bigint_scan(bytes, end, info, tokens, ctx), ctx, info),
{
    broadcast use crate::lexer::token_list::lemma_push_frame;
}

/// The words `true` and `false`, in any case, are read as a boolean
/// literal: its value is true exactly for `true`, and it covers the whole
/// word.
pub proof fn law_literal_words(
    bytes: Seq<u8>,
    end: int,
    info: LexerContextInfo,
    tokens: Seq<TokenView>,
    ctx: CtxView,
)
    requires
        info.from_byte <= end <= bytes.len(),
        lower_word(bytes.subrange(info.from_byte as int, end)) == seq![0x74u8, 0x72u8, 0x75u8, 0x65u8]
            || lower_word(bytes.subrange(info.from_byte as int, end)) == seq![
            0x66u8,
            0x61u8,
            0x6cu8,
            0x73u8,
            0x65u8,
        ],
    ensures
        ident_scan(bytes, end, info, tokens, ctx).result is Ok,
        ident_scan(bytes, end, info, tokens, ctx).tokens.last() == token_at(
            TokenType::Bool,
            ValueView::Bool(
                lower_word(bytes.subrange(info.from_byte as int, end)) == seq![
                    0x74u8,
                    0x72u8,
                    0x75u8,
                    0x65u8,
                ],
            ),
            len_pos(info, (end - info.from_byte) as usize),
        ),
{
    let word = bytes.subrange(info.from_byte as int, end);
    let lower = lower_word(word);
    law_keyword_spellings(Keyword::True, lower);
    law_keyword_spellings(Keyword::False, lower);
    assert(spelling_is(Keyword::True, seq![0x74u8, 0x72u8, 0x75u8, 0x65u8]));
    assert(spelling_is(Keyword::False, seq![0x66u8, 0x61u8, 0x6cu8, 0x73u8, 0x65u8]));
    if lower =~= seq![0x74u8, 0x72u8, 0x75u8, 0x65u8] {
        let t = token_at(TokenType::Bool, ValueView::Bool(true), len_pos(info, 4));
        law_push_appends(tokens, ctx, t);
    } else {
        assert(lower =~= seq![0x66u8, 0x61u8, 0x6cu8, 0x73u8, 0x65u8]);
        assert(lower != seq![0x74u8, 0x72u8, 0x75u8, 0x65u8]);
        let t = token_at(TokenType::Bool, ValueView::Bool(false), len_pos(info, 5));
        law_push_appends(tokens, ctx, t);
    }
}

/// A keyword or literal word is read as one token that covers the whole
/// word: it starts where the word starts, and its length is the word's.
pub proof fn law_keyword_token_covers_word(
    bytes: Seq<u8>,
    end: int,
    info: LexerContextInfo,
    tokens: Seq<TokenView>,
    ctx: CtxView,
    k: Keyword,
)
    requires
        info.from_byte <= end <= bytes.len(),
        lower_word(bytes.subrange(info.from_byte as int, end)) == crate::lexer::keywords::spelling(k),
        !(k == Keyword::And || k == Keyword::Or || k == Keyword::Not || k == Keyword::As || k
            == Keyword::Dollar),
        ident_scan(bytes, end, info, tokens, ctx).result is Ok,
    ensures
        ident_scan(bytes, end, info, tokens, ctx).tokens.last().line == Some(info.from_line),
        ident_scan(bytes, end, info, tokens, ctx).tokens.last().column == Some(info.from_column),
        ident_scan(bytes, end, info, tokens, ctx).tokens.last().length == Some(
            (end - info.from_byte) as usize,
        ),
{
    let word = bytes.subrange(info.from_byte as int, end);
    let lower = lower_word(word);
    law_keyword_spellings(k, lower);
    assert(lower.len() == word.len());
    let n = lower.len() as usize;
    let typ = match k {
        Keyword::True | Keyword::False => TokenType::Bool,
        Keyword::Null => TokenType::Null,
        Keyword::NaN | Keyword::Infinity => TokenType::Float,
        Keyword::If => TokenType::If,
        Keyword::Elif => TokenType::Elif,
        Keyword::Else => TokenType::Else,
        Keyword::Is => TokenType::Is,
        Keyword::In => TokenType::In,
        Keyword::While => TokenType::While,
        Keyword::For => TokenType::For,
        Keyword::Return => TokenType::Return,
        Keyword::Break => TokenType::Break,
        _ => TokenType::Continue,
    };
    let value = match k {
        Keyword::True => ValueView::Bool(true),
        Keyword::False => ValueView::Bool(false),
        Keyword::NaN => ValueView::NaN,
        Keyword::Infinity => ValueView::Infinity,
        _ => ValueView::Empty,
    };
    law_push_appends(tokens, ctx, token_at(typ, value, len_pos(info, n)));
}

/// `k` is spelled `w`.
spec fn spelling_is(k: Keyword, w: Seq<u8>) -> bool {
    crate::lexer::keywords::spelling(k) =~= w
}

} // verus!
