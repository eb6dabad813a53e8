//! The balance of blocks: every `Indent` that the lexer emits is closed by
//! a `Dedent`.

use vstd::prelude::*;
use crate::ascii::{DOLLAR, LBRACE, RBRACE};
use crate::syntax::{TokenView, TokenType, ValueView, Pos, token_at, spec_is_delimiter};
use crate::lexer::context::{CtxView, ParseMode, BufType, top_mode};
use crate::lexer::context_info::LexerContextInfo;
use crate::lexer::token_list::{
    tokens_after_push, ctx_after_push, with_separators, ctx_after_separators, separator_due,
    opens_block, dedent_count, repeat_token,
};
use crate::lexer::utils::buffer::{
    Scan, op_scan, op_effects, ident_scan, keyword_scan, number_scan, integer_scan, float_scan,
    bigint_scan, close_block,
};
use crate::lexer::keywords::{keyword_of, lower_word, Keyword};
use crate::lexer::utils::string::{flush_text, lemma_name_run_bounds};
use crate::lexer::utils::buffer::{buffer_scan, keeps_frame, lemma_op_scan_frame, lemma_ident_scan_frame, lemma_literal_scan_frame};
use crate::lexer::tokenizer::{
    LexState, lex_inv, lex_step, lex_run, lex_finish, lex, initial_state, step_buffered, source_fits,
    step_number, step_radix, step_scientific, step_name, step_callee, step_operator,
    close_literal, step_dispatch, closes_expr, step_token, step_code, step_fstring, step_string,
    step_block, block_indent, step_interpolation, push_state, pos_now, pos_lexeme,
    lemma_step_progress, lemma_initial_inv, step_close_expr, with_expr_depth, drop_last_token,
    step_open, step_relevant,
};
use crate::operators::operator_of;
use crate::lexer::utils::headers::without_bom;

verus! {

/// How many tokens of `ts` are of kind `k`.
pub open spec fn count_kind(ts: Seq<TokenView>, k: TokenType) -> nat
    decreases ts.len(),
{
    if ts.len() == 0 {
        0
    } else {
        count_kind(ts.drop_last(), k) + if ts.last().typ == k {
            1nat
        } else {
            0nat
        }
    }
}

/// Every indentation level is positive.
pub open spec fn positive_levels(levels: Seq<usize>) -> bool {
    forall|j: int| 0 <= j < levels.len() ==> #[trigger] levels[j] > 0
}

/// No prefix of `ts` has more `Dedent`s than `Indent`s: every block is
/// opened before it is closed.
pub open spec fn prefixes_nested(ts: Seq<TokenView>) -> bool {
    forall|k: int|
        0 <= k <= ts.len() ==> count_kind(#[trigger] ts.take(k), TokenType::Dedent) <= count_kind(
            ts.take(k),
            TokenType::Indent,
        )
}

/// The `Indent`s of `ts` are its `Dedent`s and the levels still open, and
/// blocks open before they close.
pub open spec fn blocks_balanced(ts: Seq<TokenView>, levels: Seq<usize>) -> bool {
    &&& count_kind(ts, TokenType::Indent) == count_kind(ts, TokenType::Dedent) + levels.len()
    &&& positive_levels(levels)
    &&& prefixes_nested(ts)
}

/// Appending a token keeps every prefix nested, when it is no `Dedent` or
/// a block is open.
proof fn lemma_push_nested(ts: Seq<TokenView>, t: TokenView)
    requires
        prefixes_nested(ts),
        t.typ == TokenType::Dedent ==> count_kind(ts, TokenType::Dedent) < count_kind(ts, TokenType::Indent),
    ensures
        prefixes_nested(ts.push(t)),
{
    let t2 = ts.push(t);
    assert forall|k: int| 0 <= k <= t2.len() implies count_kind(#[trigger] t2.take(k), TokenType::Dedent)
        <= count_kind(t2.take(k), TokenType::Indent) by {
        if k <= ts.len() {
            assert(t2.take(k) =~= ts.take(k));
        } else {
            assert(t2.take(k) =~= t2);
            assert(ts.take(ts.len() as int) =~= ts);
            lemma_count_push(ts, t, TokenType::Dedent);
            lemma_count_push(ts, t, TokenType::Indent);
        }
    }
}

/// Removing the last token keeps every prefix nested.
proof fn lemma_drop_nested(ts: Seq<TokenView>)
    requires
        prefixes_nested(ts),
        ts.len() > 0,
    ensures
        prefixes_nested(ts.drop_last()),
{
    let t2 = ts.drop_last();
    assert forall|k: int| 0 <= k <= t2.len() implies count_kind(#[trigger] t2.take(k), TokenType::Dedent)
        <= count_kind(t2.take(k), TokenType::Indent) by {
        assert(t2.take(k) =~= ts.take(k));
    }
}

proof fn lemma_count_push(ts: Seq<TokenView>, t: TokenView, k: TokenType)
    ensures
        count_kind(ts.push(t), k) == count_kind(ts, k) + if t.typ == k {
            1nat
        } else {
            0nat
        },
{
    assert(ts.push(t).drop_last() =~= ts);
}

proof fn lemma_count_repeat(ts: Seq<TokenView>, d: TokenView, n: nat, k: TokenType)
    ensures
        count_kind(ts + repeat_token(d, n), k) == count_kind(ts, k) + if d.typ == k {
            n
        } else {
            0nat
        },
    decreases n,
{
    if n == 0 {
        assert(ts + repeat_token(d, 0) =~= ts);
    } else {
        lemma_count_repeat(ts, d, (n - 1) as nat, k);
        assert(ts + repeat_token(d, n) =~= (ts + repeat_token(d, (n - 1) as nat)).push(d));
        lemma_count_push(ts + repeat_token(d, (n - 1) as nat), d, k);
    }
}

/// Appending at most as many `Dedent`s as blocks are open keeps every prefix
/// nested.
proof fn lemma_repeat_nested(ts: Seq<TokenView>, d: TokenView, n: nat)
    requires
        prefixes_nested(ts),
        d.typ == TokenType::Dedent,
        count_kind(ts, TokenType::Dedent) + n <= count_kind(ts, TokenType::Indent),
    ensures
        prefixes_nested(ts + repeat_token(d, n)),
    decreases n,
{
    if n == 0 {
        assert(ts + repeat_token(d, 0) =~= ts);
    } else {
        lemma_repeat_nested(ts, d, (n - 1) as nat);
        lemma_count_repeat(ts, d, (n - 1) as nat, TokenType::Indent);
        lemma_count_repeat(ts, d, (n - 1) as nat, TokenType::Dedent);
        assert(ts + repeat_token(d, n) =~= (ts + repeat_token(d, (n - 1) as nat)).push(d));
        lemma_push_nested(ts + repeat_token(d, (n - 1) as nat), d);
    }
}

proof fn lemma_dedent_count_bound(levels: Seq<usize>, indent: usize)
    ensures
        dedent_count(levels, indent) <= levels.len(),
    decreases levels.len(),
{
    if levels.len() > 0 && indent < levels.last() {
        lemma_dedent_count_bound(levels.drop_last(), indent);
    }
}

/// With positive levels, a line with no indentation closes them all.
pub proof fn lemma_dedent_all(levels: Seq<usize>)
    requires
        positive_levels(levels),
    ensures
        dedent_count(levels, 0) == levels.len(),
    decreases levels.len(),
{
    if levels.len() > 0 {
        assert(levels.last() == levels[levels.len() - 1]);
        let rest = levels.drop_last();
        assert forall|j: int| 0 <= j < rest.len() implies #[trigger] rest[j] > 0 by {
            assert(rest[j] == levels[j]);
        }
        lemma_dedent_all(rest);
    }
}

/// The implicit separators keep the blocks balanced.
pub proof fn lemma_separators_balanced(ts: Seq<TokenView>, ctx: CtxView, is_delimiter: bool, pos: Pos)
    requires
        blocks_balanced(ts, ctx.levels),
    ensures
        blocks_balanced(
            with_separators(ts, ctx, is_delimiter, pos),
            ctx_after_separators(ctx, ts.len(), is_delimiter).levels,
        ),
{
    let levels = ctx.levels;
    if separator_due(ts.len(), ctx, is_delimiter) {
        if opens_block(ctx) {
            let ind = token_at(TokenType::Indent, ValueView::Empty, pos);
            lemma_count_push(ts, ind, TokenType::Indent);
            lemma_count_push(ts, ind, TokenType::Dedent);
            lemma_push_nested(ts, ind);
            let l2 = levels.push(ctx.current_indent);
            assert forall|j: int| 0 <= j < l2.len() implies #[trigger] l2[j] > 0 by {
                if j < levels.len() {
                    assert(l2[j] == levels[j]);
                }
            }
        } else if ctx.is_leading {
            let end = token_at(TokenType::End, ValueView::Empty, pos);
            let ded = token_at(TokenType::Dedent, ValueView::Empty, pos);
            let n = dedent_count(levels, ctx.current_indent);
            lemma_dedent_count_bound(levels, ctx.current_indent);
            lemma_count_push(ts, end, TokenType::Indent);
            lemma_count_push(ts, end, TokenType::Dedent);
            lemma_count_repeat(ts.push(end), ded, n, TokenType::Indent);
            lemma_count_repeat(ts.push(end), ded, n, TokenType::Dedent);
            lemma_push_nested(ts, end);
            lemma_repeat_nested(ts.push(end), ded, n);
            let l2 = levels.subrange(0, levels.len() - n);
            assert forall|j: int| 0 <= j < l2.len() implies #[trigger] l2[j] > 0 by {
                assert(l2[j] == levels[j]);
            }
        } else {
            let comma = token_at(TokenType::Comma, ValueView::Empty, pos);
            lemma_count_push(ts, comma, TokenType::Indent);
            lemma_count_push(ts, comma, TokenType::Dedent);
            lemma_push_nested(ts, comma);
        }
    }
}

/// Appending a token that is neither `Indent` nor `Dedent` keeps the
/// blocks balanced.
pub proof fn lemma_push_balanced(ts: Seq<TokenView>, ctx: CtxView, t: TokenView)
    requires
        blocks_balanced(ts, ctx.levels),
        t.typ != TokenType::Indent,
        t.typ != TokenType::Dedent,
    ensures
        blocks_balanced(tokens_after_push(ts, ctx, t), ctx_after_push(ctx, ts.len(), t).levels),
{
    lemma_separators_balanced(ts, ctx, spec_is_delimiter(t), None);
    let w = with_separators(ts, ctx, spec_is_delimiter(t), None);
    lemma_count_push(w, t, TokenType::Indent);
    lemma_count_push(w, t, TokenType::Dedent);
    lemma_push_nested(w, t);
}

/// Removing a last token that is neither `Indent` nor `Dedent` keeps the
/// blocks balanced.
pub proof fn lemma_drop_balanced(ts: Seq<TokenView>, levels: Seq<usize>)
    requires
        blocks_balanced(ts, levels),
        ts.len() > 0,
        ts.last().typ != TokenType::Indent,
        ts.last().typ != TokenType::Dedent,
    ensures
        blocks_balanced(ts.drop_last(), levels),
{
    lemma_drop_nested(ts);
}


/// A read that keeps the blocks balanced.
pub open spec fn scan_balanced(sc: Scan) -> bool {
    blocks_balanced(sc.tokens, sc.ctx.levels)
}

/// Reading an operator keeps the blocks balanced.
pub proof fn lemma_op_scan_balanced(
    text: Seq<u8>,
    end: int,
    info: LexerContextInfo,
    tokens: Seq<TokenView>,
    ctx: CtxView,
)
    requires
        blocks_balanced(tokens, ctx.levels),
    ensures
        scan_balanced(op_scan(text, end, info, tokens, ctx)),
{
    let pos = Some((info.from_line, info.from_column, (end - info.from_byte) as usize));
    match operator_of(text) {
        None => {},
        Some(op) => {
            lemma_push_balanced(tokens, ctx, token_at(TokenType::Redirect, ValueView::Empty, pos));
            lemma_push_balanced(tokens, ctx, token_at(TokenType::Class, ValueView::Empty, pos));
            lemma_push_balanced(tokens, ctx, token_at(TokenType::Function, ValueView::Empty, pos));
            let (c1, i1, allowed, breaker) = op_effects(op, ctx, info);
            let t = TokenView {
                is_unary: c1.is_unary,
                is_breaker: breaker,
                ..token_at(TokenType::Op(op), ValueView::Empty, pos)
            };
            lemma_push_balanced(tokens, c1, t);
            let w = with_separators(tokens, c1, spec_is_delimiter(t), None);
            assert(tokens_after_push(tokens, c1, t) == w.push(t));
        },
    }
}

/// Reading a keyword token keeps the blocks balanced.
pub proof fn lemma_keyword_scan_balanced(
    typ: TokenType,
    n: usize,
    indent: bool,
    brk: bool,
    info: LexerContextInfo,
    tokens: Seq<TokenView>,
    ctx: CtxView,
)
    requires
        blocks_balanced(tokens, ctx.levels),
        typ != TokenType::Indent,
        typ != TokenType::Dedent,
    ensures
        scan_balanced(keyword_scan(typ, n, indent, brk, info, tokens, ctx)),
{
    lemma_push_balanced(tokens, ctx, token_at(typ, ValueView::Empty, Some((info.from_line, info.from_column, n))));
}

/// Reading a word keeps the blocks balanced.
pub proof fn lemma_ident_scan_balanced(
    bytes: Seq<u8>,
    end: int,
    info: LexerContextInfo,
    tokens: Seq<TokenView>,
    ctx: CtxView,
)
    requires
        blocks_balanced(tokens, ctx.levels),
    ensures
        scan_balanced(ident_scan(bytes, end, info, tokens, ctx)),
{
    let word = bytes.subrange(info.from_byte as int, end);
    let lower = lower_word(word);
    lemma_op_scan_balanced(lower, end, info, tokens, ctx);
    lemma_push_balanced(tokens, ctx, token_at(TokenType::Bool, ValueView::Bool(true), Some((info.from_line, info.from_column, 4usize))));
    lemma_push_balanced(tokens, ctx, token_at(TokenType::Bool, ValueView::Bool(false), Some((info.from_line, info.from_column, 5usize))));
    lemma_push_balanced(tokens, ctx, token_at(TokenType::Null, ValueView::Empty, Some((info.from_line, info.from_column, 4usize))));
    lemma_push_balanced(tokens, ctx, token_at(TokenType::Float, ValueView::NaN, Some((info.from_line, info.from_column, 3usize))));
    lemma_push_balanced(tokens, ctx, token_at(TokenType::Float, ValueView::Infinity, Some((info.from_line, info.from_column, 4usize))));
    match keyword_of(lower) {
        Some(k) => {
            let (typ, n, indent, brk) = match k {
                Keyword::If => (TokenType::If, 2usize, true, true),
                Keyword::Elif => (TokenType::Elif, 4usize, true, true),
                Keyword::Else => (TokenType::Else, 4usize, true, false),
                Keyword::Is => (TokenType::Is, 2usize, true, true),
                Keyword::In => (TokenType::In, 2usize, true, true),
                Keyword::While => (TokenType::While, 5usize, true, true),
                Keyword::For => (TokenType::For, 3usize, true, false),
                Keyword::Return => (TokenType::Return, 6usize, false, true),
                Keyword::Break => (TokenType::Break, 5usize, false, true),
                _ => (TokenType::Continue, 8usize, false, true),
            };
            lemma_keyword_scan_balanced(typ, n, indent, brk, info, tokens, ctx);
        },
        None => {
            let npos = Some((info.from_line, info.from_column, word.len() as usize));
            let text = ValueView::String(vstd::utf8::decode_utf8(word));
            lemma_push_balanced(tokens, ctx, token_at(TokenType::NativeAccess, text, npos));
            lemma_push_balanced(tokens, ctx, token_at(TokenType::DotAccess, text, npos));
            lemma_push_balanced(tokens, ctx, token_at(TokenType::Identifier, text, npos));
        },
    }
}

/// Reading a literal keeps the blocks balanced.
pub proof fn lemma_literal_scan_balanced(
    bytes: Seq<u8>,
    end: int,
    info: LexerContextInfo,
    tokens: Seq<TokenView>,
    ctx: CtxView,
)
    requires
        blocks_balanced(tokens, ctx.levels),
    ensures
        scan_balanced(number_scan(bytes, end, info, tokens, ctx)),
        scan_balanced(integer_scan(bytes, end, info, tokens, ctx)),
        scan_balanced(float_scan(bytes, end, info, tokens, ctx)),
        scan_balanced(bigint_scan(bytes, end, info, tokens, ctx)),
{
    let pos = Some((info.from_line, info.from_column, (end - info.from_byte) as usize));
    let raw = crate::lexer::utils::buffer::literal_text(bytes, info, end);
    match crate::lexer::utils::numeric::int_literal(raw) {
        Ok(v) => {
            lemma_push_balanced(tokens, ctx, token_at(TokenType::Integer, ValueView::Integer((if info.unary_minus { -v } else { v }) as i64), pos));
        },
        Err(_) => {},
    }
    lemma_push_balanced(tokens, ctx, token_at(TokenType::Float, ValueView::Float(crate::lexer::utils::numeric::signed_text(raw, info.unary_minus)), pos));
    lemma_push_balanced(tokens, ctx, token_at(TokenType::BigInt, ValueView::BigInt(vstd::utf8::decode_utf8(raw)), pos));
}


/// A literal pending in the buffer is a number.
pub open spec fn numeric_buf(b: BufType) -> bool {
    b is Number || b is HexNumber || b is BitNumber || b is OctalNumber || b is ScientificNumber
}

/// The modes in which code is read: plain code and interpolated
/// expressions.
pub open spec fn code_mode(m: ParseMode) -> bool {
    m == ParseMode::Normal || m is InFStringExpr
}

/// What the scan keeps for the blocks to balance: the counts of the tokens
/// read so far, and their nesting.
pub open spec fn lex_balanced(s: LexState) -> bool {
    blocks_balanced(s.tokens, s.ctx.levels)
}

/// The last token opens or closes a block.
pub open spec fn block_last(ts: Seq<TokenView>) -> bool {
    ts.len() > 0 && (ts.last().typ == TokenType::Indent || ts.last().typ == TokenType::Dedent)
}

/// Starting a token at `s` takes off a last token that opens or closes a
/// block: the dot that a member name replaces, or the sign that a number
/// takes in.
pub open spec fn relevant_drops_block(s: LexState) -> bool {
    let info = s.info;
    let proceeds = !(info.expect_dollar_call && s.buf != BufType::DollarCall) && !(
    info.dot_access_due() && s.buf != BufType::Identifier) && !(info.dot_access_due() && info.blank);
    let drop_dot = info.dot_access_due() && info.maybe_dot_access;
    let t1 = if drop_dot {
        drop_last_token(s.tokens)
    } else {
        s.tokens
    };
    let i1 = if info.dot_access_due() {
        LexerContextInfo { expect_dot_access: true, ..info }
    } else {
        info
    };
    &&& proceeds
    &&& (drop_dot && block_last(s.tokens)) || (i1.signed() && s.buf == BufType::Number && block_last(t1))
}

/// Reading the token that starts at `s` takes off a token that opens or
/// closes a block.
pub open spec fn token_drops_block(bytes: Seq<u8>, s: LexState) -> bool {
    step_open(bytes, s) matches Ok((s2, relevant)) && relevant && relevant_drops_block(s2)
}

/// The byte at `s` starts a token (it is no blank, line break, `;` or
/// `}` of an interpolated expression).
pub open spec fn starts_token(bytes: Seq<u8>, s: LexState) -> bool {
    let b = bytes[s.i];
    !(b == crate::ascii::SPACE || b == crate::ascii::TAB || b == crate::ascii::CR || b
        == crate::ascii::LF || b == crate::ascii::SEMICOLON || (b == RBRACE && closes_expr(s)))
}

/// The state after appending `t` keeps the blocks balanced.
proof fn lemma_push_state_balanced(s: LexState, t: TokenView)
    requires
        blocks_balanced(s.tokens, s.ctx.levels),
        t.typ != TokenType::Indent,
        t.typ != TokenType::Dedent,
    ensures
        blocks_balanced(push_state(s, t).tokens, push_state(s, t).ctx.levels),
{
    lemma_push_balanced(s.tokens, s.ctx, t);
}

proof fn lemma_close_literal_balanced(s: LexState, sc: Scan, big: bool)
    requires
        lex_balanced(s),
        numeric_buf(s.buf),
        scan_balanced(sc),
        keeps_frame(sc, s.ctx, s.info),
        sc.info == s.info,
    ensures
        close_literal(s, sc, big) matches Ok((s1, _)) ==> lex_balanced(s1),
{
}

proof fn lemma_number_balanced(bytes: Seq<u8>, s: LexState)
    requires
        lex_inv(bytes, s),
        s.i < bytes.len(),
        lex_balanced(s),
        numeric_buf(s.buf),
    ensures
        s.buf is Number ==> (step_number(bytes, s) matches Ok((s1, _)) ==> lex_balanced(s1)),
        (s.buf is HexNumber || s.buf is BitNumber || s.buf is OctalNumber) ==> (step_radix(bytes, s) matches Ok((s1, _)) ==> lex_balanced(s1)),
        s.buf is ScientificNumber ==> (step_scientific(bytes, s) matches Ok((s1, _)) ==> lex_balanced(s1)),
{
    lemma_literal_scan_balanced(bytes, s.i, s.info, s.tokens, s.ctx);
    lemma_literal_scan_frame(bytes, s.i, s.info, s.tokens, s.ctx);
    lemma_close_literal_balanced(s, bigint_scan(bytes, s.i, s.info, s.tokens, s.ctx), true);
    lemma_close_literal_balanced(s, number_scan(bytes, s.i, s.info, s.tokens, s.ctx), false);
    lemma_close_literal_balanced(s, integer_scan(bytes, s.i, s.info, s.tokens, s.ctx), false);
    lemma_close_literal_balanced(s, float_scan(bytes, s.i, s.info, s.tokens, s.ctx), false);
}

proof fn lemma_name_balanced(bytes: Seq<u8>, s: LexState)
    requires
        lex_inv(bytes, s),
        s.i < bytes.len(),
        lex_balanced(s),
        s.buf == BufType::Identifier,
        code_mode(s.ctx.current_mode),
    ensures
        step_name(bytes, s) matches Ok((s1, _)) ==> lex_balanced(s1),
{
    lemma_ident_scan_balanced(bytes, s.i, s.info, s.tokens, s.ctx);
    lemma_ident_scan_frame(bytes, s.i, s.info, s.tokens, s.ctx);
}

proof fn lemma_callee_balanced(bytes: Seq<u8>, s: LexState)
    requires
        lex_inv(bytes, s),
        s.i < bytes.len(),
        lex_balanced(s),
        s.buf == BufType::DollarCall,
        code_mode(s.ctx.current_mode),
    ensures
        step_callee(bytes, s) matches Ok((s1, _)) ==> lex_balanced(s1),
{
    let t = token_at(
        TokenType::DollarCall,
        ValueView::String(vstd::utf8::decode_utf8(bytes.subrange(s.info.from_byte as int, s.i))),
        Some((s.info.from_line, s.info.from_column, (s.i - s.info.from_byte) as usize)),
    );
    lemma_push_balanced(s.tokens, s.ctx, t);
}

proof fn lemma_operator_balanced(bytes: Seq<u8>, s: LexState)
    requires
        lex_inv(bytes, s),
        s.i < bytes.len(),
        lex_balanced(s),
        s.buf == BufType::Operator,
        code_mode(s.ctx.current_mode),
    ensures
        step_operator(bytes, s) matches Ok((s1, _)) ==> lex_balanced(s1),
{
    let text = bytes.subrange(s.info.from_byte as int, s.i);
    lemma_op_scan_balanced(text, s.i, s.info, s.tokens, s.ctx);
    lemma_op_scan_frame(text, s.i, s.info, s.tokens, s.ctx);
}

proof fn lemma_buffered_balanced(bytes: Seq<u8>, s: LexState)
    requires
        lex_inv(bytes, s),
        s.i < bytes.len(),
        lex_balanced(s),
        code_mode(s.ctx.current_mode),
    ensures
        step_buffered(bytes, s) matches Ok((s1, _)) ==> lex_balanced(s1),
{
    match s.buf {
        BufType::Number | BufType::HexNumber | BufType::BitNumber | BufType::OctalNumber
        | BufType::ScientificNumber => lemma_number_balanced(bytes, s),
        BufType::Identifier => lemma_name_balanced(bytes, s),
        BufType::DollarCall => lemma_callee_balanced(bytes, s),
        BufType::Operator => lemma_operator_balanced(bytes, s),
        _ => {},
    }
}

/// A byte that starts a token or a lexeme keeps the blocks balanced.
proof fn lemma_token_balanced(bytes: Seq<u8>, s: LexState)
    requires
        lex_inv(bytes, s),
        s.i < bytes.len(),
        lex_balanced(s),
        s.buf == BufType::Empty,
        code_mode(s.ctx.current_mode),
        !token_drops_block(bytes, s),
    ensures
        step_token(bytes, s) matches Ok(s2) ==> lex_balanced(s2),
{
    let b = bytes[s.i];
    let pos = pos_now(s);
    if b == crate::ascii::LPAREN {
        let c0 = if !s.info.blank && !s.info.expect_dollar_call {
            s.ctx.join_next().discard_break()
        } else {
            s.ctx
        };
        lemma_push_balanced(s.tokens, c0, token_at(TokenType::LParen, ValueView::Empty, pos));
    } else if b == crate::ascii::LBRACKET {
        let c0 = if !s.info.blank {
            s.ctx.join_next().discard_break()
        } else {
            s.ctx
        };
        lemma_push_balanced(s.tokens, c0, token_at(TokenType::LBracket, ValueView::Empty, pos));
    } else if b == crate::ascii::LBRACE {
        let c0 = match top_mode(s.ctx.stack) {
            ParseMode::InFStringExpr(d) => with_expr_depth(s.ctx, (d + 1) as usize),
            _ => s.ctx,
        };
        lemma_push_balanced(s.tokens, c0, token_at(TokenType::LBrace, ValueView::Empty, pos));
    } else if b == crate::ascii::RPAREN {
        lemma_push_balanced(s.tokens, s.ctx, token_at(TokenType::RParen, ValueView::Empty, pos));
    } else if b == crate::ascii::RBRACKET {
        lemma_push_balanced(s.tokens, s.ctx, token_at(TokenType::RBracket, ValueView::Empty, pos));
    } else if b == crate::ascii::RBRACE {
        lemma_push_balanced(s.tokens, s.ctx, token_at(TokenType::RBrace, ValueView::Empty, pos));
    } else if b == crate::ascii::COMMA {
        lemma_push_balanced(s.tokens, s.ctx, token_at(TokenType::Comma, ValueView::Empty, pos));
    } else if b == crate::ascii::DQUOTE {
        let c0 = s.ctx.push_mode(ParseMode::InFString);
        lemma_push_balanced(s.tokens, c0, token_at(TokenType::LString, ValueView::Empty, pos));
    } else if b == crate::ascii::QUOTE {
        let c0 = s.ctx.push_mode(ParseMode::InString);
        lemma_push_balanced(s.tokens, c0, token_at(TokenType::LString, ValueView::Empty, pos));
    }
    if let Ok((s1, relevant)) = step_open(bytes, s) {
        if relevant {
            lemma_relevant_balanced(s1);
        }
    }
}

/// Starting a token keeps the blocks balanced, unless it takes off a token
/// that opens or closes a block.
proof fn lemma_relevant_balanced(s: LexState)
    requires
        lex_balanced(s),
        !relevant_drops_block(s),
    ensures
        step_relevant(s) matches Ok(s2) ==> lex_balanced(s2),
{
    let info = s.info;
    if let Ok(s2) = step_relevant(s) {
        let drop_dot = info.dot_access_due() && info.maybe_dot_access;
        let t1 = if drop_dot {
            drop_last_token(s.tokens)
        } else {
            s.tokens
        };
        if drop_dot && s.tokens.len() > 0 {
            lemma_drop_balanced(s.tokens, s.ctx.levels);
        }
        let i1 = if info.dot_access_due() {
            LexerContextInfo { expect_dot_access: true, ..info }
        } else {
            info
        };
        if i1.signed() && s.buf == BufType::Number && t1.len() > 0 {
            lemma_drop_balanced(t1, s.ctx.levels);
        }
    }
}

/// A `}` that closes a brace of an interpolated expression, or the
/// expression itself, keeps the blocks balanced.
proof fn lemma_close_expr_balanced(s: LexState)
    requires
        lex_balanced(s),
        s.buf == BufType::Empty,
        closes_expr(s),
    ensures
        lex_balanced(step_close_expr(s)),
{
    let d = top_mode(s.ctx.stack)->InFStringExpr_0;
    if d > 0 {
        let c0 = with_expr_depth(s.ctx, (d - 1) as usize);
        lemma_push_balanced(s.tokens, c0, token_at(TokenType::RBrace, ValueView::Empty, pos_now(s)));
    } else {
        lemma_push_state_balanced(s, token_at(TokenType::RBraceExpr, ValueView::Empty, pos_now(s)));
    }
}

/// A step in code keeps the blocks balanced, unless it takes off a token
/// that opens or closes a block.
proof fn lemma_code_balanced(bytes: Seq<u8>, s: LexState)
    requires
        lex_inv(bytes, s),
        s.i < bytes.len(),
        lex_balanced(s),
        code_mode(s.ctx.current_mode),
        !drops_block_token(bytes, s),
    ensures
        step_code(bytes, s) matches Ok(s2) ==> lex_balanced(s2),
{
    crate::lexer::tokenizer::lemma_buffered_progress(bytes, s);
    lemma_buffered_balanced(bytes, s);
    if let Ok((s1, done)) = step_buffered(bytes, s) {
        if !done && s1.buf == BufType::Empty {
            lemma_dispatch_balanced(bytes, s1);
        }
    }
}

/// A byte of code with no lexeme pending keeps the blocks balanced, unless
/// the token it starts takes off a token that opens or closes a block.
proof fn lemma_dispatch_balanced(bytes: Seq<u8>, s: LexState)
    requires
        lex_inv(bytes, s),
        s.i < bytes.len(),
        lex_balanced(s),
        s.buf == BufType::Empty,
        code_mode(s.ctx.current_mode),
        starts_token(bytes, s) ==> !token_drops_block(bytes, s),
    ensures
        step_dispatch(bytes, s) matches Ok(s2) ==> lex_balanced(s2),
{
    let b = bytes[s.i];
    if b == crate::ascii::LF {
        if s.ctx.depth == 0 && !s.ctx.is_continuous && s.ctx.allow_redirect {
            let assign = token_at(TokenType::Op(crate::syntax::Operator::Assign), ValueView::Empty, pos_now(s));
            lemma_push_state_balanced(s, assign);
            let s2 = push_state(s, assign);
            let s3 = LexState {
                ctx: s2.ctx.push_mode(ParseMode::InBlockString(s2.ctx.current_indent)),
                ..s2
            };
            lemma_push_state_balanced(s3, token_at(TokenType::LString, ValueView::Empty, pos_lexeme(s)));
        }
    } else if b == crate::ascii::SEMICOLON {
        let c0 = CtxView { current_indent: 0, is_leading: true, ..s.ctx };
        lemma_separators_balanced(s.tokens, c0, false, pos_now(s));
    } else if b == RBRACE && closes_expr(s) {
        lemma_close_expr_balanced(s);
    } else if !(b == crate::ascii::SPACE || b == crate::ascii::TAB || b == crate::ascii::CR) {
        lemma_token_balanced(bytes, s);
    }
}

/// Turning the buffered text into a string token keeps the blocks balanced.
proof fn lemma_flush_balanced(tokens: Seq<TokenView>, ctx: CtxView, text: Seq<char>, line: u32, column: u32)
    requires
        blocks_balanced(tokens, ctx.levels),
    ensures
        blocks_balanced(
            flush_text(tokens, ctx, text, line, column).0,
            flush_text(tokens, ctx, text, line, column).1.levels,
        ),
        flush_text(tokens, ctx, text, line, column).1.stack == ctx.stack,
        flush_text(tokens, ctx, text, line, column).1.current_mode == ctx.current_mode,
{
    let t = token_at(
        TokenType::String,
        ValueView::String(text),
        Some((line, column, crate::lexer::utils::string::utf8_len(text))),
    );
    lemma_push_balanced(tokens, ctx, t);
}

/// A `$` in a string keeps the blocks balanced.
proof fn lemma_interpolation_balanced(bytes: Seq<u8>, s: LexState)
    requires
        lex_inv(bytes, s),
        s.i < bytes.len(),
        bytes[s.i] == DOLLAR,
        lex_balanced(s),
    ensures
        lex_balanced(step_interpolation(bytes, s)),
{
    lemma_name_run_bounds(bytes, s.i + 1);
    lemma_flush_balanced(s.tokens, s.ctx, s.text, s.info.from_line, s.info.from_column);
    let (t1, c1) = flush_text(s.tokens, s.ctx, s.text, s.info.from_line, s.info.from_column);
    if s.i + 1 < bytes.len() && bytes[s.i + 1] == LBRACE {
        let brace = token_at(TokenType::LBraceExpr, ValueView::Empty, Some((s.line, s.column, 1)));
        lemma_push_balanced(t1, c1, brace);
    } else {
        let end = crate::lexer::utils::string::name_run(bytes, s.i + 1);
        let name = token_at(
            TokenType::Identifier,
            ValueView::String(vstd::utf8::decode_utf8(bytes.subrange(s.i + 1, end))),
            Some((s.line, (s.column + 1) as u32, (end - (s.i + 1)) as usize)),
        );
        lemma_push_balanced(t1, c1, name);
    }
}

/// A step in a `"..."` string keeps the blocks balanced.
proof fn lemma_fstring_balanced(bytes: Seq<u8>, s: LexState)
    requires
        lex_inv(bytes, s),
        s.i < bytes.len(),
        lex_balanced(s),
        s.ctx.current_mode == ParseMode::InFString,
    ensures
        lex_balanced(step_fstring(bytes, s)),
{
    let b = bytes[s.i];
    if b == DOLLAR {
        lemma_interpolation_balanced(bytes, s);
    }
    lemma_flush_balanced(s.tokens, s.ctx, s.text, s.line, s.info.from_column);
    let (t1, c1) = flush_text(s.tokens, s.ctx, s.text, s.line, s.info.from_column);
    let s1 = LexState { tokens: t1, ctx: c1.pop_mode(), text: Seq::empty(), ..s };
    lemma_push_state_balanced(s1, token_at(TokenType::RString, ValueView::Empty, pos_lexeme(s)));
}

/// A step in a `'...'` string keeps the blocks balanced.
proof fn lemma_string_balanced(bytes: Seq<u8>, s: LexState)
    requires
        lex_inv(bytes, s),
        s.i < bytes.len(),
        lex_balanced(s),
        s.ctx.current_mode == ParseMode::InString,
    ensures
        lex_balanced(step_string(bytes, s)),
{
    let st = token_at(
        TokenType::String,
        ValueView::String(s.text),
        Some((s.line, s.info.from_column, crate::lexer::utils::string::utf8_len(s.text))),
    );
    lemma_push_state_balanced(s, st);
    lemma_push_state_balanced(push_state(s, st), token_at(TokenType::RString, ValueView::Empty, pos_lexeme(s)));
}

/// Closing a literal block keeps the blocks balanced.
proof fn lemma_close_block_balanced(
    text: Seq<char>,
    line: u32,
    from_column: u32,
    pos: Pos,
    tokens: Seq<TokenView>,
    ctx: CtxView,
)
    requires
        blocks_balanced(tokens, ctx.levels),
    ensures
        blocks_balanced(
            close_block(text, line, from_column, pos, tokens, ctx).0,
            close_block(text, line, from_column, pos, tokens, ctx).1.levels,
        ),
{
    let body = crate::lexer::utils::buffer::trim_block_text(text);
    let st = token_at(
        TokenType::String,
        ValueView::String(body),
        Some((line, from_column, crate::lexer::utils::string::utf8_len(body))),
    );
    lemma_push_balanced(tokens, ctx, st);
    let (t1, c1) = if text.len() > 0 {
        (tokens_after_push(tokens, ctx, st), ctx_after_push(ctx, tokens.len(), st))
    } else {
        (tokens, ctx)
    };
    lemma_push_balanced(t1, c1, token_at(TokenType::RString, ValueView::Empty, pos));
}

/// A step in a literal block keeps the blocks balanced.
proof fn lemma_block_balanced(bytes: Seq<u8>, s: LexState, base: usize)
    requires
        lex_inv(bytes, s),
        s.i < bytes.len(),
        lex_balanced(s),
        s.ctx.current_mode == ParseMode::InBlockString(base),
    ensures
        step_block(bytes, s, base) matches Ok(s2) ==> lex_balanced(s2),
{
    if s.ctx.current_indent == 0 {
        let (j, local) = block_indent(bytes, s.i, 0, base);
        let s1 = LexState {
            i: j,
            column: (s.column + (j - s.i)) as u32,
            ctx: CtxView { current_indent: local as usize, ..s.ctx },
            ..s
        };
        lemma_close_block_balanced(s.text, s1.line, s.info.from_column, pos_lexeme(s1), s1.tokens, s1.ctx);
    } else if bytes[s.i] == DOLLAR {
        lemma_interpolation_balanced(bytes, s);
    }
}

/// The step from `s` takes off a token that opens or closes a block: a
/// dot or sign left pending stands after such a token when the name or
/// number it waits for comes.
pub open spec fn drops_block_token(bytes: Seq<u8>, s: LexState) -> bool {
    &&& s.i < bytes.len()
    &&& code_mode(s.ctx.current_mode)
    &&& step_buffered(bytes, s) matches Ok((s1, done))
    &&& !done
    &&& s1.buf == BufType::Empty
    &&& starts_token(bytes, s1)
    &&& token_drops_block(bytes, s1)
}

/// No step of the scan from `s`, within `fuel` steps, takes off a token
/// that opens or closes a block.
pub open spec fn keeps_block_tokens(bytes: Seq<u8>, s: LexState, fuel: nat) -> bool
    decreases fuel,
{
    if s.i >= bytes.len() || fuel == 0 {
        true
    } else {
        &&& !drops_block_token(bytes, s)
        &&& match lex_step(bytes, s) {
            Ok(s2) => keeps_block_tokens(bytes, s2, (fuel - 1) as nat),
            Err(_) => true,
        }
    }
}

/// Lexing the source `bytes` never takes off an `Indent` or a `Dedent` (as
/// `"${-}"` can make it do, by leaving a sign pending that a later number
/// takes in).
pub open spec fn block_tokens_kept(bytes: Seq<u8>) -> bool {
    let code = without_bom(bytes);
    keeps_block_tokens(code, initial_state(code), 2 * code.len() + 2)
}

/// A step keeps the blocks balanced, unless it takes off a token that
/// opens or closes a block.
proof fn lemma_step_balanced(bytes: Seq<u8>, s: LexState)
    requires
        lex_inv(bytes, s),
        s.i < bytes.len(),
        lex_balanced(s),
        !drops_block_token(bytes, s),
    ensures
        lex_step(bytes, s) matches Ok(s2) ==> lex_balanced(s2),
{
    match s.ctx.current_mode {
        ParseMode::Normal | ParseMode::InFStringExpr(_) => lemma_code_balanced(bytes, s),
        ParseMode::InFString => lemma_fstring_balanced(bytes, s),
        ParseMode::InString => lemma_string_balanced(bytes, s),
        ParseMode::InBlockString(base) => lemma_block_balanced(bytes, s, base),
    }
}

/// The end of the source closes every block that was opened.
#[verifier::rlimit(60)]
proof fn lemma_finish_balanced(bytes: Seq<u8>, s: LexState)
    requires
        lex_inv(bytes, s),
        lex_balanced(s),
    ensures
        lex_finish(bytes, s) matches Ok(ts) ==> count_kind(ts, TokenType::Indent) == count_kind(
            ts,
            TokenType::Dedent,
        ) && prefixes_nested(ts),
{
    let end = bytes.len() as int;
    let (sc, _text) = buffer_scan(bytes, end, s.buf, s.line, s.info, s.tokens, s.ctx, s.text);
    lemma_close_block_balanced(
        s.text,
        s.line,
        s.info.from_column,
        Some((s.line, s.info.from_column, 0usize)),
        s.tokens,
        s.ctx,
    );
    lemma_literal_scan_balanced(bytes, end, s.info, s.tokens, s.ctx);
    if s.buf == BufType::Identifier {
        lemma_ident_scan_balanced(bytes, end, s.info, s.tokens, s.ctx);
    }
    if s.buf == BufType::Operator {
        if let Some(op) = operator_of(bytes.subrange(s.info.from_byte as int, end)) {
            let c1 = if s.ctx.is_artificial_unary() && !s.info.had_blank {
                s.ctx.discard_break()
            } else {
                s.ctx
            };
            let t = TokenView {
                is_unary: c1.is_unary,
                is_breaker: true,
                ..token_at(TokenType::Op(op), ValueView::Empty, Some((s.info.from_line, s.info.from_column, (end - s.info.from_byte) as usize)))
            };
            lemma_push_balanced(s.tokens, c1, t);
        }
    }
    if sc.result is Ok {
        assert(blocks_balanced(sc.tokens, sc.ctx.levels));
        let pos = Some((s.line, s.column, 1usize));
        let end_t = token_at(TokenType::End, ValueView::Empty, pos);
        lemma_push_balanced(sc.tokens, sc.ctx, end_t);
        let (t, c) = if sc.tokens.len() > 0 && sc.tokens.last().typ != TokenType::End {
            (tokens_after_push(sc.tokens, sc.ctx, end_t), ctx_after_push(sc.ctx, sc.tokens.len(), end_t))
        } else {
            (sc.tokens, sc.ctx)
        };
        let ded = token_at(TokenType::Dedent, ValueView::Empty, pos);
        lemma_dedent_all(c.levels);
        lemma_count_repeat(t, ded, dedent_count(c.levels, 0), TokenType::Indent);
        lemma_count_repeat(t, ded, dedent_count(c.levels, 0), TokenType::Dedent);
        lemma_repeat_nested(t, ded, dedent_count(c.levels, 0));
    }
}

proof fn lemma_run_balanced(bytes: Seq<u8>, s: LexState, fuel: nat)
    requires
        lex_inv(bytes, s),
        lex_balanced(s),
        keeps_block_tokens(bytes, s, fuel),
    ensures
        lex_run(bytes, s, fuel) matches Ok(ts) ==> count_kind(ts, TokenType::Indent) == count_kind(
            ts,
            TokenType::Dedent,
        ) && prefixes_nested(ts),
    decreases fuel,
{
    if s.i >= bytes.len() || fuel == 0 {
        lemma_finish_balanced(bytes, s);
    } else {
        lemma_step_progress(bytes, s);
        lemma_step_balanced(bytes, s);
        if let Ok(s2) = lex_step(bytes, s) {
            lemma_run_balanced(bytes, s2, (fuel - 1) as nat);
        }
    }
}

/// Blocks balance: in the tokens of a source, there are as many `Dedent`s
/// as `Indent`s, and no prefix of them closes more blocks than it opens,
/// unless the scan takes off an `Indent` or a `Dedent` it has written.
pub proof fn law_blocks_balanced(bytes: Seq<u8>)
    requires
        source_fits(bytes.len()),
        block_tokens_kept(bytes),
    ensures
        lex(bytes) matches Ok(ts) ==> count_kind(ts, TokenType::Indent) == count_kind(
            ts,
            TokenType::Dedent,
        ) && prefixes_nested(ts),
{
    let code = without_bom(bytes);
    crate::lexer::tokenizer::lemma_initial_inv(code);
    let s = initial_state(code);
    assert(count_kind(s.tokens, TokenType::Indent) == 0);
    lemma_run_balanced(code, s, 2 * code.len() + 2);
}

} // verus!
