//! The reading of string literals: characters, escapes and interpolations.

use vstd::prelude::*;
use vstd::utf8::{valid_utf8, decode_utf8, encode_utf8};
use crate::ascii::{LOWER_N, LOWER_R, LOWER_T, BACKSLASH, DQUOTE, DOLLAR, LBRACE};
use crate::syntax::{Token, TokenView, TokenType, ValueView, token_at};
use crate::lexer::context::{LexerContext, CtxView, ParseMode};
use crate::lexer::context_info::LexerContextInfo;
use crate::lexer::token_list::{TokenList, tokens_after_push, ctx_after_push};
use crate::lexer::utils::char_utils::{
    is_interpolation_ident_start, is_interpolation_ident, spec_is_interpolation_ident,
    spec_is_interpolation_ident_start,
};
use crate::text::{
    string_push, string_push_str, str_from_utf8, ascii_bytes, lemma_ascii_utf8,
    utf8_string,
};

verus! {

/// The length in bytes of the UTF-8 encoding of `s`.
pub open spec fn utf8_len(s: Seq<char>) -> usize {
    encode_utf8(s).len() as usize
}

/// The number of bytes of the UTF-8 sequence that a byte announces (1 for a
/// byte that cannot start one).
pub open spec fn utf8_seq_len(b: u8) -> int {
    if b & 0x80 == 0 {
        1
    } else if b & 0xE0 == 0xC0 {
        2
    } else if b & 0xF0 == 0xE0 {
        3
    } else if b & 0xF8 == 0xF0 {
        4
    } else {
        1
    }
}

/// The characters read at `start`, and the number of bytes they take: the
/// character that the UTF-8 sequence there encodes, or, where there is no
/// valid sequence, the first byte taken as a character on its own.
pub open spec fn utf8_char_at(bytes: Seq<u8>, start: int) -> (Seq<char>, int) {
    if start >= bytes.len() {
        (Seq::empty(), 0)
    } else {
        let n = utf8_seq_len(bytes[start]);
        let piece = bytes.subrange(start, start + n);
        if start + n <= bytes.len() && valid_utf8(piece) {
            (decode_utf8(piece), n)
        } else {
            (seq![bytes[start] as char], 1)
        }
    }
}

/// Appends to `string_buf` the character that starts at byte `start_idx`,
/// and returns the number of bytes it takes.
pub fn push_utf8_char(string_buf: &mut String, bytes: &[u8], start_idx: usize) -> (r: usize)
    ensures
        final(string_buf)@ == old(string_buf)@ + utf8_char_at(bytes@, start_idx as int).0,
        r == utf8_char_at(bytes@, start_idx as int).1,
{
    let bytes_len = bytes.len();
    if start_idx >= bytes_len {
        assert(old(string_buf)@ + Seq::<char>::empty() =~= old(string_buf)@);
        return 0;
    }
    let first_byte = bytes[start_idx];
    let seq_len: usize = if first_byte & 0x80 == 0 {
        1
    } else if first_byte & 0xE0 == 0xC0 {
        2
    } else if first_byte & 0xF0 == 0xE0 {
        3
    } else if first_byte & 0xF8 == 0xF0 {
        4
    } else {
        1
    };
    if seq_len > bytes_len - start_idx {
        string_push(string_buf, first_byte as char);
        assert(old(string_buf)@.push(first_byte as char) =~= old(string_buf)@ + seq![
            first_byte as char,
        ]);
        return 1;
    }
    let piece = vstd::slice::slice_subrange(bytes, start_idx, start_idx + seq_len);
    match str_from_utf8(piece) {
        Some(s) => {
            string_push_str(string_buf, s);
            seq_len
        },
        None => {
            string_push(string_buf, first_byte as char);
            assert(old(string_buf)@.push(first_byte as char) =~= old(string_buf)@ + seq![
                first_byte as char,
            ]);
            1
        },
    }
}

/// The characters that the escape `\b` stands for.
pub open spec fn escape_text(b: u8) -> Seq<char> {
    if b == LOWER_N {
        seq!['\n']
    } else if b == LOWER_R {
        seq!['\r']
    } else if b == LOWER_T {
        seq!['\t']
    } else if b == BACKSLASH {
        seq!['\\']
    } else if b == DQUOTE {
        seq!['"']
    } else if b == DOLLAR {
        seq!['$']
    } else {
        seq!['\\', b as char]
    }
}

/// Appends to `string_buf` what the escape `\b` stands for; an unknown
/// escape is kept as it is written.
pub fn handle_escape(b: u8, string_buf: &mut String)
    ensures
        final(string_buf)@ == old(string_buf)@ + escape_text(b),
{
    let ghost s0 = string_buf@;
    if b == LOWER_N {
        string_push(string_buf, '\n');
    } else if b == LOWER_R {
        string_push(string_buf, '\r');
    } else if b == LOWER_T {
        string_push(string_buf, '\t');
    } else if b == BACKSLASH {
        string_push(string_buf, '\\');
    } else if b == DQUOTE {
        string_push(string_buf, '"');
    } else if b == DOLLAR {
        string_push(string_buf, '$');
    } else {
        string_push(string_buf, '\\');
        string_push(string_buf, b as char);
    }
    assert(string_buf@ =~= s0 + escape_text(b));
}

/// The end of the run of name bytes of `s` that starts at `k`.
pub open spec fn name_run(s: Seq<u8>, k: int) -> int
    decreases s.len() - k,
{
    if 0 <= k < s.len() && spec_is_interpolation_ident(s[k]) {
        name_run(s, k + 1)
    } else {
        k
    }
}

pub proof fn lemma_name_run_bounds(s: Seq<u8>, k: int)
    requires
        0 <= k <= s.len(),
    ensures
        k <= name_run(s, k) <= s.len(),
    decreases s.len() - k,
{
    if 0 <= k < s.len() && spec_is_interpolation_ident(s[k]) {
        lemma_name_run_bounds(s, k + 1);
    }
}

/// The tokens and context after the buffered text, when there is some, is
/// appended as a string token at (`line`, `column`).
pub open spec fn flush_text(
    tokens: Seq<TokenView>,
    ctx: CtxView,
    text: Seq<char>,
    line: u32,
    column: u32,
) -> (Seq<TokenView>, CtxView) {
    if text.len() > 0 {
        let t = token_at(TokenType::String, ValueView::String(text), Some((line, column, utf8_len(text))));
        (tokens_after_push(tokens, ctx, t), ctx_after_push(ctx, tokens.len(), t))
    } else {
        (tokens, ctx)
    }
}

/// Appends the buffered text, when there is some, as a string token at
/// (`line`, `column`), and empties the buffer.
pub fn flush_string(
    string_buf: &mut String,
    line: u32,
    column: u32,
    tokens: &mut TokenList,
    ctx: &mut LexerContext,
)
    ensures
        final(string_buf)@ == Seq::<char>::empty(),
        (final(tokens)@, final(ctx)@) == flush_text(old(tokens)@, old(ctx)@, old(string_buf)@, line, column),
{
    if !string_buf.as_str().is_empty() {
        let n = string_buf.as_str().len();
        tokens.push(Token::string(string_buf.clone(), Some((line, column, n))), ctx);
        *string_buf = String::new();
    }
}

/// What a `$` at byte `i` of a string does: the new byte index (of the last
/// byte consumed), the new column, the new text buffer, and the new tokens
/// and context.
pub open spec fn interpolation(
    bytes: Seq<u8>,
    i: int,
    line: u32,
    column: u32,
    info: LexerContextInfo,
    text: Seq<char>,
    tokens: Seq<TokenView>,
    ctx: CtxView,
) -> (int, u32, Seq<char>, Seq<TokenView>, CtxView) {
    if i + 1 < bytes.len() && bytes[i + 1] == LBRACE {
        let (t1, c1) = flush_text(tokens, ctx, text, info.from_line, info.from_column);
        let brace = token_at(TokenType::LBraceExpr, ValueView::Empty, Some((line, column, 1)));
        let c2 = ctx_after_push(c1, t1.len(), brace).push_mode(ParseMode::InFStringExpr(0));
        (
            i + 1,
            (column + 1) as u32,
            Seq::empty(),
            tokens_after_push(t1, c1, brace),
            CtxView { depth: (c2.depth + 1) as i32, ..c2 },
        )
    } else if i + 1 < bytes.len() && spec_is_interpolation_ident_start(bytes[i + 1]) {
        let end = name_run(bytes, i + 1);
        let (t1, c1) = flush_text(tokens, ctx, text, info.from_line, info.from_column);
        let name = token_at(
            TokenType::Identifier,
            ValueView::String(decode_utf8(bytes.subrange(i + 1, end))),
            Some((line, (column + 1) as u32, (end - (i + 1)) as usize)),
        );
        (
            end - 1,
            (column + (end - (i + 1))) as u32,
            Seq::empty(),
            tokens_after_push(t1, c1, name),
            ctx_after_push(c1, t1.len(), name),
        )
    } else {
        (i, column, text.push('$'), tokens, ctx)
    }
}

/// A `$` at byte `i` is followed by `{`, which opens an interpolated
/// expression.
pub open spec fn opens_expr(bytes: Seq<u8>, i: int) -> bool {
    i + 1 < bytes.len() && bytes[i + 1] == LBRACE
}

/// How many columns a `$` at byte `i` moves on past itself: 1 over the `{`
/// of an interpolated expression, the length of an interpolated name, and
/// none for a `$` kept as text.
pub open spec fn interpolation_width(bytes: Seq<u8>, i: int) -> int {
    if opens_expr(bytes, i) {
        1
    } else if i + 1 < bytes.len() && spec_is_interpolation_ident_start(bytes[i + 1]) {
        name_run(bytes, i + 1) - (i + 1)
    } else {
        0
    }
}

/// Handles a `$` at byte `*i` of a string: `${` opens an interpolated
/// expression, `$name` interpolates a variable, and any other `$` is kept
/// as text. The text read so far becomes a string token first.
pub fn handle_interpolation(
    bytes: &[u8],
    i: &mut usize,
    line: u32,
    column: &mut u32,
    info: &LexerContextInfo,
    string_buf: &mut String,
    tokens: &mut TokenList,
    ctx: &mut LexerContext,
)
    requires
        *old(i) < bytes@.len(),
        *old(column) + interpolation_width(bytes@, *old(i) as int) <= u32::MAX,
        opens_expr(bytes@, *old(i) as int) ==> old(ctx)@.depth < i32::MAX,
    ensures
        (*final(i) as int, *final(column), final(string_buf)@, final(tokens)@, final(ctx)@)
            == interpolation(
            bytes@,
            *old(i) as int,
            line,
            *old(column),
            *info,
            old(string_buf)@,
            old(tokens)@,
            old(ctx)@,
        ),
{
    let n = bytes.len();
    if *i + 1 < n {
        let c = bytes[*i + 1];
        if c == LBRACE {
            flush_string(string_buf, info.from_line, info.from_column, tokens, ctx);
            tokens.push(Token::delim(TokenType::LBraceExpr, Some((line, *column, 1))), ctx);
            ctx.push_mode(ParseMode::InFStringExpr(0));
            *i = *i + 1;
            *column = *column + 1;
            ctx.depth = ctx.depth + 1;
            return;
        } else if is_interpolation_ident_start(c) {
            let start = *i + 1;
            let mut end = start;
            while end < n && is_interpolation_ident(bytes[end])
                invariant
                    start <= end <= n == bytes@.len(),
                    name_run(bytes@, start as int) == name_run(bytes@, end as int),
                    ascii_bytes(bytes@.subrange(start as int, end as int)),
                decreases n - end,
            {
                assert(bytes@.subrange(start as int, end + 1) =~= bytes@.subrange(start as int, end as int).push(bytes@[end as int]));
                end = end + 1;
            }
            proof {
                lemma_ascii_utf8(bytes@.subrange(start as int, end as int));
            }
            let var_name = utf8_string(bytes, start, end);
            flush_string(string_buf, info.from_line, info.from_column, tokens, ctx);
            tokens.push(
                Token::identifier(var_name, Some((line, *column + 1, end - start))),
                ctx,
            );
            *i = end - 1;
            *column = *column + ((end - start) as u32);
            return;
        }
    }
    string_push(string_buf, '$');
}

/// Escapes in strings: `\n`, `\r` and `\t` stand for a line feed, a
/// carriage return and a tab; `\\`, `\"` and `\$` stand for the character
/// escaped, once; any other escape is kept as it is written, backslash and
/// all. So an escape stands for one character exactly when it is known.
pub proof fn law_escapes(b: u8)
    ensures
        b == 0x6e ==> escape_text(b) == seq![0x0au8 as char],
        b == 0x72 ==> escape_text(b) == seq![0x0du8 as char],
        b == 0x74 ==> escape_text(b) == seq![0x09u8 as char],
        (b == 0x5c || b == 0x22 || b == 0x24) ==> escape_text(b) == seq![b as char],
        !(b == 0x6e || b == 0x72 || b == 0x74 || b == 0x5c || b == 0x22 || b == 0x24) ==> escape_text(b)
            == seq![0x5cu8 as char, b as char],
        (escape_text(b).len() == 1) == (b == 0x6e || b == 0x72 || b == 0x74 || b == 0x5c || b == 0x22
            || b == 0x24),
{
}

} // verus!
