//! The list of tokens that the lexer builds, and the insertion of the
//! implicit separators (`End`, `Indent`, `Dedent`, `Comma`) that follow from
//! the layout of the source.

use vstd::prelude::*;
use vstd::std_specs::iter::IteratorSpec;
use crate::syntax::{Token, TokenView, TokenType, ValueView, Pos, token_at, spec_is_continuous, spec_is_delimiter};
use crate::lexer::context::{LexerContext, CtxView};
use crate::lexer::counter::top_level;

verus! {

/// A list of tokens.
#[derive(Debug, Clone, Default)]
pub struct TokenList {
    tokens: Vec<Token>,
}

impl View for TokenList {
    type V = Seq<TokenView>;

    closed spec fn view(&self) -> Seq<TokenView> {
        self.tokens@.map_values(|t: Token| t@)
    }
}

/// How many levels a line indented by `indent` closes: the levels on top of
/// the stack that are deeper than `indent`.
pub open spec fn dedent_count(levels: Seq<usize>, indent: usize) -> nat
    decreases levels.len(),
{
    if levels.len() > 0 && indent < levels.last() {
        1 + dedent_count(levels.drop_last(), indent)
    } else {
        0
    }
}

/// `n` copies of `t`.
pub open spec fn repeat_token(t: TokenView, n: nat) -> Seq<TokenView> {
    Seq::new(n, |i: int| t)
}

/// An implicit separator goes before the next token.
pub open spec fn separator_due(n_tokens: nat, ctx: CtxView, is_delimiter: bool) -> bool {
    !(n_tokens == 0 || ctx.is_continuous || is_delimiter)
}

/// The separator opens an indented block.
pub open spec fn opens_block(ctx: CtxView) -> bool {
    ctx.is_leading && ctx.allow_indent && ctx.current_indent > top_level(ctx.levels)
}

/// The tokens after the implicit separators that go before a token.
pub open spec fn with_separators(
    tokens: Seq<TokenView>,
    ctx: CtxView,
    is_delimiter: bool,
    pos: Pos,
) -> Seq<TokenView> {
    if !separator_due(tokens.len(), ctx, is_delimiter) {
        tokens
    } else if opens_block(ctx) {
        tokens.push(token_at(TokenType::Indent, ValueView::Empty, pos))
    } else if ctx.is_leading {
        tokens.push(token_at(TokenType::End, ValueView::Empty, pos)) + repeat_token(
            token_at(TokenType::Dedent, ValueView::Empty, pos),
            dedent_count(ctx.levels, ctx.current_indent),
        )
    } else {
        tokens.push(token_at(TokenType::Comma, ValueView::Empty, pos))
    }
}

/// The context after the implicit separators: a new indentation level when
/// a block opens, the closed levels dropped when a statement starts, and a
/// pending artificial break discarded.
pub open spec fn ctx_after_separators(ctx: CtxView, n_tokens: nat, is_delimiter: bool) -> CtxView {
    if !separator_due(n_tokens, ctx, is_delimiter) {
        ctx
    } else if opens_block(ctx) {
        CtxView { levels: ctx.levels.push(ctx.current_indent), allow_indent: false, ..ctx }.discard_break()
    } else if ctx.is_leading {
        CtxView {
            levels: ctx.levels.subrange(
                0,
                ctx.levels.len() - dedent_count(ctx.levels, ctx.current_indent),
            ),
            ..ctx
        }.discard_break()
    } else {
        ctx.discard_break()
    }
}

/// The tokens after appending `t` with its separators.
pub open spec fn tokens_after_push(tokens: Seq<TokenView>, ctx: CtxView, t: TokenView) -> Seq<TokenView> {
    with_separators(tokens, ctx, spec_is_delimiter(t), None).push(t)
}

/// The context after appending `t` to `n_tokens` tokens.
pub open spec fn ctx_after_push(ctx: CtxView, n_tokens: nat, t: TokenView) -> CtxView {
    CtxView {
        is_continuous: spec_is_continuous(t),
        is_leading: false,
        ..ctx_after_separators(ctx, n_tokens, spec_is_delimiter(t))
    }
}

/// Appending a token leaves the depth, the indentation of the line, the
/// modes and the permission to redirect as they were.
pub broadcast proof fn lemma_push_frame(ctx: CtxView, n_tokens: nat, t: TokenView)
    ensures
        #![trigger ctx_after_push(ctx, n_tokens, t)]
        ctx_after_push(ctx, n_tokens, t).depth == ctx.depth,
        ctx_after_push(ctx, n_tokens, t).current_indent == ctx.current_indent,
        ctx_after_push(ctx, n_tokens, t).stack == ctx.stack,
        ctx_after_push(ctx, n_tokens, t).current_mode == ctx.current_mode,
        ctx_after_push(ctx, n_tokens, t).allow_redirect == ctx.allow_redirect,
{
}

/// The implicit separators leave the depth, the indentation of the line,
/// the modes and the permission to redirect as they were.
pub broadcast proof fn lemma_separators_frame(ctx: CtxView, n_tokens: nat, is_delimiter: bool)
    ensures
        #![trigger ctx_after_separators(ctx, n_tokens, is_delimiter)]
        ctx_after_separators(ctx, n_tokens, is_delimiter).depth == ctx.depth,
        ctx_after_separators(ctx, n_tokens, is_delimiter).current_indent == ctx.current_indent,
        ctx_after_separators(ctx, n_tokens, is_delimiter).stack == ctx.stack,
        ctx_after_separators(ctx, n_tokens, is_delimiter).current_mode == ctx.current_mode,
        ctx_after_separators(ctx, n_tokens, is_delimiter).allow_redirect == ctx.allow_redirect,
        ctx_after_separators(ctx, n_tokens, is_delimiter).is_leading == ctx.is_leading,
{
}

/// Appending a token keeps the tokens before it, adds the implicit
/// separators after them, and ends with the token itself.
pub proof fn law_push_appends(tokens: Seq<TokenView>, ctx: CtxView, t: TokenView)
    ensures
        tokens_after_push(tokens, ctx, t).len() > tokens.len(),
        tokens_after_push(tokens, ctx, t).subrange(0, tokens.len() as int) == tokens,
        tokens_after_push(tokens, ctx, t).last() == t,
{
    let w = with_separators(tokens, ctx, spec_is_delimiter(t), None);
    assert(w.subrange(0, tokens.len() as int) =~= tokens);
    assert(w.push(t).subrange(0, tokens.len() as int) =~= tokens);
}

impl TokenList {
    /// An empty list.
    pub fn new() -> (r: TokenList)
        ensures
            r@ == Seq::<TokenView>::empty(),
    {
        let r = TokenList { tokens: Vec::new() };
        assert(r@ =~= Seq::<TokenView>::empty());
        r
    }

    /// Inserts the implicit separators that the layout calls for before the
    /// next token: `Indent` when a deeper line opens a block, `End` and a
    /// `Dedent` per closed level when a line starts a statement, `Comma`
    /// between juxtaposed operands.
    pub fn handle_virtual_delims(&mut self, is_delimiter: bool, pos: Pos, ctx: &mut LexerContext)
        ensures
            final(self)@ == with_separators(old(self)@, old(ctx)@, is_delimiter, pos),
            final(ctx)@ == ctx_after_separators(old(ctx)@, old(self)@.len(), is_delimiter),
    {
        if !(self.tokens.len() == 0 || ctx.is_continuous || is_delimiter) {
            if ctx.is_leading {
                if ctx.allow_indent && ctx.current_indent > ctx.indent_counter.get() {
                    ctx.indent_counter.push(ctx.current_indent);
                    let t = Token::delim(TokenType::Indent, pos);
                    self.tokens.push(t);
                    assert(self@ =~= old(self)@.push(t@));
                    ctx.stop_indent();
                } else {
                    let t = Token::end(pos);
                    self.tokens.push(t);
                    assert(self@ =~= old(self)@.push(t@));
                    let ghost start = self@;
                    let ghost levels0 = ctx.indent_counter@;
                    let ghost dedent = token_at(TokenType::Dedent, ValueView::Empty, pos);
                    let ghost mut j: nat = 0;
                    while ctx.current_indent < ctx.indent_counter.get()
                        invariant
                            dedent == token_at(TokenType::Dedent, ValueView::Empty, pos),
                            self@ == start + repeat_token(dedent, j),
                            ctx.indent_counter@ == levels0.subrange(0, levels0.len() - j),
                            j <= levels0.len(),
                            dedent_count(levels0, ctx.current_indent) == j + dedent_count(
                                ctx.indent_counter@,
                                ctx.current_indent,
                            ),
                            ctx@ == (CtxView { levels: ctx.indent_counter@, ..old(ctx)@ }),
                        decreases ctx.indent_counter@.len(),
                    {
                        let ghost before = ctx.indent_counter@;
                        let ghost tokens_before = self@;
                        ctx.indent_counter.leave();
                        let t = Token::delim(TokenType::Dedent, pos);
                        self.tokens.push(t);
                        proof {
                            assert(before.len() > 0);
                            assert(ctx.indent_counter@ =~= levels0.subrange(
                                0,
                                levels0.len() - (j + 1),
                            ));
                            assert(repeat_token(dedent, j + 1) =~= repeat_token(dedent, j).push(
                                dedent,
                            ));
                            assert(self@ =~= tokens_before.push(t@));
                            assert(self@ =~= start + repeat_token(dedent, j + 1));
                            j = j + 1;
                        }
                    }
                    proof {
                        assert(dedent_count(ctx.indent_counter@, ctx.current_indent) == 0);
                    }
                }
            } else {
                let t = Token::comma(pos);
                self.tokens.push(t);
                assert(self@ =~= old(self)@.push(t@));
            }
            ctx.discard_break();
        }
    }

    /// Appends `token` after the implicit separators it calls for, and
    /// records whether the statement continues after it.
    pub fn push(&mut self, token: Token, ctx: &mut LexerContext)
        ensures
            final(self)@ == tokens_after_push(old(self)@, old(ctx)@, token@),
            final(ctx)@ == ctx_after_push(old(ctx)@, old(self)@.len(), token@),
    {
        let d = token.is_delimiter();
        self.handle_virtual_delims(d, None, ctx);
        ctx.is_continuous = token.is_continuous();
        ctx.is_leading = false;
        let ghost mid = self@;
        self.tokens.push(token);
        assert(self@ =~= mid.push(token@));
    }

    /// Appends `token` as it is.
    pub fn push_raw(&mut self, token: Token)
        ensures
            final(self)@ == old(self)@.push(token@),
    {
        self.tokens.push(token);
        assert(self@ =~= old(self)@.push(token@));
    }

    /// The number of tokens.
    pub fn len(&self) -> (r: usize)
        ensures
            r == self@.len(),
    {
        self.tokens.len()
    }

    /// Whether the list is empty.
    pub fn is_empty(&self) -> (r: bool)
        ensures
            r == (self@.len() == 0),
    {
        self.tokens.len() == 0
    }

    /// The last token.
    pub fn last(&self) -> (r: Option<&Token>)
        ensures
            r is Some <==> self@.len() > 0,
            r matches Some(t) ==> t@ == self@.last(),
    {
        let n = self.tokens.len();
        if n > 0 {
            Some(&self.tokens[n - 1])
        } else {
            None
        }
    }

    /// The token at `index`.
    pub fn get(&self, index: usize) -> (r: Option<&Token>)
        ensures
            r is Some <==> index < self@.len(),
            r matches Some(t) ==> t@ == self@[index as int],
    {
        if index < self.tokens.len() {
            Some(&self.tokens[index])
        } else {
            None
        }
    }

    /// The tokens in order.
    pub fn iter(&self) -> (r: std::slice::Iter<'_, Token>)
        ensures
            r.remaining().map_values(|t: &Token| t@) == self@,
    {
        broadcast use vstd::std_specs::slice::axiom_spec_slice_iter;

        let r = self.tokens.as_slice().iter();
        assert(r.remaining().map_values(|t: &Token| t@) =~= self@);
        r
    }

    /// Removes and returns the last token.
    pub fn pop(&mut self) -> (r: Option<Token>)
        ensures
            old(self)@.len() > 0 ==> final(self)@ == old(self)@.drop_last() && (r matches Some(t)
                && t@ == old(self)@.last()),
            old(self)@.len() == 0 ==> final(self)@ == old(self)@ && r is None,
    {
        let r = self.tokens.pop();
        assert(self@ =~= old(self)@.take(self.tokens@.len() as int));
        r
    }
}

} // verus!
