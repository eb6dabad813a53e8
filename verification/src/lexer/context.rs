//! The lexer's state: scanning modes, the kind of lexeme being buffered, and
//! the context that drives the inference of statement boundaries.

use vstd::prelude::*;
use crate::lexer::counter::Counter;

verus! {

/// The kind of lexeme that is being buffered.
#[derive(Debug, Clone, Copy, PartialEq, Eq, Structural)]
pub enum BufType {
    Empty,
    Number,
    HexNumber,
    BitNumber,
    OctalNumber,
    ScientificNumber,
    String,
    FString,
    Identifier,
    Operator,
    Comment,
    MultiLineComment,
    DollarCall,
}

/// The scanning mode.
#[derive(Debug, Clone, Copy, PartialEq, Eq, Structural)]
pub enum ParseMode {
    /// Ordinary code.
    Normal,
    /// Inside a `"..."` string, which interpolates.
    InFString,
    /// Inside a `'...'` string, which does not.
    InString,
    /// Inside `${...}`; the number is the depth of braces opened within.
    InFStringExpr(usize),
    /// Inside a literal block; the number is the indentation of its header.
    InBlockString(usize),
}

/// Two modes are of the same kind (the depth of `InFStringExpr` aside).
pub open spec fn same_kind(a: ParseMode, b: ParseMode) -> bool {
    match (a, b) {
        (ParseMode::InFStringExpr(_), ParseMode::InFStringExpr(_)) => true,
        _ => a == b,
    }
}

/// The mode on top of a mode stack, `Normal` for an empty one.
pub open spec fn top_mode(stack: Seq<ParseMode>) -> ParseMode {
    if stack.len() > 0 {
        stack.last()
    } else {
        ParseMode::Normal
    }
}

/// The mode stack after leaving the current mode.
pub open spec fn pop_stack(stack: Seq<ParseMode>) -> Seq<ParseMode> {
    if stack.len() > 0 {
        stack.drop_last()
    } else {
        stack
    }
}

/// The lexer context.
#[derive(Debug)]
pub struct LexerContext {
    pub depth: i32,
    pub is_unary: bool,
    pub is_leading: bool,
    pub is_continuous: bool,
    pub is_artificial_break: bool,
    pub allow_indent: bool,
    pub allow_redirect: bool,
    pub indent_counter: Counter,
    pub current_indent: usize,
    pub current_mode: ParseMode,
    pub parse_stack: Vec<ParseMode>,
}

/// The lexer context as a mathematical value: the indentation levels and
/// the mode stack are sequences.
pub struct CtxView {
    pub depth: i32,
    pub is_unary: bool,
    pub is_leading: bool,
    pub is_continuous: bool,
    pub is_artificial_break: bool,
    pub allow_indent: bool,
    pub allow_redirect: bool,
    pub levels: Seq<usize>,
    pub current_indent: usize,
    pub current_mode: ParseMode,
    pub stack: Seq<ParseMode>,
}

impl View for LexerContext {
    type V = CtxView;

    open spec fn view(&self) -> CtxView {
        CtxView {
            depth: self.depth,
            is_unary: self.is_unary,
            is_leading: self.is_leading,
            is_continuous: self.is_continuous,
            is_artificial_break: self.is_artificial_break,
            allow_indent: self.allow_indent,
            allow_redirect: self.allow_redirect,
            levels: self.indent_counter@,
            current_indent: self.current_indent,
            current_mode: self.current_mode,
            stack: self.parse_stack@,
        }
    }
}

impl CtxView {
    /// The mode stack keeps `Normal` at its bottom, and the current mode is
    /// of the kind of its top.
    pub open spec fn wf(self) -> bool {
        &&& self.stack.len() >= 1
        &&& self.stack[0] == ParseMode::Normal
        &&& same_kind(self.current_mode, self.stack.last())
    }

    /// The context at the start of a source.
    pub open spec fn initial() -> CtxView {
        CtxView {
            depth: 0,
            is_unary: false,
            is_leading: true,
            is_continuous: false,
            is_artificial_break: false,
            allow_indent: false,
            allow_redirect: false,
            levels: Seq::empty(),
            current_indent: 0,
            current_mode: ParseMode::Normal,
            stack: seq![ParseMode::Normal],
        }
    }

    /// After entering `mode`.
    pub open spec fn push_mode(self, mode: ParseMode) -> CtxView {
        CtxView { stack: self.stack.push(mode), current_mode: mode, ..self }
    }

    /// After leaving the current mode.
    pub open spec fn pop_mode(self) -> CtxView {
        CtxView {
            stack: pop_stack(self.stack),
            current_mode: top_mode(pop_stack(self.stack)),
            ..self
        }
    }

    /// After `join_next`.
    pub open spec fn join_next(self) -> CtxView {
        CtxView { is_continuous: true, ..self }
    }

    /// After `break_next`.
    pub open spec fn break_next(self) -> CtxView {
        CtxView { is_artificial_break: true, ..self }
    }

    /// After `shift_break`.
    pub open spec fn shift_break(self) -> CtxView {
        if self.is_artificial_break {
            CtxView { is_continuous: true, is_unary: false, ..self }
        } else {
            self
        }
    }

    /// After `discard_break`.
    pub open spec fn discard_break(self) -> CtxView {
        if self.is_artificial_break {
            CtxView { is_artificial_break: false, is_unary: self.is_continuous, ..self }
        } else {
            self
        }
    }

    /// An operator here is unary only because of a pending artificial break.
    pub open spec fn is_artificial_unary(self) -> bool {
        self.is_unary && self.is_artificial_break
    }

    /// After `update_unary` with `n_tokens` tokens read.
    pub open spec fn update_unary(self, n_tokens: nat) -> CtxView {
        CtxView {
            is_unary: self.is_continuous || self.is_artificial_break || n_tokens == 0,
            ..self
        }
    }

    /// After `start_indent`.
    pub open spec fn start_indent(self) -> CtxView {
        CtxView { allow_indent: true, ..self }
    }

    /// After `stop_indent`.
    pub open spec fn stop_indent(self) -> CtxView {
        CtxView { allow_indent: false, ..self }
    }

    /// After `start_redirect`.
    pub open spec fn start_redirect(self) -> CtxView {
        CtxView { allow_redirect: true, ..self }
    }

    /// After `stop_redirect`.
    pub open spec fn stop_redirect(self) -> CtxView {
        CtxView { allow_redirect: false, ..self }
    }
}

impl LexerContext {
    /// The context is well formed.
    pub open spec fn wf(&self) -> bool {
        self@.wf()
    }

    /// The context at the start of a source.
    pub fn new() -> (c: LexerContext)
        ensures
            c@ == CtxView::initial(),
            c.wf(),
    {
        let mut parse_stack = Vec::new();
        parse_stack.push(ParseMode::Normal);
        let c = LexerContext {
            depth: 0,
            is_unary: false,
            is_leading: true,
            is_continuous: false,
            is_artificial_break: false,
            allow_indent: false,
            allow_redirect: false,
            indent_counter: Counter::new(),
            current_indent: 0,
            current_mode: ParseMode::Normal,
            parse_stack,
        };
        assert(c@.stack =~= seq![ParseMode::Normal]);
        c
    }

    /// The mode on top of the mode stack.
    pub fn current_mode(&self) -> (m: ParseMode)
        ensures
            m == top_mode(self@.stack),
    {
        let n = self.parse_stack.len();
        if n > 0 {
            self.parse_stack[n - 1]
        } else {
            ParseMode::Normal
        }
    }

    /// Enters `mode`.
    pub fn push_mode(&mut self, mode: ParseMode)
        ensures
            final(self)@ == old(self)@.push_mode(mode),
            old(self)@.wf() ==> final(self)@.wf(),
    {
        self.parse_stack.push(mode);
        self.current_mode = mode;
    }

    /// Leaves the current mode.
    pub fn pop_mode(&mut self)
        ensures
            final(self)@ == old(self)@.pop_mode(),
            old(self)@.wf() && old(self)@.stack.len() >= 2 ==> final(self)@.wf(),
    {
        let _ = self.parse_stack.pop();
        self.current_mode = self.current_mode();
    }

    /// The next line break continues the statement.
    pub fn join_next(&mut self)
        ensures
            final(self)@ == old(self)@.join_next(),
    {
        self.is_continuous = true;
    }

    /// Requests an artificial break after the current token.
    pub fn break_next(&mut self)
        ensures
            final(self)@ == old(self)@.break_next(),
    {
        self.is_artificial_break = true;
    }

    /// Postpones a pending artificial break: the next token is joined.
    pub fn shift_break(&mut self)
        ensures
            final(self)@ == old(self)@.shift_break(),
    {
        if self.is_artificial_break {
            self.join_next();
            self.is_unary = false;
        }
    }

    /// Drops a pending artificial break.
    pub fn discard_break(&mut self)
        ensures
            final(self)@ == old(self)@.discard_break(),
    {
        if self.is_artificial_break {
            self.is_artificial_break = false;
            self.is_unary = self.is_continuous;
        }
    }

    /// An operator here is unary only because of a pending artificial break.
    pub fn is_artificial_unary(&self) -> (r: bool)
        ensures
            r == self@.is_artificial_unary(),
    {
        self.is_unary && self.is_artificial_break
    }

    /// An operator here is unary when the statement continues, a break is
    /// pending, or nothing has been read yet.
    pub fn update_unary(&mut self, tokens_len: usize)
        ensures
            final(self)@ == old(self)@.update_unary(tokens_len as nat),
    {
        self.is_unary = self.is_continuous || self.is_artificial_break || tokens_len == 0;
    }

    /// The next line may open an indented block.
    pub fn start_indent(&mut self)
        ensures
            final(self)@ == old(self)@.start_indent(),
    {
        self.allow_indent = true;
    }

    /// The next line may not open an indented block.
    pub fn stop_indent(&mut self)
        ensures
            final(self)@ == old(self)@.stop_indent(),
    {
        self.allow_indent = false;
    }

    /// The next line break starts a literal block.
    pub fn start_redirect(&mut self)
        ensures
            final(self)@ == old(self)@.start_redirect(),
    {
        self.allow_redirect = true;
    }

    /// The next line break does not start a literal block.
    pub fn stop_redirect(&mut self)
        ensures
            final(self)@ == old(self)@.stop_redirect(),
    {
        self.allow_redirect = false;
    }
}

/// Entering a mode and leaving it again restores the mode stack and the
/// current mode of a well-formed context.
pub proof fn law_pop_mode_undoes_push_mode(ctx: CtxView, mode: ParseMode)
    requires
        ctx.wf(),
    ensures
        ctx.push_mode(mode).pop_mode().stack == ctx.stack,
        same_kind(ctx.push_mode(mode).pop_mode().current_mode, ctx.current_mode),
        ctx.push_mode(mode).wf(),
        ctx.push_mode(mode).pop_mode().wf(),
{
    assert(ctx.stack.push(mode).drop_last() =~= ctx.stack);
}

} // verus!
