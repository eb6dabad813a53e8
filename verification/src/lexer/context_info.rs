//! Where the current lexeme started, and the flags that qualify it.

use vstd::prelude::*;

verus! {

/// The start of the current lexeme and the flags gathered while reading it.
#[derive(Debug)]
pub struct LexerContextInfo {
    pub from_byte: usize,
    pub from_line: u32,
    pub from_column: u32,
    pub had_blank: bool,
    pub blank: bool,
    pub has_dot: bool,
    pub has_underscores: bool,
    pub unary_minus: bool,
    pub unary_plus: bool,
    pub expect_dollar_call: bool,
    pub expect_dot_access: bool,
    pub maybe_dot_access: bool,
    pub is_native_access: bool,
}

/// The information at the start of a source: line 1, column 1, no flag.
pub open spec fn initial_info() -> LexerContextInfo {
    LexerContextInfo {
        from_byte: 0,
        from_line: 1,
        from_column: 1,
        had_blank: false,
        blank: false,
        has_dot: false,
        has_underscores: false,
        unary_minus: false,
        unary_plus: false,
        expect_dollar_call: false,
        expect_dot_access: false,
        maybe_dot_access: false,
        is_native_access: false,
    }
}

impl LexerContextInfo {
    /// The next name is a member name: a dot asked for it, or a dot stands
    /// right before it.
    pub open spec fn dot_access_due(self) -> bool {
        self.expect_dot_access || (self.maybe_dot_access && !self.blank)
    }

    /// A unary sign was read.
    pub open spec fn signed(self) -> bool {
        self.unary_minus || self.unary_plus
    }

    /// Without the flags of a numeric literal.
    pub open spec fn without_number_flags(self) -> LexerContextInfo {
        LexerContextInfo {
            has_dot: false,
            has_underscores: false,
            unary_minus: false,
            unary_plus: false,
            ..self
        }
    }

    /// A new lexeme starts at byte `i`, on `line` at `column`.
    pub open spec fn started_at(self, i: usize, line: u32, column: u32) -> LexerContextInfo {
        LexerContextInfo {
            from_byte: i,
            from_line: line,
            from_column: column,
            had_blank: self.blank,
            expect_dollar_call: false,
            maybe_dot_access: false,
            ..self
        }
    }
}

impl LexerContextInfo {
    /// The information at the start of a source: line 1, column 1, no flag.
    pub fn new() -> (r: LexerContextInfo)
        ensures
            r == (LexerContextInfo {
                from_byte: 0,
                from_line: 1,
                from_column: 1,
                had_blank: false,
                blank: false,
                has_dot: false,
                has_underscores: false,
                unary_minus: false,
                unary_plus: false,
                expect_dollar_call: false,
                expect_dot_access: false,
                maybe_dot_access: false,
                is_native_access: false,
            }),
    {
        LexerContextInfo {
            from_byte: 0,
            from_line: 1,
            from_column: 1,
            had_blank: false,
            blank: false,
            has_dot: false,
            has_underscores: false,
            unary_minus: false,
            unary_plus: false,
            expect_dollar_call: false,
            expect_dot_access: false,
            maybe_dot_access: false,
            is_native_access: false,
        }
    }

    /// A dot was read that may introduce a member access.
    pub fn set_may_dot_access(&mut self)
        ensures
            *final(self) == (LexerContextInfo { maybe_dot_access: true, ..*old(self) }),
    {
        self.maybe_dot_access = true;
    }

    /// A member name must follow.
    pub fn set_dot_access(&mut self)
        ensures
            *final(self) == (LexerContextInfo { expect_dot_access: true, ..*old(self) }),
    {
        self.expect_dot_access = true;
    }

    /// Clears the member-access flags.
    pub fn reset_dot_access(&mut self)
        ensures
            *final(self) == (LexerContextInfo {
                expect_dot_access: false,
                maybe_dot_access: false,
                is_native_access: false,
                ..*old(self)
            }),
    {
        self.expect_dot_access = false;
        self.maybe_dot_access = false;
        self.is_native_access = false;
    }

    /// A dollar call must follow.
    pub fn set_dollar_call(&mut self)
        ensures
            *final(self) == (LexerContextInfo { expect_dollar_call: true, ..*old(self) }),
    {
        self.expect_dollar_call = true;
    }

    /// Clears the dollar-call flag.
    pub fn reset_dollar_call(&mut self)
        ensures
            *final(self) == (LexerContextInfo { expect_dollar_call: false, ..*old(self) }),
    {
        self.expect_dollar_call = false;
    }

    /// Clears the flags of a numeric literal.
    pub fn reset_number_flags(&mut self)
        ensures
            *final(self) == (LexerContextInfo {
                has_dot: false,
                has_underscores: false,
                unary_minus: false,
                unary_plus: false,
                ..*old(self)
            }),
    {
        self.has_dot = false;
        self.has_underscores = false;
        self.unary_minus = false;
        self.unary_plus = false;
    }

    /// A unary sign was read.
    pub fn has_sign(&self) -> (r: bool)
        ensures
            r == (self.unary_minus || self.unary_plus),
    {
        self.unary_minus || self.unary_plus
    }

    /// The next identifier is a member name.
    pub fn has_dot_access(&self) -> (r: bool)
        ensures
            r == (self.expect_dot_access || (self.maybe_dot_access && !self.blank)),
    {
        self.expect_dot_access || (self.maybe_dot_access && !self.blank)
    }

    /// A new lexeme starts at byte `i`, on `line` at `column`.
    pub fn update_flags(&mut self, i: usize, line: u32, column: u32)
        ensures
            *final(self) == (LexerContextInfo {
                from_byte: i,
                from_line: line,
                from_column: column,
                had_blank: old(self).blank,
                expect_dollar_call: false,
                maybe_dot_access: false,
                ..*old(self)
            }),
    {
        self.from_byte = i;
        self.from_line = line;
        self.from_column = column;
        self.had_blank = self.blank;
        self.expect_dollar_call = false;
        self.maybe_dot_access = false;
    }
}

} // verus!
