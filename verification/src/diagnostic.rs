//! Diagnostics: what an error report shows, as plain data. A diagnostic
//! has the kind and place of the error and the pieces of text of its
//! message, notes and further information, each with the color it is shown
//! in, in the order they are shown.

use vstd::prelude::*;
use crate::text::{string_push, string_push_str};

verus! {

/// The part of a diagnostic that a piece of text belongs to.
#[derive(Debug, Clone, Copy, PartialEq, Eq, Structural)]
pub enum Section {
    Message,
    Note,
    Info,
}

/// The color a piece of text is shown in.
#[derive(Debug, Clone, Copy, PartialEq, Eq, Structural)]
pub enum TextColor {
    Default,
    WhiteBold,
    Green,
    BrightBlueBold,
}

/// The stage that found the error.
#[derive(Debug, Clone, Copy, PartialEq, Eq, Structural)]
pub enum ErrorKind {
    Lexer,
    Parser,
}

/// A piece of text of a diagnostic.
#[derive(Debug, Clone)]
pub struct DiagnosticPart {
    pub section: Section,
    pub text: String,
    pub color: TextColor,
}

/// A piece of text as a mathematical value.
pub type PartView = (Section, Seq<char>, TextColor);

impl View for DiagnosticPart {
    type V = PartView;

    open spec fn view(&self) -> PartView {
        (self.section, self.text@, self.color)
    }
}

/// The report of an error: its kind, its place (line, column) and its text.
#[derive(Debug, Clone)]
pub struct Diagnostic {
    pub kind: ErrorKind,
    pub line: u32,
    pub column: u32,
    pub parts: Vec<DiagnosticPart>,
}

/// The pieces of text, as mathematical values.
pub open spec fn parts_view(parts: Seq<DiagnosticPart>) -> Seq<PartView> {
    parts.map_values(|p: DiagnosticPart| p@)
}

/// A piece of the message.
pub open spec fn message(text: Seq<char>, color: TextColor) -> PartView {
    (Section::Message, text, color)
}

/// A piece of a note.
pub open spec fn note(text: Seq<char>, color: TextColor) -> PartView {
    (Section::Note, text, color)
}

/// A piece of the further information.
pub open spec fn info(text: Seq<char>, color: TextColor) -> PartView {
    (Section::Info, text, color)
}

/// Appends a piece of text.
pub fn push_part(parts: &mut Vec<DiagnosticPart>, section: Section, text: &str, color: TextColor)
    ensures
        parts_view(final(parts)@) == parts_view(old(parts)@).push((section, text@, color)),
{
    let mut owned = String::new();
    string_push_str(&mut owned, text);
    assert(owned@ =~= text@);
    parts.push(DiagnosticPart { section, text: owned, color });
    assert(parts_view(parts@) =~= parts_view(old(parts)@).push((section, text@, color)));
}

/// Appends a piece of text that is already a `String`.
pub fn push_owned_part(parts: &mut Vec<DiagnosticPart>, section: Section, text: String, color: TextColor)
    ensures
        parts_view(final(parts)@) == parts_view(old(parts)@).push((section, text@, color)),
{
    let ghost t = text@;
    parts.push(DiagnosticPart { section, text, color });
    assert(parts_view(parts@) =~= parts_view(old(parts)@).push((section, t, color)));
}

/// The digit `d` (below 10) as a character.
pub open spec fn digit_char(d: nat) -> char {
    ((48 + d) as u8) as char
}

/// The decimal digits of `n`, without leading zeros (`0` for zero).
pub open spec fn decimal(n: nat) -> Seq<char>
    decreases n,
{
    if n < 10 {
        seq![digit_char(n)]
    } else {
        decimal(n / 10).push(digit_char(n % 10))
    }
}

/// Appends the decimal digits of `n`.
pub fn push_decimal(s: &mut String, n: usize)
    ensures
        final(s)@ == old(s)@ + decimal(n as nat),
    decreases n,
{
    if n >= 10 {
        push_decimal(s, n / 10);
    }
    let d: u8 = (n % 10) as u8;
    string_push(s, (48u8 + d) as char);
    assert(final(s)@ =~= old(s)@ + decimal(n as nat));
}

/// The decimal digits of `n`, as a string.
pub fn decimal_string(n: usize) -> (r: String)
    ensures
        r@ == decimal(n as nat),
{
    let mut r = String::new();
    push_decimal(&mut r, n);
    assert(r@ =~= decimal(n as nat));
    r
}

} // verus!
