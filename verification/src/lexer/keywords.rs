//! The reserved words of the language.

use vstd::prelude::*;
use crate::ascii::{
    LOWER_A, LOWER_B, LOWER_C, LOWER_D, LOWER_E, LOWER_F, LOWER_H, LOWER_I, LOWER_K, LOWER_L,
    LOWER_N, LOWER_O, LOWER_R, LOWER_S, LOWER_T, LOWER_U, LOWER_W, UPPER_A, UPPER_Z, DOLLAR,
};

verus! {

/// The words that the lexer reads as something else than a name.
#[derive(Debug, Clone, Copy, PartialEq, Eq, Structural)]
pub enum Keyword {
    True,
    False,
    Null,
    NaN,
    Infinity,
    And,
    Or,
    Not,
    As,
    If,
    Elif,
    Else,
    Is,
    In,
    While,
    For,
    Dollar,
    Return,
    Break,
    Continue,
}

/// How a keyword is spelled (in lower case).
pub open spec fn spelling(k: Keyword) -> Seq<u8> {
    match k {
        Keyword::True => seq![LOWER_T, LOWER_R, LOWER_U, LOWER_E],
        Keyword::False => seq![LOWER_F, LOWER_A, LOWER_L, LOWER_S, LOWER_E],
        Keyword::Null => seq![LOWER_N, LOWER_O, LOWER_N, LOWER_E],
        Keyword::NaN => seq![LOWER_N, LOWER_A, LOWER_N],
        Keyword::Infinity => seq![LOWER_I, LOWER_N, LOWER_F, LOWER_I],
        Keyword::And => seq![LOWER_A, LOWER_N, LOWER_D],
        Keyword::Or => seq![LOWER_O, LOWER_R],
        Keyword::Not => seq![LOWER_N, LOWER_O, LOWER_T],
        Keyword::As => seq![LOWER_A, LOWER_S],
        Keyword::If => seq![LOWER_I, LOWER_F],
        Keyword::Elif => seq![LOWER_E, LOWER_L, LOWER_I, LOWER_F],
        Keyword::Else => seq![LOWER_E, LOWER_L, LOWER_S, LOWER_E],
        Keyword::Is => seq![LOWER_I, LOWER_S],
        Keyword::In => seq![LOWER_I, LOWER_N],
        Keyword::While => seq![LOWER_W, LOWER_H, LOWER_I, LOWER_L, LOWER_E],
        Keyword::For => seq![LOWER_F, LOWER_O, LOWER_R],
        Keyword::Dollar => seq![DOLLAR],
        Keyword::Return => seq![LOWER_R, LOWER_E, LOWER_T, LOWER_U, LOWER_R, LOWER_N],
        Keyword::Break => seq![LOWER_B, LOWER_R, LOWER_E, LOWER_A, LOWER_K],
        Keyword::Continue => seq![LOWER_C, LOWER_O, LOWER_N, LOWER_T, LOWER_I, LOWER_N, LOWER_U, LOWER_E],
    }
}

/// The keyword that the lower-case word `w` spells, if any.
pub open spec fn keyword_of(w: Seq<u8>) -> Option<Keyword> {
    if w == spelling(Keyword::True) {
        Some(Keyword::True)
    } else if w == spelling(Keyword::False) {
        Some(Keyword::False)
    } else if w == spelling(Keyword::Null) {
        Some(Keyword::Null)
    } else if w == spelling(Keyword::NaN) {
        Some(Keyword::NaN)
    } else if w == spelling(Keyword::Infinity) {
        Some(Keyword::Infinity)
    } else if w == spelling(Keyword::And) {
        Some(Keyword::And)
    } else if w == spelling(Keyword::Or) {
        Some(Keyword::Or)
    } else if w == spelling(Keyword::Not) {
        Some(Keyword::Not)
    } else if w == spelling(Keyword::As) {
        Some(Keyword::As)
    } else if w == spelling(Keyword::If) {
        Some(Keyword::If)
    } else if w == spelling(Keyword::Elif) {
        Some(Keyword::Elif)
    } else if w == spelling(Keyword::Else) {
        Some(Keyword::Else)
    } else if w == spelling(Keyword::Is) {
        Some(Keyword::Is)
    } else if w == spelling(Keyword::In) {
        Some(Keyword::In)
    } else if w == spelling(Keyword::While) {
        Some(Keyword::While)
    } else if w == spelling(Keyword::For) {
        Some(Keyword::For)
    } else if w == spelling(Keyword::Dollar) {
        Some(Keyword::Dollar)
    } else if w == spelling(Keyword::Return) {
        Some(Keyword::Return)
    } else if w == spelling(Keyword::Break) {
        Some(Keyword::Break)
    } else if w == spelling(Keyword::Continue) {
        Some(Keyword::Continue)
    } else {
        None
    }
}

/// The keywords that may only start a statement.
pub open spec fn is_statement_keyword(k: Keyword) -> bool {
    match k {
        Keyword::If | Keyword::Elif | Keyword::Else | Keyword::While | Keyword::For
        | Keyword::Return | Keyword::Break | Keyword::Continue => true,
        _ => false,
    }
}

/// Whether `k` may only start a statement.
pub fn statement_keyword(k: Keyword) -> (r: bool)
    ensures
        r == is_statement_keyword(k),
{
    match k {
        Keyword::If | Keyword::Elif | Keyword::Else | Keyword::While | Keyword::For
        | Keyword::Return | Keyword::Break | Keyword::Continue => true,
        _ => false,
    }
}

/// The ASCII lower case of a byte.
pub open spec fn lower_byte(b: u8) -> u8 {
    if UPPER_A <= b <= UPPER_Z {
        (b + 32) as u8
    } else {
        b
    }
}

/// The ASCII lower case of a word.
pub open spec fn lower_word(w: Seq<u8>) -> Seq<u8> {
    w.map_values(|b: u8| lower_byte(b))
}

/// The lower case of the word `bytes[from..to]`.
pub fn lower_bytes(bytes: &[u8], from: usize, to: usize) -> (r: Vec<u8>)
    requires
        from <= to <= bytes@.len(),
    ensures
        r@ == lower_word(bytes@.subrange(from as int, to as int)),
{
    let mut r: Vec<u8> = Vec::new();
    let mut k = from;
    while k < to
        invariant
            from <= k <= to <= bytes@.len(),
            r@ == lower_word(bytes@.subrange(from as int, k as int)),
        decreases to - k,
    {
        let b = bytes[k];
        let l: u8 = if UPPER_A <= b && b <= UPPER_Z {
            b + 32
        } else {
            b
        };
        r.push(l);
        k = k + 1;
        assert(r@ =~= lower_word(bytes@.subrange(from as int, k as int)));
    }
    r
}

/// Whether the bytes `w` are the bytes `s`.
fn spelled(w: &[u8], s: &[u8]) -> (r: bool)
    ensures
        r == (w@ == s@),
{
    if w.len() != s.len() {
        return false;
    }
    let mut k: usize = 0;
    while k < w.len()
        invariant
            w@.len() == s@.len(),
            k <= w@.len(),
            forall|j: int| 0 <= j < k ==> w@[j] == s@[j],
        decreases w@.len() - k,
    {
        if w[k] != s[k] {
            return false;
        }
        k = k + 1;
    }
    assert(w@ =~= s@);
    true
}

/// The keyword that the lower-case word `w` spells, if any.
pub fn keyword(w: &[u8]) -> (r: Option<Keyword>)
    ensures
        r == keyword_of(w@),
{
    let t = [LOWER_T, LOWER_R, LOWER_U, LOWER_E];
    assert(t@ =~= spelling(Keyword::True));
    if spelled(w, &t) {
        return Some(Keyword::True);
    }
    let t = [LOWER_F, LOWER_A, LOWER_L, LOWER_S, LOWER_E];
    assert(t@ =~= spelling(Keyword::False));
    if spelled(w, &t) {
        return Some(Keyword::False);
    }
    let t = [LOWER_N, LOWER_O, LOWER_N, LOWER_E];
    assert(t@ =~= spelling(Keyword::Null));
    if spelled(w, &t) {
        return Some(Keyword::Null);
    }
    let t = [LOWER_N, LOWER_A, LOWER_N];
    assert(t@ =~= spelling(Keyword::NaN));
    if spelled(w, &t) {
        return Some(Keyword::NaN);
    }
    let t = [LOWER_I, LOWER_N, LOWER_F, LOWER_I];
    assert(t@ =~= spelling(Keyword::Infinity));
    if spelled(w, &t) {
        return Some(Keyword::Infinity);
    }
    let t = [LOWER_A, LOWER_N, LOWER_D];
    assert(t@ =~= spelling(Keyword::And));
    if spelled(w, &t) {
        return Some(Keyword::And);
    }
    let t = [LOWER_O, LOWER_R];
    assert(t@ =~= spelling(Keyword::Or));
    if spelled(w, &t) {
        return Some(Keyword::Or);
    }
    let t = [LOWER_N, LOWER_O, LOWER_T];
    assert(t@ =~= spelling(Keyword::Not));
    if spelled(w, &t) {
        return Some(Keyword::Not);
    }
    let t = [LOWER_A, LOWER_S];
    assert(t@ =~= spelling(Keyword::As));
    if spelled(w, &t) {
        return Some(Keyword::As);
    }
    let t = [LOWER_I, LOWER_F];
    assert(t@ =~= spelling(Keyword::If));
    if spelled(w, &t) {
        return Some(Keyword::If);
    }
    let t = [LOWER_E, LOWER_L, LOWER_I, LOWER_F];
    assert(t@ =~= spelling(Keyword::Elif));
    if spelled(w, &t) {
        return Some(Keyword::Elif);
    }
    let t = [LOWER_E, LOWER_L, LOWER_S, LOWER_E];
    assert(t@ =~= spelling(Keyword::Else));
    if spelled(w, &t) {
        return Some(Keyword::Else);
    }
    let t = [LOWER_I, LOWER_S];
    assert(t@ =~= spelling(Keyword::Is));
    if spelled(w, &t) {
        return Some(Keyword::Is);
    }
    let t = [LOWER_I, LOWER_N];
    assert(t@ =~= spelling(Keyword::In));
    if spelled(w, &t) {
        return Some(Keyword::In);
    }
    let t = [LOWER_W, LOWER_H, LOWER_I, LOWER_L, LOWER_E];
    assert(t@ =~= spelling(Keyword::While));
    if spelled(w, &t) {
        return Some(Keyword::While);
    }
    let t = [LOWER_F, LOWER_O, LOWER_R];
    assert(t@ =~= spelling(Keyword::For));
    if spelled(w, &t) {
        return Some(Keyword::For);
    }
    let t = [DOLLAR];
    assert(t@ =~= spelling(Keyword::Dollar));
    if spelled(w, &t) {
        return Some(Keyword::Dollar);
    }
    let t = [LOWER_R, LOWER_E, LOWER_T, LOWER_U, LOWER_R, LOWER_N];
    assert(t@ =~= spelling(Keyword::Return));
    if spelled(w, &t) {
        return Some(Keyword::Return);
    }
    let t = [LOWER_B, LOWER_R, LOWER_E, LOWER_A, LOWER_K];
    assert(t@ =~= spelling(Keyword::Break));
    if spelled(w, &t) {
        return Some(Keyword::Break);
    }
    let t = [LOWER_C, LOWER_O, LOWER_N, LOWER_T, LOWER_I, LOWER_N, LOWER_U, LOWER_E];
    assert(t@ =~= spelling(Keyword::Continue));
    if spelled(w, &t) {
        return Some(Keyword::Continue);
    }
    None
}

/// Keywords are read back from their spelling: the spelling of each
/// keyword is recognized as that keyword, and a word is recognized as a
/// keyword only when it is that keyword's spelling.
pub proof fn law_keyword_spellings(k: Keyword, w: Seq<u8>)
    ensures
        keyword_of(spelling(k)) == Some(k),
        keyword_of(w) == Some(k) ==> w == spelling(k),
{
    let s = spelling(k);
    assert(s.len() > 0);
    assert forall|j: Keyword| j != k implies #[trigger] spelling(j) != s by {
        if spelling(j).len() == s.len() {
            let sj = spelling(j);
            if sj[0] == s[0] {
                if sj.len() > 1 && sj[1] == s[1] {
                    if sj.len() > 2 && sj[2] == s[2] {
                        assert(sj[3] != s[3]);
                    } else {
                        assert(sj.len() <= 2 || sj[2] != s[2]);
                    }
                }
            }
        }
    }
}

} // verus!
