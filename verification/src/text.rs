//! Small operations on strings and bytes that the lexer builds on.

use vstd::prelude::*;
use vstd::utf8::{valid_utf8, decode_utf8, pop_first_scalar};

verus! {

/// Appends the character `c` (`String::push`).
#[verifier::external_body]
pub(crate) fn string_push(s: &mut String, c: char)
    ensures
        final(s)@ == old(s)@.push(c),
{
    s.push(c);
}

/// Appends the string `t` (`String::push_str`).
#[verifier::external_body]
pub(crate) fn string_push_str(s: &mut String, t: &str)
    ensures
        final(s)@ == old(s)@ + t@,
{
    s.push_str(t);
}

/// Removes and returns the last character (`String::pop`).
#[verifier::external_body]
pub(crate) fn string_pop(s: &mut String) -> (r: Option<char>)
    ensures
        old(s)@.len() > 0 ==> final(s)@ == old(s)@.drop_last() && r == Some(old(s)@.last()),
        old(s)@.len() == 0 ==> final(s)@ == old(s)@ && r == None::<char>,
{
    s.pop()
}

/// Whether the string ends with the character `c` (`str::ends_with`).
#[verifier::external_body]
pub(crate) fn string_ends_with(s: &String, c: char) -> (r: bool)
    ensures
        r == (s@.len() > 0 && s@.last() == c),
{
    s.ends_with(c)
}

/// The text that the bytes `v` encode, when they are valid UTF-8
/// (`std::str::from_utf8`).
#[verifier::external_body]
pub(crate) fn str_from_utf8(v: &[u8]) -> (r: Option<&str>)
    ensures
        r is Some <==> valid_utf8(v@),
        r matches Some(s) ==> s@ == decode_utf8(v@),
{
    std::str::from_utf8(v).ok()
}

/// The characters with the Unicode property White_Space, which
/// `char::is_whitespace` tests.
pub open spec fn is_white_space(c: char) -> bool {
    let u = c as u32;
    ||| 0x9 <= u <= 0xD
    ||| u == 0x20 || u == 0x85 || u == 0xA0 || u == 0x1680
    ||| 0x2000 <= u <= 0x200A
    ||| u == 0x2028 || u == 0x2029 || u == 0x202F || u == 0x205F || u == 0x3000
}

/// `s` without the white space that begins it.
pub open spec fn trim_start(s: Seq<char>) -> Seq<char>
    decreases s.len(),
{
    if s.len() > 0 && is_white_space(s[0]) {
        trim_start(s.drop_first())
    } else {
        s
    }
}

/// `s` without the white space that ends it.
pub open spec fn trim_end(s: Seq<char>) -> Seq<char>
    decreases s.len(),
{
    if s.len() > 0 && is_white_space(s.last()) {
        trim_end(s.drop_last())
    } else {
        s
    }
}

/// `s` without the white space that begins or ends it.
pub open spec fn trim_white_space(s: Seq<char>) -> Seq<char> {
    trim_end(trim_start(s))
}

/// `s` without the white space that begins or ends it (`str::trim`, which
/// removes the characters that `char::is_whitespace` accepts).
#[verifier::external_body]
pub(crate) fn str_trim(s: &str) -> (r: &str)
    ensures
        r@ == trim_white_space(s@),
{
    s.trim()
}

/// Every byte of `s` is ASCII.
pub open spec fn ascii_bytes(s: Seq<u8>) -> bool {
    forall|k: int| 0 <= k < s.len() ==> #[trigger] s[k] < 128
}

/// ASCII bytes are valid UTF-8, and encode the characters with their codes.
pub proof fn lemma_ascii_utf8(s: Seq<u8>)
    requires
        ascii_bytes(s),
    ensures
        valid_utf8(s),
        decode_utf8(s) == bytes_as_chars(s),
    decreases s.len(),
{
    if s.len() > 0 {
        let b = s[0];
        assert(b < 128);
        assert((b & 0x7f) == b) by (bit_vector)
            requires
                b < 128,
        ;
        let rest = s.subrange(1, s.len() as int);
        assert(ascii_bytes(rest)) by {
            assert forall|k: int| 0 <= k < rest.len() implies #[trigger] rest[k] < 128 by {
                assert(rest[k] == s[k + 1]);
            }
        }
        lemma_ascii_utf8(rest);
        assert(pop_first_scalar(s) =~= rest);
        assert(decode_utf8(s) =~= bytes_as_chars(s));
    } else {
        assert(decode_utf8(s) =~= bytes_as_chars(s));
    }
}

/// Removing bytes keeps ASCII bytes ASCII.
pub proof fn lemma_ascii_without(s: Seq<u8>, b: u8)
    requires
        ascii_bytes(s),
    ensures
        ascii_bytes(without(s, b)),
    decreases s.len(),
{
    if s.len() > 0 {
        let r = s.drop_last();
        assert(ascii_bytes(r)) by {
            assert forall|k: int| 0 <= k < r.len() implies #[trigger] r[k] < 128 by {
                assert(r[k] == s[k]);
            }
        }
        lemma_ascii_without(r, b);
        assert(s.last() == s[s.len() - 1]);
        if s.last() != b {
            let w = without(r, b).push(s.last());
            assert forall|k: int| 0 <= k < w.len() implies #[trigger] w[k] < 128 by {
                if k < w.len() - 1 {
                    assert(w[k] == without(r, b)[k]);
                }
            }
        }
    }
}

/// The text that the valid UTF-8 bytes `bytes[from..to]` encode.
pub fn utf8_string(bytes: &[u8], from: usize, to: usize) -> (r: String)
    requires
        from <= to <= bytes@.len(),
        valid_utf8(bytes@.subrange(from as int, to as int)),
    ensures
        r@ == decode_utf8(bytes@.subrange(from as int, to as int)),
{
    let piece = vstd::slice::slice_subrange(bytes, from, to);
    let mut r = String::new();
    match str_from_utf8(piece) {
        Some(t) => {
            string_push_str(&mut r, t);
            assert(r@ =~= t@);
        },
        None => {},
    }
    r
}

/// The characters whose codes are the bytes of `s`.
pub open spec fn bytes_as_chars(s: Seq<u8>) -> Seq<char> {
    Seq::new(s.len(), |i: int| s[i] as char)
}

/// The bytes of `s` without the bytes equal to `b`.
pub open spec fn without(s: Seq<u8>, b: u8) -> Seq<u8>
    decreases s.len(),
{
    if s.len() == 0 {
        s
    } else if s.last() == b {
        without(s.drop_last(), b)
    } else {
        without(s.drop_last(), b).push(s.last())
    }
}

/// The bytes `bytes[from..to]` without the bytes equal to `b`.
pub fn bytes_without(bytes: &[u8], from: usize, to: usize, b: u8) -> (r: Vec<u8>)
    requires
        from <= to <= bytes@.len(),
    ensures
        r@ == without(bytes@.subrange(from as int, to as int), b),
{
    let mut r: Vec<u8> = Vec::new();
    let mut k = from;
    while k < to
        invariant
            from <= k <= to <= bytes@.len(),
            r@ == without(bytes@.subrange(from as int, k as int), b),
        decreases to - k,
    {
        let ghost prev = bytes@.subrange(from as int, k as int);
        if bytes[k] != b {
            r.push(bytes[k]);
        }
        k = k + 1;
        assert(bytes@.subrange(from as int, k as int).drop_last() =~= prev);
    }
    r
}

/// The bytes `bytes[from..to]` as a vector.
pub fn bytes_range(bytes: &[u8], from: usize, to: usize) -> (r: Vec<u8>)
    requires
        from <= to <= bytes@.len(),
    ensures
        r@ == bytes@.subrange(from as int, to as int),
{
    let mut r: Vec<u8> = Vec::new();
    let mut k = from;
    while k < to
        invariant
            from <= k <= to <= bytes@.len(),
            r@ == bytes@.subrange(from as int, k as int),
        decreases to - k,
    {
        r.push(bytes[k]);
        k = k + 1;
        assert(r@ =~= bytes@.subrange(from as int, k as int));
    }
    r
}

} // verus!
