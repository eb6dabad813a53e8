//! The reading of numeric literals: integers in base 10, 16 (`0x`), 2 (`0b`)
//! and 8 (`0o`), and the form of floating-point literals.

use vstd::prelude::*;
use crate::ascii::{
    DIGIT_0, DIGIT_9, LOWER_A, LOWER_F, UPPER_A, UPPER_F, LOWER_X, LOWER_B, LOWER_O, DOT,
    LOWER_E, UPPER_E, PLUS, MINUS,
};
use crate::lexer::errors::NumericError;
use crate::text::{bytes_as_chars, string_push};

verus! {

/// The value of the digit `b` in base `base`, if it is one.
pub open spec fn digit_value(b: u8, base: nat) -> Option<nat> {
    let v: int = if DIGIT_0 <= b <= DIGIT_9 {
        b - DIGIT_0
    } else if LOWER_A <= b <= LOWER_F {
        b - LOWER_A + 10
    } else if UPPER_A <= b <= UPPER_F {
        b - UPPER_A + 10
    } else {
        base as int
    };
    if v < base {
        Some(v as nat)
    } else {
        None
    }
}

/// Every byte of `s` is a digit of base `base`.
pub open spec fn all_digits(s: Seq<u8>, base: nat) -> bool {
    forall|k: int| 0 <= k < s.len() ==> (#[trigger] digit_value(s[k], base)) is Some
}

/// The value of the digits `s` in base `base`.
pub open spec fn digits_value(s: Seq<u8>, base: nat) -> nat
    decreases s.len(),
{
    if s.len() == 0 {
        0
    } else {
        digits_value(s.drop_last(), base) * base + match digit_value(s.last(), base) {
            Some(d) => d,
            None => 0,
        }
    }
}

/// The base of an integer literal and its digits, after the base prefix.
pub open spec fn split_base(raw: Seq<u8>) -> (nat, Seq<u8>) {
    if raw.len() >= 2 && raw[0] == DIGIT_0 && raw[1] == LOWER_X {
        (16, raw.skip(2))
    } else if raw.len() >= 2 && raw[0] == DIGIT_0 && raw[1] == LOWER_B {
        (2, raw.skip(2))
    } else if raw.len() >= 2 && raw[0] == DIGIT_0 && raw[1] == LOWER_O {
        (8, raw.skip(2))
    } else {
        (10, raw)
    }
}

/// The value of the integer literal `raw`, which must fit in an `i64`.
///
/// This reading stands for the lax integer parser of the `dinocode_core`
/// crate (`parse_lax`), whose source is not available to this crate: it
/// accepts what the lexer's scanning lets into an integer lexeme (a base
/// prefix, then digits of that base) and nothing ties it to that parser.
pub open spec fn int_literal(raw: Seq<u8>) -> Result<int, NumericError> {
    let (base, digits) = split_base(raw);
    if digits.len() == 0 {
        Err(NumericError::Empty)
    } else if !all_digits(digits, base) {
        Err(NumericError::InvalidDigit)
    } else if digits_value(digits, base) > i64::MAX {
        Err(NumericError::Overflow)
    } else {
        Ok(digits_value(digits, base) as int)
    }
}

pub open spec fn is_dec(b: u8) -> bool {
    DIGIT_0 <= b <= DIGIT_9
}

/// The end of the run of decimal digits of `s` that starts at `k`.
pub open spec fn digit_run(s: Seq<u8>, k: int) -> int
    decreases s.len() - k,
{
    if 0 <= k < s.len() && is_dec(s[k]) {
        digit_run(s, k + 1)
    } else {
        k
    }
}

/// The literal `s` has the form `digits[.digits][(e|E)[+|-]digits]`.
pub open spec fn float_literal_ok(s: Seq<u8>) -> bool {
    let a = digit_run(s, 0);
    let b = if a < s.len() && s[a] == DOT {
        digit_run(s, a + 1)
    } else {
        a
    };
    let c = if b + 1 < s.len() && (s[b + 1] == PLUS || s[b + 1] == MINUS) {
        b + 2
    } else {
        b + 1
    };
    &&& a > 0
    &&& (b == s.len() || ((s[b] == LOWER_E || s[b] == UPPER_E) && c < s.len() && digit_run(
        s,
        c,
    ) == s.len()))
}

/// The text of a floating-point literal with its sign.
pub open spec fn signed_text(raw: Seq<u8>, is_negative: bool) -> Seq<char> {
    if is_negative {
        seq!['-'] + bytes_as_chars(raw)
    } else {
        bytes_as_chars(raw)
    }
}

proof fn lemma_digit_run_bounds(s: Seq<u8>, k: int)
    requires
        0 <= k <= s.len(),
    ensures
        k <= digit_run(s, k) <= s.len(),
    decreases s.len() - k,
{
    if 0 <= k < s.len() && is_dec(s[k]) {
        lemma_digit_run_bounds(s, k + 1);
    }
}

proof fn lemma_digits_value_grows(s: Seq<u8>, base: nat)
    requires
        s.len() > 0,
        base >= 1,
    ensures
        digits_value(s, base) >= digits_value(s.drop_last(), base),
{
    let v = digits_value(s.drop_last(), base);
    assert(v * base >= v) by (nonlinear_arith)
        requires
            base >= 1,
    ;
}

/// The end of the run of decimal digits of `s` from `k`.
fn scan_digits(s: &[u8], k: usize) -> (r: usize)
    requires
        k <= s@.len(),
    ensures
        r == digit_run(s@, k as int),
        k <= r <= s@.len(),
{
    let mut j = k;
    while j < s.len() && DIGIT_0 <= s[j] && s[j] <= DIGIT_9
        invariant
            k <= j <= s@.len(),
            digit_run(s@, k as int) == digit_run(s@, j as int),
        decreases s@.len() - j,
    {
        j = j + 1;
    }
    j
}

/// Whether `s` has the form of a floating-point literal.
pub fn is_float_literal(s: &[u8]) -> (r: bool)
    ensures
        r == float_literal_ok(s@),
{
    let len = s.len();
    let a = scan_digits(s, 0);
    if a == 0 {
        return false;
    }
    let b = if a < len && s[a] == DOT {
        scan_digits(s, a + 1)
    } else {
        a
    };
    if b == len {
        return true;
    }
    if !(s[b] == LOWER_E || s[b] == UPPER_E) {
        return false;
    }
    let c = if b + 1 < len && (s[b + 1] == PLUS || s[b + 1] == MINUS) {
        b + 2
    } else {
        b + 1
    };
    if c >= len {
        return false;
    }
    let d = scan_digits(s, c);
    d == len
}

/// The value of the digit `b` in base `base`, if it is one.
fn digit_of(b: u8, base: u8) -> (r: Option<u8>)
    requires
        base == 2 || base == 8 || base == 10 || base == 16,
    ensures
        r matches Some(d) ==> digit_value(b, base as nat) == Some(d as nat),
        r is None ==> digit_value(b, base as nat) is None,
{
    let v: u8 = if DIGIT_0 <= b && b <= DIGIT_9 {
        b - DIGIT_0
    } else if LOWER_A <= b && b <= LOWER_F {
        b - LOWER_A + 10
    } else if UPPER_A <= b && b <= UPPER_F {
        b - UPPER_A + 10
    } else {
        base
    };
    if v < base {
        Some(v)
    } else {
        None
    }
}

/// Reads the integer literal `raw` (digit separators already removed): a
/// base prefix `0x`, `0b` or `0o` or none, then digits of that base. The
/// value is negated when `is_negative`. This reader stands for the lax
/// integer parser of the `dinocode_core` crate, which cannot be called here;
/// see `int_literal`.
pub fn parse_i64_lex(raw: &[u8], is_negative: bool) -> (r: Result<i64, NumericError>)
    ensures
        r == (match int_literal(raw@) {
            Ok(v) => Ok::<i64, NumericError>((if is_negative { -v } else { v }) as i64),
            Err(e) => Err(e),
        }),
{
    let len = raw.len();
    let mut base: u8 = 10;
    let mut start: usize = 0;
    if len >= 2 && raw[0] == DIGIT_0 {
        if raw[1] == LOWER_X {
            base = 16;
            start = 2;
        } else if raw[1] == LOWER_B {
            base = 2;
            start = 2;
        } else if raw[1] == LOWER_O {
            base = 8;
            start = 2;
        }
    }
    let ghost digits = raw@.skip(start as int);
    assert(split_base(raw@) == (base as nat, digits));
    if start == len {
        return Err(NumericError::Empty);
    }
    let mut k = start;
    while k < len
        invariant
            start <= k <= len == raw@.len(),
            base == 2 || base == 8 || base == 10 || base == 16,
            digits == raw@.skip(start as int),
            split_base(raw@) == (base as nat, digits),
            start < len,
            forall|j: int| 0 <= j < k - start ==> (#[trigger] digit_value(digits[j], base as nat)) is Some,
        decreases len - k,
    {
        assert(raw@[k as int] == digits[k - start]);
        if digit_of(raw[k], base).is_none() {
            assert(digit_value(digits[k - start], base as nat) is None);
            assert(!all_digits(digits, base as nat));
            assert(digits.len() > 0);
            return Err(NumericError::InvalidDigit);
        }
        k = k + 1;
    }
    assert(all_digits(digits, base as nat));
    let mut acc: u64 = 0;
    let mut k = start;
    while k < len
        invariant
            start <= k <= len == raw@.len(),
            base == 2 || base == 8 || base == 10 || base == 16,
            digits == raw@.skip(start as int),
            all_digits(digits, base as nat),
            split_base(raw@) == (base as nat, digits),
            start < len,
            acc == digits_value(digits.take(k - start), base as nat),
            acc <= i64::MAX,
        decreases len - k,
    {
        assert(raw@[k as int] == digits[k - start]);
        assert(digit_value(digits[k - start], base as nat) is Some);
        let d = digit_of(raw[k], base).unwrap();
        assert(digits.take(k - start + 1).drop_last() =~= digits.take(k - start));
        assert(digits.take(k - start + 1).last() == digits[k - start]);
        assert((acc as int) * (base as int) <= 0x7fff_ffff_ffff_ffff * 16) by (nonlinear_arith)
            requires
                acc <= 0x7fff_ffff_ffff_ffff,
                base <= 16,
        ;
        let wide: u128 = (acc as u128) * (base as u128) + (d as u128);
        assert(wide == digits_value(digits.take(k - start + 1), base as nat));
        if wide > 0x7fff_ffff_ffff_ffff {
            proof {
                lemma_overflow_persists(digits, base as nat, k - start + 1);
                assert(digits.len() > 0);
            }
            return Err(NumericError::Overflow);
        }
        acc = wide as u64;
        k = k + 1;
    }
    assert(digits.take(len - start) =~= digits);
    let v: i64 = acc as i64;
    if is_negative {
        Ok(-v)
    } else {
        Ok(v)
    }
}

/// Once a prefix of the digits is worth more than `i64::MAX`, so are all the
/// digits.
proof fn lemma_overflow_persists(digits: Seq<u8>, base: nat, n: int)
    requires
        0 <= n <= digits.len(),
        base >= 1,
        digits_value(digits.take(n), base) > i64::MAX,
    ensures
        digits_value(digits, base) > i64::MAX,
    decreases digits.len() - n,
{
    if n < digits.len() {
        let next = digits.take(n + 1);
        assert(next.drop_last() =~= digits.take(n));
        lemma_digits_value_grows(next, base);
        lemma_overflow_persists(digits, base, n + 1);
    } else {
        assert(digits.take(n) =~= digits);
    }
}

/// Checks the floating-point literal `raw` (digit separators already
/// removed) and gives its text, with a leading `-` when `is_negative`.
pub fn float_literal_text(raw: &[u8], is_negative: bool) -> (r: Result<String, NumericError>)
    ensures
        float_literal_ok(raw@) ==> (r matches Ok(t) && t@ == signed_text(raw@, is_negative)),
        !float_literal_ok(raw@) ==> r == Err::<String, NumericError>(NumericError::MalformedFloat),
{
    if !is_float_literal(raw) {
        return Err(NumericError::MalformedFloat);
    }
    let mut t = String::new();
    if is_negative {
        string_push(&mut t, '-');
    }
    let ghost t0 = t@;
    let mut k: usize = 0;
    while k < raw.len()
        invariant
            k <= raw@.len(),
            t0 == (if is_negative { seq!['-'] } else { Seq::<char>::empty() }),
            t@ == t0 + bytes_as_chars(raw@.take(k as int)),
        decreases raw@.len() - k,
    {
        let c = raw[k] as char;
        string_push(&mut t, c);
        k = k + 1;
        assert(bytes_as_chars(raw@.take(k as int)) =~= bytes_as_chars(raw@.take(k - 1)).push(c));
        assert(t@ =~= t0 + bytes_as_chars(raw@.take(k as int)));
    }
    assert(raw@.take(raw@.len() as int) =~= raw@);
    assert(t@ =~= signed_text(raw@, is_negative));
    Ok(t)
}

/// Every byte of `s` is a decimal digit.
pub open spec fn decimal_digits(s: Seq<u8>) -> bool {
    forall|k: int| 0 <= k < s.len() ==> 0x30 <= #[trigger] s[k] <= 0x39
}

/// A run of digits from `k` to `m`, then no digit, is where `digit_run`
/// from `k` stops.
proof fn lemma_digit_run_to(s: Seq<u8>, k: int, m: int)
    requires
        0 <= k <= m <= s.len(),
        forall|j: int| k <= j < m ==> is_dec(#[trigger] s[j]),
        m == s.len() || !is_dec(s[m]),
    ensures
        digit_run(s, k) == m,
    decreases m - k,
{
    if k < m {
        lemma_digit_run_to(s, k + 1, m);
    }
}

/// The forms of a floating-point literal are well formed: digits, then
/// optionally a point and digits (possibly none), then optionally an
/// exponent marker `e` or `E`, a sign `+` or `-` or none, and digits.
pub proof fn law_float_forms(int_part: Seq<u8>, frac: Seq<u8>, exp: Seq<u8>, marker: u8, sign: Seq<u8>)
    requires
        int_part.len() > 0,
        decimal_digits(int_part),
        decimal_digits(frac),
        exp.len() > 0,
        decimal_digits(exp),
        marker == 0x65 || marker == 0x45,
        sign == Seq::<u8>::empty() || sign == seq![0x2bu8] || sign == seq![0x2du8],
    ensures
        float_literal_ok(int_part),
        float_literal_ok(int_part + seq![0x2eu8] + frac),
        float_literal_ok(int_part + seq![marker] + sign + exp),
        float_literal_ok(int_part + seq![0x2eu8] + frac + seq![marker] + sign + exp),
{
    let n = int_part.len() as int;
    lemma_digit_run_to(int_part, 0, n);
    let s1 = int_part + seq![0x2eu8] + frac;
    lemma_digit_run_to(s1, 0, n);
    lemma_digit_run_to(s1, n + 1, s1.len() as int);
    assert forall|j: int| 0 <= j < s1.len() implies is_dec(#[trigger] s1[j]) || s1[j] == 0x2e by {
        if j < n {
            assert(s1[j] == int_part[j]);
        } else if j > n {
            assert(s1[j] == frac[j - n - 1]);
        }
    }
    lemma_exponent_form(int_part, exp, marker, sign);
    lemma_exponent_form(s1, exp, marker, sign);
}

/// A number followed by an exponent is well formed when the number is.
proof fn lemma_exponent_form(head: Seq<u8>, exp: Seq<u8>, marker: u8, sign: Seq<u8>)
    requires
        head.len() > 0,
        float_literal_ok(head),
        forall|j: int| 0 <= j < head.len() ==> is_dec(#[trigger] head[j]) || head[j] == 0x2e,
        exp.len() > 0,
        decimal_digits(exp),
        marker == 0x65 || marker == 0x45,
        sign == Seq::<u8>::empty() || sign == seq![0x2bu8] || sign == seq![0x2du8],
    ensures
        float_literal_ok(head + seq![marker] + sign + exp),
{
    let h = head.len() as int;
    let s = head + seq![marker] + sign + exp;
    let c = h + 1 + sign.len();
    // where the digits (and the point) of the head end, in the head and in `s`
    let a = digit_run(head, 0);
    assert forall|j: int| 0 <= j < h implies s[j] == head[j] by {}
    lemma_digit_run_prefix(head, s, 0);
    let b = if a < h && head[a] == 0x2e {
        digit_run(head, a + 1)
    } else {
        a
    };
    if a < h && head[a] == 0x2e {
        lemma_digit_run_prefix(head, s, a + 1);
    }
    if b < h {
        assert(is_dec(head[b]) || head[b] == 0x2e);
    }
    assert(b == h);
    assert(s[h] == marker);
    if sign.len() > 0 {
        assert(s[h + 1] == sign[0]);
    } else {
        assert(s[h + 1] == exp[0]);
    }
    assert forall|j: int| c <= j < s.len() implies is_dec(#[trigger] s[j]) by {
        assert(s[j] == exp[j - c]);
    }
    lemma_digit_run_to(s, c, s.len() as int);
}

/// Where a run of digits stops in `p` is where it stops in any text that
/// extends `p` with a non-digit.
proof fn lemma_digit_run_prefix(p: Seq<u8>, s: Seq<u8>, k: int)
    requires
        0 <= k <= p.len() < s.len(),
        forall|j: int| 0 <= j < p.len() ==> s[j] == p[j],
        !is_dec(s[p.len() as int]),
    ensures
        digit_run(s, k) == digit_run(p, k),
    decreases p.len() - k,
{
    if k < p.len() && is_dec(p[k]) {
        lemma_digit_run_prefix(p, s, k + 1);
    }
}

/// The literal made of an integer part, then a point and a fractional part
/// when `dot`, then an exponent marker, a sign and exponent digits when
/// `exponent`.
pub open spec fn float_form(
    int_part: Seq<u8>,
    dot: bool,
    frac: Seq<u8>,
    exponent: bool,
    marker: u8,
    sign: Seq<u8>,
    exp: Seq<u8>,
) -> Seq<u8> {
    int_part + (if dot {
        seq![0x2eu8] + frac
    } else {
        Seq::empty()
    }) + (if exponent {
        seq![marker] + sign + exp
    } else {
        Seq::empty()
    })
}

/// The parts of a floating-point literal are of the right kinds: digits
/// before the point, digits (possibly none) after it, and an exponent of
/// `e` or `E`, an optional sign and digits.
pub open spec fn float_parts_ok(
    int_part: Seq<u8>,
    frac: Seq<u8>,
    exponent: bool,
    marker: u8,
    sign: Seq<u8>,
    exp: Seq<u8>,
) -> bool {
    &&& int_part.len() > 0 && decimal_digits(int_part)
    &&& decimal_digits(frac)
    &&& exponent ==> {
        &&& marker == 0x65 || marker == 0x45
        &&& sign == Seq::<u8>::empty() || sign == seq![0x2bu8] || sign == seq![0x2du8]
        &&& exp.len() > 0 && decimal_digits(exp)
    }
}

/// The bytes from `k` up to where `digit_run` stops are digits.
proof fn lemma_digit_run_digits(s: Seq<u8>, k: int)
    requires
        0 <= k <= s.len(),
    ensures
        k <= digit_run(s, k) <= s.len(),
        forall|j: int| k <= j < digit_run(s, k) ==> is_dec(#[trigger] s[j]),
    decreases s.len() - k,
{
    if k < s.len() && is_dec(s[k]) {
        lemma_digit_run_digits(s, k + 1);
    }
}

/// The digits of `s` from `k` to `m`.
proof fn lemma_digits_between(s: Seq<u8>, k: int, m: int)
    requires
        0 <= k <= m <= s.len(),
        forall|j: int| k <= j < m ==> is_dec(#[trigger] s[j]),
    ensures
        decimal_digits(s.subrange(k, m)),
{
    let t = s.subrange(k, m);
    assert forall|j: int| 0 <= j < t.len() implies 0x30 <= #[trigger] t[j] <= 0x39 by {
        assert(t[j] == s[k + j]);
        assert(is_dec(s[k + j]));
    }
}

/// Only those forms are well formed: a well-formed literal is digits, then
/// optionally a point and digits, then optionally an exponent.
pub proof fn law_float_forms_only(s: Seq<u8>)
    requires
        float_literal_ok(s),
    ensures
        exists|int_part: Seq<u8>, dot: bool, frac: Seq<u8>, exponent: bool, marker: u8, sign: Seq<u8>, exp: Seq<u8>|
            #[trigger] float_form(int_part, dot, frac, exponent, marker, sign, exp) == s && float_parts_ok(
                int_part,
                frac,
                exponent,
                marker,
                sign,
                exp,
            ),
{
    let a = digit_run(s, 0);
    lemma_digit_run_digits(s, 0);
    lemma_digits_between(s, 0, a);
    let dot = a < s.len() && s[a] == 0x2e;
    let b = if dot {
        digit_run(s, a + 1)
    } else {
        a
    };
    let frac = if dot {
        lemma_digit_run_digits(s, a + 1);
        lemma_digits_between(s, a + 1, b);
        s.subrange(a + 1, b)
    } else {
        Seq::<u8>::empty()
    };
    let exponent = b < s.len();
    let int_part = s.subrange(0, a);
    if exponent {
        let marker = s[b];
        let signed = b + 1 < s.len() && (s[b + 1] == 0x2b || s[b + 1] == 0x2d);
        let c = if signed {
            b + 2
        } else {
            b + 1
        };
        let sign = s.subrange(b + 1, c);
        if signed {
            assert(sign =~= seq![s[b + 1]]);
        } else {
            assert(sign =~= Seq::<u8>::empty());
        }
        let exp = s.subrange(c, s.len() as int);
        lemma_digit_run_digits(s, c);
        lemma_digits_between(s, c, s.len() as int);
        assert(float_form(int_part, dot, frac, exponent, marker, sign, exp) =~= s);
        assert(float_parts_ok(int_part, frac, exponent, marker, sign, exp));
    } else {
        let e = Seq::<u8>::empty();
        assert(float_form(int_part, dot, frac, exponent, 0, e, e) =~= s);
        assert(float_parts_ok(int_part, frac, exponent, 0, e, e));
    }
}

} // verus!
