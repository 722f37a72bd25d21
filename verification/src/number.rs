//! Numbers as the device and its users write them.
//!
//! A numeric field of a response is kept as the literal that was received, once it has been
//! checked against the grammar of decimal floating-point literals:
//!
//! ```text
//! Number   ::= Sign? ( 'inf' | 'infinity' | 'nan' | Decimal )
//! Decimal  ::= Mantissa ( 'e' Exponent )?
//! Mantissa ::= Digit+ | Digit+ '.' Digit* | Digit* '.' Digit+
//! Exponent ::= Sign? Digit+
//! Sign     ::= '+' | '-'
//! ```
//!
//! Letters count in either case. Nothing may stand before or after the literal.

use crate::text::{equals, field_bounds, free_of, lemma_split_covers, split};
use vstd::prelude::*;
use vstd::slice::slice_subrange;
use vstd::string::StringExecFns;

verus! {

/// Whether `c` is one of the ten decimal digits.
pub open spec fn is_digit(c: char) -> bool {
    '0' <= c && c <= '9'
}

/// Whether `s` holds decimal digits only.
pub open spec fn is_digits(s: Seq<char>) -> bool {
    forall|i: int| 0 <= i < s.len() ==> is_digit(#[trigger] s[i])
}

/// The lower-case form of an ASCII letter; every other character is itself.
pub open spec fn lower_char(c: char) -> char {
    if 'A' <= c && c <= 'Z' {
        ((c as u8) + 32) as char
    } else {
        c
    }
}

/// `s` with each ASCII letter in lower case.
pub open spec fn lower(s: Seq<char>) -> Seq<char> {
    Seq::new(s.len(), |i: int| lower_char(s[i]))
}

/// `s` without its sign, if it begins with one.
pub open spec fn unsigned(s: Seq<char>) -> Seq<char> {
    if s.len() > 0 && (s[0] == '+' || s[0] == '-') {
        s.subrange(1, s.len() as int)
    } else {
        s
    }
}

/// Digits with at most one point among them, and at least one digit.
pub open spec fn is_mantissa(s: Seq<char>) -> bool {
    let parts = split(s, '.');
    ||| parts.len() == 1 && parts[0].len() >= 1 && is_digits(parts[0])
    ||| parts.len() == 2 && parts[0].len() + parts[1].len() >= 1 && is_digits(parts[0])
        && is_digits(parts[1])
}

/// An optional sign and at least one digit.
pub open spec fn is_exponent(s: Seq<char>) -> bool {
    unsigned(s).len() >= 1 && is_digits(unsigned(s))
}

/// A mantissa, alone or followed by `e` and an exponent. Takes the literal in lower case.
pub open spec fn is_decimal(s: Seq<char>) -> bool {
    let parts = split(s, 'e');
    ||| parts.len() == 1 && is_mantissa(parts[0])
    ||| parts.len() == 2 && is_mantissa(parts[0]) && is_exponent(parts[1])
}

/// Whether `s` is a numeric literal: an optional sign, then a decimal or one of the words
/// `inf`, `infinity` and `nan`.
pub open spec fn is_number(s: Seq<char>) -> bool {
    let body = unsigned(lower(s));
    body == "inf"@ || body == "infinity"@ || body == "nan"@ || is_decimal(body)
}

fn to_lower_char(c: char) -> (l: char)
    ensures
        l == lower_char(c),
{
    if 'A' <= c && c <= 'Z' {
        ((c as u8) + 32) as char
    } else {
        c
    }
}

/// `text` with each ASCII letter in lower case.
pub fn to_lower(text: &[char]) -> (v: Vec<char>)
    ensures
        v@ == lower(text@),
{
    let n = text.len();
    let mut v: Vec<char> = Vec::new();
    let mut i: usize = 0;
    while i < n
        invariant
            i <= n,
            n == text@.len(),
            v@ == lower(text@).subrange(0, i as int),
        decreases n - i,
    {
        v.push(to_lower_char(text[i]));
        i += 1;
    }
    v
}

pub fn without_sign(text: &[char]) -> (body: &[char])
    ensures
        body@ == unsigned(text@),
{
    if text.len() > 0 && (text[0] == '+' || text[0] == '-') {
        slice_subrange(text, 1, text.len())
    } else {
        text
    }
}

/// Whether `text` holds decimal digits only.
pub fn all_digits(text: &[char]) -> (b: bool)
    ensures
        b == is_digits(text@),
{
    let n = text.len();
    let mut i: usize = 0;
    while i < n
        invariant
            i <= n,
            n == text@.len(),
            forall|k: int| 0 <= k < i ==> is_digit(#[trigger] text@[k]),
        decreases n - i,
    {
        let c = text[i];
        if !('0' <= c && c <= '9') {
            return false;
        }
        i += 1;
    }
    true
}

pub fn is_mantissa_text(text: &[char]) -> (b: bool)
    ensures
        b == is_mantissa(text@),
{
    let bounds = field_bounds(text, '.');
    if bounds.len() == 1 {
        let whole = slice_subrange(text, bounds[0].0, bounds[0].1);
        whole.len() >= 1 && all_digits(whole)
    } else if bounds.len() == 2 {
        let whole = slice_subrange(text, bounds[0].0, bounds[0].1);
        let fraction = slice_subrange(text, bounds[1].0, bounds[1].1);
        (whole.len() >= 1 || fraction.len() >= 1) && all_digits(whole) && all_digits(fraction)
    } else {
        false
    }
}

fn exponent(text: &[char]) -> (b: bool)
    ensures
        b == is_exponent(text@),
{
    let digits = without_sign(text);
    digits.len() >= 1 && all_digits(digits)
}

/// Whether `text`, in lower case and without a sign, is a mantissa, alone or with an exponent.
pub fn is_decimal_text(text: &[char]) -> (b: bool)
    ensures
        b == is_decimal(text@),
{
    let bounds = field_bounds(text, 'e');
    if bounds.len() == 1 {
        is_mantissa_text(slice_subrange(text, bounds[0].0, bounds[0].1))
    } else if bounds.len() == 2 {
        is_mantissa_text(slice_subrange(text, bounds[0].0, bounds[0].1)) && exponent(
            slice_subrange(text, bounds[1].0, bounds[1].1),
        )
    } else {
        false
    }
}

/// Whether `text` is a numeric literal.
pub fn is_number_text(text: &[char]) -> (b: bool)
    ensures
        b == is_number(text@),
{
    let lowered = to_lower(text);
    let body = without_sign(lowered.as_slice());
    equals(body, "inf") || equals(body, "infinity") || equals(body, "nan") || is_decimal_text(body)
}

/// A numeric literal as it was received: text that `is_number` accepts.
#[derive(Debug, PartialEq, Eq)]
pub struct Number {
    text: String,
}

impl View for Number {
    type V = Seq<char>;

    /// The literal.
    closed spec fn view(&self) -> Seq<char> {
        self.text@
    }
}

impl Clone for Number {
    fn clone(&self) -> (copy: Number)
        ensures
            copy@ == self@,
    {
        proof {
            use_type_invariant(self);
        }
        Number { text: self.text.clone() }
    }
}

impl Number {
    #[verifier::type_invariant]
    spec fn well_formed(self) -> bool {
        is_number(self.text@)
    }

    /// Keeps `text` as a number if it is a numeric literal.
    pub fn parse(text: &str) -> (number: Option<Number>)
        ensures
            number is Some == is_number(text@),
            number matches Some(n) ==> n@ == text@,
    {
        let chars = crate::text::chars_of(text);
        if is_number_text(chars.as_slice()) {
            Some(Number { text: String::from_str(text) })
        } else {
            None
        }
    }

    /// The literal. It is always a numeric literal.
    pub fn as_str(&self) -> (text: &str)
        ensures
            text@ == self@,
            is_number(self@),
    {
        proof {
            use_type_invariant(self);
        }
        self.text.as_str()
    }
}

/// A numeric literal holds no comma, so that numbers can stand in a comma-separated list.
pub proof fn lemma_number_has_no_comma(s: Seq<char>)
    requires
        is_number(s),
    ensures
        free_of(s, ','),
{
    reveal_strlit("inf");
    reveal_strlit("infinity");
    reveal_strlit("nan");
    let plain = |c: char| c != ',';
    let body = unsigned(lower(s));
    if is_decimal(body) {
        let parts = split(body, 'e');
        lemma_mantissa_has_no_comma(parts[0]);
        if parts.len() == 2 {
            let digits = unsigned(parts[1]);
            assert forall|j: int| 0 <= j < parts[1].len() implies plain(#[trigger] parts[1][j]) by {
                if digits.len() == parts[1].len() {
                    assert(is_digit(digits[j]));
                } else if j > 0 {
                    assert(is_digit(digits[j - 1]));
                }
            }
        }
        lemma_split_covers(body, 'e', plain);
    }
    assert forall|i: int| 0 <= i < s.len() implies s[i] != ',' by {
        assert(lower(s)[i] == lower_char(s[i]));
        if body.len() == s.len() {
            assert(plain(body[i]));
        } else if i > 0 {
            assert(plain(body[i - 1]));
        }
    }
}

proof fn lemma_mantissa_has_no_comma(s: Seq<char>)
    requires
        is_mantissa(s),
    ensures
        forall|i: int| 0 <= i < s.len() ==> #[trigger] s[i] != ',',
{
    let plain = |c: char| c != ',';
    let parts = split(s, '.');
    assert forall|k: int, j: int| 0 <= k < parts.len() && 0 <= j < parts[k].len() implies plain(
        #[trigger] parts[k][j],
    ) by {
        assert(is_digits(parts[k]));
        assert(is_digit(parts[k][j]));
    }
    lemma_split_covers(s, '.', plain);
}

} // verus!
