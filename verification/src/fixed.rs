//! Fixed-point quantities: integers that count hundredths or thousandths, and the decimal
//! text that stands for them on the wire.

use crate::number::{
    all_digits, is_decimal, is_decimal_text, is_digit, is_digits, is_exponent, is_mantissa, lower,
    lower_char, to_lower, unsigned, without_sign,
};
use crate::text::{field_bounds, free_of, join, lemma_split_join, lemma_split_plain, split};
use vstd::prelude::*;
use vstd::slice::{slice_subrange, slice_to_vec};
use vstd::string::StringExecFns;

verus! {

/// The character that stands for the digit `d`.
pub open spec fn digit_char(d: int) -> char
    recommends
        0 <= d <= 9,
{
    ((48 + d) as u8) as char
}

/// The digit that `c` stands for.
pub open spec fn digit_of(c: char) -> int
    recommends
        is_digit(c),
{
    (c as u8) as int - 48
}

/// `n` in decimal, without leading zeros.
pub open spec fn digits_of(n: nat) -> Seq<char>
    decreases n,
{
    if n < 10 {
        seq![digit_char(n as int)]
    } else {
        digits_of(n / 10).push(digit_char((n % 10) as int))
    }
}

/// The number that a sequence of digits stands for; leading zeros count for nothing.
pub open spec fn digits_value(s: Seq<char>) -> nat
    recommends
        is_digits(s),
    decreases s.len(),
{
    if s.len() == 0 {
        0
    } else {
        (digits_value(s.drop_last()) * 10 + digit_of(s.last())) as nat
    }
}

/// `n` times the digit zero.
pub open spec fn zeros(n: nat) -> Seq<char> {
    Seq::new(n, |i: int| '0')
}

/// The digits of `n`, with zeros before them where there are fewer than `places + 1`.
pub open spec fn padded_digits(n: nat, places: nat) -> Seq<char> {
    let digits = digits_of(n);
    if digits.len() <= places {
        zeros((places + 1 - digits.len()) as nat) + digits
    } else {
        digits
    }
}

/// The text of `value` counted in units of 10 to the power `-places`: a minus sign if it is
/// negative, the whole part, a point, and exactly `places` digits.
pub open spec fn fixed_text(value: int, places: nat) -> Seq<char> {
    let magnitude = if value < 0 {
        (-value) as nat
    } else {
        value as nat
    };
    let digits = padded_digits(magnitude, places);
    let sign = if value < 0 {
        seq!['-']
    } else {
        Seq::<char>::empty()
    };
    sign + digits.subrange(0, digits.len() - places).push('.') + digits.subrange(
        digits.len() - places,
        digits.len() as int,
    )
}

/// Whether `s` holds the digit zero only.
pub open spec fn is_zeros(s: Seq<char>) -> bool {
    forall|i: int| 0 <= i < s.len() ==> #[trigger] s[i] == '0'
}

/// The whole number that an exponent stands for: its digits, counted below zero where a
/// minus sign stands before them.
pub open spec fn exponent_value(s: Seq<char>) -> int {
    if s.len() > 0 && s[0] == '-' {
        -(digits_value(unsigned(s)) as int)
    } else {
        digits_value(unsigned(s)) as int
    }
}

/// Whether a number goes up to the next unit when the digits `dropped` are cut off behind
/// it: they are more than half a unit, or exactly half a unit behind an odd number.
pub open spec fn rounds_up(dropped: Seq<char>, odd: bool) -> bool
    recommends
        dropped.len() >= 1,
{
    digit_of(dropped[0]) > 5 || (digit_of(dropped[0]) == 5 && (odd || !is_zeros(
        dropped.subrange(1, dropped.len() as int),
    )))
}

/// The number that the first `cut` digits of `digits` stand for, rounded to the nearest by
/// the digits behind them, and to the even one where both are as near. Where `cut` is more
/// than there are digits, zeros stand for the digits that are missing; where it is less
/// than none, the number is zero.
pub open spec fn round_at(digits: Seq<char>, cut: int) -> nat {
    if cut < 0 {
        0
    } else if cut >= digits.len() {
        digits_value(digits + zeros((cut - digits.len()) as nat))
    } else {
        let kept = digits_value(digits.subrange(0, cut));
        if rounds_up(digits.subrange(cut, digits.len() as int), kept % 2 == 1) {
            kept + 1
        } else {
            kept
        }
    }
}

/// The quantity that a numeric literal stands for, in units of 10 to the power `-places`:
/// the exact decimal value of the literal, rounded to the nearest unit, and to the even one
/// where two are as near. The literal is an optional sign, digits with at most one point
/// among them, and an optional exponent; its letters count in either case. `inf`,
/// `infinity` and `nan` stand for no quantity, and neither does a text that is no numeric
/// literal.
pub open spec fn fixed_value(text: Seq<char>, places: nat) -> Option<int> {
    let body = unsigned(lower(text));
    if is_decimal(body) {
        let parts = split(body, 'e');
        let mantissa = split(parts[0], '.');
        let fraction = if mantissa.len() == 2 {
            mantissa[1]
        } else {
            Seq::<char>::empty()
        };
        let exponent = if parts.len() == 2 {
            exponent_value(parts[1])
        } else {
            0
        };
        let magnitude = round_at(mantissa[0] + fraction, mantissa[0].len() + exponent + places);
        Some(
            if text[0] == '-' {
                -(magnitude as int)
            } else {
                magnitude as int
            },
        )
    } else {
        None
    }
}

/// Ten to the power `k`.
pub open spec fn pow10(k: nat) -> nat
    decreases k,
{
    if k == 0 {
        1
    } else {
        10 * pow10((k - 1) as nat)
    }
}

/// Reading more digits never gives a smaller number.
proof fn lemma_digits_value_grows(s: Seq<char>, k: int)
    requires
        is_digits(s),
        0 <= k <= s.len(),
    ensures
        digits_value(s.subrange(0, k)) <= digits_value(s),
    decreases s.len() - k,
{
    if k == s.len() {
        assert(s.subrange(0, k) =~= s);
    } else {
        lemma_digits_value_grows(s, k + 1);
        let longer = s.subrange(0, k + 1);
        assert(longer.drop_last() =~= s.subrange(0, k));
        assert(is_digit(s[k]));
        assert(longer.last() == s[k]);
    }
}

/// Each zero behind the digits of a number makes it ten times as large.
proof fn lemma_trailing_zeros(s: Seq<char>, k: nat)
    ensures
        digits_value(s + zeros(k)) == digits_value(s) * pow10(k),
    decreases k,
{
    let a = digits_value(s);
    if k == 0 {
        assert(s + zeros(0) =~= s);
        assert(a * 1 == a) by (nonlinear_arith);
    } else {
        let shorter = s + zeros((k - 1) as nat);
        let longer = s + zeros(k);
        lemma_trailing_zeros(s, (k - 1) as nat);
        assert(longer.drop_last() =~= shorter);
        assert(longer.last() == '0');
        assert(digit_of('0') == 0);
        assert(digits_value(longer) == digits_value(shorter) * 10);
        let b = pow10((k - 1) as nat);
        assert((a * b) * 10 == a * (10 * b)) by (nonlinear_arith);
    }
}

/// Twenty zeros and more behind a number that is not zero take it beyond sixty-four bits.
proof fn lemma_round_at_far(digits: Seq<char>, cut: int)
    requires
        cut >= digits.len() + 20,
    ensures
        digits_value(digits) == 0 ==> round_at(digits, cut) == 0,
        digits_value(digits) >= 1 ==> round_at(digits, cut) >= 0x1_0000_0000_0000_0000,
{
    let k = (cut - digits.len()) as nat;
    lemma_trailing_zeros(digits, k);
    lemma_pow10_grows(20, k);
    assert(pow10(20) == 100000000000000000000) by {
        reveal_with_fuel(pow10, 21);
    }
    let a = digits_value(digits);
    let b = pow10(k);
    if a >= 1 {
        assert(a * b >= b) by (nonlinear_arith)
            requires
                a >= 1,
                b >= 0,
        ;
    } else {
        assert(a * b == 0) by (nonlinear_arith)
            requires
                a == 0,
        ;
    }
}

/// A higher power of ten is not smaller.
proof fn lemma_pow10_grows(j: nat, k: nat)
    requires
        j <= k,
    ensures
        pow10(j) <= pow10(k),
    decreases k,
{
    if j < k {
        lemma_pow10_grows(j, (k - 1) as nat);
    }
}

/// The number that `digits` stands for, if it is at most `limit`.
fn value_up_to(digits: &[char], limit: u128) -> (value: Option<u128>)
    requires
        is_digits(digits@),
    ensures
        value is Some == (digits_value(digits@) <= limit),
        value matches Some(v) ==> v == digits_value(digits@),
{
    let n = digits.len();
    let mut acc: u128 = 0;
    let mut i: usize = 0;
    proof {
        assert(digits@.subrange(0, 0) =~= Seq::<char>::empty());
    }
    while i < n
        invariant
            i <= n,
            n == digits@.len(),
            is_digits(digits@),
            acc == digits_value(digits@.subrange(0, i as int)),
            acc <= limit,
        decreases n - i,
    {
        let c = digits[i];
        let d: u128 = ((c as u8) - 48) as u128;
        proof {
            assert(is_digit(digits@[i as int]));
            let longer = digits@.subrange(0, i + 1);
            assert(longer.drop_last() =~= digits@.subrange(0, i as int));
            assert(longer.last() == c);
            assert(digits_value(longer) == acc * 10 + d);
            lemma_digits_value_grows(digits@, i + 1);
        }
        if d > limit || acc > (limit - d) / 10 {
            return None;
        }
        acc = acc * 10 + d;
        i += 1;
    }
    proof {
        assert(digits@.subrange(0, n as int) =~= digits@);
    }
    Some(acc)
}

/// Whether `text` holds the digit zero only.
fn all_zeros(text: &[char]) -> (b: bool)
    ensures
        b == is_zeros(text@),
{
    let n = text.len();
    let mut i: usize = 0;
    while i < n
        invariant
            i <= n,
            n == text@.len(),
            forall|k: int| 0 <= k < i ==> #[trigger] text@[k] == '0',
        decreases n - i,
    {
        if text[i] != '0' {
            return false;
        }
        i += 1;
    }
    true
}

/// The whole number that an exponent stands for, kept within 2 to the power 100 on either
/// side of zero.
fn exponent_of(text: &[char]) -> (e: i128)
    requires
        is_exponent(text@),
    ensures
        -0x10_0000_0000_0000_0000_0000_0000 <= e <= 0x10_0000_0000_0000_0000_0000_0000,
        -0x10_0000_0000_0000_0000_0000_0000 <= exponent_value(text@)
            <= 0x10_0000_0000_0000_0000_0000_0000 ==> e == exponent_value(text@),
        exponent_value(text@) > 0x10_0000_0000_0000_0000_0000_0000 ==> e
            == 0x10_0000_0000_0000_0000_0000_0000,
        exponent_value(text@) < -0x10_0000_0000_0000_0000_0000_0000 ==> e
            == -0x10_0000_0000_0000_0000_0000_0000,
{
    let digits = without_sign(text);
    let negative = text[0] == '-';
    match value_up_to(digits, 0x10_0000_0000_0000_0000_0000_0000) {
        Some(value) => if negative {
            -(value as i128)
        } else {
            value as i128
        },
        None => if negative {
            -0x10_0000_0000_0000_0000_0000_0000
        } else {
            0x10_0000_0000_0000_0000_0000_0000
        },
    }
}

/// The number that the first `cut` digits of `digits` stand for, rounded by the digits
/// behind them, if it is at most `limit`.
fn round_digits(digits: &[char], cut: i128, limit: u128) -> (value: Option<u128>)
    requires
        is_digits(digits@),
        limit <= 0x8000_0000_0000_0000,
    ensures
        value is Some == (round_at(digits@, cut as int) <= limit),
        value matches Some(v) ==> v == round_at(digits@, cut as int),
{
    let n = digits.len();
    if cut < 0 {
        return Some(0);
    }
    if cut >= n as i128 {
        let extra = cut - n as i128;
        if extra >= 20 {
            proof {
                lemma_round_at_far(digits@, cut as int);
            }
            match value_up_to(digits, 0) {
                Some(_) => Some(0),
                None => None,
            }
        } else {
            let mut all = slice_to_vec(digits);
            let mut k: i128 = 0;
            proof {
                assert(all@ =~= digits@ + zeros(0));
            }
            while k < extra
                invariant
                    0 <= k <= extra < 20,
                    is_digits(digits@),
                    all@ == digits@ + zeros(k as nat),
                decreases extra - k,
            {
                all.push('0');
                k += 1;
                proof {
                    assert(all@ =~= digits@ + zeros(k as nat));
                }
            }
            proof {
                assert(is_digits(all@)) by {
                    assert forall|i: int| 0 <= i < all@.len() implies is_digit(
                        #[trigger] all@[i],
                    ) by {
                        if i < digits@.len() {
                            assert(is_digit(digits@[i]));
                        }
                    }
                }
            }
            value_up_to(all.as_slice(), limit)
        }
    } else {
        let at = cut as usize;
        let kept = slice_subrange(digits, 0, at);
        let dropped = slice_subrange(digits, at, n);
        proof {
            assert(is_digits(kept@)) by {
                assert forall|i: int| 0 <= i < kept@.len() implies is_digit(
                    #[trigger] kept@[i],
                ) by {
                    assert(is_digit(digits@[i]));
                }
            }
            assert(is_digit(digits@[at as int]));
        }
        match value_up_to(kept, limit) {
            Some(value) => {
                let first = dropped[0];
                let up = first > '5' || (first == '5' && (value % 2 == 1 || !all_zeros(
                    slice_subrange(dropped, 1, dropped.len()),
                )));
                if !up {
                    Some(value)
                } else if value == limit {
                    None
                } else {
                    Some(value + 1)
                }
            },
            None => None,
        }
    }
}

/// The quantity that `text` stands for, in units of 10 to the power `-places`, if `text` is
/// a numeric literal that stands for a quantity and the quantity fits into sixty-four bits.
pub fn parse_fixed(text: &[char], places: u8) -> (value: Option<i64>)
    ensures
        value == match fixed_value(text@, places as nat) {
            Some(v) => if i64::MIN <= v <= i64::MAX {
                Some(v as i64)
            } else {
                None
            },
            None => None,
        },
{
    let lowered = to_lower(text);
    let body = without_sign(lowered.as_slice());
    if !is_decimal_text(body) {
        return None;
    }
    let negative = text.len() > 0 && text[0] == '-';
    let parts = field_bounds(body, 'e');
    let mantissa = slice_subrange(body, parts[0].0, parts[0].1);
    let point = field_bounds(mantissa, '.');
    let whole = slice_subrange(mantissa, point[0].0, point[0].1);
    let fraction = if point.len() == 2 {
        slice_subrange(mantissa, point[1].0, point[1].1)
    } else {
        slice_subrange(mantissa, 0, 0)
    };
    proof {
        assert(mantissa@.subrange(0, 0) =~= Seq::<char>::empty());
        assert(is_mantissa(mantissa@));
        assert(is_digits(whole@));
        assert(is_digits(fraction@));
    }
    let mut digits: Vec<char> = slice_to_vec(whole);
    let mut i: usize = 0;
    proof {
        assert(digits@ =~= whole@ + fraction@.subrange(0, 0));
    }
    while i < fraction.len()
        invariant
            i <= fraction@.len(),
            digits@ == whole@ + fraction@.subrange(0, i as int),
        decreases fraction@.len() - i,
    {
        digits.push(fraction[i]);
        i += 1;
        proof {
            assert(digits@ =~= whole@ + fraction@.subrange(0, i as int));
        }
    }
    proof {
        assert(fraction@.subrange(0, fraction@.len() as int) =~= fraction@);
        assert(is_digits(digits@)) by {
            assert forall|k: int| 0 <= k < digits@.len() implies is_digit(
                #[trigger] digits@[k],
            ) by {
                if k < whole@.len() {
                    assert(is_digit(whole@[k]));
                } else {
                    assert(is_digit(fraction@[k - whole@.len()]));
                }
            }
        }
    }
    let shift: i128 = if parts.len() == 2 {
        exponent_of(slice_subrange(body, parts[1].0, parts[1].1))
    } else {
        0
    };
    let cut: i128 = whole.len() as i128 + shift + places as i128;
    let limit: u128 = if negative {
        0x8000_0000_0000_0000
    } else {
        0x7fff_ffff_ffff_ffff
    };
    let ghost exact = if parts.len() == 2 {
        exponent_value(split(body@, 'e')[1])
    } else {
        0
    };
    proof {
        let true_cut = whole@.len() + exact + places;
        if true_cut != cut {
            if exact > 0 {
                lemma_round_at_far(digits@, true_cut);
                lemma_round_at_far(digits@, cut as int);
            }
        }
        assert(lower(text@)[0] == lower_char(text@[0]));
    }
    match round_digits(digits.as_slice(), cut, limit) {
        Some(magnitude) => {
            if negative {
                if magnitude == 0x8000_0000_0000_0000 {
                    Some(i64::MIN)
                } else {
                    Some(-(magnitude as i64))
                }
            } else {
                Some(magnitude as i64)
            }
        },
        None => None,
    }
}

/// The character that stands for the digit `d`.
fn digit(d: u8) -> (c: char)
    requires
        d <= 9,
    ensures
        c == digit_char(d as int),
        is_digit(c),
{
    (48 + d) as char
}

/// Adds the decimal digits of `n` to `out`.
fn push_digits(n: u64, out: &mut Vec<char>)
    ensures
        final(out)@ == old(out)@ + digits_of(n as nat),
    decreases n,
{
    if n >= 10 {
        push_digits(n / 10, out);
    }
    out.push(digit((n % 10) as u8));
    proof {
        assert(out@ =~= old(out)@ + digits_of(n as nat));
    }
}

/// The one-character text of a digit.
fn digit_text(c: char) -> (text: &'static str)
    requires
        is_digit(c),
    ensures
        text@ == seq![c],
{
    proof {
        reveal_strlit("0");
        reveal_strlit("1");
        reveal_strlit("2");
        reveal_strlit("3");
        reveal_strlit("4");
        reveal_strlit("5");
        reveal_strlit("6");
        reveal_strlit("7");
        reveal_strlit("8");
        reveal_strlit("9");
    }
    let text = if c == '0' {
        "0"
    } else if c == '1' {
        "1"
    } else if c == '2' {
        "2"
    } else if c == '3' {
        "3"
    } else if c == '4' {
        "4"
    } else if c == '5' {
        "5"
    } else if c == '6' {
        "6"
    } else if c == '7' {
        "7"
    } else if c == '8' {
        "8"
    } else {
        "9"
    };
    proof {
        assert(text@ =~= seq![c]);
    }
    text
}

/// Adds the digits of `digits` between `from` and `to` to `out`.
fn append_digits(out: &mut String, digits: &Vec<char>, from: usize, to: usize)
    requires
        from <= to <= digits@.len(),
        is_digits(digits@),
    ensures
        final(out)@ == old(out)@ + digits@.subrange(from as int, to as int),
{
    let mut i = from;
    proof {
        assert(out@ =~= old(out)@ + digits@.subrange(from as int, from as int));
    }
    while i < to
        invariant
            from <= i <= to <= digits@.len(),
            is_digits(digits@),
            out@ == old(out)@ + digits@.subrange(from as int, i as int),
        decreases to - i,
    {
        proof {
            assert(is_digit(digits@[i as int]));
        }
        out.append(digit_text(digits[i]));
        i += 1;
        proof {
            assert(out@ =~= old(out)@ + digits@.subrange(from as int, i as int));
        }
    }
}

/// The digits of a number are digits, and there is at least one.
pub proof fn lemma_digits_of(n: nat)
    ensures
        is_digits(digits_of(n)),
        digits_of(n).len() >= 1,
        digits_value(digits_of(n)) == n,
    decreases n,
{
    let d = (n % 10) as int;
    assert(is_digit(digit_char(d)) && digit_of(digit_char(d)) == d);
    if n >= 10 {
        lemma_digits_of(n / 10);
        assert(digits_of(n).drop_last() =~= digits_of(n / 10));
        assert(digits_of(n).last() == digit_char(d));
    } else {
        assert(digits_of(n).drop_last() =~= Seq::<char>::empty());
        assert(digits_of(n).last() == digit_char(d));
        assert(digits_value(Seq::<char>::empty()) == 0);
    }
}

/// The text of `value` counted in units of 10 to the power `-places`.
pub fn fixed_string(value: i64, places: u8) -> (out: String)
    ensures
        out@ == fixed_text(value as int, places as nat),
{
    let places = places as usize;
    let magnitude: u64 = if value == i64::MIN {
        0x8000_0000_0000_0000
    } else if value < 0 {
        (-value) as u64
    } else {
        value as u64
    };
    let mut digits: Vec<char> = Vec::new();
    push_digits(magnitude, &mut digits);
    proof {
        lemma_digits_of(magnitude as nat);
        assert(digits@ =~= digits_of(magnitude as nat));
    }
    let mut padded: Vec<char> = Vec::new();
    if digits.len() <= places {
        let count = places + 1 - digits.len();
        let mut k: usize = 0;
        while k < count
            invariant
                k <= count,
                padded@ == zeros(k as nat),
            decreases count - k,
        {
            padded.push('0');
            k += 1;
            proof {
                assert(padded@ =~= zeros(k as nat));
            }
        }
    }
    let ghost lead = padded@;
    let mut i: usize = 0;
    while i < digits.len()
        invariant
            i <= digits@.len(),
            padded@ == lead + digits@.subrange(0, i as int),
        decreases digits@.len() - i,
    {
        padded.push(digits[i]);
        i += 1;
        proof {
            assert(padded@ =~= lead + digits@.subrange(0, i as int));
        }
    }
    proof {
        assert(digits@.subrange(0, digits@.len() as int) =~= digits@);
        assert(padded@ =~= padded_digits(magnitude as nat, places as nat));
        assert(is_digits(padded@));
    }
    let mut out = String::new();
    if value < 0 {
        out.append("-");
    }
    let point = padded.len() - places;
    append_digits(&mut out, &padded, 0, point);
    out.append(".");
    append_digits(&mut out, &padded, point, padded.len());
    proof {
        reveal_strlit("-");
        reveal_strlit(".");
        assert("-"@ =~= seq!['-']);
        assert("."@ =~= seq!['.']);
        assert(out@ =~= fixed_text(value as int, places as nat));
    }
    out
}

/// Zeros before the digits of a number do not change it.
proof fn lemma_leading_zeros(k: nat, s: Seq<char>)
    ensures
        digits_value(zeros(k) + s) == digits_value(s),
    decreases s.len(), k,
{
    if s.len() > 0 {
        lemma_leading_zeros(k, s.drop_last());
        assert((zeros(k) + s).drop_last() =~= zeros(k) + s.drop_last());
        assert((zeros(k) + s).last() == s.last());
    } else if k > 0 {
        lemma_leading_zeros((k - 1) as nat, s);
        assert((zeros(k) + s).drop_last() =~= zeros((k - 1) as nat) + s);
        assert((zeros(k) + s).last() == '0');
    } else {
        assert(zeros(k) + s =~= Seq::<char>::empty());
    }
}

/// The text of a quantity stands for that quantity, and it is made of digits, one point
/// and, for a negative quantity, a minus sign in front.
pub proof fn lemma_fixed_text_reads_back(value: int, places: nat)
    ensures
        fixed_value(fixed_text(value, places), places) == Some(value),
        forall|i: int|
            0 <= i < fixed_text(value, places).len() ==> {
                let c = #[trigger] fixed_text(value, places)[i];
                c == '-' || c == '.' || is_digit(c)
            },
{
    let magnitude = if value < 0 {
        (-value) as nat
    } else {
        value as nat
    };
    let digits = digits_of(magnitude);
    lemma_digits_of(magnitude);
    let padded = padded_digits(magnitude, places);
    if digits.len() <= places {
        lemma_leading_zeros((places + 1 - digits.len()) as nat, digits);
    }
    assert(is_digits(padded));
    assert(padded.len() >= places + 1);
    assert(digits_value(padded) == magnitude);
    let whole = padded.subrange(0, padded.len() - places);
    let fraction = padded.subrange(padded.len() - places, padded.len() as int);
    let text = fixed_text(value, places);
    assert(is_digit(whole[0]));
    assert forall|i: int| 0 <= i < text.len() implies {
        let c = #[trigger] text[i];
        c == '-' || c == '.' || is_digit(c)
    } by {
        let sign = text.len() - padded.len() - 1;
        if i >= sign {
            let j = i - sign;
            if j < whole.len() {
                assert(text[i] == whole[j]);
                assert(is_digit(whole[j]));
            } else if j > whole.len() {
                assert(text[i] == fraction[j - whole.len() - 1]);
                assert(is_digit(fraction[j - whole.len() - 1]));
            }
        }
    }
    assert(lower(text) =~= text);
    let body = unsigned(lower(text));
    assert(body =~= whole.push('.') + fraction);
    assert forall|i: int| 0 <= i < body.len() implies body[i] != 'e' by {
        if i < whole.len() {
            assert(is_digit(whole[i]));
        } else if i > whole.len() {
            assert(is_digit(fraction[i - whole.len() - 1]));
        }
    }
    lemma_split_plain(body, 'e');
    let fields = seq![whole, fraction];
    assert(fields.drop_last() =~= seq![whole]);
    assert(join(seq![whole], '.') == whole);
    assert(join(fields, '.') =~= whole.push('.') + fraction);
    assert forall|k: int| 0 <= k < fields.len() implies free_of(#[trigger] fields[k], '.') by {
        assert(is_digits(fields[k]));
        assert forall|j: int| 0 <= j < fields[k].len() implies fields[k][j] != '.' by {
            assert(is_digit(fields[k][j]));
        }
    }
    lemma_split_join(fields, '.');
    assert(split(body, '.') == fields);
    assert(is_digits(whole));
    assert(is_digits(fraction));
    assert(is_mantissa(body));
    assert(is_decimal(body));
    assert(whole + fraction =~= padded);
    assert(padded + zeros(0) =~= padded);
}

/// A number below ten to the power `k` has at most `k` digits.
pub proof fn lemma_digits_length(n: nat, k: nat)
    requires
        k >= 1,
        n < pow10(k),
    ensures
        digits_of(n).len() <= k,
    decreases n,
{
    if n >= 10 {
        assert(pow10(1) == 10) by {
            reveal_with_fuel(pow10, 2);
        }
        if k == 1 {
        } else {
            lemma_digits_length(n / 10, (k - 1) as nat);
        }
    }
}

/// The text of a quantity of sixty-four bits with at most three decimals has at most
/// twenty-one characters: a sign, nineteen digits and the point.
pub proof fn lemma_fixed_text_length(value: i64, places: nat)
    requires
        places <= 3,
    ensures
        fixed_text(value as int, places).len() <= 21,
{
    let magnitude = if value < 0 {
        (-value) as nat
    } else {
        value as nat
    };
    assert(pow10(19) == 10000000000000000000) by {
        reveal_with_fuel(pow10, 20);
    }
    lemma_digits_length(magnitude, 19);
    lemma_digits_of(magnitude);
}

/// The natural number that `text` stands for: digits, at least one, with or without a plus
/// sign before them.
pub open spec fn natural_value(text: Seq<char>) -> Option<nat> {
    let digits = if text.len() > 0 && text[0] == '+' {
        text.subrange(1, text.len() as int)
    } else {
        text
    };
    if digits.len() >= 1 && is_digits(digits) {
        Some(digits_value(digits))
    } else {
        None
    }
}

/// The sixteen-bit number that `text` stands for, if it stands for one.
pub open spec fn count_value(text: Seq<char>) -> Option<u16> {
    match natural_value(text) {
        Some(v) => if v <= u16::MAX {
            Some(v as u16)
        } else {
            None
        },
        None => None,
    }
}

/// The number that `text` stands for, if it is a natural number of at most sixteen bits.
pub fn parse_u16(text: &[char]) -> (value: Option<u16>)
    ensures
        value == count_value(text@),
{
    let digits = if text.len() > 0 && text[0] == '+' {
        slice_subrange(text, 1, text.len())
    } else {
        text
    };
    if digits.len() == 0 || !all_digits(digits) {
        return None;
    }
    match value_up_to(digits, 0xffff) {
        Some(value) => Some(value as u16),
        None => None,
    }
}

/// `n` in decimal, without leading zeros.
pub fn natural_string(n: u64) -> (out: String)
    ensures
        out@ == digits_of(n as nat),
{
    let mut digits: Vec<char> = Vec::new();
    push_digits(n, &mut digits);
    proof {
        lemma_digits_of(n as nat);
        assert(digits@ =~= digits_of(n as nat));
    }
    let mut out = String::new();
    append_digits(&mut out, &digits, 0, digits.len());
    proof {
        assert(digits@.subrange(0, digits@.len() as int) =~= digits@);
        assert(out@ =~= digits_of(n as nat));
    }
    out
}

/// The decimal text of a number stands for that number.
pub proof fn lemma_natural_reads_back(n: nat)
    ensures
        natural_value(digits_of(n)) == Some(n),
        is_digits(digits_of(n)),
{
    lemma_digits_of(n);
    assert(is_digit(digits_of(n)[0]));
}

} // verus!
