//! Human-readable sizes: a number and a unit, such as `12.4 MB`.

use crate::text::{
    char_is_whitespace, eq_ignore_ascii_case, folded, is_whitespace, string_of_range,
};
use vstd::arithmetic::div_mod::{
    lemma_basic_div, lemma_div_denominator, lemma_hoist_over_denominator,
};
use vstd::prelude::*;

verus! {

/// Why a string is no size.
#[derive(Debug, Clone, Copy, PartialEq, Eq, Structural)]
pub enum SizeError {
    /// The string does not hold exactly two tokens.
    Format,
    /// The first token is no number.
    Number,
    /// The second token is none of the units B, KB, MB, GB.
    Unit,
}

/// The number of characters at the start of `s` that are no white space.
pub open spec fn word_length(s: Seq<char>) -> nat
    decreases s.len(),
{
    if s.len() > 0 && !is_whitespace(s[0]) {
        1 + word_length(s.drop_first())
    } else {
        0
    }
}

/// A word is not longer than the string it starts.
pub proof fn lemma_word_length_bound(s: Seq<char>)
    ensures
        word_length(s) <= s.len(),
    decreases s.len(),
{
    if s.len() > 0 && !is_whitespace(s[0]) {
        lemma_word_length_bound(s.drop_first());
    }
}

/// The tokens of `s`: its longest runs of characters that are no white
/// space, in order.
pub open spec fn tokens(s: Seq<char>) -> Seq<Seq<char>>
    decreases s.len(),
{
    if s.len() == 0 {
        Seq::empty()
    } else if is_whitespace(s[0]) {
        tokens(s.drop_first())
    } else {
        proof {
            lemma_word_length_bound(s);
        }
        let n = word_length(s) as int;
        seq![s.take(n)] + tokens(s.skip(n))
    }
}

/// The tokens of `chars`.
pub fn split_tokens(chars: &Vec<char>) -> (found: Vec<Vec<char>>)
    ensures
        found.deep_view() == tokens(chars@),
{
    let mut found: Vec<Vec<char>> = Vec::new();
    let mut i: usize = 0;
    proof {
        assert(chars@.skip(0) =~= chars@);
        assert(found.deep_view() + tokens(chars@) =~= tokens(chars@));
    }
    while i < chars.len()
        invariant
            i <= chars.len(),
            tokens(chars@) == found.deep_view() + tokens(chars@.skip(i as int)),
        decreases chars.len() - i,
    {
        let ghost rest = chars@.skip(i as int);
        if char_is_whitespace(chars[i]) {
            assert(rest.drop_first() =~= chars@.skip(i + 1));
            i += 1;
        } else {
            let mut word: Vec<char> = Vec::new();
            let mut j: usize = i;
            proof {
                assert(rest.skip(0) =~= rest);
                assert(word@ =~= rest.take(0));
            }
            while j < chars.len() && !char_is_whitespace(chars[j])
                invariant
                    i <= j <= chars.len(),
                    rest == chars@.skip(i as int),
                    word@ == rest.take(j - i),
                    word_length(rest) == (j - i) + word_length(rest.skip(j - i)),
                decreases chars.len() - j,
            {
                proof {
                    assert(rest.skip(j - i)[0] == chars@[j as int]);
                    assert(rest.skip(j - i).drop_first() =~= rest.skip(j - i + 1));
                    assert(rest.take(j - i + 1) =~= rest.take(j - i).push(chars@[j as int]));
                }
                word.push(chars[j]);
                j += 1;
            }
            proof {
                if j < chars.len() {
                    assert(rest.skip(j - i)[0] == chars@[j as int]);
                }
                assert(word_length(rest) == j - i);
                assert(rest.skip(j - i) =~= chars@.skip(j as int));
                let before = found.deep_view();
                assert(before + (seq![word@] + tokens(chars@.skip(j as int))) =~= before.push(
                    word@,
                ) + tokens(chars@.skip(j as int)));
            }
            let ghost before = found.deep_view();
            assert(word.deep_view() =~= word@);
            found.push(word);
            assert(found.deep_view() =~= before.push(word@));
            i = j;
        }
    }
    proof {
        assert(chars@.skip(i as int) =~= Seq::<char>::empty());
        assert(found.deep_view() + Seq::<Seq<char>>::empty() =~= found.deep_view());
    }
    found
}

/// Whether `c` is one of the digits `0` to `9`.
pub open spec fn is_digit(c: char) -> bool {
    0x30 <= c as u32 <= 0x39
}

/// Whether `s` is made of digits only.
pub open spec fn all_digits(s: Seq<char>) -> bool {
    forall|i: int| 0 <= i < s.len() ==> is_digit(#[trigger] s[i])
}

/// The value of a digit.
pub open spec fn digit_value(c: char) -> nat {
    (c as u32 - 0x30) as nat
}

/// The number that the digits `s` write in base ten.
pub open spec fn digits_value(s: Seq<char>) -> nat
    decreases s.len(),
{
    if s.len() == 0 {
        0
    } else {
        digits_value(s.drop_last()) * 10 + digit_value(s.last())
    }
}

/// Ten to the power `n`.
pub open spec fn pow10(n: nat) -> nat
    decreases n,
{
    if n == 0 {
        1
    } else {
        10 * pow10((n - 1) as nat)
    }
}

/// A number as a token writes it.
pub enum Number {
    /// The word `nan`: no number.
    NotANumber,
    /// The word `inf` or `infinity`.
    Infinite { negative: bool },
    /// A decimal number: its sign, the digits before the point, the digits
    /// after it, and the power of ten that it is multiplied by.
    Finite { negative: bool, whole: Seq<char>, fraction: Seq<char>, exponent: int },
}

/// The index of the first point in `s`, or the length of `s` without one.
pub open spec fn point_index(s: Seq<char>) -> int
    decreases s.len(),
{
    if s.len() == 0 || s[0] == '.' {
        0
    } else {
        1 + point_index(s.drop_first())
    }
}

/// The index of the first `e` or `E` in `s`, or the length of `s` without
/// one.
pub open spec fn exponent_index(s: Seq<char>) -> int
    decreases s.len(),
{
    if s.len() == 0 || s[0] == 'e' || s[0] == 'E' {
        0
    } else {
        1 + exponent_index(s.drop_first())
    }
}

/// The length of the sign that `token` starts with: one or nothing.
pub open spec fn sign_length(token: Seq<char>) -> int {
    if token.len() > 0 && (token[0] == '+' || token[0] == '-') {
        1
    } else {
        0
    }
}

/// Whether `token` starts with a minus sign.
pub open spec fn is_negative(token: Seq<char>) -> bool {
    token.len() > 0 && token[0] == '-'
}

/// The exponent that follows the letter `e`: a sign or none, then at least
/// one digit.
pub open spec fn exponent_of(tail: Seq<char>) -> Option<int> {
    let digits = tail.skip(sign_length(tail));
    if digits.len() > 0 && all_digits(digits) {
        if is_negative(tail) {
            Some(-(digits_value(digits) as int))
        } else {
            Some(digits_value(digits) as int)
        }
    } else {
        None
    }
}

/// The decimal number that `body` writes without a sign: digits with at
/// most one point among them, before them or after them, at least one
/// digit, and then an exponent or none. The result is the digits before the
/// point, those after it, and the exponent.
pub open spec fn decimal_of(body: Seq<char>) -> Option<(Seq<char>, Seq<char>, int)> {
    let mark = exponent_index(body);
    let mantissa = body.take(mark);
    let point = point_index(mantissa);
    let whole = mantissa.take(point);
    let fraction = if point < mantissa.len() {
        mantissa.skip(point + 1)
    } else {
        Seq::empty()
    };
    let exponent = if mark < body.len() {
        exponent_of(body.skip(mark + 1))
    } else {
        Some(0int)
    };
    if all_digits(whole) && all_digits(fraction) && whole.len() + fraction.len() > 0 {
        match exponent {
            Some(power) => Some((whole, fraction, power)),
            None => None,
        }
    } else {
        None
    }
}

/// The number that `token` writes: a sign or none, and then one of the words
/// `inf`, `infinity` and `nan`, in capitals or not, or a decimal number.
pub open spec fn number_of(token: Seq<char>) -> Option<Number> {
    let negative = is_negative(token);
    let body = token.skip(sign_length(token));
    if folded(body) == folded("inf"@) || folded(body) == folded("infinity"@) {
        Some(Number::Infinite { negative })
    } else if folded(body) == folded("nan"@) {
        Some(Number::NotANumber)
    } else {
        match decimal_of(body) {
            Some((whole, fraction, exponent)) => Some(
                Number::Finite { negative, whole, fraction, exponent },
            ),
            None => None,
        }
    }
}

/// The digits `digits`, with the point after the first `point` of them,
/// times `factor`, rounded down to a whole number. The point may lie before
/// the first digit or after the last one.
pub open spec fn scaled_at(digits: Seq<char>, point: int, factor: nat) -> nat {
    let shift = point - digits.len();
    if shift >= 0 {
        digits_value(digits) * factor * pow10(shift as nat)
    } else {
        (digits_value(digits) * factor) / pow10((-shift) as nat)
    }
}

/// The decimal number with the digits `whole` before the point and
/// `fraction` after it, times ten to the power `exponent`, times `factor`,
/// rounded down to a whole number.
pub open spec fn scaled(whole: Seq<char>, fraction: Seq<char>, exponent: int, factor: nat) -> nat {
    scaled_at(whole + fraction, whole.len() + exponent, factor)
}

/// `n`, or the largest `u64` where `n` is larger.
pub open spec fn saturated(n: nat) -> u64 {
    if n > u64::MAX {
        u64::MAX
    } else {
        n as u64
    }
}

/// The number of bytes that a unit stands for: B, KB, MB or GB, in capitals
/// or not, in powers of 1024.
pub open spec fn unit_factor(unit: Seq<char>) -> Option<nat> {
    let name = folded(unit);
    if name == folded("B"@) {
        Some(1)
    } else if name == folded("KB"@) {
        Some(1024)
    } else if name == folded("MB"@) {
        Some(1024 * 1024)
    } else if name == folded("GB"@) {
        Some(1024 * 1024 * 1024)
    } else {
        None
    }
}

/// The number times `factor`, as a count of bytes: rounded down, and at
/// most the largest `u64`; nothing for a number below zero and for what is
/// no number.
pub open spec fn bytes_of(number: Number, factor: nat) -> u64 {
    match number {
        Number::NotANumber => 0,
        Number::Infinite { negative } => if negative {
            0
        } else {
            u64::MAX
        },
        Number::Finite { negative, whole, fraction, exponent } => if negative {
            0
        } else {
            saturated(scaled(whole, fraction, exponent, factor))
        },
    }
}

/// The size that a number token and a unit token state.
pub open spec fn size_of_parts(number: Seq<char>, unit: Seq<char>) -> Result<u64, SizeError> {
    match number_of(number) {
        None => Err(SizeError::Number),
        Some(value) => match unit_factor(unit) {
            None => Err(SizeError::Unit),
            Some(factor) => Ok(bytes_of(value, factor)),
        },
    }
}

/// The size in bytes that `s` states: exactly two tokens, a number and a
/// unit.
pub open spec fn size_of(s: Seq<char>) -> Result<u64, SizeError> {
    let parts = tokens(s);
    if parts.len() != 2 {
        Err(SizeError::Format)
    } else {
        size_of_parts(parts[0], parts[1])
    }
}

/// Ten to any power is at least one.
pub proof fn lemma_pow10_positive(n: nat)
    ensures
        pow10(n) >= 1,
    decreases n,
{
    if n > 0 {
        lemma_pow10_positive((n - 1) as nat);
    }
}

/// The digits `a` followed by the digits `b` write the number of `a`,
/// shifted by the length of `b`, plus the number of `b`.
pub proof fn lemma_digits_value_concat(a: Seq<char>, b: Seq<char>)
    ensures
        digits_value(a + b) == digits_value(a) * pow10(b.len()) + digits_value(b),
    decreases b.len(),
{
    if b.len() == 0 {
        assert(a + b =~= a);
        assert(pow10(0) == 1);
        assert(digits_value(a) * 1 == digits_value(a));
    } else {
        let all = a + b;
        assert(all.drop_last() =~= a + b.drop_last());
        assert(all.last() == b.last());
        lemma_digits_value_concat(a, b.drop_last());
        let high = digits_value(a) as int;
        let low = digits_value(b.drop_last()) as int;
        let shift = pow10(b.drop_last().len()) as int;
        assert(pow10(b.len()) == 10 * shift);
        assert((high * shift + low) * 10 == high * (10 * shift) + low * 10) by (nonlinear_arith);
        assert(digits_value(all) == (high * shift + low) * 10 + digit_value(b.last()));
        assert(digits_value(b) == low * 10 + digit_value(b.last()));
    }
}

/// The value of the digit `c`, or nothing where `c` is no digit.
fn digit_of(c: char) -> (value: Option<u8>)
    ensures
        match value {
            Some(v) => is_digit(c) && v == digit_value(c),
            None => !is_digit(c),
        },
{
    let code: u32 = c as u32;
    if 0x30 <= code && code <= 0x39 {
        Some((code - 0x30) as u8)
    } else {
        None
    }
}

/// Whether `chars[from..to]` is made of digits only.
fn digits_only(chars: &Vec<char>, from: usize, to: usize) -> (only: bool)
    requires
        from <= to <= chars.len(),
    ensures
        only == all_digits(chars@.subrange(from as int, to as int)),
{
    let mut i: usize = from;
    while i < to
        invariant
            from <= i <= to <= chars.len(),
            all_digits(chars@.subrange(from as int, i as int)),
        decreases to - i,
    {
        if digit_of(chars[i]).is_none() {
            assert(chars@.subrange(from as int, to as int)[i - from] == chars@[i as int]);
            return false;
        }
        assert forall|k: int| 0 <= k < i + 1 - from implies is_digit(
            #[trigger] chars@.subrange(from as int, i + 1)[k],
        ) by {
            if k < i - from {
                assert(chars@.subrange(from as int, i as int)[k] == chars@[from + k]);
            }
        }
        i += 1;
    }
    true
}

/// `value`, or `cap` where `value` is not below it.
pub open spec fn capped(value: nat, cap: nat) -> nat {
    if value < cap {
        value
    } else {
        cap
    }
}

/// The number that the digits `chars[from..to]` write, or `cap` where the
/// number is not below it.
fn capped_value(chars: &Vec<char>, from: usize, to: usize, cap: u128) -> (value: u128)
    requires
        from <= to <= chars.len(),
        all_digits(chars@.subrange(from as int, to as int)),
        cap <= 0x100_0000_0000_0000_0000_0000_0000_0000,
    ensures
        value == capped(digits_value(chars@.subrange(from as int, to as int)), cap as nat),
{
    let mut value: u128 = 0;
    let mut i: usize = from;
    assert(chars@.subrange(from as int, from as int) =~= Seq::<char>::empty());
    while i < to
        invariant
            from <= i <= to <= chars.len(),
            cap <= 0x100_0000_0000_0000_0000_0000_0000_0000,
            all_digits(chars@.subrange(from as int, to as int)),
            value == capped(digits_value(chars@.subrange(from as int, i as int)), cap as nat),
        decreases to - i,
    {
        proof {
            let next = chars@.subrange(from as int, i + 1);
            assert(next.drop_last() =~= chars@.subrange(from as int, i as int));
            assert(next.last() == chars@[i as int]);
            assert(chars@.subrange(from as int, to as int)[i - from] == chars@[i as int]);
        }
        let digit = match digit_of(chars[i]) {
            Some(d) => d,
            None => 0,
        };
        value = value * 10 + digit as u128;
        if value > cap {
            value = cap;
        }
        i += 1;
    }
    value
}

/// Dividing by ten after each digit, from the last digit to the first, is
/// dividing once by the power of ten.
proof fn lemma_carry_step(digit: nat, rest: nat, factor: nat, shift: nat)
    requires
        shift >= 1,
    ensures
        ((digit * shift + rest) * factor) / (10 * shift) == (digit * factor + (rest * factor)
            / shift) / 10,
{
    let x = (rest * factor) as int;
    let j = (digit * factor) as int;
    let p = shift as int;
    let y = x + j * p;
    assert((digit * shift + rest) * factor == y) by (nonlinear_arith)
        requires
            x == rest * factor,
            j == digit * factor,
            p == shift,
            y == x + j * p,
    ;
    lemma_hoist_over_denominator(x, j, shift);
    assert(0 <= y) by (nonlinear_arith)
        requires
            y == x + j * p,
            0 <= x,
            0 <= j,
            0 < p,
    ;
    lemma_div_denominator(y, p, 10);
    assert(p * 10 == 10 * shift);
}

/// The digits `chars[from..to]`, read as the part of a number after the
/// point, times `factor`, rounded down to a whole number.
fn fraction_carry(chars: &Vec<char>, from: usize, to: usize, factor: u64) -> (carry: u64)
    requires
        from <= to <= chars.len(),
        all_digits(chars@.subrange(from as int, to as int)),
        1 <= factor <= 0x4000_0000,
    ensures
        carry == (digits_value(chars@.subrange(from as int, to as int)) * (factor as nat)) / pow10(
            (to - from) as nat,
        ),
        carry < factor,
{
    let mut carry: u64 = 0;
    let mut i: usize = to;
    proof {
        assert(chars@.subrange(to as int, to as int) =~= Seq::<char>::empty());
        assert(digits_value(Seq::<char>::empty()) * factor == 0) by (nonlinear_arith)
            requires
                digits_value(Seq::<char>::empty()) == 0,
        ;
    }
    while i > from
        invariant
            from <= i <= to <= chars.len(),
            all_digits(chars@.subrange(from as int, to as int)),
            1 <= factor <= 0x4000_0000,
            carry == (digits_value(chars@.subrange(i as int, to as int)) * (factor as nat)) / pow10(
                (to - i) as nat,
            ),
            carry < factor,
        decreases i,
    {
        assert(chars@.subrange(from as int, to as int)[i - 1 - from] == chars@[i - 1]);
        let digit = match digit_of(chars[i - 1]) {
            Some(d) => d,
            None => 0,
        };
        proof {
            let rest = chars@.subrange(i as int, to as int);
            let next = chars@.subrange(i - 1, to as int);
            let one = seq![chars@[i - 1]];
            assert(next =~= one + rest);
            lemma_digits_value_concat(one, rest);
            assert(one.drop_last() =~= Seq::<char>::empty());
            assert(digits_value(Seq::<char>::empty()) == 0);
            assert(digits_value(one) == digits_value(one.drop_last()) * 10 + digit_value(
                one.last(),
            ));
            assert(digits_value(one) == digit as nat);
            lemma_pow10_positive(rest.len());
            lemma_carry_step(digit as nat, digits_value(rest), factor as nat, pow10(rest.len()));
            assert(pow10((to - (i - 1)) as nat) == 10 * pow10(rest.len()));
            assert(digit <= 9);
            assert(digit as u64 * factor <= 9 * factor) by (nonlinear_arith)
                requires
                    digit <= 9,
            ;
        }
        carry = (digit as u64 * factor + carry) / 10;
        i -= 1;
    }
    carry
}

/// Ten to the power of a sum is the product of the powers.
pub proof fn lemma_pow10_add(a: nat, b: nat)
    ensures
        pow10(a + b) == pow10(a) * pow10(b),
    decreases b,
{
    if b == 0 {
        assert(pow10(a) * 1 == pow10(a));
    } else {
        lemma_pow10_add(a, (b - 1) as nat);
        let x = pow10(a) as int;
        let y = pow10((b - 1) as nat) as int;
        assert(pow10(a + b) == 10 * pow10((a + b - 1) as nat));
        assert(10 * (x * y) == x * (10 * y)) by (nonlinear_arith);
    }
}

/// A larger power of ten is a larger number.
pub proof fn lemma_pow10_grows(a: nat, b: nat)
    requires
        a <= b,
    ensures
        pow10(a) <= pow10(b),
{
    lemma_pow10_add(a, (b - a) as nat);
    lemma_pow10_positive((b - a) as nat);
    lemma_pow10_positive(a);
    let x = pow10(a) as int;
    let y = pow10((b - a) as nat) as int;
    assert(x <= x * y) by (nonlinear_arith)
        requires
            x >= 1,
            y >= 1,
    ;
}

/// Ten to the powers ten and twenty, written out.
proof fn lemma_pow10_values()
    ensures
        pow10(10) == 10_000_000_000,
        pow10(20) == 100_000_000_000_000_000_000,
{
    assert(pow10(0) == 1);
    assert(pow10(1) == 10);
    assert(pow10(2) == 100);
    assert(pow10(3) == 1_000);
    assert(pow10(4) == 10_000);
    assert(pow10(5) == 100_000);
    assert(pow10(6) == 1_000_000);
    assert(pow10(7) == 10_000_000);
    assert(pow10(8) == 100_000_000);
    assert(pow10(9) == 1_000_000_000);
    assert(pow10(10) == 10_000_000_000);
    lemma_pow10_add(10, 10);
    assert(10_000_000_000int * 10_000_000_000int == 100_000_000_000_000_000_000int);
}

/// With the point inside the digits, the scaled number is the scaled whole
/// part plus what the scaled fraction holds of whole units.
pub proof fn lemma_scaled_split(whole: Seq<char>, fraction: Seq<char>, factor: nat)
    ensures
        scaled_at(whole + fraction, whole.len() as int, factor) == digits_value(whole) * factor
            + (digits_value(fraction) * factor) / pow10(fraction.len()),
{
    let p = pow10(fraction.len());
    lemma_pow10_positive(fraction.len());
    lemma_digits_value_concat(whole, fraction);
    let high = digits_value(whole) as int;
    let low = digits_value(fraction) as int;
    let k = factor as int;
    assert((high * p + low) * k == low * k + (high * k) * p) by (nonlinear_arith);
    lemma_hoist_over_denominator(low * k, high * k, p);
    if fraction.len() == 0 {
        assert(whole + fraction =~= whole);
        assert(pow10(0) == 1);
        assert(low == 0);
        assert(low * k == 0) by (nonlinear_arith)
            requires
                low == 0,
        ;
        assert(high * k * 1 == high * k) by (nonlinear_arith);
    }
}

/// A number of `n` digits is below ten to the power `n`.
pub proof fn lemma_digits_below_pow10(digits: Seq<char>)
    requires
        all_digits(digits),
    ensures
        digits_value(digits) < pow10(digits.len()),
    decreases digits.len(),
{
    if digits.len() > 0 {
        assert forall|i: int| 0 <= i < digits.drop_last().len() implies is_digit(
            #[trigger] digits.drop_last()[i],
        ) by {
            assert(digits.drop_last()[i] == digits[i]);
        }
        lemma_digits_below_pow10(digits.drop_last());
        assert(is_digit(digits[digits.len() - 1]));
    }
}

/// The digits, read as the part of a number after the point, make less than
/// one unit: scaled, they stay below the factor.
pub proof fn lemma_fraction_below_factor(digits: Seq<char>, factor: nat)
    requires
        all_digits(digits),
        factor >= 1,
    ensures
        (digits_value(digits) * factor) / pow10(digits.len()) < factor,
{
    lemma_digits_below_pow10(digits);
    let d = digits_value(digits) as int;
    let p = pow10(digits.len()) as int;
    let k = factor as int;
    assert(d * k < p * k) by (nonlinear_arith)
        requires
            0 <= d < p,
            1 <= k,
    ;
    vstd::arithmetic::div_mod::lemma_multiply_divide_lt(d * k, p, k);
}

/// With the point ten places or more before the first digit, nothing is left
/// of a number scaled by a factor of at most 2^30.
pub proof fn lemma_scaled_far_left(digits: Seq<char>, point: int, factor: nat)
    requires
        all_digits(digits),
        point <= -10,
        1 <= factor <= 0x4000_0000,
    ensures
        scaled_at(digits, point, factor) == 0,
{
    let n = digits.len();
    let extra = (-point) as nat;
    let x = (digits_value(digits) * factor) as int;
    lemma_pow10_positive(n);
    lemma_pow10_positive(extra);
    lemma_pow10_add(n, extra);
    lemma_div_denominator(x, pow10(n) as int, pow10(extra) as int);
    lemma_fraction_below_factor(digits, factor);
    lemma_pow10_values();
    lemma_pow10_grows(10, extra);
    vstd::arithmetic::div_mod::lemma_div_pos_is_pos(x, pow10(n) as int);
    lemma_basic_div(x / (pow10(n) as int), pow10(extra) as int);
}

/// With the point twenty places or more after the last digit, a number that
/// is not zero, scaled by a factor of at least one, is beyond the largest
/// `u64`.
pub proof fn lemma_scaled_far_right(digits: Seq<char>, point: int, factor: nat)
    requires
        digits_value(digits) >= 1,
        point >= digits.len() + 20,
        factor >= 1,
    ensures
        scaled_at(digits, point, factor) > u64::MAX,
{
    let shift = (point - digits.len()) as nat;
    lemma_pow10_values();
    lemma_pow10_grows(20, shift);
    let d = digits_value(digits) as int;
    let k = factor as int;
    let p = pow10(shift) as int;
    assert(d * k * p >= p) by (nonlinear_arith)
        requires
            d >= 1,
            k >= 1,
            p >= 1,
    ;
}

/// The names of the four units, letter by letter.
proof fn lemma_unit_names()
    ensures
        folded("B"@) =~= seq![0x42u32],
        folded("KB"@) =~= seq![0x4Bu32, 0x42u32],
        folded("MB"@) =~= seq![0x4Du32, 0x42u32],
        folded("GB"@) =~= seq![0x47u32, 0x42u32],
{
    reveal_strlit("B");
    reveal_strlit("KB");
    reveal_strlit("MB");
    reveal_strlit("GB");
}

/// The number of bytes that the unit `unit` stands for.
fn factor_of(unit: &str) -> (factor: Option<u64>)
    ensures
        match factor {
            Some(f) => unit_factor(unit@) == Some(f as nat) && 1 <= f <= 0x4000_0000,
            None => unit_factor(unit@) is None,
        },
{
    if eq_ignore_ascii_case(unit, "B") {
        Some(1)
    } else if eq_ignore_ascii_case(unit, "KB") {
        Some(1024)
    } else if eq_ignore_ascii_case(unit, "MB") {
        Some(1024 * 1024)
    } else if eq_ignore_ascii_case(unit, "GB") {
        Some(1024 * 1024 * 1024)
    } else {
        None
    }
}

/// Where the parts of a decimal number stand in a token: the digits before
/// the point, the digits after it, and the sign and the digits of the
/// exponent. A number without an exponent has no exponent digits.
struct NumberSpan {
    whole_from: usize,
    whole_to: usize,
    fraction_from: usize,
    fraction_to: usize,
    exponent_negative: bool,
    exponent_from: usize,
    exponent_to: usize,
}

impl NumberSpan {
    /// The parts lie within a token of `n` characters and are made of digits.
    spec fn fits(self, token: Seq<char>) -> bool {
        &&& self.whole_from <= self.whole_to <= token.len()
        &&& self.fraction_from <= self.fraction_to <= token.len()
        &&& self.exponent_from <= self.exponent_to <= token.len()
        &&& all_digits(self.whole(token))
        &&& all_digits(self.fraction(token))
        &&& all_digits(token.subrange(self.exponent_from as int, self.exponent_to as int))
    }

    /// The digits before the point.
    spec fn whole(self, token: Seq<char>) -> Seq<char> {
        token.subrange(self.whole_from as int, self.whole_to as int)
    }

    /// The digits after the point.
    spec fn fraction(self, token: Seq<char>) -> Seq<char> {
        token.subrange(self.fraction_from as int, self.fraction_to as int)
    }

    /// The exponent.
    spec fn exponent(self, token: Seq<char>) -> int {
        let size = digits_value(
            token.subrange(self.exponent_from as int, self.exponent_to as int),
        ) as int;
        if self.exponent_negative {
            -size
        } else {
            size
        }
    }
}

/// Finds the parts of the decimal number that `token[start..]` writes.
fn scan_decimal(token: &Vec<char>, start: usize) -> (span: Option<NumberSpan>)
    requires
        start <= token.len(),
    ensures
        match span {
            None => decimal_of(token@.skip(start as int)) is None,
            Some(found) => {
                &&& found.fits(token@)
                &&& decimal_of(token@.skip(start as int)) == Some(
                    (found.whole(token@), found.fraction(token@), found.exponent(token@)),
                )
            },
        },
{
    let n = token.len();
    let ghost body = token@.skip(start as int);
    let mut mark: usize = start;
    assert(body.skip(0) =~= body);
    while mark < n && token[mark] != 'e' && token[mark] != 'E'
        invariant
            start <= mark <= n == token.len(),
            body == token@.skip(start as int),
            exponent_index(body) == (mark - start) + exponent_index(body.skip(mark - start)),
        decreases n - mark,
    {
        assert(body.skip(mark - start)[0] == token@[mark as int]);
        assert(body.skip(mark - start).drop_first() =~= body.skip(mark - start + 1));
        mark += 1;
    }
    let ghost mantissa = token@.subrange(start as int, mark as int);
    proof {
        if mark < n {
            assert(body.skip(mark - start)[0] == token@[mark as int]);
        }
        assert(exponent_index(body) == mark - start);
        assert(body.take(mark - start) =~= mantissa);
    }
    let mut point: usize = start;
    assert(mantissa.skip(0) =~= mantissa);
    while point < mark && token[point] != '.'
        invariant
            start <= point <= mark <= n == token.len(),
            mantissa == token@.subrange(start as int, mark as int),
            point_index(mantissa) == (point - start) + point_index(mantissa.skip(point - start)),
        decreases mark - point,
    {
        assert(mantissa.skip(point - start)[0] == token@[point as int]);
        assert(mantissa.skip(point - start).drop_first() =~= mantissa.skip(point - start + 1));
        point += 1;
    }
    proof {
        if point < mark {
            assert(mantissa.skip(point - start)[0] == token@[point as int]);
        }
        assert(point_index(mantissa) == point - start);
        assert(mantissa.take(point - start) =~= token@.subrange(start as int, point as int));
    }
    let fraction_from: usize = if point < mark {
        point + 1
    } else {
        mark
    };
    proof {
        if point < mark {
            assert(mantissa.skip(point - start + 1) =~= token@.subrange(
                fraction_from as int,
                mark as int,
            ));
        } else {
            assert(token@.subrange(mark as int, mark as int) =~= Seq::<char>::empty());
        }
    }
    if !digits_only(token, start, point) || !digits_only(token, fraction_from, mark) {
        return None;
    }
    if (point - start) + (mark - fraction_from) == 0 {
        return None;
    }
    if mark == n {
        proof {
            assert(token@.subrange(n as int, n as int) =~= Seq::<char>::empty());
            assert(digits_value(Seq::<char>::empty()) == 0);
        }
        return Some(
            NumberSpan {
                whole_from: start,
                whole_to: point,
                fraction_from,
                fraction_to: mark,
                exponent_negative: false,
                exponent_from: n,
                exponent_to: n,
            },
        );
    }
    let ghost tail = body.skip(mark - start + 1);
    assert(tail =~= token@.skip(mark + 1));
    let signed = mark + 1 < n && (token[mark + 1] == '+' || token[mark + 1] == '-');
    let exponent_negative = mark + 1 < n && token[mark + 1] == '-';
    let exponent_from: usize = if signed {
        mark + 2
    } else {
        mark + 1
    };
    proof {
        if mark + 1 < n {
            assert(tail[0] == token@[mark + 1]);
        }
        assert(tail.skip(sign_length(tail)) =~= token@.subrange(exponent_from as int, n as int));
    }
    if exponent_from == n || !digits_only(token, exponent_from, n) {
        return None;
    }
    Some(
        NumberSpan {
            whole_from: start,
            whole_to: point,
            fraction_from,
            fraction_to: mark,
            exponent_negative,
            exponent_from,
            exponent_to: n,
        },
    )
}

/// The largest `u64`, or `total` where that is smaller.
fn saturate(total: u128) -> (count: u64)
    ensures
        count == saturated(total as nat),
{
    if total > 0xFFFF_FFFF_FFFF_FFFF {
        0xFFFF_FFFF_FFFF_FFFF
    } else {
        total as u64
    }
}

/// Zero, scaled and with the point anywhere, is zero.
pub proof fn lemma_scaled_zero(digits: Seq<char>, point: int, factor: nat)
    requires
        digits_value(digits) == 0,
    ensures
        scaled_at(digits, point, factor) == 0,
{
    let shift = point - digits.len();
    assert(digits_value(digits) * factor == 0) by (nonlinear_arith)
        requires
            digits_value(digits) == 0,
    ;
    if shift >= 0 {
        assert(0 * pow10(shift as nat) == 0) by (nonlinear_arith);
    } else {
        lemma_pow10_positive((-shift) as nat);
        lemma_basic_div(0, pow10((-shift) as nat) as int);
    }
}

/// Whether the digits write zero.
fn all_zeros(digits: &Vec<char>) -> (zero: bool)
    requires
        all_digits(digits@),
    ensures
        zero == (digits_value(digits@) == 0),
{
    assert(digits@.subrange(0, digits@.len() as int) =~= digits@);
    capped_value(digits, 0, digits.len(), 1) == 0
}

/// The digits of the number whose parts `span` tells, without the point.
fn digits_of(token: &Vec<char>, span: &NumberSpan) -> (digits: Vec<char>)
    requires
        span.fits(token@),
    ensures
        digits@ == span.whole(token@) + span.fraction(token@),
        all_digits(digits@),
{
    let ghost whole = span.whole(token@);
    let ghost fraction = span.fraction(token@);
    let mut digits: Vec<char> = Vec::new();
    let mut i: usize = span.whole_from;
    assert(token@.subrange(span.whole_from as int, span.whole_from as int) =~= digits@);
    while i < span.whole_to
        invariant
            span.whole_from <= i <= span.whole_to <= token.len(),
            digits@ == token@.subrange(span.whole_from as int, i as int),
        decreases span.whole_to - i,
    {
        assert(token@.subrange(span.whole_from as int, i + 1) =~= token@.subrange(
            span.whole_from as int,
            i as int,
        ).push(token@[i as int]));
        digits.push(token[i]);
        i += 1;
    }
    let mut i: usize = span.fraction_from;
    assert(digits@ =~= whole + token@.subrange(
        span.fraction_from as int,
        span.fraction_from as int,
    ));
    while i < span.fraction_to
        invariant
            span.fraction_from <= i <= span.fraction_to <= token.len(),
            whole == span.whole(token@),
            digits@ == whole + token@.subrange(span.fraction_from as int, i as int),
        decreases span.fraction_to - i,
    {
        assert(token@.subrange(span.fraction_from as int, i + 1) =~= token@.subrange(
            span.fraction_from as int,
            i as int,
        ).push(token@[i as int]));
        digits.push(token[i]);
        assert(digits@ =~= whole + token@.subrange(span.fraction_from as int, i + 1));
        i += 1;
    }
    proof {
        let all = digits@;
        assert forall|k: int| 0 <= k < all.len() implies is_digit(#[trigger] all[k]) by {
            if k < whole.len() {
                assert(all[k] == whole[k]);
            } else {
                assert(all[k] == fraction[k - whole.len()]);
            }
        }
    }
    digits
}

/// The count of bytes where the point stands `shift` places after the last
/// digit: the number of the digits, with `shift` zeros added, in units of
/// `factor` bytes.
fn size_with_point_after(digits: &Vec<char>, shift: u128, factor: u64) -> (count: u64)
    requires
        all_digits(digits@),
        1 <= factor <= 0x4000_0000,
    ensures
        count == saturated(scaled_at(digits@, digits.len() + shift, factor as nat)),
{
    let cap: u128 = 0x1_0000_0000_0000_0000;
    let ghost all = digits@;
    assert(all.subrange(0, all.len() as int) =~= all);
    let mut scaled_up: u128 = capped_value(digits, 0, digits.len(), cap);
    let mut k: u128 = 0;
    proof {
        assert(pow10(0) == 1);
        assert(digits_value(all) * 1 == digits_value(all));
    }
    while k < shift && 0 < scaled_up && scaled_up < cap
        invariant
            0 <= k <= shift,
            cap == 0x1_0000_0000_0000_0000,
            scaled_up == capped(digits_value(all) * pow10(k as nat), cap as nat),
        decreases shift - k,
    {
        proof {
            let d = digits_value(all) as int;
            let p = pow10(k as nat) as int;
            assert(pow10((k + 1) as nat) == 10 * pow10(k as nat));
            assert(d * (10 * p) == (d * p) * 10) by (nonlinear_arith);
        }
        scaled_up = scaled_up * 10;
        if scaled_up > cap {
            scaled_up = cap;
        }
        k += 1;
    }
    assert(scaled_up * (factor as u128) <= 0x1_0000_0000_0000_0000 * 0x4000_0000)
        by (nonlinear_arith)
        requires
            scaled_up <= 0x1_0000_0000_0000_0000,
            factor <= 0x4000_0000,
    ;
    let total: u128 = scaled_up * (factor as u128);
    proof {
        let d = digits_value(all) as int;
        let f = factor as int;
        let p = pow10(shift as nat) as int;
        let q = pow10(k as nat) as int;
        lemma_pow10_positive(shift as nat);
        lemma_pow10_positive(k as nat);
        lemma_pow10_grows(k as nat, shift as nat);
        assert(scaled_at(all, all.len() + shift, factor as nat) == d * f * p);
        assert(d * f * p == (d * p) * f) by (nonlinear_arith);
        if scaled_up == 0 {
            // The number is zero, however many zeros are added.
            assert(d == 0) by (nonlinear_arith)
                requires
                    d * q == 0,
                    q >= 1,
                    d >= 0,
            ;
            assert((d * p) * f == 0) by (nonlinear_arith)
                requires
                    d == 0,
            ;
            assert(total == 0) by (nonlinear_arith)
                requires
                    total == scaled_up * (factor as u128),
                    scaled_up == 0,
            ;
        } else if scaled_up == cap {
            assert(d * p >= d * q) by (nonlinear_arith)
                requires
                    d >= 0,
                    p >= q,
            ;
            assert((d * p) * f >= cap) by (nonlinear_arith)
                requires
                    d * p >= cap,
                    f >= 1,
            ;
            assert(total >= cap) by (nonlinear_arith)
                requires
                    total == scaled_up * (factor as u128),
                    scaled_up == cap,
                    factor >= 1,
            ;
        } else {
            assert(k == shift);
            assert(total == (d * p) * f) by (nonlinear_arith)
                requires
                    total == scaled_up * (factor as u128),
                    scaled_up == d * p,
                    factor == f,
            ;
        }
    }
    saturate(total)
}

/// The count of bytes where the point stands after the first `split` digits:
/// so many units as those digits say, plus the part of a unit that the other
/// digits make.
fn size_with_point_within(digits: &Vec<char>, split: usize, factor: u64) -> (count: u64)
    requires
        all_digits(digits@),
        split <= digits.len(),
        1 <= factor <= 0x4000_0000,
    ensures
        count == saturated(scaled_at(digits@, split as int, factor as nat)),
{
    let cap: u128 = 0x1_0000_0000_0000_0000;
    let n = digits.len();
    let ghost all = digits@;
    let ghost head = all.subrange(0, split as int);
    let ghost rest = all.subrange(split as int, n as int);
    let before = capped_value(digits, 0, split, cap);
    let carry = fraction_carry(digits, split, n, factor);
    assert(before * (factor as u128) <= 0x1_0000_0000_0000_0000 * 0x4000_0000)
        by (nonlinear_arith)
        requires
            before <= 0x1_0000_0000_0000_0000,
            factor <= 0x4000_0000,
    ;
    let total: u128 = before * (factor as u128) + carry as u128;
    proof {
        assert(all =~= head + rest);
        lemma_scaled_split(head, rest, factor as nat);
        let high = digits_value(head) as int;
        let f = factor as int;
        if high >= cap {
            assert(high * f >= cap) by (nonlinear_arith)
                requires
                    high >= cap,
                    f >= 1,
            ;
            assert(before * (factor as u128) >= cap) by (nonlinear_arith)
                requires
                    before == cap,
                    factor >= 1,
            ;
        } else {
            assert(before * (factor as u128) == high * f) by (nonlinear_arith)
                requires
                    before == high,
                    factor == f,
            ;
        }
    }
    saturate(total)
}

/// The count of bytes where the point stands `extra` places before the
/// first digit: the part of a unit that the digits make, with `extra` zeros
/// before them.
fn size_with_point_before(digits: &Vec<char>, extra: u128, factor: u64) -> (count: u64)
    requires
        all_digits(digits@),
        extra >= 1,
        1 <= factor <= 0x4000_0000,
    ensures
        count == saturated(scaled_at(digits@, -(extra as int), factor as nat)),
{
    let n = digits.len();
    let ghost all = digits@;
    assert(all.subrange(0, n as int) =~= all);
    let mut carry = fraction_carry(digits, 0, n, factor);
    let ghost first = carry as int;
    let mut j: u128 = 0;
    proof {
        assert(pow10(0) == 1);
        assert(pow10(j as nat) == 1);
        assert(first / 1 == first);
    }
    while j < extra && carry > 0
        invariant
            0 <= j <= extra,
            0 <= first,
            carry == first / (pow10(j as nat) as int),
        decreases extra - j,
    {
        proof {
            lemma_pow10_positive(j as nat);
            lemma_div_denominator(first, pow10(j as nat) as int, 10);
            assert(pow10((j + 1) as nat) == 10 * pow10(j as nat));
            assert(pow10(j as nat) * 10 == 10 * pow10(j as nat));
        }
        carry = carry / 10;
        j += 1;
    }
    proof {
        let x = (digits_value(all) * (factor as nat)) as int;
        lemma_pow10_positive(n as nat);
        lemma_pow10_positive(extra as nat);
        lemma_pow10_positive(j as nat);
        lemma_pow10_add(n as nat, extra as nat);
        lemma_div_denominator(x, pow10(n as nat) as int, pow10(extra as nat) as int);
        assert(scaled_at(all, -(extra as int), factor as nat) == first / (pow10(
            extra as nat,
        ) as int));
        if j < extra {
            // Nothing is left already; dividing on leaves nothing.
            vstd::arithmetic::div_mod::lemma_small_div_converse(first, pow10(j as nat) as int);
            lemma_pow10_grows(j as nat, extra as nat);
            lemma_basic_div(first, pow10(extra as nat) as int);
        }
    }
    carry
}

/// The count of bytes of the decimal number whose parts `span` tells, in a
/// unit of `factor` bytes.
fn finite_size(token: &Vec<char>, span: &NumberSpan, factor: u64) -> (count: u64)
    requires
        span.fits(token@),
        1 <= factor <= 0x4000_0000,
    ensures
        count == saturated(
            scaled(
                span.whole(token@),
                span.fraction(token@),
                span.exponent(token@),
                factor as nat,
            ),
        ),
{
    let far: u128 = 0x10_0000_0000_0000_0000_0000_0000;
    let digits = digits_of(token, span);
    let n = digits.len();
    let width = span.whole_to - span.whole_from;
    let ghost place = width + span.exponent(token@);
    let size = capped_value(token, span.exponent_from, span.exponent_to, far);
    if size == far {
        // The exponent moves the point beyond any number of digits.
        if span.exponent_negative {
            proof {
                lemma_scaled_far_left(digits@, place, factor as nat);
            }
            0
        } else if all_zeros(&digits) {
            proof {
                lemma_scaled_zero(digits@, place, factor as nat);
            }
            0
        } else {
            proof {
                lemma_scaled_far_right(digits@, place, factor as nat);
            }
            0xFFFF_FFFF_FFFF_FFFF
        }
    } else if span.exponent_negative {
        if size > width as u128 {
            size_with_point_before(&digits, size - width as u128, factor)
        } else {
            size_with_point_within(&digits, width - size as usize, factor)
        }
    } else {
        let after = n - width;
        if size >= after as u128 {
            size_with_point_after(&digits, size - after as u128, factor)
        } else {
            size_with_point_within(&digits, width + size as usize, factor)
        }
    }
}

/// What a token was found to write.
enum Scanned {
    NotANumber,
    Infinite { negative: bool },
    Finite { negative: bool, span: NumberSpan },
}

impl Scanned {
    /// The parts that were found lie within the token.
    spec fn fits(self, token: Seq<char>) -> bool {
        self matches Scanned::Finite { span, .. } ==> span.fits(token)
    }

    /// The number that was found.
    spec fn number(self, token: Seq<char>) -> Number {
        match self {
            Scanned::NotANumber => Number::NotANumber,
            Scanned::Infinite { negative } => Number::Infinite { negative },
            Scanned::Finite { negative, span } => Number::Finite {
                negative,
                whole: span.whole(token),
                fraction: span.fraction(token),
                exponent: span.exponent(token),
            },
        }
    }
}

/// Finds the number that `token` writes.
fn scan_number(token: &Vec<char>) -> (found: Option<Scanned>)
    ensures
        match found {
            Some(scanned) => scanned.fits(token@) && number_of(token@) == Some(
                scanned.number(token@),
            ),
            None => number_of(token@) is None,
        },
{
    let n = token.len();
    let negative = n > 0 && token[0] == '-';
    let start: usize = if n > 0 && (token[0] == '+' || token[0] == '-') {
        1
    } else {
        0
    };
    let body = string_of_range(token, start, n);
    assert(body@ =~= token@.skip(start as int));
    if eq_ignore_ascii_case(body.as_str(), "inf") || eq_ignore_ascii_case(
        body.as_str(),
        "infinity",
    ) {
        return Some(Scanned::Infinite { negative });
    }
    if eq_ignore_ascii_case(body.as_str(), "nan") {
        return Some(Scanned::NotANumber);
    }
    match scan_decimal(token, start) {
        None => None,
        Some(span) => Some(Scanned::Finite { negative, span }),
    }
}

/// The size that the two tokens state.
pub fn size_from_tokens(number: &Vec<char>, unit: &Vec<char>) -> (result: Result<u64, SizeError>)
    ensures
        result == size_of_parts(number@, unit@),
{
    let scanned = match scan_number(number) {
        Some(found) => found,
        None => { return Err(SizeError::Number); },
    };
    let name = string_of_range(unit, 0, unit.len());
    assert(name@ =~= unit@);
    let factor = match factor_of(name.as_str()) {
        Some(found) => found,
        None => { return Err(SizeError::Unit); },
    };
    match scanned {
        Scanned::NotANumber => Ok(0),
        Scanned::Infinite { negative } => Ok(
            if negative {
                0
            } else {
                0xFFFF_FFFF_FFFF_FFFF
            },
        ),
        Scanned::Finite { negative, span } => {
            if negative {
                Ok(0)
            } else {
                Ok(finite_size(number, &span, factor))
            }
        },
    }
}

/// Whether `s` is made of white space only.
pub open spec fn all_whitespace(s: Seq<char>) -> bool {
    forall|i: int| 0 <= i < s.len() ==> is_whitespace(#[trigger] s[i])
}

/// Whether `s` holds no white space.
pub open spec fn no_whitespace(s: Seq<char>) -> bool {
    forall|i: int| 0 <= i < s.len() ==> !is_whitespace(#[trigger] s[i])
}

/// White space at the start of a string adds no token.
pub proof fn lemma_tokens_skip_whitespace(space: Seq<char>, rest: Seq<char>)
    requires
        all_whitespace(space),
    ensures
        tokens(space + rest) == tokens(rest),
    decreases space.len(),
{
    if space.len() == 0 {
        assert(space + rest =~= rest);
    } else {
        let all = space + rest;
        assert(all[0] == space[0]);
        assert(all.drop_first() =~= space.drop_first() + rest);
        assert forall|i: int| 0 <= i < space.drop_first().len() implies is_whitespace(
            #[trigger] space.drop_first()[i],
        ) by {
            assert(space.drop_first()[i] == space[i + 1]);
        }
        lemma_tokens_skip_whitespace(space.drop_first(), rest);
    }
}

/// A word that ends the string, or that white space follows, is as long as
/// the run of characters it is made of.
pub proof fn lemma_word_length_of_word(word: Seq<char>, rest: Seq<char>)
    requires
        no_whitespace(word),
        rest.len() == 0 || is_whitespace(rest[0]),
    ensures
        word_length(word + rest) == word.len(),
    decreases word.len(),
{
    if word.len() == 0 {
        assert(word + rest =~= rest);
    } else {
        let all = word + rest;
        assert(all[0] == word[0]);
        assert(all.drop_first() =~= word.drop_first() + rest);
        assert forall|i: int| 0 <= i < word.drop_first().len() implies !is_whitespace(
            #[trigger] word.drop_first()[i],
        ) by {
            assert(word.drop_first()[i] == word[i + 1]);
        }
        lemma_word_length_of_word(word.drop_first(), rest);
    }
}

/// A word at the start of a string is its first token.
pub proof fn lemma_tokens_first_word(word: Seq<char>, rest: Seq<char>)
    requires
        word.len() > 0,
        no_whitespace(word),
        rest.len() == 0 || is_whitespace(rest[0]),
    ensures
        tokens(word + rest) == seq![word] + tokens(rest),
{
    let all = word + rest;
    lemma_word_length_of_word(word, rest);
    assert(all[0] == word[0]);
    assert(all.take(word.len() as int) =~= word);
    assert(all.skip(word.len() as int) =~= rest);
}

/// A number and a unit with white space between them, and white space or
/// nothing before and after them, state the size that the two state.
pub proof fn lemma_size_of_number_and_unit(
    before: Seq<char>,
    number: Seq<char>,
    between: Seq<char>,
    unit: Seq<char>,
    after: Seq<char>,
)
    requires
        all_whitespace(before),
        number.len() > 0,
        no_whitespace(number),
        between.len() > 0,
        all_whitespace(between),
        unit.len() > 0,
        no_whitespace(unit),
        all_whitespace(after),
    ensures
        size_of(before + number + between + unit + after) == size_of_parts(number, unit),
{
    let tail = unit + after;
    let middle = between + tail;
    let head = number + middle;
    assert(before + number + between + unit + after =~= before + head);
    lemma_tokens_skip_whitespace(before, head);
    assert(middle[0] == between[0]);
    lemma_tokens_first_word(number, middle);
    lemma_tokens_skip_whitespace(between, tail);
    if after.len() > 0 {
        assert(after[0] == after[0]);
    }
    lemma_tokens_first_word(unit, after);
    assert(after + Seq::<char>::empty() =~= after);
    lemma_tokens_skip_whitespace(after, Seq::<char>::empty());
    assert(tokens(Seq::<char>::empty()) =~= Seq::<Seq<char>>::empty());
    assert(tokens(before + head) =~= seq![number, unit]);
}

/// A string that does not hold exactly two tokens is no size; nor is one
/// whose second token is none of the units, whatever number the first
/// writes.
pub proof fn lemma_malformed_size_fails(s: Seq<char>)
    ensures
        tokens(s).len() != 2 ==> size_of(s) == Err::<u64, SizeError>(SizeError::Format),
        tokens(s).len() == 2 && number_of(tokens(s)[0]) is Some && unit_factor(tokens(s)[1])
            is None ==> size_of(s) == Err::<u64, SizeError>(SizeError::Unit),
        tokens(s).len() == 2 && number_of(tokens(s)[0]) is None ==> size_of(s) == Err::<
            u64,
            SizeError,
        >(SizeError::Number),
{
}

/// Digits hold no letter `e`.
proof fn lemma_exponent_index_of_plain(s: Seq<char>)
    requires
        forall|i: int| 0 <= i < s.len() ==> is_digit(#[trigger] s[i]) || s[i] == '.',
    ensures
        exponent_index(s) == s.len(),
    decreases s.len(),
{
    if s.len() > 0 {
        assert(is_digit(s[0]) || s[0] == '.');
        assert forall|i: int| 0 <= i < s.drop_first().len() implies is_digit(
            #[trigger] s.drop_first()[i],
        ) || s.drop_first()[i] == '.' by {
            assert(s.drop_first()[i] == s[i + 1]);
        }
        lemma_exponent_index_of_plain(s.drop_first());
    }
}

/// The first point comes after the digits that stand before it.
proof fn lemma_point_index_after_digits(whole: Seq<char>, rest: Seq<char>)
    requires
        all_digits(whole),
        rest.len() == 0 || rest[0] == '.',
    ensures
        point_index(whole + rest) == whole.len(),
    decreases whole.len(),
{
    if whole.len() == 0 {
        assert(whole + rest =~= rest);
    } else {
        let all = whole + rest;
        assert(all[0] == whole[0]);
        assert(is_digit(whole[0]));
        assert(all.drop_first() =~= whole.drop_first() + rest);
        assert forall|i: int| 0 <= i < whole.drop_first().len() implies is_digit(
            #[trigger] whole.drop_first()[i],
        ) by {
            assert(whole.drop_first()[i] == whole[i + 1]);
        }
        lemma_point_index_after_digits(whole.drop_first(), rest);
    }
}

/// A size written with digits, a point and more digits, white space and a
/// unit is so many units as the digits before the point say, plus the part
/// of a unit that the digits after the point make, rounded down to whole
/// bytes; and at most the largest `u64`.
pub proof fn lemma_decimal_size(
    whole: Seq<char>,
    fraction: Seq<char>,
    between: Seq<char>,
    unit: Seq<char>,
    factor: nat,
)
    requires
        all_digits(whole),
        all_digits(fraction),
        whole.len() + fraction.len() > 0,
        between.len() > 0,
        all_whitespace(between),
        unit_factor(unit) == Some(factor),
    ensures
        size_of(whole + seq!['.'] + fraction + between + unit) == Ok::<u64, SizeError>(
            saturated(
                digits_value(whole) * factor + (digits_value(fraction) * factor) / pow10(
                    fraction.len(),
                ),
            ),
        ),
{
    let number = whole + seq!['.'] + fraction;
    let rest = seq!['.'] + fraction;
    assert(number =~= whole + rest);
    assert forall|i: int| 0 <= i < number.len() implies is_digit(#[trigger] number[i])
        || number[i] == '.' by {
        if i < whole.len() {
            assert(number[i] == whole[i]);
        } else if i > whole.len() {
            assert(number[i] == fraction[i - whole.len() - 1]);
        }
    }
    // The number has no sign, is none of the words, and has no exponent.
    assert(is_digit(number[0]) || number[0] == '.');
    assert(sign_length(number) == 0);
    assert(number.skip(0) =~= number);
    reveal_strlit("inf");
    reveal_strlit("infinity");
    reveal_strlit("nan");
    assert(folded(number)[0] == number[0] as u32);
    assert(folded("inf"@)[0] == 0x49u32);
    assert(folded("infinity"@)[0] == 0x49u32);
    assert(folded("nan"@)[0] == 0x4Eu32);
    lemma_exponent_index_of_plain(number);
    assert(number.take(number.len() as int) =~= number);
    lemma_point_index_after_digits(whole, rest);
    assert(number.take(whole.len() as int) =~= whole);
    assert(number.skip(whole.len() as int + 1) =~= fraction);
    assert(decimal_of(number) == Some((whole, fraction, 0int)));
    assert(number_of(number) == Some(
        Number::Finite { negative: false, whole, fraction, exponent: 0 },
    ));
    lemma_scaled_split(whole, fraction, factor);
    // Neither the number nor the unit holds white space.
    assert forall|i: int| 0 <= i < number.len() implies !is_whitespace(#[trigger] number[i]) by {
        assert(is_digit(number[i]) || number[i] == '.');
    }
    lemma_unit_names();
    let name = folded(unit);
    assert(unit.len() == name.len());
    assert forall|i: int| 0 <= i < unit.len() implies !is_whitespace(#[trigger] unit[i]) by {
        assert(name[i] == crate::text::ascii_fold(unit[i]));
        assert(seq![0x4Bu32, 0x42u32][1] == 0x42u32 && seq![0x4Du32, 0x42u32][1] == 0x42u32
            && seq![0x47u32, 0x42u32][1] == 0x42u32);
        assert(name[i] == 0x42 || name[i] == 0x4B || name[i] == 0x4D || name[i] == 0x47);
    }
    let none = Seq::<char>::empty();
    lemma_size_of_number_and_unit(none, number, between, unit, none);
    assert(none + number + between + unit + none =~= whole + seq!['.'] + fraction + between
        + unit);
}

} // verus!
