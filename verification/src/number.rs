//! Arbitrary-precision integers.
//!
//! A [`Number`] stores an integer as its two's-complement bytes, least
//! significant byte first. The arithmetic itself is done by `num_bigint`. Each
//! function that calls it reads its arguments with
//! `BigInt::from_signed_bytes_le` and writes its result with
//! `BigInt::to_signed_bytes_le`, which are trusted to read and write exactly
//! these bytes, and states what it relies on of the operation in between.

use crate::text::chars_of;
use num_bigint::BigInt;
use vstd::prelude::*;

verus! {

/// 256 to the power `n`.
pub open spec fn radix_power(n: nat) -> nat
    decreases n,
{
    if n == 0 {
        1
    } else {
        256 * radix_power((n - 1) as nat)
    }
}

/// The natural number whose base-256 digits, least significant first, are `bytes`.
pub open spec fn magnitude(bytes: Seq<u8>) -> nat
    decreases bytes.len(),
{
    if bytes.len() == 0 {
        0
    } else {
        bytes[0] as nat + 256 * magnitude(bytes.skip(1))
    }
}

/// The integer that `bytes` denote in two's complement, least significant byte
/// first. No bytes denote zero.
pub open spec fn signed_value(bytes: Seq<u8>) -> int {
    if bytes.len() > 0 && bytes.last() >= 128 {
        magnitude(bytes) - radix_power(bytes.len())
    } else {
        magnitude(bytes) as int
    }
}

/// `base` to the power `exponent`.
pub open spec fn power(base: int, exponent: nat) -> int
    decreases exponent,
{
    if exponent == 0 {
        1
    } else {
        base * power(base, (exponent - 1) as nat)
    }
}

/// The quotient of `a` by `b` rounded toward zero.
pub open spec fn truncated_quotient(a: int, b: int) -> int
    recommends
        b != 0,
{
    if a >= 0 && b > 0 {
        a / b
    } else if a >= 0 {
        -(a / (-b))
    } else if b > 0 {
        -((-a) / b)
    } else {
        (-a) / (-b)
    }
}

/// The size of `v`.
pub open spec fn magnitude_of(v: int) -> int {
    if v < 0 {
        -v
    } else {
        v
    }
}

/// A quotient rounded toward zero leaves a remainder that is smaller in
/// size than the divisor and has the sign of the dividend; the quotient of
/// the sizes is the size of the quotient.
pub proof fn lemma_division_truncates(a: int, b: int)
    requires
        b != 0,
    ensures
        magnitude_of(a - truncated_quotient(a, b) * b) < magnitude_of(b),
        a >= 0 ==> a - truncated_quotient(a, b) * b >= 0,
        a <= 0 ==> a - truncated_quotient(a, b) * b <= 0,
        magnitude_of(truncated_quotient(a, b)) == magnitude_of(a) / magnitude_of(b),
{
    let x = magnitude_of(a);
    let d = magnitude_of(b);
    let q = x / d;
    assert(0 <= x - q * d < d && q >= 0) by (nonlinear_arith)
        requires
            x >= 0,
            d > 0,
            q == x / d,
    ;
    if a >= 0 && b > 0 {
        assert(truncated_quotient(a, b) == q);
    } else if a >= 0 {
        assert(truncated_quotient(a, b) == -q);
        assert((-q) * b == q * d) by (nonlinear_arith)
            requires
                d == -b,
        ;
    } else if b > 0 {
        assert(truncated_quotient(a, b) == -q);
        assert((-q) * b == -(q * d)) by (nonlinear_arith)
            requires
                d == b,
        ;
    } else {
        assert(truncated_quotient(a, b) == q);
        assert(q * b == -(q * d)) by (nonlinear_arith)
            requires
                d == -b,
        ;
    }
}

/// The character of a decimal digit.
pub open spec fn digit_char(d: nat) -> char
    recommends
        d < 10,
{
    if d == 0 {
        '0'
    } else if d == 1 {
        '1'
    } else if d == 2 {
        '2'
    } else if d == 3 {
        '3'
    } else if d == 4 {
        '4'
    } else if d == 5 {
        '5'
    } else if d == 6 {
        '6'
    } else if d == 7 {
        '7'
    } else if d == 8 {
        '8'
    } else {
        '9'
    }
}

/// The decimal digits of `n`, most significant first, without leading zeros.
pub open spec fn decimal_digits(n: nat) -> Seq<char>
    decreases n,
{
    if n < 10 {
        seq![digit_char(n)]
    } else {
        decimal_digits(n / 10).push(digit_char(n % 10))
    }
}

/// The decimal text of `v`: its digits, after a minus sign where `v` is negative.
pub open spec fn decimal_text(v: int) -> Seq<char> {
    if v < 0 {
        seq!['-'] + decimal_digits((-v) as nat)
    } else {
        decimal_digits(v as nat)
    }
}

/// Whether `c` is one of the ten decimal digits.
pub open spec fn is_digit(c: char) -> bool {
    '0' <= c && c <= '9'
}

/// The value of the decimal digit `c`.
pub open spec fn digit_value(c: char) -> nat
    recommends
        is_digit(c),
{
    (c as u32 - '0' as u32) as nat
}

/// Whether `text` is an integer literal: a digit, followed by any number of
/// digits and underscores.
pub open spec fn is_literal(text: Seq<char>) -> bool {
    &&& text.len() > 0
    &&& is_digit(text[0])
    &&& forall|i: int| 0 <= i < text.len() ==> is_digit(#[trigger] text[i]) || text[i] == '_'
}

/// The value of a literal: its digits read in base ten, underscores skipped.
pub open spec fn literal_value(text: Seq<char>) -> nat
    decreases text.len(),
{
    if text.len() == 0 {
        0
    } else if text.last() == '_' {
        literal_value(text.drop_last())
    } else {
        10 * literal_value(text.drop_last()) + digit_value(text.last())
    }
}

/// An integer of any size.
#[derive(Debug)]
pub struct Number {
    bytes: Vec<u8>,
}

impl View for Number {
    type V = int;

    closed spec fn view(&self) -> int {
        signed_value(self.bytes@)
    }
}

/// `BigInt::from` on an `i64` gives the number with that value.
#[verifier::external_body]
fn bigint_from_i64(value: i64) -> (r: Number)
    ensures
        r@ == value,
{
    Number { bytes: BigInt::from(value).to_signed_bytes_le() }
}

/// `BigInt`'s `+` is exact addition.
#[verifier::external_body]
fn bigint_add(a: &Number, b: &Number) -> (r: Number)
    ensures
        r@ == a@ + b@,
{
    let sum = BigInt::from_signed_bytes_le(&a.bytes) + BigInt::from_signed_bytes_le(&b.bytes);
    Number { bytes: sum.to_signed_bytes_le() }
}

/// `BigInt`'s `-` is exact subtraction.
#[verifier::external_body]
fn bigint_sub(a: &Number, b: &Number) -> (r: Number)
    ensures
        r@ == a@ - b@,
{
    let difference = BigInt::from_signed_bytes_le(&a.bytes) - BigInt::from_signed_bytes_le(&b.bytes);
    Number { bytes: difference.to_signed_bytes_le() }
}

/// `BigInt`'s `*` is exact multiplication.
#[verifier::external_body]
fn bigint_mul(a: &Number, b: &Number) -> (r: Number)
    ensures
        r@ == a@ * b@,
{
    let product = BigInt::from_signed_bytes_le(&a.bytes) * BigInt::from_signed_bytes_le(&b.bytes);
    Number { bytes: product.to_signed_bytes_le() }
}

/// `BigInt`'s `/` rounds the quotient toward zero. It panics on a zero
/// divisor, which the precondition leaves out.
#[verifier::external_body]
fn bigint_div(a: &Number, b: &Number) -> (r: Number)
    requires
        b@ != 0,
    ensures
        r@ == truncated_quotient(a@, b@),
{
    let quotient = BigInt::from_signed_bytes_le(&a.bytes) / BigInt::from_signed_bytes_le(&b.bytes);
    Number { bytes: quotient.to_signed_bytes_le() }
}

/// `BigInt::pow` raises to a `u32` power; anything to the power zero is one.
#[verifier::external_body]
fn bigint_pow(a: &Number, exponent: u32) -> (r: Number)
    ensures
        r@ == power(a@, exponent as nat),
{
    Number { bytes: BigInt::from_signed_bytes_le(&a.bytes).pow(exponent).to_signed_bytes_le() }
}

/// `BigInt`'s `==` holds exactly of equal integers.
#[verifier::external_body]
fn bigint_eq(a: &Number, b: &Number) -> (r: bool)
    ensures
        r == (a@ == b@),
{
    BigInt::from_signed_bytes_le(&a.bytes) == BigInt::from_signed_bytes_le(&b.bytes)
}

/// `BigInt`'s `<` is the order of the integers.
#[verifier::external_body]
fn bigint_lt(a: &Number, b: &Number) -> (r: bool)
    ensures
        r == (a@ < b@),
{
    BigInt::from_signed_bytes_le(&a.bytes) < BigInt::from_signed_bytes_le(&b.bytes)
}

/// `u32::try_from` on a `BigInt` succeeds exactly when the value fits, and
/// then gives that value.
#[verifier::external_body]
fn bigint_to_u32(a: &Number) -> (r: Option<u32>)
    ensures
        r == (if 0 <= a@ <= u32::MAX {
            Some(a@ as u32)
        } else {
            None
        }),
{
    u32::try_from(&BigInt::from_signed_bytes_le(&a.bytes)).ok()
}

/// `str::parse::<BigInt>` reads a literal in base ten and skips underscores.
/// On a text that is no literal it may fail; the precondition leaves those
/// out.
#[verifier::external_body]
fn bigint_parse(text: &str) -> (r: Number)
    requires
        is_literal(text@),
    ensures
        r@ == literal_value(text@),
{
    Number { bytes: text.parse::<BigInt>().unwrap().to_signed_bytes_le() }
}

/// `BigInt::to_string` writes the decimal digits, after a minus sign for a
/// negative number.
#[verifier::external_body]
fn bigint_to_string(a: &Number) -> (r: String)
    ensures
        r@ == decimal_text(a@),
{
    BigInt::from_signed_bytes_le(&a.bytes).to_string()
}

impl Clone for Number {
    fn clone(&self) -> (r: Self)
        ensures
            r@ == self@,
    {
        let bytes = self.bytes.clone();
        assert(bytes@ =~= self.bytes@);
        Number { bytes }
    }
}

impl Number {
    /// The number with the value of `value`.
    pub fn from_i64(value: i64) -> (r: Number)
        ensures
            r@ == value,
    {
        bigint_from_i64(value)
    }

    /// The sum of the two numbers.
    pub fn add(&self, other: &Number) -> (r: Number)
        ensures
            r@ == self@ + other@,
    {
        bigint_add(self, other)
    }

    /// The difference of the two numbers.
    pub fn sub(&self, other: &Number) -> (r: Number)
        ensures
            r@ == self@ - other@,
    {
        bigint_sub(self, other)
    }

    /// The product of the two numbers.
    pub fn mul(&self, other: &Number) -> (r: Number)
        ensures
            r@ == self@ * other@,
    {
        bigint_mul(self, other)
    }

    /// The quotient rounded toward zero, or `None` where `other` is zero.
    pub fn checked_div(&self, other: &Number) -> (r: Option<Number>)
        ensures
            other@ == 0 ==> r is None,
            other@ != 0 ==> r is Some && r->0@ == truncated_quotient(self@, other@),
    {
        if other.is_zero() {
            None
        } else {
            Some(bigint_div(self, other))
        }
    }

    /// This number to the power `exponent`.
    pub fn pow(&self, exponent: u32) -> (r: Number)
        ensures
            r@ == power(self@, exponent as nat),
    {
        bigint_pow(self, exponent)
    }

    /// Whether the two numbers are equal.
    pub fn equals(&self, other: &Number) -> (r: bool)
        ensures
            r == (self@ == other@),
    {
        bigint_eq(self, other)
    }

    /// Whether this number is less than `other`.
    pub fn less_than(&self, other: &Number) -> (r: bool)
        ensures
            r == (self@ < other@),
    {
        bigint_lt(self, other)
    }

    /// Whether this number is zero.
    pub fn is_zero(&self) -> (r: bool)
        ensures
            r == (self@ == 0),
    {
        let zero = Number::from_i64(0);
        bigint_eq(self, &zero)
    }

    /// The value as a `u32`, where it fits.
    pub fn to_u32(&self) -> (r: Option<u32>)
        ensures
            r == (if 0 <= self@ <= u32::MAX {
                Some(self@ as u32)
            } else {
                None
            }),
    {
        bigint_to_u32(self)
    }

    /// The number that the literal `text` denotes, or `None` where `text` is
    /// no literal.
    pub fn parse(text: &str) -> (r: Option<Number>)
        ensures
            is_literal(text@) ==> r is Some && r->0@ == literal_value(text@),
            !is_literal(text@) ==> r is None,
    {
        let chars = chars_of(text);
        if chars.len() == 0 || !is_digit_char(chars[0]) {
            return None;
        }
        let mut i: usize = 1;
        while i < chars.len()
            invariant
                1 <= i <= chars.len(),
                chars@ == text@,
                forall|j: int| 0 <= j < i ==> is_digit(#[trigger] chars@[j]) || chars@[j] == '_',
            decreases chars.len() - i,
        {
            if !(is_digit_char(chars[i]) || chars[i] == '_') {
                return None;
            }
            i += 1;
        }
        Some(bigint_parse(text))
    }

    /// The decimal text of the number.
    pub fn to_string(&self) -> (r: String)
        ensures
            r@ == decimal_text(self@),
    {
        bigint_to_string(self)
    }
}

/// Whether `c` is a decimal digit.
pub fn is_digit_char(c: char) -> (r: bool)
    ensures
        r == is_digit(c),
{
    '0' <= c && c <= '9'
}

} // verus!
