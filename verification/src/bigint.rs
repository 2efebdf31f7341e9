//! Integers without bound, from `num_bigint`. The verifier sees a `BigInt` through the
//! mathematical integer that it holds.

use num_bigint::BigInt;
use vstd::prelude::*;

verus! {

/// `num_bigint::BigInt`, a signed integer of any size. Nothing of its inside is visible here.
#[verifier::external_type_specification]
#[verifier::external_body]
pub struct ExBigInt(BigInt);

/// The integer that a `BigInt` holds.
pub uninterp spec fn big_value(b: BigInt) -> int;

/// Division that rounds towards zero, for a positive divisor.
pub open spec fn truncated_div(a: int, b: int) -> int {
    if a >= 0 {
        a / b
    } else {
        -((-a) / b)
    }
}

/// `BigInt::from` for an `i64`: the same integer.
#[verifier::external_body]
pub(crate) fn big_from(n: i64) -> (r: BigInt)
    ensures
        big_value(r) == n,
{
    BigInt::from(n)
}

/// `Clone::clone` of `BigInt`: the same integer.
#[verifier::external_body]
pub(crate) fn big_clone(a: &BigInt) -> (r: BigInt)
    ensures
        big_value(r) == big_value(*a),
{
    a.clone()
}

/// `Add::add` on two `&BigInt`: the exact sum.
#[verifier::external_body]
pub(crate) fn big_add(a: &BigInt, b: &BigInt) -> (r: BigInt)
    ensures
        big_value(r) == big_value(*a) + big_value(*b),
{
    a + b
}

/// `Sub::sub` on two `&BigInt`: the exact difference.
#[verifier::external_body]
pub(crate) fn big_sub(a: &BigInt, b: &BigInt) -> (r: BigInt)
    ensures
        big_value(r) == big_value(*a) - big_value(*b),
{
    a - b
}

/// `Mul::mul` on two `&BigInt`: the exact product.
#[verifier::external_body]
pub(crate) fn big_mul(a: &BigInt, b: &BigInt) -> (r: BigInt)
    ensures
        big_value(r) == big_value(*a) * big_value(*b),
{
    a * b
}

/// `Div::div` on two `&BigInt`, which panics on a zero divisor and rounds towards zero.
/// Only positive divisors are admitted here.
#[verifier::external_body]
pub(crate) fn big_div(a: &BigInt, b: &BigInt) -> (r: BigInt)
    requires
        big_value(*b) > 0,
    ensures
        big_value(r) == truncated_div(big_value(*a), big_value(*b)),
{
    a / b
}

/// `PartialOrd::lt` of `BigInt`: the order of the integers.
#[verifier::external_body]
pub(crate) fn big_lt(a: &BigInt, b: &BigInt) -> (r: bool)
    ensures
        r == (big_value(*a) < big_value(*b)),
{
    a < b
}

/// `PartialEq::eq` of `BigInt`: whether the integers are the same.
#[verifier::external_body]
pub(crate) fn big_eq(a: &BigInt, b: &BigInt) -> (r: bool)
    ensures
        r == (big_value(*a) == big_value(*b)),
{
    a == b
}

/// `i64::try_from` a `&BigInt`: the integer, where an `i64` can hold it.
#[verifier::external_body]
pub(crate) fn big_to_i64(a: &BigInt) -> (r: Option<i64>)
    ensures
        r is Some <==> i64::MIN <= big_value(*a) <= i64::MAX,
        r matches Some(v) ==> v == big_value(*a),
{
    i64::try_from(a).ok()
}

/// The character of a digit; `0` for anything below and `9` for anything above.
pub open spec fn digit_char(d: int) -> char {
    if d <= 0 {
        '0'
    } else if d == 1 {
        '1'
    } else if d == 2 {
        '2'
    } else if d == 3 {
        '3'
    } else if d == 4 {
        '4'
    } else if d == 5 {
        '5'
    } else if d == 6 {
        '6'
    } else if d == 7 {
        '7'
    } else if d == 8 {
        '8'
    } else {
        '9'
    }
}

/// The decimal digits of an integer that is not negative, without leading zeros.
pub open spec fn digits_text(n: int) -> Seq<char>
    decreases n,
{
    if n < 10 {
        seq![digit_char(n)]
    } else {
        digits_text(n / 10).push(digit_char(n % 10))
    }
}

/// An integer written in decimal, with a leading `-` where it is negative.
pub open spec fn decimal_text(n: int) -> Seq<char> {
    if n < 0 {
        seq!['-'] + digits_text(-n)
    } else {
        digits_text(n)
    }
}

/// `ToString::to_string` of `BigInt`: the integer written in decimal, without leading zeros
/// and with a leading `-` where it is negative.
#[verifier::external_body]
pub(crate) fn big_to_string(a: &BigInt) -> (r: String)
    ensures
        r@ == decimal_text(big_value(*a)),
{
    a.to_string()
}

/// Division that rounds down, for a positive divisor.
pub(crate) fn big_floor_div(a: &BigInt, b: &BigInt) -> (r: BigInt)
    requires
        big_value(*b) > 0,
    ensures
        big_value(r) == big_value(*a) / big_value(*b),
{
    let q = big_div(a, b);
    let zero = big_from(0);
    if big_lt(a, &zero) {
        let back = big_mul(&q, b);
        if big_eq(&back, a) {
            proof {
                lemma_floor_of_negative(big_value(*a), big_value(*b));
            }
            q
        } else {
            proof {
                lemma_floor_of_negative(big_value(*a), big_value(*b));
            }
            let one = big_from(1);
            big_sub(&q, &one)
        }
    } else {
        q
    }
}

/// For a negative dividend the quotient rounded towards zero is the quotient rounded down
/// where the division is exact, and one above it where it is not.
pub proof fn lemma_floor_of_negative(a: int, b: int)
    requires
        a < 0,
        b > 0,
    ensures
        truncated_div(a, b) * b == a ==> a / b == truncated_div(a, b),
        truncated_div(a, b) * b != a ==> a / b == truncated_div(a, b) - 1,
{
    let m = -a;
    let q = m / b;
    let r = m % b;
    assert(m == q * b + r && 0 <= r < b) by (nonlinear_arith)
        requires
            q == m / b,
            r == m % b,
            b > 0,
    ;
    assert(truncated_div(a, b) == -q);
    if r == 0 {
        assert(a == (-q) * b) by (nonlinear_arith)
            requires
                m == q * b + r,
                r == 0,
                a == -m,
        ;
        vstd::arithmetic::div_mod::lemma_fundamental_div_mod_converse(a, b, -q, 0);
    } else {
        assert(a == (-q - 1) * b + (b - r)) by (nonlinear_arith)
            requires
                m == q * b + r,
                a == -m,
        ;
        vstd::arithmetic::div_mod::lemma_fundamental_div_mod_converse(a, b, -q - 1, b - r);
        assert((-q) * b != a) by (nonlinear_arith)
            requires
                m == q * b + r,
                a == -m,
                r != 0,
        ;
    }
}

} // verus!
