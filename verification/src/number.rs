//! Exact numbers: fractions of two unbounded integers. No operation rounds unless its name
//! says so.

use crate::bigint::big_add;
use crate::bigint::big_clone;
use crate::bigint::big_eq;
use crate::bigint::big_floor_div;
use crate::bigint::big_from;
use crate::bigint::big_lt;
use crate::bigint::big_mul;
use crate::bigint::decimal_text;
use crate::bigint::digit_char;
use crate::bigint::big_sub;
use crate::bigint::big_to_i64;
use crate::bigint::big_to_string;
use crate::text::push_char;
use crate::bigint::big_value;
use num_bigint::BigInt;
use vstd::prelude::*;

verus! {

/// A fraction `num / den` as the verifier sees it. Two fractions may stand for the same
/// number; `same` says when.
pub struct Ratio {
    pub num: int,
    pub den: int,
}

impl Ratio {
    pub open spec fn wf(self) -> bool {
        self.den > 0
    }

    pub open spec fn of_int(n: int) -> Ratio {
        Ratio { num: n, den: 1 }
    }

    pub open spec fn plus(self, o: Ratio) -> Ratio {
        Ratio { num: self.num * o.den + o.num * self.den, den: self.den * o.den }
    }

    pub open spec fn minus(self, o: Ratio) -> Ratio {
        Ratio { num: self.num * o.den - o.num * self.den, den: self.den * o.den }
    }

    pub open spec fn times(self, o: Ratio) -> Ratio {
        Ratio { num: self.num * o.num, den: self.den * o.den }
    }

    /// The quotient, with the sign carried by the numerator. Meant for `o.num != 0`.
    pub open spec fn over(self, o: Ratio) -> Ratio {
        if o.num > 0 {
            Ratio { num: self.num * o.den, den: self.den * o.num }
        } else {
            Ratio { num: -(self.num * o.den), den: -(self.den * o.num) }
        }
    }

    /// Whether the two fractions are the same number.
    pub open spec fn same(self, o: Ratio) -> bool {
        self.num * o.den == o.num * self.den
    }

    /// Whether `self` is the smaller number.
    pub open spec fn less(self, o: Ratio) -> bool {
        self.num * o.den < o.num * self.den
    }

    /// The largest integer that is not above the number.
    pub open spec fn floor(self) -> int {
        self.num / self.den
    }

    /// The nearest integer, halves going up.
    pub open spec fn round(self) -> int {
        (2 * self.num + self.den) / (2 * self.den)
    }

    /// The number kept between two integers.
    pub open spec fn clamp(self, lo: int, hi: int) -> Ratio {
        if self.less(Ratio::of_int(lo)) {
            Ratio::of_int(lo)
        } else if Ratio::of_int(hi).less(self) {
            Ratio::of_int(hi)
        } else {
            self
        }
    }
}

/// The first `count` decimal places of a fraction between 0 and 1, behind `acc`.
pub open spec fn decimal_places(f: Ratio, count: nat, acc: Seq<char>) -> Seq<char>
    decreases count,
{
    if count == 0 {
        acc
    } else {
        let t = f.times(Ratio::of_int(10));
        decimal_places(
            t.minus(Ratio::of_int(t.floor())),
            (count - 1) as nat,
            acc.push(digit_char(t.floor())),
        )
    }
}

/// A run of digits without the zeros at its end.
pub open spec fn without_trailing_zeros(s: Seq<char>) -> Seq<char>
    decreases s.len(),
{
    if s.len() > 0 && s.last() == '0' {
        without_trailing_zeros(s.drop_last())
    } else {
        s
    }
}

/// A number that is not negative, written in decimal: its whole part, and, where it has a
/// fraction, a point and up to ten decimal places, cut off and without zeros at the end.
pub open spec fn magnitude_text(x: Ratio) -> Seq<char> {
    let whole = x.floor();
    let places = without_trailing_zeros(
        decimal_places(x.minus(Ratio::of_int(whole)), 10, Seq::empty()),
    );
    if places.len() == 0 {
        decimal_text(whole)
    } else {
        decimal_text(whole).push('.') + places
    }
}

/// A number written in decimal, with a leading `-` where it is negative.
pub open spec fn number_text(x: Ratio) -> Seq<char> {
    if x.num < 0 {
        seq!['-'] + magnitude_text(Ratio::of_int(0).minus(x))
    } else {
        magnitude_text(x)
    }
}

/// The product of two positive integers is positive, and a product with a non-zero factor on
/// each side is not zero.
pub proof fn lemma_den_positive(a: int, b: int)
    requires
        a > 0,
        b != 0,
    ensures
        b > 0 ==> a * b > 0,
        b < 0 ==> -(a * b) > 0,
{
    assert(b > 0 ==> a * b > 0) by (nonlinear_arith)
        requires
            a > 0,
    ;
    assert(b < 0 ==> -(a * b) > 0) by (nonlinear_arith)
        requires
            a > 0,
    ;
}

/// The rounding of a number that lies between two integers lies between them too.
pub proof fn lemma_round_bounds(x: Ratio, lo: int, hi: int)
    requires
        x.wf(),
        !x.less(Ratio::of_int(lo)),
        !Ratio::of_int(hi).less(x),
    ensures
        lo <= x.round() <= hi,
{
    let n = 2 * x.num + x.den;
    let d = 2 * x.den;
    let q = n / d;
    let r = n % d;
    vstd::arithmetic::div_mod::lemma_fundamental_div_mod(n, d);
    assert(0 <= r < d) by (nonlinear_arith)
        requires
            r == n % d,
            d > 0,
    ;
    assert(lo * x.den <= x.num <= hi * x.den);
    assert(q >= lo) by (nonlinear_arith)
        requires
            n == d * q + r,
            r < d,
            d == 2 * x.den,
            n == 2 * x.num + x.den,
            lo * x.den <= x.num,
            x.den > 0,
    ;
    assert(q <= hi) by (nonlinear_arith)
        requires
            n == d * q + r,
            0 <= r,
            d == 2 * x.den,
            n == 2 * x.num + x.den,
            x.num <= hi * x.den,
            x.den > 0,
    ;
}

/// An integer rounds to itself.
pub proof fn lemma_round_of_int(n: int)
    ensures
        Ratio::of_int(n).round() == n,
{
    vstd::arithmetic::div_mod::lemma_fundamental_div_mod_converse(2 * n + 1, 2, n, 1);
}

/// An exact number.
#[derive(Debug)]
pub struct Number {
    num: BigInt,
    den: BigInt,
}

impl View for Number {
    type V = Ratio;

    closed spec fn view(&self) -> Ratio {
        Ratio { num: big_value(self.num), den: big_value(self.den) }
    }
}

impl Clone for Number {
    fn clone(&self) -> (r: Number)
        ensures
            r@ == self@,
    {
        proof {
            use_type_invariant(self);
        }
        Number { num: big_clone(&self.num), den: big_clone(&self.den) }
    }
}

impl Number {
    /// Every number has a positive denominator.
    #[verifier::type_invariant]
    pub open spec fn wf(&self) -> bool {
        self@.wf()
    }

    pub fn from_integer(n: i64) -> (r: Number)
        ensures
            r@ == Ratio::of_int(n as int),
    {
        Number { num: big_from(n), den: big_from(1) }
    }

    /// The fraction `n / d` for a positive `d`.
    pub(crate) fn fraction(n: i64, d: i64) -> (r: Number)
        requires
            d > 0,
        ensures
            r@ == (Ratio { num: n as int, den: d as int }),
    {
        Number { num: big_from(n), den: big_from(d) }
    }

    /// The fraction `n / d`, which does not exist for `d == 0`.
    pub fn ratio(n: i64, d: i64) -> (r: Option<Number>)
        ensures
            r is Some <==> d != 0,
            r matches Some(x) ==> x@ == (if d > 0 {
                Ratio { num: n as int, den: d as int }
            } else {
                Ratio { num: -(n as int), den: -(d as int) }
            }),
    {
        if d == 0 {
            None
        } else if d > 0 {
            Some(Number { num: big_from(n), den: big_from(d) })
        } else {
            let zero = big_from(0);
            Some(
                Number {
                    num: big_sub(&zero, &big_from(n)),
                    den: big_sub(&zero, &big_from(d)),
                },
            )
        }
    }

    pub fn plus(&self, o: &Number) -> (r: Number)
        ensures
            r@ == self@.plus(o@),
    {
        proof {
            use_type_invariant(self);
            use_type_invariant(o);
        }
        proof {
            lemma_den_positive(self@.den, o@.den);
        }
        let a = big_mul(&self.num, &o.den);
        let b = big_mul(&o.num, &self.den);
        Number { num: big_add(&a, &b), den: big_mul(&self.den, &o.den) }
    }

    pub fn minus(&self, o: &Number) -> (r: Number)
        ensures
            r@ == self@.minus(o@),
    {
        proof {
            use_type_invariant(self);
            use_type_invariant(o);
        }
        proof {
            lemma_den_positive(self@.den, o@.den);
        }
        let a = big_mul(&self.num, &o.den);
        let b = big_mul(&o.num, &self.den);
        Number { num: big_sub(&a, &b), den: big_mul(&self.den, &o.den) }
    }

    pub fn times(&self, o: &Number) -> (r: Number)
        ensures
            r@ == self@.times(o@),
    {
        proof {
            use_type_invariant(self);
            use_type_invariant(o);
        }
        proof {
            lemma_den_positive(self@.den, o@.den);
        }
        Number { num: big_mul(&self.num, &o.num), den: big_mul(&self.den, &o.den) }
    }

    /// The quotient, which does not exist where `o` is zero.
    pub fn over(&self, o: &Number) -> (r: Option<Number>)
        ensures
            r is Some <==> o@.num != 0,
            r matches Some(x) ==> x@ == self@.over(o@),
    {
        proof {
            use_type_invariant(self);
            use_type_invariant(o);
        }
        let zero = big_from(0);
        if big_eq(&o.num, &zero) {
            return None;
        }
        proof {
            lemma_den_positive(self@.den, o@.num);
        }
        let n = big_mul(&self.num, &o.den);
        let d = big_mul(&self.den, &o.num);
        if big_lt(&zero, &o.num) {
            Some(Number { num: n, den: d })
        } else {
            Some(Number { num: big_sub(&zero, &n), den: big_sub(&zero, &d) })
        }
    }

    pub fn same(&self, o: &Number) -> (r: bool)
        ensures
            r == self@.same(o@),
    {
        let a = big_mul(&self.num, &o.den);
        let b = big_mul(&o.num, &self.den);
        big_eq(&a, &b)
    }

    pub fn less(&self, o: &Number) -> (r: bool)
        ensures
            r == self@.less(o@),
    {
        let a = big_mul(&self.num, &o.den);
        let b = big_mul(&o.num, &self.den);
        big_lt(&a, &b)
    }

    pub fn is_zero(&self) -> (r: bool)
        ensures
            r == (self@.num == 0),
    {
        big_eq(&self.num, &big_from(0))
    }

    /// The number kept between `lo` and `hi`.
    pub fn clamp(&self, lo: i64, hi: i64) -> (r: Number)
        ensures
            r@ == self@.clamp(lo as int, hi as int),
    {
        proof {
            use_type_invariant(self);
        }
        let low = Number::from_integer(lo);
        let high = Number::from_integer(hi);
        if self.less(&low) {
            low
        } else if high.less(self) {
            high
        } else {
            self.clone()
        }
    }

    /// The number rounded down, as an exact number.
    pub fn floor(&self) -> (r: Number)
        ensures
            r@ == Ratio::of_int(self@.floor()),
    {
        proof {
            use_type_invariant(self);
        }
        Number { num: big_floor_div(&self.num, &self.den), den: big_from(1) }
    }

    /// The nearest integer, halves going up, where an `i64` can hold it.
    pub fn round(&self) -> (r: Option<i64>)
        ensures
            r is Some <==> i64::MIN <= self@.round() <= i64::MAX,
            r matches Some(v) ==> v == self@.round(),
    {
        proof {
            use_type_invariant(self);
        }
        let two = big_from(2);
        let n = big_add(&big_mul(&two, &self.num), &self.den);
        let d = big_mul(&two, &self.den);
        let q = big_floor_div(&n, &d);
        big_to_i64(&q)
    }

    /// The number as an integer, where it is one and an `i64` can hold it.
    pub fn to_integer(&self) -> (r: Option<i64>)
        ensures
            r is Some <==> self@.num % self@.den == 0 && i64::MIN <= self@.floor() <= i64::MAX,
            r matches Some(v) ==> v == self@.floor(),
    {
        proof {
            use_type_invariant(self);
        }
        let q = big_floor_div(&self.num, &self.den);
        let back = big_mul(&q, &self.den);
        proof {
            vstd::arithmetic::div_mod::lemma_fundamental_div_mod(self@.num, self@.den);
            assert(self@.den * (self@.num / self@.den) == (self@.num / self@.den) * self@.den)
                by (nonlinear_arith);
        }
        if big_eq(&back, &self.num) {
            big_to_i64(&q)
        } else {
            None
        }
    }
}

fn digit(d: Option<i64>) -> (c: char)
    ensures
        d matches Some(v) ==> c == digit_char(v as int),
{
    match d {
        Some(v) => {
            if v <= 0 {
                '0'
            } else if v == 1 {
                '1'
            } else if v == 2 {
                '2'
            } else if v == 3 {
                '3'
            } else if v == 4 {
                '4'
            } else if v == 5 {
                '5'
            } else if v == 6 {
                '6'
            } else if v == 7 {
                '7'
            } else if v == 8 {
                '8'
            } else {
                '9'
            }
        },
        None => '9',
    }
}

impl Number {
    fn magnitude_to_text(&self) -> (s: String)
        ensures
            s@ == magnitude_text(self@),
    {
        proof {
            use_type_invariant(self);
        }
        let whole = big_floor_div(&self.num, &self.den);
        let mut text = big_to_string(&whole);
        let mut f = self.minus(&Number { num: whole, den: big_from(1) });
        let mut places: Vec<char> = Vec::new();
        let ghost start = f@;
        let mut left: usize = 10;
        let ten = Number::from_integer(10);
        while left > 0
            invariant
                f.wf(),
                ten@ == Ratio::of_int(10),
                ten.wf(),
                left <= 10,
                decimal_places(f@, left as nat, places@) == decimal_places(start, 10, Seq::empty()),
            decreases left,
        {
            let t = f.times(&ten);
            let d = t.floor();
            let c = match big_to_i64(&d.num) {
                Some(v) => digit(Some(v)),
                None => {
                    if big_lt(&d.num, &big_from(0)) {
                        '0'
                    } else {
                        '9'
                    }
                },
            };
            places.push(c);
            f = t.minus(&d);
            left = left - 1;
        }
        let ghost all = places@;
        while places.len() > 0 && places[places.len() - 1] == '0'
            invariant
                without_trailing_zeros(places@) == without_trailing_zeros(all),
            decreases places.len(),
        {
            places.pop();
        }
        if places.len() > 0 {
            push_char(&mut text, '.');
            let mut i: usize = 0;
            let ghost head = text@;
            while i < places.len()
                invariant
                    i <= places.len(),
                    text@ == head + places@.take(i as int),
                decreases places.len() - i,
            {
                push_char(&mut text, places[i]);
                proof {
                    assert(places@.take(i as int).push(places@[i as int]) == places@.take(i + 1));
                }
                i = i + 1;
            }
            proof {
                assert(places@.take(places.len() as int) == places@);
            }
        }
        text
    }

    /// The number written in decimal: at most ten decimal places, the rest cut off.
    pub fn to_text(&self) -> (s: String)
        ensures
            s@ == number_text(self@),
    {
        proof {
            use_type_invariant(self);
        }
        let zero = big_from(0);
        if big_lt(&self.num, &zero) {
            let flipped = Number::from_integer(0).minus(self);
            let rest = flipped.magnitude_to_text();
            let mut text = String::new();
            push_char(&mut text, '-');
            let text = text.concat(rest.as_str());
            proof {
                assert(text@ =~= seq!['-'] + rest@);
            }
            text
        } else {
            self.magnitude_to_text()
        }
    }
}

} // verus!
