//! Colours: three integral channels and a fractional alpha, built from RGB or from HSL.

use crate::number::lemma_round_bounds;
use crate::number::Number;
use crate::number::Ratio;
use vstd::prelude::*;

verus! {

/// A colour. Red, green and blue are whole numbers from 0 to 255; alpha is a fraction from
/// 0 (transparent) to 1 (opaque) and is stored as that fraction.
#[derive(Debug)]
pub struct Color {
    red: u8,
    green: u8,
    blue: u8,
    alpha: Number,
}

pub struct ColorView {
    pub red: int,
    pub green: int,
    pub blue: int,
    pub alpha: Ratio,
}

impl View for Color {
    type V = ColorView;

    closed spec fn view(&self) -> ColorView {
        ColorView {
            red: self.red as int,
            green: self.green as int,
            blue: self.blue as int,
            alpha: self.alpha@,
        }
    }
}

/// The channel that a number stands for: the number kept between 0 and 255 and rounded to
/// the nearest integer.
pub open spec fn channel_of(x: Ratio) -> int {
    x.clamp(0, 255).round()
}

/// The hue as a fraction of a full turn, from 0 up to but not including 1.
pub open spec fn hue_turn(degrees: Ratio) -> Ratio {
    let turns = degrees.over(Ratio::of_int(360));
    turns.minus(Ratio::of_int(turns.floor()))
}

/// One channel of an HSL colour, as a fraction, for the hue `h`.
pub open spec fn hue_to_rgb(m1: Ratio, m2: Ratio, h: Ratio) -> Ratio {
    let h1 = if h.less(Ratio::of_int(0)) {
        h.plus(Ratio::of_int(1))
    } else {
        h
    };
    let h2 = if Ratio::of_int(1).less(h1) {
        h1.minus(Ratio::of_int(1))
    } else {
        h1
    };
    if h2.times(Ratio::of_int(6)).less(Ratio::of_int(1)) {
        m1.plus(m2.minus(m1).times(h2).times(Ratio::of_int(6)))
    } else if h2.times(Ratio::of_int(2)).less(Ratio::of_int(1)) {
        m2
    } else if h2.times(Ratio::of_int(3)).less(Ratio::of_int(2)) {
        m1.plus(m2.minus(m1).times((Ratio { num: 2, den: 3 }).minus(h2)).times(Ratio::of_int(6)))
    } else {
        m1
    }
}

/// The upper of the two blending weights of an HSL colour.
pub open spec fn hsl_m2(s: Ratio, l: Ratio) -> Ratio {
    if (Ratio { num: 1, den: 2 }).less(l) {
        l.plus(s).minus(l.times(s))
    } else {
        l.times(s.plus(Ratio::of_int(1)))
    }
}

/// The colour that hue (in degrees), saturation and lightness (as fractions, kept between 0
/// and 1) and alpha stand for.
pub open spec fn hsla_view(hue: Ratio, saturation: Ratio, lightness: Ratio, alpha: Ratio)
    -> ColorView {
    let h = hue_turn(hue);
    let s = saturation.clamp(0, 1);
    let l = lightness.clamp(0, 1);
    let m2 = hsl_m2(s, l);
    let m1 = l.times(Ratio::of_int(2)).minus(m2);
    let third = Ratio { num: 1, den: 3 };
    ColorView {
        red: channel_of(hue_to_rgb(m1, m2, h.plus(third)).times(Ratio::of_int(255))),
        green: channel_of(hue_to_rgb(m1, m2, h).times(Ratio::of_int(255))),
        blue: channel_of(hue_to_rgb(m1, m2, h.minus(third)).times(Ratio::of_int(255))),
        alpha: alpha.clamp(0, 1),
    }
}

/// The quotient of two numbers, and zero where the divisor is zero.
pub open spec fn quotient(a: Ratio, b: Ratio) -> Ratio {
    if b.num == 0 {
        Ratio::of_int(0)
    } else {
        a.over(b)
    }
}

/// A channel as a fraction of 255.
pub open spec fn channel_share(c: int) -> Ratio {
    Ratio { num: c, den: 255 }
}

/// The larger of two numbers.
pub open spec fn larger(a: Ratio, b: Ratio) -> Ratio {
    if a.less(b) {
        b
    } else {
        a
    }
}

/// The smaller of two numbers.
pub open spec fn smaller(a: Ratio, b: Ratio) -> Ratio {
    if b.less(a) {
        b
    } else {
        a
    }
}

/// Hue in degrees, saturation and lightness as fractions, of a colour.
pub struct Hsl {
    pub hue: Ratio,
    pub saturation: Ratio,
    pub lightness: Ratio,
}

/// The hue, saturation and lightness of a colour. Lightness is the mean of the largest and
/// the smallest channel; a grey has hue and saturation zero; else saturation is the spread
/// of the channels over what lightness leaves room for, and the hue is the sixth of the
/// circle that the largest channel stands for, moved by the difference of the other two.
pub open spec fn hsl_of(c: ColorView) -> Hsl {
    let r = channel_share(c.red);
    let g = channel_share(c.green);
    let b = channel_share(c.blue);
    let max = larger(larger(r, g), b);
    let min = smaller(smaller(r, g), b);
    let sum = max.plus(min);
    let lightness = quotient(sum, Ratio::of_int(2));
    if max.same(min) {
        Hsl { hue: Ratio::of_int(0), saturation: Ratio::of_int(0), lightness }
    } else {
        let spread = max.minus(min);
        let saturation = if (Ratio { num: 1, den: 2 }).less(lightness) {
            quotient(spread, Ratio::of_int(2).minus(sum))
        } else {
            quotient(spread, sum)
        };
        let sixths = if max.same(r) {
            quotient(g.minus(b), spread).plus(
                if g.less(b) {
                    Ratio::of_int(6)
                } else {
                    Ratio::of_int(0)
                },
            )
        } else if max.same(g) {
            quotient(b.minus(r), spread).plus(Ratio::of_int(2))
        } else {
            quotient(r.minus(g), spread).plus(Ratio::of_int(4))
        };
        Hsl { hue: sixths.times(Ratio::of_int(60)), saturation, lightness }
    }
}

/// The colour that three channel numbers and alpha stand for.
pub open spec fn rgba_view(red: Ratio, green: Ratio, blue: Ratio, alpha: Ratio) -> ColorView {
    ColorView {
        red: channel_of(red),
        green: channel_of(green),
        blue: channel_of(blue),
        alpha: alpha.clamp(0, 1),
    }
}

/// A channel lies between 0 and 255.
pub proof fn lemma_channel_range(x: Ratio)
    requires
        x.wf(),
    ensures
        0 <= channel_of(x) <= 255,
{
    lemma_round_bounds(x.clamp(0, 255), 0, 255);
}

/// A whole number from 0 to 255 is its own channel, however the number is written as a
/// fraction.
pub proof fn lemma_channel_of_integer(x: Ratio, n: int)
    requires
        x.wf(),
        x.same(Ratio::of_int(n)),
        0 <= n <= 255,
    ensures
        channel_of(x) == n,
{
    assert(x.num == n * x.den);
    assert(0 <= n * x.den <= 255 * x.den) by (nonlinear_arith)
        requires
            0 <= n <= 255,
            x.den > 0,
    ;
    assert(x.clamp(0, 255) == x);
    assert(2 * x.num + x.den == (2 * x.den) * n + x.den) by (nonlinear_arith)
        requires
            x.num == n * x.den,
    ;
    vstd::arithmetic::div_mod::lemma_fundamental_div_mod_converse(
        2 * x.num + x.den,
        2 * x.den,
        n,
        x.den,
    );
}

fn channel(x: &Number) -> (c: u8)
    ensures
        c == channel_of(x@),
{
    let kept = x.clamp(0, 255);
    proof {
        use_type_invariant(x);
        lemma_channel_range(x@);
    }
    match kept.round() {
        Some(v) => v as u8,
        None => 0,
    }
}

fn hue_channel(m1: &Number, m2: &Number, h: &Number) -> (r: Number)
    ensures
        r@ == hue_to_rgb(m1@, m2@, h@),
{
    let zero = Number::from_integer(0);
    let one = Number::from_integer(1);
    let two = Number::from_integer(2);
    let three = Number::from_integer(3);
    let six = Number::from_integer(6);
    let h1 = if h.less(&zero) {
        h.plus(&one)
    } else {
        h.clone()
    };
    let h2 = if one.less(&h1) {
        h1.minus(&one)
    } else {
        h1
    };
    if h2.times(&six).less(&one) {
        m1.plus(&m2.minus(m1).times(&h2).times(&six))
    } else if h2.times(&two).less(&one) {
        m2.clone()
    } else if h2.times(&three).less(&two) {
        let two_thirds = Number::fraction(2, 3);
        m1.plus(&m2.minus(m1).times(&two_thirds.minus(&h2)).times(&six))
    } else {
        m1.clone()
    }
}

fn divide(a: &Number, b: &Number) -> (r: Number)
    ensures
        r@ == quotient(a@, b@),
{
    match a.over(b) {
        Some(q) => q,
        None => Number::from_integer(0),
    }
}

fn max_of(a: Number, b: Number) -> (r: Number)
    ensures
        r@ == larger(a@, b@),
{
    if a.less(&b) {
        b
    } else {
        a
    }
}

fn min_of(a: Number, b: Number) -> (r: Number)
    ensures
        r@ == smaller(a@, b@),
{
    if b.less(&a) {
        b
    } else {
        a
    }
}

impl Color {
    /// Alpha lies between 0 and 1.
    #[verifier::type_invariant]
    pub open spec fn wf(&self) -> bool {
        &&& self@.alpha.wf()
        &&& !self@.alpha.less(Ratio::of_int(0))
        &&& !Ratio::of_int(1).less(self@.alpha)
        &&& 0 <= self@.red <= 255
        &&& 0 <= self@.green <= 255
        &&& 0 <= self@.blue <= 255
    }

    /// The colour of three channel numbers and alpha. Each is brought into its range first:
    /// a channel between 0 and 255 and to the nearest integer, alpha between 0 and 1.
    pub fn from_rgba(red: &Number, green: &Number, blue: &Number, alpha: &Number) -> (c: Color)
        ensures
            c@ == rgba_view(red@, green@, blue@, alpha@),
    {
        proof {
            use_type_invariant(alpha);
        }
        Color {
            red: channel(red),
            green: channel(green),
            blue: channel(blue),
            alpha: alpha.clamp(0, 1),
        }
    }

    /// The colour of a hue in degrees, a saturation and a lightness as fractions, and alpha.
    pub fn from_hsla(hue: &Number, saturation: &Number, lightness: &Number, alpha: &Number) -> (c:
        Color)
        ensures
            c@ == hsla_view(hue@, saturation@, lightness@, alpha@),
    {
        let one = Number::from_integer(1);
        let two = Number::from_integer(2);
        let full = Number::from_integer(255);
        let half = Number::fraction(1, 2);
        let third = Number::fraction(1, 3);
        let turns = match hue.over(&Number::from_integer(360)) {
            Some(t) => t,
            None => Number::from_integer(0),
        };
        let h = turns.minus(&turns.floor());
        let s = saturation.clamp(0, 1);
        let l = lightness.clamp(0, 1);
        let m2 = if half.less(&l) {
            l.plus(&s).minus(&l.times(&s))
        } else {
            l.times(&s.plus(&one))
        };
        let m1 = l.times(&two).minus(&m2);
        let r = hue_channel(&m1, &m2, &h.plus(&third)).times(&full);
        let g = hue_channel(&m1, &m2, &h).times(&full);
        let b = hue_channel(&m1, &m2, &h.minus(&third)).times(&full);
        proof {
            use_type_invariant(alpha);
        }
        Color { red: channel(&r), green: channel(&g), blue: channel(&b), alpha: alpha.clamp(0, 1) }
    }

    pub fn red(&self) -> (r: u8)
        ensures
            r == self@.red,
    {
        self.red
    }

    pub fn green(&self) -> (r: u8)
        ensures
            r == self@.green,
    {
        self.green
    }

    pub fn blue(&self) -> (r: u8)
        ensures
            r == self@.blue,
    {
        self.blue
    }

    /// Hue in degrees, saturation and lightness as fractions.
    pub fn to_hsl(&self) -> (hsl: (Number, Number, Number))
        ensures
            hsl.0@ == hsl_of(self@).hue,
            hsl.1@ == hsl_of(self@).saturation,
            hsl.2@ == hsl_of(self@).lightness,
    {
        let r = Number::fraction(self.red as i64, 255);
        let g = Number::fraction(self.green as i64, 255);
        let b = Number::fraction(self.blue as i64, 255);
        let max = max_of(max_of(r.clone(), g.clone()), b.clone());
        let min = min_of(min_of(r.clone(), g.clone()), b.clone());
        let sum = max.plus(&min);
        let two = Number::from_integer(2);
        let lightness = divide(&sum, &two);
        if max.same(&min) {
            return (Number::from_integer(0), Number::from_integer(0), lightness);
        }
        let spread = max.minus(&min);
        let saturation = if Number::fraction(1, 2).less(&lightness) {
            divide(&spread, &two.minus(&sum))
        } else {
            divide(&spread, &sum)
        };
        let sixths = if max.same(&r) {
            let turn = if g.less(&b) {
                Number::from_integer(6)
            } else {
                Number::from_integer(0)
            };
            divide(&g.minus(&b), &spread).plus(&turn)
        } else if max.same(&g) {
            divide(&b.minus(&r), &spread).plus(&two)
        } else {
            divide(&r.minus(&g), &spread).plus(&Number::from_integer(4))
        };
        (sixths.times(&Number::from_integer(60)), saturation, lightness)
    }

    /// The alpha channel as the fraction that the colour stores.
    pub fn alpha(&self) -> (r: Number)
        ensures
            r@ == self@.alpha,
    {
        self.alpha.clone()
    }
}

impl Clone for Color {
    fn clone(&self) -> (r: Color)
        ensures
            r@ == self@,
    {
        proof {
            use_type_invariant(self);
        }
        Color { red: self.red, green: self.green, blue: self.blue, alpha: self.alpha.clone() }
    }
}

/// Building a colour from whole channels between 0 and 255 and reading the channels back
/// gives the same three numbers, however the numbers are written as fractions.
pub proof fn lemma_rgb_round_trip(
    red: Ratio,
    green: Ratio,
    blue: Ratio,
    alpha: Ratio,
    r: int,
    g: int,
    b: int,
)
    requires
        red.wf() && red.same(Ratio::of_int(r)) && 0 <= r <= 255,
        green.wf() && green.same(Ratio::of_int(g)) && 0 <= g <= 255,
        blue.wf() && blue.same(Ratio::of_int(b)) && 0 <= b <= 255,
    ensures
        rgba_view(red, green, blue, alpha).red == r,
        rgba_view(red, green, blue, alpha).green == g,
        rgba_view(red, green, blue, alpha).blue == b,
{
    lemma_channel_of_integer(red, r);
    lemma_channel_of_integer(green, g);
    lemma_channel_of_integer(blue, b);
}

} // verus!
