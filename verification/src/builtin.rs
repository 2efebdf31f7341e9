//! The colour functions: `rgb`, `rgba`, `hsl`, `hsla`, the channel accessors `red`, `green`,
//! `blue`, and `opacity` and `alpha`.

use crate::color::hsla_view;
use crate::color::rgba_view;
use crate::color::Color;
use crate::error::ErrorKind;
use crate::error::SassError;
use crate::number::Number;
use crate::number::Ratio;
use crate::span::Span;
use crate::text::same_text;
use crate::value::QuoteKind;
use crate::value::Unit;
use crate::value::Value;
use vstd::prelude::*;

verus! {

/// The number that a value gives for a red, green or blue channel: a bare number as it is,
/// a percentage as that share of 255. No other value is a channel.
pub open spec fn channel_number(v: Value) -> Option<Ratio> {
    match v {
        Value::Dimension(n, Unit::Unitless) => Some(n@),
        Value::Dimension(n, Unit::Percent) => Some(
            n@.over(Ratio::of_int(100)).times(Ratio::of_int(255)),
        ),
        _ => None,
    }
}

/// The number that a value gives for alpha: a bare number as it is, a percentage as a
/// fraction of one.
pub open spec fn alpha_number(v: Value) -> Option<Ratio> {
    match v {
        Value::Dimension(n, Unit::Unitless) => Some(n@),
        Value::Dimension(n, Unit::Percent) => Some(n@.over(Ratio::of_int(100))),
        _ => None,
    }
}

/// The number that a value gives for a hue: that of a bare number, a percentage or an angle
/// in degrees, unchanged.
pub open spec fn hue_number(v: Value) -> Option<Ratio> {
    match v {
        Value::Dimension(n, Unit::Unitless) => Some(n@),
        Value::Dimension(n, Unit::Percent) => Some(n@),
        Value::Dimension(n, Unit::Deg) => Some(n@),
        _ => None,
    }
}

/// The number that a value gives for saturation or lightness: that of a bare number or a
/// percentage, divided by 100.
pub open spec fn share_number(v: Value) -> Option<Ratio> {
    match v {
        Value::Dimension(n, Unit::Unitless) => Some(n@.over(Ratio::of_int(100))),
        Value::Dimension(n, Unit::Percent) => Some(n@.over(Ratio::of_int(100))),
        _ => None,
    }
}

/// Whether `r` is the number `want`, or, where there is none, a type error at `span` that
/// names `name`.
pub open spec fn number_or_mismatch(
    want: Option<Ratio>,
    r: Result<Number, SassError>,
    span: Span,
    name: Seq<char>,
) -> bool {
    match want {
        Some(x) => r matches Ok(n) && n@ == x,
        None => r matches Err(e) && e.is(ErrorKind::TypeMismatch, span, name),
    }
}

fn hundredth(n: &Number) -> (r: Number)
    ensures
        r@ == n@.over(Ratio::of_int(100)),
{
    match n.over(&Number::from_integer(100)) {
        Some(q) => q,
        None => Number::from_integer(0),
    }
}

fn channel_arg(v: &Value, name: &str, span: Span) -> (r: Result<Number, SassError>)
    ensures
        number_or_mismatch(channel_number(*v), r, span, name@),
{
    match v {
        Value::Dimension(n, Unit::Unitless) => Ok(n.clone()),
        Value::Dimension(n, Unit::Percent) => Ok(hundredth(n).times(&Number::from_integer(255))),
        _ => Err(SassError::new(ErrorKind::TypeMismatch, span, name)),
    }
}

fn alpha_arg(v: &Value, name: &str, span: Span) -> (r: Result<Number, SassError>)
    ensures
        number_or_mismatch(alpha_number(*v), r, span, name@),
{
    match v {
        Value::Dimension(n, Unit::Unitless) => Ok(n.clone()),
        Value::Dimension(n, Unit::Percent) => Ok(hundredth(n)),
        _ => Err(SassError::new(ErrorKind::TypeMismatch, span, name)),
    }
}

fn hue_arg(v: &Value, name: &str, span: Span) -> (r: Result<Number, SassError>)
    ensures
        number_or_mismatch(hue_number(*v), r, span, name@),
{
    match v {
        Value::Dimension(n, Unit::Unitless) => Ok(n.clone()),
        Value::Dimension(n, Unit::Percent) => Ok(n.clone()),
        Value::Dimension(n, Unit::Deg) => Ok(n.clone()),
        _ => Err(SassError::new(ErrorKind::TypeMismatch, span, name)),
    }
}

fn share_arg(v: &Value, name: &str, span: Span) -> (r: Result<Number, SassError>)
    ensures
        number_or_mismatch(share_number(*v), r, span, name@),
{
    match v {
        Value::Dimension(n, Unit::Unitless) => Ok(hundredth(n)),
        Value::Dimension(n, Unit::Percent) => Ok(hundredth(n)),
        _ => Err(SassError::new(ErrorKind::TypeMismatch, span, name)),
    }
}

/// What `rgba` returns: the colour of the four numbers, or a type error that names the first
/// argument that gives none.
pub open spec fn rgba_result(
    red: Value,
    green: Value,
    blue: Value,
    alpha: Option<Ratio>,
    r: Result<Value, SassError>,
    span: Span,
) -> bool {
    if channel_number(red) is None {
        r matches Err(e) && e.is(ErrorKind::TypeMismatch, span, "red"@)
    } else if channel_number(green) is None {
        r matches Err(e) && e.is(ErrorKind::TypeMismatch, span, "green"@)
    } else if channel_number(blue) is None {
        r matches Err(e) && e.is(ErrorKind::TypeMismatch, span, "blue"@)
    } else if alpha is None {
        r matches Err(e) && e.is(ErrorKind::TypeMismatch, span, "alpha"@)
    } else {
        r matches Ok(Value::Color(c)) && c@ == rgba_view(
            channel_number(red).unwrap(),
            channel_number(green).unwrap(),
            channel_number(blue).unwrap(),
            alpha.unwrap(),
        )
    }
}

/// What `hsla` returns: the colour of the four numbers, or a type error that names the first
/// argument that gives none.
pub open spec fn hsla_result(
    hue: Value,
    saturation: Value,
    lightness: Value,
    alpha: Option<Ratio>,
    r: Result<Value, SassError>,
    span: Span,
) -> bool {
    if hue_number(hue) is None {
        r matches Err(e) && e.is(ErrorKind::TypeMismatch, span, "hue"@)
    } else if share_number(saturation) is None {
        r matches Err(e) && e.is(ErrorKind::TypeMismatch, span, "saturation"@)
    } else if share_number(lightness) is None {
        r matches Err(e) && e.is(ErrorKind::TypeMismatch, span, "lightness"@)
    } else if alpha is None {
        r matches Err(e) && e.is(ErrorKind::TypeMismatch, span, "alpha"@)
    } else {
        r matches Ok(Value::Color(c)) && c@ == hsla_view(
            hue_number(hue).unwrap(),
            share_number(saturation).unwrap(),
            share_number(lightness).unwrap(),
            alpha.unwrap(),
        )
    }
}

/// `rgb(red, green, blue)`: an opaque colour.
pub fn rgb(red: &Value, green: &Value, blue: &Value, span: Span) -> (r: Result<Value, SassError>)
    ensures
        rgba_result(*red, *green, *blue, Some(Ratio::of_int(1)), r, span),
{
    let r = match channel_arg(red, "red", span) {
        Ok(n) => n,
        Err(e) => {
            return Err(e);
        },
    };
    let g = match channel_arg(green, "green", span) {
        Ok(n) => n,
        Err(e) => {
            return Err(e);
        },
    };
    let b = match channel_arg(blue, "blue", span) {
        Ok(n) => n,
        Err(e) => {
            return Err(e);
        },
    };
    Ok(Value::Color(Color::from_rgba(&r, &g, &b, &Number::from_integer(1))))
}

/// `rgba(red, green, blue, alpha)`.
pub fn rgba(red: &Value, green: &Value, blue: &Value, alpha: &Value, span: Span) -> (r: Result<
    Value,
    SassError,
>)
    ensures
        rgba_result(*red, *green, *blue, alpha_number(*alpha), r, span),
{
    let r = match channel_arg(red, "red", span) {
        Ok(n) => n,
        Err(e) => {
            return Err(e);
        },
    };
    let g = match channel_arg(green, "green", span) {
        Ok(n) => n,
        Err(e) => {
            return Err(e);
        },
    };
    let b = match channel_arg(blue, "blue", span) {
        Ok(n) => n,
        Err(e) => {
            return Err(e);
        },
    };
    let a = match alpha_arg(alpha, "alpha", span) {
        Ok(n) => n,
        Err(e) => {
            return Err(e);
        },
    };
    Ok(Value::Color(Color::from_rgba(&r, &g, &b, &a)))
}

/// `hsl(hue, saturation, lightness)`: an opaque colour.
pub fn hsl(hue: &Value, saturation: &Value, lightness: &Value, span: Span) -> (r: Result<
    Value,
    SassError,
>)
    ensures
        hsla_result(*hue, *saturation, *lightness, Some(Ratio::of_int(1)), r, span),
{
    let h = match hue_arg(hue, "hue", span) {
        Ok(n) => n,
        Err(e) => {
            return Err(e);
        },
    };
    let s = match share_arg(saturation, "saturation", span) {
        Ok(n) => n,
        Err(e) => {
            return Err(e);
        },
    };
    let l = match share_arg(lightness, "lightness", span) {
        Ok(n) => n,
        Err(e) => {
            return Err(e);
        },
    };
    Ok(Value::Color(Color::from_hsla(&h, &s, &l, &Number::from_integer(1))))
}

/// `hsla(hue, saturation, lightness, alpha)`.
pub fn hsla(hue: &Value, saturation: &Value, lightness: &Value, alpha: &Value, span: Span) -> (r:
    Result<Value, SassError>)
    ensures
        hsla_result(*hue, *saturation, *lightness, alpha_number(*alpha), r, span),
{
    let h = match hue_arg(hue, "hue", span) {
        Ok(n) => n,
        Err(e) => {
            return Err(e);
        },
    };
    let s = match share_arg(saturation, "saturation", span) {
        Ok(n) => n,
        Err(e) => {
            return Err(e);
        },
    };
    let l = match share_arg(lightness, "lightness", span) {
        Ok(n) => n,
        Err(e) => {
            return Err(e);
        },
    };
    let a = match alpha_arg(alpha, "alpha", span) {
        Ok(n) => n,
        Err(e) => {
            return Err(e);
        },
    };
    Ok(Value::Color(Color::from_hsla(&h, &s, &l, &a)))
}

/// Whether `r` is the bare number `want` of a colour, or, for a value that is no colour, a
/// type error at `span` that names the accessor.
pub open spec fn accessor_result(
    color: Value,
    want: spec_fn(Color) -> Ratio,
    r: Result<Value, SassError>,
    span: Span,
    name: Seq<char>,
) -> bool {
    match color {
        Value::Color(c) => r matches Ok(Value::Dimension(n, Unit::Unitless)) && n@ == want(c),
        _ => r matches Err(e) && e.is(ErrorKind::TypeMismatch, span, name),
    }
}

/// `red(color)`: the red channel as a bare number.
pub fn red(color: &Value, span: Span) -> (r: Result<Value, SassError>)
    ensures
        accessor_result(*color, |c: Color| Ratio::of_int(c@.red), r, span, "red"@),
{
    match color {
        Value::Color(c) => Ok(
            Value::Dimension(Number::from_integer(c.red() as i64), Unit::Unitless),
        ),
        _ => Err(SassError::new(ErrorKind::TypeMismatch, span, "red")),
    }
}

/// `green(color)`: the green channel as a bare number.
pub fn green(color: &Value, span: Span) -> (r: Result<Value, SassError>)
    ensures
        accessor_result(*color, |c: Color| Ratio::of_int(c@.green), r, span, "green"@),
{
    match color {
        Value::Color(c) => Ok(
            Value::Dimension(Number::from_integer(c.green() as i64), Unit::Unitless),
        ),
        _ => Err(SassError::new(ErrorKind::TypeMismatch, span, "green")),
    }
}

/// `blue(color)`: the blue channel as a bare number.
pub fn blue(color: &Value, span: Span) -> (r: Result<Value, SassError>)
    ensures
        accessor_result(*color, |c: Color| Ratio::of_int(c@.blue), r, span, "blue"@),
{
    match color {
        Value::Color(c) => Ok(
            Value::Dimension(Number::from_integer(c.blue() as i64), Unit::Unitless),
        ),
        _ => Err(SassError::new(ErrorKind::TypeMismatch, span, "blue")),
    }
}

/// `alpha(color)`: the alpha channel as a bare number. A colour stores alpha as a fraction
/// between 0 and 1, and that fraction is what is returned.
pub fn alpha(color: &Value, span: Span) -> (r: Result<Value, SassError>)
    ensures
        accessor_result(*color, |c: Color| c@.alpha, r, span, "alpha"@),
{
    match color {
        Value::Color(c) => Ok(Value::Dimension(c.alpha(), Unit::Unitless)),
        _ => Err(SassError::new(ErrorKind::TypeMismatch, span, "alpha")),
    }
}

/// The text that a unit is written with.
pub open spec fn unit_text(u: Unit) -> Seq<char> {
    match u {
        Unit::Unitless => ""@,
        Unit::Percent => "%"@,
        Unit::Deg => "deg"@,
        Unit::Grad => "grad"@,
        Unit::Rad => "rad"@,
        Unit::Turn => "turn"@,
        Unit::Px => "px"@,
        Unit::Em => "em"@,
        Unit::Rem => "rem"@,
        Unit::Unknown(s) => s@,
    }
}

pub fn unit_to_text(u: &Unit) -> (s: String)
    ensures
        s@ == unit_text(*u),
{
    match u {
        Unit::Unitless => String::from_str(""),
        Unit::Percent => String::from_str("%"),
        Unit::Deg => String::from_str("deg"),
        Unit::Grad => String::from_str("grad"),
        Unit::Rad => String::from_str("rad"),
        Unit::Turn => String::from_str("turn"),
        Unit::Px => String::from_str("px"),
        Unit::Em => String::from_str("em"),
        Unit::Rem => String::from_str("rem"),
        Unit::Unknown(s) => s.clone(),
    }
}

/// What `opacity` returns: for a colour its alpha; for a number with a unit the text of a
/// plain CSS call, `opacity(` the number and its unit `)`, unquoted; a type error else.
pub open spec fn opacity_result(v: Value, r: Result<Value, SassError>, span: Span) -> bool {
    match v {
        Value::Color(c) => r matches Ok(Value::Dimension(n, Unit::Unitless)) && n@ == c@.alpha,
        Value::Dimension(n, u) => r matches Ok(Value::String(s, QuoteKind::Unquoted)) && s@
            == "opacity("@ + crate::number::number_text(n@) + unit_text(u) + ")"@,
        _ => r matches Err(e) && e.is(ErrorKind::TypeMismatch, span, "opacity"@),
    }
}

/// `opacity(color)`, and the plain CSS function `opacity(number)`.
pub fn opacity(v: &Value, span: Span) -> (r: Result<Value, SassError>)
    ensures
        opacity_result(*v, r, span),
{
    match v {
        Value::Color(c) => Ok(Value::Dimension(c.alpha(), Unit::Unitless)),
        Value::Dimension(n, u) => {
            let text = String::from_str("opacity(");
            let text = text.concat(n.to_text().as_str());
            let text = text.concat(unit_to_text(u).as_str());
            let text = text.concat(")");
            Ok(Value::String(text, QuoteKind::Unquoted))
        },
        _ => Err(SassError::new(ErrorKind::TypeMismatch, span, "opacity")),
    }
}

/// The colour functions.
#[derive(Clone, Copy, Debug, PartialEq, Eq, Structural)]
pub enum Builtin {
    Rgb,
    Rgba,
    Hsl,
    Hsla,
    Red,
    Green,
    Blue,
    Opacity,
    Alpha,
}

/// The name that a function is registered and called under.
pub open spec fn builtin_name(b: Builtin) -> Seq<char> {
    match b {
        Builtin::Rgb => "rgb"@,
        Builtin::Rgba => "rgba"@,
        Builtin::Hsl => "hsl"@,
        Builtin::Hsla => "hsla"@,
        Builtin::Red => "red"@,
        Builtin::Green => "green"@,
        Builtin::Blue => "blue"@,
        Builtin::Opacity => "opacity"@,
        Builtin::Alpha => "alpha"@,
    }
}

/// The colour functions in the order in which they are registered.
pub open spec fn all_builtins() -> Seq<Builtin> {
    seq![
        Builtin::Rgb,
        Builtin::Rgba,
        Builtin::Hsl,
        Builtin::Hsla,
        Builtin::Red,
        Builtin::Green,
        Builtin::Blue,
        Builtin::Opacity,
        Builtin::Alpha,
    ]
}

pub open spec fn registry_view(f: Seq<(String, Builtin)>) -> Seq<(Seq<char>, Builtin)> {
    f.map_values(|e: (String, Builtin)| (e.0@, e.1))
}

/// The function that a name stands for in a registry: the one registered under it last.
pub open spec fn registered(f: Seq<(Seq<char>, Builtin)>, name: Seq<char>) -> Option<Builtin>
    decreases f.len(),
{
    if f.len() == 0 {
        None
    } else if f.last().0 == name {
        Some(f.last().1)
    } else {
        registered(f.drop_last(), name)
    }
}

impl Builtin {
    pub fn name(self) -> (s: &'static str)
        ensures
            s@ == builtin_name(self),
    {
        match self {
            Builtin::Rgb => "rgb",
            Builtin::Rgba => "rgba",
            Builtin::Hsl => "hsl",
            Builtin::Hsla => "hsla",
            Builtin::Red => "red",
            Builtin::Green => "green",
            Builtin::Blue => "blue",
            Builtin::Opacity => "opacity",
            Builtin::Alpha => "alpha",
        }
    }

    /// How many arguments the function takes.
    pub open spec fn arity(self) -> nat {
        match self {
            Builtin::Rgb => 3,
            Builtin::Rgba => 4,
            Builtin::Hsl => 3,
            Builtin::Hsla => 4,
            _ => 1,
        }
    }

    /// The name of the parameter at position `i`.
    pub open spec fn param_name(self, i: int) -> Seq<char> {
        match self {
            Builtin::Rgb | Builtin::Rgba => if i == 0 {
                "red"@
            } else if i == 1 {
                "green"@
            } else if i == 2 {
                "blue"@
            } else {
                "alpha"@
            },
            Builtin::Hsl | Builtin::Hsla => if i == 0 {
                "hue"@
            } else if i == 1 {
                "saturation"@
            } else if i == 2 {
                "lightness"@
            } else {
                "alpha"@
            },
            _ => "color"@,
        }
    }

    /// The names of the function's parameters in order.
    pub fn parameters(self) -> (names: Vec<&'static str>)
        ensures
            names@.len() == self.arity(),
            forall|i: int| 0 <= i < names@.len() ==> (#[trigger] names@[i])@ == self.param_name(i),
    {
        let mut names: Vec<&'static str> = Vec::new();
        match self {
            Builtin::Rgb => {
                names.push("red");
                names.push("green");
                names.push("blue");
            },
            Builtin::Rgba => {
                names.push("red");
                names.push("green");
                names.push("blue");
                names.push("alpha");
            },
            Builtin::Hsl => {
                names.push("hue");
                names.push("saturation");
                names.push("lightness");
            },
            Builtin::Hsla => {
                names.push("hue");
                names.push("saturation");
                names.push("lightness");
                names.push("alpha");
            },
            _ => {
                names.push("color");
            },
        }
        names
    }

    /// What the function returns for arguments that are as many as it takes.
    pub open spec fn gives(self, args: Seq<Value>, r: Result<Value, SassError>, span: Span)
        -> bool {
        match self {
            Builtin::Rgb => rgba_result(args[0], args[1], args[2], Some(Ratio::of_int(1)), r, span),
            Builtin::Rgba => rgba_result(
                args[0],
                args[1],
                args[2],
                alpha_number(args[3]),
                r,
                span,
            ),
            Builtin::Hsl => hsla_result(args[0], args[1], args[2], Some(Ratio::of_int(1)), r, span),
            Builtin::Hsla => hsla_result(
                args[0],
                args[1],
                args[2],
                alpha_number(args[3]),
                r,
                span,
            ),
            Builtin::Red => accessor_result(
                args[0],
                |c: Color| Ratio::of_int(c@.red),
                r,
                span,
                "red"@,
            ),
            Builtin::Green => accessor_result(
                args[0],
                |c: Color| Ratio::of_int(c@.green),
                r,
                span,
                "green"@,
            ),
            Builtin::Blue => accessor_result(
                args[0],
                |c: Color| Ratio::of_int(c@.blue),
                r,
                span,
                "blue"@,
            ),
            Builtin::Opacity => opacity_result(args[0], r, span),
            Builtin::Alpha => accessor_result(args[0], |c: Color| c@.alpha, r, span, "alpha"@),
        }
    }

    /// Calls the function with its arguments in the order of its parameters. With too few
    /// arguments the first parameter left without one is missing; with too many the call
    /// has a surplus.
    pub fn call(self, args: &Vec<Value>, span: Span) -> (r: Result<Value, SassError>)
        ensures
            args@.len() < self.arity() ==> (r matches Err(e) && e.is(
                ErrorKind::MissingArgument,
                span,
                self.param_name(args@.len() as int),
            )),
            args@.len() > self.arity() ==> (r matches Err(e) && e.is(
                ErrorKind::SurplusArgument,
                span,
                builtin_name(self),
            )),
            args@.len() == self.arity() ==> self.gives(args@, r, span),
    {
        let names = self.parameters();
        if args.len() < names.len() {
            return Err(SassError::new(ErrorKind::MissingArgument, span, names[args.len()]));
        }
        if args.len() > names.len() {
            return Err(SassError::new(ErrorKind::SurplusArgument, span, self.name()));
        }
        match self {
            Builtin::Rgb => rgb(&args[0], &args[1], &args[2], span),
            Builtin::Rgba => rgba(&args[0], &args[1], &args[2], &args[3], span),
            Builtin::Hsl => hsl(&args[0], &args[1], &args[2], span),
            Builtin::Hsla => hsla(&args[0], &args[1], &args[2], &args[3], span),
            Builtin::Red => red(&args[0], span),
            Builtin::Green => green(&args[0], span),
            Builtin::Blue => blue(&args[0], span),
            Builtin::Opacity => opacity(&args[0], span),
            Builtin::Alpha => alpha(&args[0], span),
        }
    }
}

/// Registers the colour functions in `f`, each under its name, behind what `f` holds.
pub fn register(f: &mut Vec<(String, Builtin)>)
    ensures
        registry_view(final(f)@) == registry_view(old(f)@) + all_builtins().map_values(
            |b: Builtin| (builtin_name(b), b),
        ),
{
    let ghost before = registry_view(f@);
    f.push((String::from_str("rgb"), Builtin::Rgb));
    f.push((String::from_str("rgba"), Builtin::Rgba));
    f.push((String::from_str("hsl"), Builtin::Hsl));
    f.push((String::from_str("hsla"), Builtin::Hsla));
    f.push((String::from_str("red"), Builtin::Red));
    f.push((String::from_str("green"), Builtin::Green));
    f.push((String::from_str("blue"), Builtin::Blue));
    f.push((String::from_str("opacity"), Builtin::Opacity));
    f.push((String::from_str("alpha"), Builtin::Alpha));
    proof {
        assert(registry_view(f@) =~= before + all_builtins().map_values(
            |b: Builtin| (builtin_name(b), b),
        ));
    }
}

/// The function registered under `name`, if there is one.
pub fn lookup(f: &Vec<(String, Builtin)>, name: &str) -> (r: Option<Builtin>)
    ensures
        r == registered(registry_view(f@), name@),
{
    let mut i: usize = f.len();
    proof {
        assert(registry_view(f@).take(i as int) == registry_view(f@));
    }
    while i > 0
        invariant
            i <= f.len(),
            registered(registry_view(f@), name@) == registered(
                registry_view(f@).take(i as int),
                name@,
            ),
        decreases i,
    {
        i = i - 1;
        proof {
            assert(registry_view(f@).take(i + 1).drop_last() == registry_view(f@).take(i as int));
            assert(registry_view(f@).take(i + 1).last() == (f@[i as int].0@, f@[i as int].1));
        }
        if same_text(f[i].0.as_str(), name) {
            return Some(f[i].1);
        }
    }
    None
}

} // verus!
