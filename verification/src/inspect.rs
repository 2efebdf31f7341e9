//! Values written out as text, the way they are shown in messages.

use crate::builtin::unit_text;
use crate::builtin::unit_to_text;
use crate::color::Color;
use crate::color::ColorView;
use crate::number::number_text;
use crate::number::Number;
use crate::number::Ratio;
use crate::text::push_char;
use crate::value::Brackets;
use crate::value::ListSeparator;
use crate::value::QuoteKind;
use crate::value::Value;
use vstd::prelude::*;

verus! {

/// The first `n` of `parts`, with `sep` between each two of them.
pub open spec fn join_upto(parts: Seq<Seq<char>>, sep: Seq<char>, n: int) -> Seq<char>
    decreases n,
{
    if n <= 0 {
        Seq::empty()
    } else if n == 1 {
        parts[0]
    } else {
        join_upto(parts, sep, n - 1) + sep + parts[n - 1]
    }
}

/// What stands between the elements of a list.
pub open spec fn separator_text(sep: ListSeparator) -> Seq<char> {
    match sep {
        ListSeparator::Comma => ", "@,
        ListSeparator::Space => " "@,
    }
}

/// A colour written as `rgba(`red`, `green`, `blue`, `alpha`)`.
pub open spec fn color_text(c: ColorView) -> Seq<char> {
    "rgba("@ + number_text(Ratio::of_int(c.red)) + ", "@ + number_text(Ratio::of_int(c.green))
        + ", "@ + number_text(Ratio::of_int(c.blue)) + ", "@ + number_text(c.alpha) + ")"@
}

/// The texts of the elements of a list.
pub open spec fn element_texts(xs: Seq<Value>) -> Seq<Seq<char>>
    decreases xs,
{
    Seq::new(
        xs.len(),
        |i: int|
            if 0 <= i < xs.len() {
                inspect_text(xs[i])
            } else {
                Seq::empty()
            },
    )
}

/// The texts of the entries of a map, each as `key: value`.
pub open spec fn entry_texts(xs: Seq<(Value, Value)>) -> Seq<Seq<char>>
    decreases xs,
{
    Seq::new(
        xs.len(),
        |i: int|
            if 0 <= i < xs.len() {
                inspect_text(xs[i].0) + ": "@ + inspect_text(xs[i].1)
            } else {
                Seq::empty()
            },
    )
}

/// The texts of the values of an argument list.
pub open spec fn item_texts(xs: Seq<crate::value::ArgListItem>) -> Seq<Seq<char>>
    decreases xs,
{
    Seq::new(
        xs.len(),
        |i: int|
            if 0 <= i < xs.len() {
                inspect_text(xs[i].value)
            } else {
                Seq::empty()
            },
    )
}

/// A value written out. `null` is `null`; a number is followed by its unit; a quoted string
/// stands in double quotes; the elements of a list are joined by its separator and stand in
/// square brackets if the list has them; an empty list without brackets is `()`; a map is
/// its entries as `key: value`, joined by commas, in parentheses; an argument list is its
/// values joined by commas.
pub open spec fn inspect_text(v: Value) -> Seq<char>
    decreases v,
{
    match v {
        Value::Null => "null"@,
        Value::Dimension(n, u) => number_text(n@) + unit_text(u),
        Value::Color(c) => color_text(c@),
        Value::String(s, QuoteKind::Quoted) => seq!['"'] + s@ + seq!['"'],
        Value::String(s, QuoteKind::Unquoted) => s@,
        Value::Ident(s) => s@,
        Value::List(xs, sep, Brackets::Bracketed) => seq!['['] + join_upto(
            element_texts(xs@),
            separator_text(sep),
            xs@.len() as int,
        ) + seq![']'],
        Value::List(xs, sep, Brackets::Bare) => if xs@.len() == 0 {
            "()"@
        } else {
            join_upto(element_texts(xs@), separator_text(sep), xs@.len() as int)
        },
        Value::Mapping(xs) => seq!['('] + join_upto(entry_texts(xs@), ", "@, xs@.len() as int)
            + seq![')'],
        Value::ArgList(xs) => if xs@.len() == 0 {
            "()"@
        } else {
            join_upto(item_texts(xs@), ", "@, xs@.len() as int)
        },
    }
}

fn write_color(c: &Color) -> (s: String)
    ensures
        s@ == color_text(c@),
{
    let s = String::from_str("rgba(");
    let s = s.concat(Number::from_integer(c.red() as i64).to_text().as_str());
    let s = s.concat(", ");
    let s = s.concat(Number::from_integer(c.green() as i64).to_text().as_str());
    let s = s.concat(", ");
    let s = s.concat(Number::from_integer(c.blue() as i64).to_text().as_str());
    let s = s.concat(", ");
    let s = s.concat(c.alpha().to_text().as_str());
    s.concat(")")
}

/// Adds `part` to `out` as the element at position `i` of a run joined by `sep`.
fn join_next(out: String, sep: &str, part: String, i: usize, Ghost(parts): Ghost<Seq<Seq<char>>>)
    -> (r: String)
    requires
        i < parts.len(),
        part@ == parts[i as int],
        out@ == join_upto(parts, sep@, i as int),
    ensures
        r@ == join_upto(parts, sep@, i + 1),
{
    if i == 0 {
        proof {
            assert(out@ + part@ =~= part@);
        }
        out.concat(part.as_str())
    } else {
        out.concat(sep).concat(part.as_str())
    }
}

impl Value {
    /// The value written out.
    #[verifier::loop_isolation(false)]
    pub fn inspect(&self) -> (s: String)
        ensures
            s@ == inspect_text(*self),
        decreases self,
    {
        match self {
            Value::Null => String::from_str("null"),
            Value::Dimension(n, u) => n.to_text().concat(unit_to_text(u).as_str()),
            Value::Color(c) => write_color(c),
            Value::String(s, QuoteKind::Quoted) => {
                let mut out = String::new();
                push_char(&mut out, '"');
                let mut out = out.concat(s.as_str());
                push_char(&mut out, '"');
                proof {
                    assert(out@ =~= seq!['"'] + s@ + seq!['"']);
                }
                out
            },
            Value::String(s, QuoteKind::Unquoted) => s.clone(),
            Value::Ident(s) => s.clone(),
            Value::List(xs, sep, brackets) => {
                let between = match sep {
                    ListSeparator::Comma => ", ",
                    ListSeparator::Space => " ",
                };
                let ghost parts = element_texts(xs@);
                let mut out = String::new();
                proof {
                    assert(out@ =~= join_upto(parts, between@, 0));
                }
                let mut i: usize = 0;
                while i < xs.len()
                    invariant
                        i <= xs.len(),
                        out@ == join_upto(parts, between@, i as int),
                    decreases xs.len() - i,
                {
                    proof {
                        assert(decreases_to!(self => xs));
                        assert(decreases_to!(xs => xs@));
                        assert(decreases_to!(xs@ => xs@[i as int]));
                    }
                    let part = xs[i].inspect();
                    out = join_next(out, between, part, i, Ghost(parts));
                    i = i + 1;
                }
                match brackets {
                    Brackets::Bracketed => {
                        let mut text = String::new();
                        push_char(&mut text, '[');
                        let mut text = text.concat(out.as_str());
                        push_char(&mut text, ']');
                        proof {
                            assert(text@ =~= seq!['['] + out@ + seq![']']);
                        }
                        text
                    },
                    Brackets::Bare => {
                        if xs.len() == 0 {
                            String::from_str("()")
                        } else {
                            out
                        }
                    },
                }
            },
            Value::Mapping(xs) => {
                let ghost parts = entry_texts(xs@);
                let mut out = String::new();
                proof {
                    assert(out@ =~= join_upto(parts, ", "@, 0));
                }
                let mut i: usize = 0;
                while i < xs.len()
                    invariant
                        i <= xs.len(),
                        out@ == join_upto(parts, ", "@, i as int),
                    decreases xs.len() - i,
                {
                    proof {
                        assert(decreases_to!(self => xs));
                        assert(decreases_to!(xs => xs@));
                        assert(decreases_to!(xs@ => xs@[i as int]));
                        assert(decreases_to!(xs@[i as int] => xs@[i as int].0));
                        assert(decreases_to!(xs@[i as int] => xs@[i as int].1));
                    }
                    let key = xs[i].0.inspect();
                    let value = xs[i].1.inspect();
                    let part = key.concat(": ").concat(value.as_str());
                    out = join_next(out, ", ", part, i, Ghost(parts));
                    i = i + 1;
                }
                let mut text = String::new();
                push_char(&mut text, '(');
                let mut text = text.concat(out.as_str());
                push_char(&mut text, ')');
                proof {
                    assert(text@ =~= seq!['('] + out@ + seq![')']);
                }
                text
            },
            Value::ArgList(xs) => {
                let ghost parts = item_texts(xs@);
                let mut out = String::new();
                proof {
                    assert(out@ =~= join_upto(parts, ", "@, 0));
                }
                let mut i: usize = 0;
                while i < xs.len()
                    invariant
                        i <= xs.len(),
                        out@ == join_upto(parts, ", "@, i as int),
                    decreases xs.len() - i,
                {
                    proof {
                        assert(decreases_to!(self => xs));
                        assert(decreases_to!(xs => xs@));
                        assert(decreases_to!(xs@ => xs@[i as int]));
                        assert(decreases_to!(xs@[i as int] => xs@[i as int].value));
                    }
                    let part = xs[i].value.inspect();
                    out = join_next(out, ", ", part, i, Ghost(parts));
                    i = i + 1;
                }
                if xs.len() == 0 {
                    String::from_str("()")
                } else {
                    out
                }
            },
        }
    }
}

} // verus!
