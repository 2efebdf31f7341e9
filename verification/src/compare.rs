//! Equality and order of values. Two values are equal when they are built alike, whatever
//! they are stored in; numbers are compared as the numbers they stand for.

use crate::error::ErrorKind;
use crate::error::SassError;
use crate::span::Span;
use crate::text::same_text;
use crate::value::ArgListItem;
use crate::value::Unit;
use crate::value::Value;
use vstd::prelude::*;

verus! {

/// Whether two units are the same unit.
pub open spec fn unit_same(a: Unit, b: Unit) -> bool {
    match (a, b) {
        (Unit::Unitless, Unit::Unitless) => true,
        (Unit::Percent, Unit::Percent) => true,
        (Unit::Deg, Unit::Deg) => true,
        (Unit::Grad, Unit::Grad) => true,
        (Unit::Rad, Unit::Rad) => true,
        (Unit::Turn, Unit::Turn) => true,
        (Unit::Px, Unit::Px) => true,
        (Unit::Em, Unit::Em) => true,
        (Unit::Rem, Unit::Rem) => true,
        (Unit::Unknown(x), Unit::Unknown(y)) => x@ == y@,
        _ => false,
    }
}

/// Whether numbers with these units can be compared: the units are the same, or one of the
/// numbers has none.
pub open spec fn comparable(a: Unit, b: Unit) -> bool {
    unit_same(a, b) || a is Unitless || b is Unitless
}

pub open spec fn option_text_same(a: Option<String>, b: Option<String>) -> bool {
    match (a, b) {
        (Some(x), Some(y)) => x@ == y@,
        (None, None) => true,
        _ => false,
    }
}

/// Whether two values are equal: of the same kind, with equal parts. Numbers are equal when
/// they have the same unit and stand for the same number; lists and maps when they are as
/// long and equal element by element.
pub open spec fn value_same(a: Value, b: Value) -> bool
    decreases a,
{
    match (a, b) {
        (Value::Null, Value::Null) => true,
        (Value::Dimension(n, u), Value::Dimension(m, w)) => unit_same(u, w) && n@.same(m@),
        (Value::Color(c), Value::Color(d)) => c@.red == d@.red && c@.green == d@.green && c@.blue
            == d@.blue && c@.alpha.same(d@.alpha),
        (Value::String(s, q), Value::String(t, r)) => s@ == t@ && q == r,
        (Value::Ident(s), Value::Ident(t)) => s@ == t@,
        (Value::List(xs, s, p), Value::List(ys, t, q)) => s == t && p == q && xs@.len()
            == ys@.len() && forall|i: int|
            0 <= i < xs@.len() ==> value_same(#[trigger] xs@[i], ys@[i]),
        (Value::Mapping(xs), Value::Mapping(ys)) => xs@.len() == ys@.len() && forall|i: int|
            0 <= i < xs@.len() ==> value_same((#[trigger] xs@[i]).0, ys@[i].0) && value_same(
                xs@[i].1,
                ys@[i].1,
            ),
        (Value::ArgList(xs), Value::ArgList(ys)) => xs@.len() == ys@.len() && forall|i: int|
            0 <= i < xs@.len() ==> value_same((#[trigger] xs@[i]).value, ys@[i].value)
                && option_text_same(xs@[i].name, ys@[i].name),
        _ => false,
    }
}

/// How one number stands to another.
#[derive(Clone, Copy, Debug, PartialEq, Eq, Structural)]
pub enum Order {
    Less,
    Equal,
    Greater,
}

pub fn units_same(a: &Unit, b: &Unit) -> (r: bool)
    ensures
        r == unit_same(*a, *b),
{
    match (a, b) {
        (Unit::Unitless, Unit::Unitless) => true,
        (Unit::Percent, Unit::Percent) => true,
        (Unit::Deg, Unit::Deg) => true,
        (Unit::Grad, Unit::Grad) => true,
        (Unit::Rad, Unit::Rad) => true,
        (Unit::Turn, Unit::Turn) => true,
        (Unit::Px, Unit::Px) => true,
        (Unit::Em, Unit::Em) => true,
        (Unit::Rem, Unit::Rem) => true,
        (Unit::Unknown(x), Unit::Unknown(y)) => same_text(x.as_str(), y.as_str()),
        _ => false,
    }
}

fn names_same(a: &Option<String>, b: &Option<String>) -> (r: bool)
    ensures
        r == option_text_same(*a, *b),
{
    match (a, b) {
        (Some(x), Some(y)) => same_text(x.as_str(), y.as_str()),
        (None, None) => true,
        _ => false,
    }
}

impl Value {
    /// Whether `self` and `other` are equal.
    #[verifier::loop_isolation(false)]
    pub fn equals(&self, other: &Value) -> (r: bool)
        ensures
            r == value_same(*self, *other),
        decreases self,
    {
        match (self, other) {
            (Value::Null, Value::Null) => true,
            (Value::Dimension(n, u), Value::Dimension(m, w)) => units_same(u, w) && n.same(m),
            (Value::Color(c), Value::Color(d)) => c.red() == d.red() && c.green() == d.green()
                && c.blue() == d.blue() && c.alpha().same(&d.alpha()),
            (Value::String(s, q), Value::String(t, r)) => same_text(s.as_str(), t.as_str()) && *q
                == *r,
            (Value::Ident(s), Value::Ident(t)) => same_text(s.as_str(), t.as_str()),
            (Value::List(xs, s, p), Value::List(ys, t, q)) => {
                if !(*s == *t && *p == *q && xs.len() == ys.len()) {
                    return false;
                }
                let mut i: usize = 0;
                while i < xs.len()
                    invariant
                        i <= xs.len(),
                        xs.len() == ys.len(),
                        forall|j: int| 0 <= j < i ==> value_same(#[trigger] xs@[j], ys@[j]),
                    decreases xs.len() - i,
                {
                    proof {
                        assert(decreases_to!(self => xs));
                        assert(decreases_to!(xs => xs@));
                        assert(decreases_to!(xs@ => xs@[i as int]));
                    }
                    if !xs[i].equals(&ys[i]) {
                        return false;
                    }
                    i = i + 1;
                }
                true
            },
            (Value::Mapping(xs), Value::Mapping(ys)) => {
                if xs.len() != ys.len() {
                    return false;
                }
                let mut i: usize = 0;
                while i < xs.len()
                    invariant
                        i <= xs.len(),
                        xs.len() == ys.len(),
                        forall|j: int|
                            0 <= j < i ==> value_same((#[trigger] xs@[j]).0, ys@[j].0)
                                && value_same(xs@[j].1, ys@[j].1),
                    decreases xs.len() - i,
                {
                    proof {
                        assert(decreases_to!(self => xs));
                        assert(decreases_to!(xs => xs@));
                        assert(decreases_to!(xs@ => xs@[i as int]));
                        assert(decreases_to!(xs@[i as int] => xs@[i as int].0));
                        assert(decreases_to!(xs@[i as int] => xs@[i as int].1));
                    }
                    if !(xs[i].0.equals(&ys[i].0) && xs[i].1.equals(&ys[i].1)) {
                        return false;
                    }
                    i = i + 1;
                }
                true
            },
            (Value::ArgList(xs), Value::ArgList(ys)) => {
                if xs.len() != ys.len() {
                    return false;
                }
                let mut i: usize = 0;
                while i < xs.len()
                    invariant
                        i <= xs.len(),
                        xs.len() == ys.len(),
                        forall|j: int|
                            0 <= j < i ==> value_same((#[trigger] xs@[j]).value, ys@[j].value)
                                && option_text_same(xs@[j].name, ys@[j].name),
                    decreases xs.len() - i,
                {
                    proof {
                        assert(decreases_to!(self => xs));
                        assert(decreases_to!(xs => xs@));
                        assert(decreases_to!(xs@ => xs@[i as int]));
                        assert(decreases_to!(xs@[i as int] => xs@[i as int].value));
                    }
                    if !(xs[i].value.equals(&ys[i].value) && names_same(&xs[i].name, &ys[i].name)) {
                        return false;
                    }
                    i = i + 1;
                }
                true
            },
            _ => false,
        }
    }
}

/// A unit like `u`, built anew.
pub fn duplicate_unit(u: &Unit) -> (r: Unit)
    ensures
        unit_same(*u, r),
        r is Unitless <==> *u is Unitless,
{
    match u {
        Unit::Unitless => Unit::Unitless,
        Unit::Percent => Unit::Percent,
        Unit::Deg => Unit::Deg,
        Unit::Grad => Unit::Grad,
        Unit::Rad => Unit::Rad,
        Unit::Turn => Unit::Turn,
        Unit::Px => Unit::Px,
        Unit::Em => Unit::Em,
        Unit::Rem => Unit::Rem,
        Unit::Unknown(s) => Unit::Unknown(s.clone()),
    }
}

impl Value {
    /// A value equal to `self`, built anew down to its last part.
    #[verifier::loop_isolation(false)]
    pub fn duplicate(&self) -> (r: Value)
        ensures
            value_same(*self, r),
        decreases self,
    {
        match self {
            Value::Null => Value::Null,
            Value::Dimension(n, u) => Value::Dimension(n.clone(), duplicate_unit(u)),
            Value::Color(c) => Value::Color(c.clone()),
            Value::String(s, q) => Value::String(s.clone(), *q),
            Value::Ident(s) => Value::Ident(s.clone()),
            Value::List(xs, s, p) => {
                let mut out: Vec<Value> = Vec::new();
                let mut i: usize = 0;
                while i < xs.len()
                    invariant
                        i <= xs.len(),
                        out@.len() == i,
                        forall|j: int| 0 <= j < i ==> value_same(#[trigger] xs@[j], out@[j]),
                    decreases xs.len() - i,
                {
                    proof {
                        assert(decreases_to!(self => xs));
                        assert(decreases_to!(xs => xs@));
                        assert(decreases_to!(xs@ => xs@[i as int]));
                    }
                    out.push(xs[i].duplicate());
                    i = i + 1;
                }
                Value::List(out, *s, *p)
            },
            Value::Mapping(xs) => {
                let mut out: Vec<(Value, Value)> = Vec::new();
                let mut i: usize = 0;
                while i < xs.len()
                    invariant
                        i <= xs.len(),
                        out@.len() == i,
                        forall|j: int|
                            0 <= j < i ==> value_same((#[trigger] xs@[j]).0, out@[j].0)
                                && value_same(xs@[j].1, out@[j].1),
                    decreases xs.len() - i,
                {
                    proof {
                        assert(decreases_to!(self => xs));
                        assert(decreases_to!(xs => xs@));
                        assert(decreases_to!(xs@ => xs@[i as int]));
                        assert(decreases_to!(xs@[i as int] => xs@[i as int].0));
                        assert(decreases_to!(xs@[i as int] => xs@[i as int].1));
                    }
                    let key = xs[i].0.duplicate();
                    let value = xs[i].1.duplicate();
                    out.push((key, value));
                    i = i + 1;
                }
                Value::Mapping(out)
            },
            Value::ArgList(xs) => {
                let mut out: Vec<ArgListItem> = Vec::new();
                let mut i: usize = 0;
                while i < xs.len()
                    invariant
                        i <= xs.len(),
                        out@.len() == i,
                        forall|j: int|
                            0 <= j < i ==> value_same((#[trigger] xs@[j]).value, out@[j].value)
                                && option_text_same(xs@[j].name, out@[j].name),
                    decreases xs.len() - i,
                {
                    proof {
                        assert(decreases_to!(self => xs));
                        assert(decreases_to!(xs => xs@));
                        assert(decreases_to!(xs@ => xs@[i as int]));
                        assert(decreases_to!(xs@[i as int] => xs@[i as int].value));
                    }
                    let name = match &xs[i].name {
                        Some(n) => Some(n.clone()),
                        None => None,
                    };
                    out.push(ArgListItem { value: xs[i].value.duplicate(), name, span: xs[i].span });
                    i = i + 1;
                }
                Value::ArgList(out)
            },
        }
    }
}

/// How `a` stands to `b` as numbers.
pub open spec fn order_of(a: crate::number::Ratio, b: crate::number::Ratio) -> Order {
    if a.less(b) {
        Order::Less
    } else if b.less(a) {
        Order::Greater
    } else {
        Order::Equal
    }
}

/// Compares two numbers with their units. Values that are no numbers cannot be compared,
/// and neither can numbers of two different units: both are type errors at `span`, the
/// first naming `number`, the second `unit`.
pub fn compare(a: &Value, b: &Value, span: Span) -> (r: Result<Order, SassError>)
    ensures
        match (*a, *b) {
            (Value::Dimension(n, u), Value::Dimension(m, w)) => if comparable(u, w) {
                r == Ok::<Order, SassError>(order_of(n@, m@))
            } else {
                r matches Err(e) && e.is(ErrorKind::TypeMismatch, span, "unit"@)
            },
            _ => r matches Err(e) && e.is(ErrorKind::TypeMismatch, span, "number"@),
        },
{
    match (a, b) {
        (Value::Dimension(n, u), Value::Dimension(m, w)) => {
            let unitless = match (u, w) {
                (Unit::Unitless, _) => true,
                (_, Unit::Unitless) => true,
                _ => false,
            };
            if !(unitless || units_same(u, w)) {
                return Err(SassError::new(ErrorKind::TypeMismatch, span, "unit"));
            }
            if n.less(m) {
                Ok(Order::Less)
            } else if m.less(n) {
                Ok(Order::Greater)
            } else {
                Ok(Order::Equal)
            }
        },
        _ => Err(SassError::new(ErrorKind::TypeMismatch, span, "number")),
    }
}

/// The index of the first entry of a map at or after `from` whose key is equal to `key`.
pub open spec fn entry_with_key(entries: Seq<(Value, Value)>, key: Value, from: int) -> Option<int>
    decreases entries.len() - from,
{
    if from < 0 || from >= entries.len() {
        None
    } else if value_same(entries[from].0, key) {
        Some(from)
    } else {
        entry_with_key(entries, key, from + 1)
    }
}

/// The value that a map holds for `key`: that of the first entry whose key is equal to it.
pub fn map_get<'a>(entries: &'a Vec<(Value, Value)>, key: &Value) -> (r: Option<&'a Value>)
    ensures
        match entry_with_key(entries@, *key, 0) {
            Some(k) => 0 <= k < entries@.len() && r == Some(&entries@[k].1),
            None => r is None,
        },
        r is None <==> forall|j: int|
            0 <= j < entries@.len() ==> !value_same((#[trigger] entries@[j]).0, *key),
{
    let mut i: usize = 0;
    while i < entries.len()
        invariant
            i <= entries.len(),
            entry_with_key(entries@, *key, i as int) == entry_with_key(entries@, *key, 0),
            forall|j: int| 0 <= j < i ==> !value_same((#[trigger] entries@[j]).0, *key),
        decreases entries.len() - i,
    {
        if entries[i].0.equals(key) {
            return Some(&entries[i].1);
        }
        i = i + 1;
    }
    None
}

/// Every value is equal to itself.
pub proof fn lemma_value_same_reflexive(a: Value)
    ensures
        value_same(a, a),
    decreases a,
{
    match a {
        Value::List(xs, _, _) => {
            assert forall|i: int| 0 <= i < xs@.len() implies value_same(
                #[trigger] xs@[i],
                xs@[i],
            ) by {
                lemma_value_same_reflexive(xs@[i]);
            }
        },
        Value::Mapping(xs) => {
            assert forall|i: int| 0 <= i < xs@.len() implies value_same(
                (#[trigger] xs@[i]).0,
                xs@[i].0,
            ) && value_same(xs@[i].1, xs@[i].1) by {
                lemma_value_same_reflexive(xs@[i].0);
                lemma_value_same_reflexive(xs@[i].1);
            }
        },
        Value::ArgList(xs) => {
            assert forall|i: int| 0 <= i < xs@.len() implies value_same(
                (#[trigger] xs@[i]).value,
                xs@[i].value,
            ) && option_text_same(xs@[i].name, xs@[i].name) by {
                lemma_value_same_reflexive(xs@[i].value);
            }
        },
        _ => {},
    }
}

/// Equality of values does not depend on the side a value stands on.
pub proof fn lemma_value_same_symmetric(a: Value, b: Value)
    ensures
        value_same(a, b) == value_same(b, a),
    decreases a,
{
    match (a, b) {
        (Value::List(xs, _, _), Value::List(ys, _, _)) => {
            if xs@.len() == ys@.len() {
                assert forall|i: int| 0 <= i < xs@.len() implies value_same(
                    #[trigger] xs@[i],
                    ys@[i],
                ) == value_same(ys@[i], xs@[i]) by {
                    lemma_value_same_symmetric(xs@[i], ys@[i]);
                }
                if value_same(a, b) {
                    assert forall|i: int| 0 <= i < ys@.len() implies value_same(
                        #[trigger] ys@[i],
                        xs@[i],
                    ) by {
                        assert(value_same(xs@[i], ys@[i]));
                    }
                }
                if value_same(b, a) {
                    assert forall|i: int| 0 <= i < xs@.len() implies value_same(
                        #[trigger] xs@[i],
                        ys@[i],
                    ) by {
                        assert(value_same(ys@[i], xs@[i]));
                    }
                }
            }
        },
        (Value::Mapping(xs), Value::Mapping(ys)) => {
            if xs@.len() == ys@.len() {
                assert forall|i: int| 0 <= i < xs@.len() implies (value_same(
                    (#[trigger] xs@[i]).0,
                    ys@[i].0,
                ) == value_same(ys@[i].0, xs@[i].0)) && (value_same(xs@[i].1, ys@[i].1)
                    == value_same(ys@[i].1, xs@[i].1)) by {
                    lemma_value_same_symmetric(xs@[i].0, ys@[i].0);
                    lemma_value_same_symmetric(xs@[i].1, ys@[i].1);
                }
                if value_same(a, b) {
                    assert forall|i: int| 0 <= i < ys@.len() implies value_same(
                        (#[trigger] ys@[i]).0,
                        xs@[i].0,
                    ) && value_same(ys@[i].1, xs@[i].1) by {
                        assert(value_same(xs@[i].0, ys@[i].0));
                    }
                }
                if value_same(b, a) {
                    assert forall|i: int| 0 <= i < xs@.len() implies value_same(
                        (#[trigger] xs@[i]).0,
                        ys@[i].0,
                    ) && value_same(xs@[i].1, ys@[i].1) by {
                        assert(value_same(ys@[i].0, xs@[i].0));
                    }
                }
            }
        },
        (Value::ArgList(xs), Value::ArgList(ys)) => {
            if xs@.len() == ys@.len() {
                assert forall|i: int| 0 <= i < xs@.len() implies value_same(
                    (#[trigger] xs@[i]).value,
                    ys@[i].value,
                ) == value_same(ys@[i].value, xs@[i].value) by {
                    lemma_value_same_symmetric(xs@[i].value, ys@[i].value);
                }
                if value_same(a, b) {
                    assert forall|i: int| 0 <= i < ys@.len() implies value_same(
                        (#[trigger] ys@[i]).value,
                        xs@[i].value,
                    ) && option_text_same(ys@[i].name, xs@[i].name) by {
                        assert(value_same(xs@[i].value, ys@[i].value));
                    }
                }
                if value_same(b, a) {
                    assert forall|i: int| 0 <= i < xs@.len() implies value_same(
                        (#[trigger] xs@[i]).value,
                        ys@[i].value,
                    ) && option_text_same(xs@[i].name, ys@[i].name) by {
                        assert(value_same(ys@[i].value, xs@[i].value));
                    }
                }
            }
        },
        _ => {},
    }
}

} // verus!
