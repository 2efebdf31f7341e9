//! The values that expressions evaluate to.

use crate::color::Color;
use crate::number::Number;
use crate::span::Span;
use vstd::prelude::*;

verus! {

/// The unit of a dimension.
#[derive(Clone, Debug)]
pub enum Unit {
    /// A bare number.
    Unitless,
    Percent,
    Deg,
    Grad,
    Rad,
    Turn,
    Px,
    Em,
    Rem,
    /// Any other unit, by the text it was written with.
    Unknown(String),
}

#[derive(Clone, Copy, Debug, PartialEq, Eq, Structural)]
pub enum QuoteKind {
    Quoted,
    Unquoted,
}

#[derive(Clone, Copy, Debug, PartialEq, Eq, Structural)]
pub enum ListSeparator {
    Comma,
    Space,
}

#[derive(Clone, Copy, Debug, PartialEq, Eq, Structural)]
pub enum Brackets {
    Bare,
    Bracketed,
}

/// One element of an argument list: the value, and the name it was passed under if it was
/// passed by name.
#[derive(Debug)]
pub struct ArgListItem {
    pub value: Value,
    pub name: Option<String>,
    pub span: Span,
}

/// A value.
#[derive(Debug)]
pub enum Value {
    Null,
    /// A number with its unit.
    Dimension(Number, Unit),
    Color(Color),
    /// Text, and whether it is written in quotes.
    String(String, QuoteKind),
    List(Vec<Value>, ListSeparator, Brackets),
    /// Keys with their values, in the order in which they were written.
    Mapping(Vec<(Value, Value)>),
    /// What a variadic parameter was bound to.
    ArgList(Vec<ArgListItem>),
    /// Text that was not evaluated.
    Ident(String),
}

impl Value {
    pub fn is_null(&self) -> (b: bool)
        ensures
            b == (self is Null),
    {
        match self {
            Value::Null => true,
            _ => false,
        }
    }
}

} // verus!
