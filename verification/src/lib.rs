//! The argument and value core of an SCSS compiler: scanning of bracketed and
//! quoted token runs, parameter lists, call arguments and their binding, the
//! numeric and colour model behind the colour functions, and the ordered search
//! for imported stylesheets.

pub mod bigint;
pub mod bind;
pub mod bind_laws;
pub mod builtin;
pub mod call_args;
pub mod call_parse;
pub mod color;
pub mod compare;
pub mod error;
pub mod import;
pub mod inspect;
pub mod number;
pub mod params;
pub mod parser;
pub mod scan;
pub mod scope;
pub mod span;
pub mod stream;
pub mod text;
pub mod value;
