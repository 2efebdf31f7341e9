//! The failures that parsing, binding, evaluation and import resolution report.

use crate::span::Span;
use crate::text::same_text;
use vstd::prelude::*;

verus! {

#[derive(Clone, Copy, Debug, PartialEq, Eq, Structural)]
pub enum ErrorKind {
    /// The tokens ran out inside brackets or quotes.
    UnterminatedDelimiter,
    /// A parameter list or an argument list is malformed.
    SyntaxError,
    /// A parameter without a default found no argument.
    MissingArgument,
    /// The call passed more than the signature takes.
    SurplusArgument,
    /// A named argument stands where only positional ones are accepted.
    NamedArgumentNotAllowed,
    /// A map with a key that is no string was splatted into a call.
    InvalidSplatTarget,
    /// A value of the wrong kind reached a colour or number operation.
    TypeMismatch,
    /// No candidate file of an import exists.
    ImportNotFound,
}

/// A failure with the place in the source that it is reported at. `detail` holds what the
/// kind leaves open: the text that was expected, the name of the parameter, function or
/// stylesheet concerned, or, for a splat that cannot be expanded, what is wrong with it.
#[derive(Clone, Debug)]
pub struct SassError {
    pub kind: ErrorKind,
    pub span: Span,
    pub detail: String,
}

impl SassError {
    pub open spec fn is(self, kind: ErrorKind, span: Span, detail: Seq<char>) -> bool {
        self.kind == kind && self.span == span && self.detail@ == detail
    }

    pub fn new(kind: ErrorKind, span: Span, detail: &str) -> (e: SassError)
        ensures
            e.is(kind, span, detail@),
    {
        SassError { kind, span, detail: String::from_str(detail) }
    }
}

/// The sentence that a syntax error is reported with, for what was expected: a string, an
/// identifier, more input, or else a delimiter, which is given in double quotes.
pub open spec fn expected_text(detail: Seq<char>) -> Seq<char> {
    if detail == "string"@ {
        "Expected string."@
    } else if detail == "identifier"@ {
        "Expected identifier."@
    } else if detail == "more input"@ {
        "expected more input."@
    } else {
        "expected \""@ + detail + "\"."@
    }
}

/// The sentence that an error of a kind is reported with, for the detail that it carries.
pub open spec fn message_text(kind: ErrorKind, detail: Seq<char>) -> Seq<char> {
    match kind {
        ErrorKind::UnterminatedDelimiter => "expected \""@ + detail + "\"."@,
        ErrorKind::SyntaxError => expected_text(detail),
        ErrorKind::MissingArgument => "Missing argument $"@ + detail + "."@,
        ErrorKind::SurplusArgument => "Too many arguments were passed."@,
        ErrorKind::NamedArgumentNotAllowed =>
            "Plain CSS functions don't support keyword arguments."@,
        ErrorKind::InvalidSplatTarget => detail + "."@,
        ErrorKind::TypeMismatch => "Wrong type of argument for "@ + detail + "."@,
        ErrorKind::ImportNotFound => "Can't find stylesheet to import."@,
    }
}

impl SassError {
    /// The sentence that the error is reported with.
    pub fn message(&self) -> (s: String)
        ensures
            s@ == message_text(self.kind, self.detail@),
    {
        let detail = self.detail.as_str();
        match self.kind {
            ErrorKind::UnterminatedDelimiter => String::from_str("expected \"").concat(
                detail,
            ).concat("\"."),
            ErrorKind::SyntaxError => {
                if same_text(detail, "string") {
                    String::from_str("Expected string.")
                } else if same_text(detail, "identifier") {
                    String::from_str("Expected identifier.")
                } else if same_text(detail, "more input") {
                    String::from_str("expected more input.")
                } else {
                    String::from_str("expected \"").concat(detail).concat("\".")
                }
            },
            ErrorKind::MissingArgument => String::from_str("Missing argument $").concat(
                detail,
            ).concat("."),
            ErrorKind::SurplusArgument => String::from_str("Too many arguments were passed."),
            ErrorKind::NamedArgumentNotAllowed => String::from_str(
                "Plain CSS functions don't support keyword arguments.",
            ),
            ErrorKind::InvalidSplatTarget => String::from_str(detail).concat("."),
            ErrorKind::TypeMismatch => String::from_str("Wrong type of argument for ").concat(
                detail,
            ).concat("."),
            ErrorKind::ImportNotFound => String::from_str("Can't find stylesheet to import."),
        }
    }
}

} // verus!
