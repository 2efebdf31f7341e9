use sass_args::error::ErrorKind;
use sass_args::error::SassError;
use sass_args::span::Span;
use sass_args::span::Token;

#[test]
fn merge_covers_both_spans() {
    let a = Span::new(4, 9);
    let b = Span::new(2, 6);
    assert_eq!(a.merge(b), Span::new(2, 9));
    assert_eq!(b.merge(a), Span::new(2, 9));
    assert_eq!(a.merge(a), a);
    assert_eq!(Span::new(0, 1).merge(Span::new(7, 8)), Span::new(0, 8));
}

#[test]
fn len_is_the_number_of_bytes() {
    assert_eq!(Span::new(3, 10).len(), 7);
    assert_eq!(Span::new(5, 5).len(), 0);
}

#[test]
fn subspan_counts_from_the_start() {
    let s = Span::new(10, 20);
    assert_eq!(s.subspan(2, 5), Some(Span::new(12, 15)));
    assert_eq!(s.subspan(0, 10), Some(s));
    assert_eq!(s.subspan(10, 10), Some(Span::new(20, 20)));
}

#[test]
fn subspan_refuses_what_does_not_fit() {
    let s = Span::new(10, 20);
    assert_eq!(s.subspan(5, 2), None);
    assert_eq!(s.subspan(0, 11), None);
}

#[test]
fn token_holds_its_character_and_place() {
    let t = Token::new(Span::new(1, 2), 'x');
    assert_eq!(t.kind, 'x');
    assert_eq!(t.pos, Span::new(1, 2));
}

#[test]
fn messages_name_what_the_error_is_about() {
    let at = Span::new(0, 1);
    let cases = [
        (ErrorKind::SyntaxError, "string", "Expected string."),
        (ErrorKind::SyntaxError, "identifier", "Expected identifier."),
        (ErrorKind::SyntaxError, "more input", "expected more input."),
        (ErrorKind::SyntaxError, ")", "expected \")\"."),
        (ErrorKind::SyntaxError, ".", "expected \".\"."),
        (ErrorKind::SyntaxError, "{", "expected \"{\"."),
        (ErrorKind::UnterminatedDelimiter, ")", "expected \")\"."),
        (ErrorKind::UnterminatedDelimiter, "]", "expected \"]\"."),
        (ErrorKind::MissingArgument, "a", "Missing argument $a."),
        (ErrorKind::SurplusArgument, "", "Too many arguments were passed."),
        (
            ErrorKind::NamedArgumentNotAllowed,
            "a",
            "Plain CSS functions don't support keyword arguments.",
        ),
        (
            ErrorKind::InvalidSplatTarget,
            "1 is not a string in (1: 2)",
            "1 is not a string in (1: 2).",
        ),
        (ErrorKind::TypeMismatch, "red", "Wrong type of argument for red."),
        (ErrorKind::ImportNotFound, "x", "Can't find stylesheet to import."),
    ];
    for (kind, detail, want) in cases {
        let e = SassError::new(kind, at, detail);
        assert_eq!(e.kind, kind);
        assert_eq!(e.span, at);
        assert_eq!(e.detail, detail);
        assert_eq!(e.message(), want);
    }
}
