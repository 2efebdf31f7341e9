use sass_args::error::ErrorKind;
use sass_args::parser::Parser;
use sass_args::span::Span;
use sass_args::span::Token;

fn lex(src: &str) -> Vec<Token> {
    let mut toks = Vec::new();
    let mut at: u64 = 0;
    for c in src.chars() {
        let len = c.len_utf8() as u64;
        toks.push(Token::new(Span::new(at, at + len), c));
        at += len;
    }
    toks
}

fn text(toks: &[Token]) -> String {
    toks.iter().map(|t| t.kind).collect()
}

fn rest(p: &mut Parser) -> String {
    let mut s = String::new();
    while let Some(t) = p.next() {
        s.push(t.kind);
    }
    s
}

#[test]
fn paren_scan_stops_at_the_matching_closer() {
    let mut p = Parser::new(lex("a(b(c))d) rest"), Span::new(0, 0));
    let run = p.read_until_closing_paren(Span::new(90, 91)).unwrap();
    assert_eq!(text(&run), "a(b(c))d)");
    assert_eq!(rest(&mut p), " rest");
}

#[test]
fn paren_scan_of_an_immediate_closer() {
    let mut p = Parser::new(lex(")x"), Span::new(0, 0));
    let run = p.read_until_closing_paren(Span::new(0, 1)).unwrap();
    assert_eq!(text(&run), ")");
    assert_eq!(rest(&mut p), "x");
}

#[test]
fn paren_scan_keeps_positions() {
    let mut p = Parser::new(lex("ab)"), Span::new(0, 0));
    let run = p.read_until_closing_paren(Span::new(0, 1)).unwrap();
    assert_eq!(run.len(), 3);
    assert_eq!(run[0], Token::new(Span::new(0, 1), 'a'));
    assert_eq!(run[2], Token::new(Span::new(2, 3), ')'));
}

#[test]
fn paren_scan_ignores_other_brackets() {
    let mut p = Parser::new(lex("[)]"), Span::new(0, 0));
    let run = p.read_until_closing_paren(Span::new(0, 1)).unwrap();
    assert_eq!(text(&run), "[)");
    assert_eq!(rest(&mut p), "]");
}

#[test]
fn unterminated_paren_is_reported_at_the_opener() {
    let mut p = Parser::new(lex("a(b)c"), Span::new(0, 0));
    let opened = Span::new(40, 41);
    let e = p.read_until_closing_paren(opened).unwrap_err();
    assert_eq!(e.kind, ErrorKind::UnterminatedDelimiter);
    assert_eq!(e.span, opened);
    assert_eq!(e.detail, ")");
    assert_eq!(p.next(), None);
}

#[test]
fn unterminated_paren_on_empty_input() {
    let mut p = Parser::new(lex(""), Span::new(0, 0));
    let e = p.read_until_closing_paren(Span::new(3, 4)).unwrap_err();
    assert_eq!(e.kind, ErrorKind::UnterminatedDelimiter);
    assert_eq!(e.span, Span::new(3, 4));
}

#[test]
fn square_scan_counts_nesting() {
    let mut p = Parser::new(lex("1, [2, 3]] x"), Span::new(0, 0));
    let run = p.read_until_closing_square_brace(Span::new(0, 1)).unwrap();
    assert_eq!(text(&run), "1, [2, 3]]");
    assert_eq!(rest(&mut p), " x");
}

#[test]
fn unterminated_square_brace() {
    let mut p = Parser::new(lex("[1]"), Span::new(0, 0));
    let e = p.read_until_closing_square_brace(Span::new(7, 8)).unwrap_err();
    assert_eq!(e.kind, ErrorKind::UnterminatedDelimiter);
    assert_eq!(e.span, Span::new(7, 8));
    assert_eq!(e.detail, "]");
}

#[test]
fn quote_scan_stops_at_the_same_kind_of_quote() {
    let mut p = Parser::new(lex("it's\" x"), Span::new(0, 0));
    let run = p.read_until_closing_quote('"', Span::new(0, 1)).unwrap();
    assert_eq!(text(&run), "it's\"");
    assert_eq!(rest(&mut p), " x");
}

#[test]
fn quote_scan_skips_escaped_quotes() {
    let mut p = Parser::new(lex("a\\\"b\" c"), Span::new(0, 0));
    let run = p.read_until_closing_quote('"', Span::new(0, 1)).unwrap();
    assert_eq!(text(&run), "a\\\"b\"");
    assert_eq!(rest(&mut p), " c");
}

#[test]
fn quote_scan_escaped_backslash_does_not_escape_the_quote() {
    let mut p = Parser::new(lex("a\\\\' c"), Span::new(0, 0));
    let run = p.read_until_closing_quote('\'', Span::new(0, 1)).unwrap();
    assert_eq!(text(&run), "a\\\\'");
    assert_eq!(rest(&mut p), " c");
}

#[test]
fn unterminated_quote_is_reported_at_the_opener() {
    let mut p = Parser::new(lex("abc\\\""), Span::new(0, 0));
    let e = p.read_until_closing_quote('"', Span::new(11, 12)).unwrap_err();
    assert_eq!(e.kind, ErrorKind::UnterminatedDelimiter);
    assert_eq!(e.span, Span::new(11, 12));
    assert_eq!(e.detail, "\"");
}

#[test]
fn peek_does_not_consume() {
    let mut p = Parser::new(lex("xy"), Span::new(0, 0));
    assert_eq!(p.peek().map(|t| t.kind), Some('x'));
    assert_eq!(p.peek().map(|t| t.kind), Some('x'));
    assert_eq!(p.next().map(|t| t.kind), Some('x'));
    assert_eq!(p.peek().map(|t| t.kind), Some('y'));
    assert_eq!(p.next().map(|t| t.kind), Some('y'));
    assert_eq!(p.peek(), None);
    assert_eq!(p.next(), None);
    assert_eq!(p.next(), None);
}

#[test]
fn whitespace_is_skipped_and_reported() {
    let mut p = Parser::new(lex(" \t\n\r x "), Span::new(0, 0));
    assert!(p.whitespace());
    assert!(!p.whitespace());
    assert_eq!(rest(&mut p), "x ");
}

#[test]
fn names_are_letters_digits_dashes_and_underscores() {
    let mut p = Parser::new(lex("my-var_2: x"), Span::new(0, 0));
    let name = p.read_name();
    assert_eq!(text(&name), "my-var_2");
    assert_eq!(rest(&mut p), ": x");
}

#[test]
fn names_may_hold_characters_outside_ascii() {
    let mut p = Parser::new(lex("gr\u{f6}\u{df}e)"), Span::new(0, 0));
    let name = p.read_name();
    assert_eq!(text(&name), "gr\u{f6}\u{df}e");
    assert_eq!(rest(&mut p), ")");
}

#[test]
fn no_name_at_a_symbol() {
    let mut p = Parser::new(lex("+a"), Span::new(0, 0));
    assert!(p.read_name().is_empty());
    assert_eq!(rest(&mut p), "+a");
}

#[test]
fn peek_second_looks_one_token_further() {
    let mut p = Parser::new(lex("xyz"), Span::new(0, 0));
    assert_eq!(p.peek_second().map(|t| t.kind), Some('y'));
    assert_eq!(p.peek().map(|t| t.kind), Some('x'));
    assert_eq!(p.next().map(|t| t.kind), Some('x'));
    assert_eq!(p.peek_second().map(|t| t.kind), Some('z'));
    assert_eq!(p.next().map(|t| t.kind), Some('y'));
    assert_eq!(p.peek_second(), None);
    assert_eq!(p.next().map(|t| t.kind), Some('z'));
    assert_eq!(p.peek_second(), None);
    assert_eq!(p.peek(), None);
}

#[test]
fn comments_are_skipped_with_white_space() {
    let mut p = Parser::new(lex("  /* a * b */ // c d\n\t/**/x /* y */"), Span::new(0, 0));
    assert!(p.whitespace_or_comment());
    assert!(!p.whitespace_or_comment());
    assert_eq!(rest(&mut p), "x /* y */");
}

#[test]
fn a_slash_alone_is_no_comment() {
    let mut p = Parser::new(lex("/ 2"), Span::new(0, 0));
    assert!(!p.whitespace_or_comment());
    assert_eq!(rest(&mut p), "/ 2");
    let mut p = Parser::new(lex(" /"), Span::new(0, 0));
    assert!(p.whitespace_or_comment());
    assert_eq!(rest(&mut p), "/");
}

#[test]
fn a_comment_that_does_not_end_runs_to_the_end() {
    let mut p = Parser::new(lex("/* a *"), Span::new(0, 0));
    assert!(p.whitespace_or_comment());
    assert_eq!(p.next(), None);
    let mut p = Parser::new(lex("// a"), Span::new(0, 0));
    assert!(p.whitespace_or_comment());
    assert_eq!(p.next(), None);
    let mut p = Parser::new(lex("/*/ x"), Span::new(0, 0));
    assert!(p.whitespace_or_comment());
    assert_eq!(p.next(), None);
}

#[test]
fn whitespace_alone_leaves_comments() {
    let mut p = Parser::new(lex(" /* a */ x"), Span::new(0, 0));
    assert!(p.whitespace());
    assert_eq!(rest(&mut p), "/* a */ x");
}
