use sass_args::call_args::ArgPayload;
use sass_args::call_args::CallArg;
use sass_args::call_args::CallArgs;
use sass_args::call_parse::CallArgsStep;
use sass_args::error::ErrorKind;
use sass_args::number::Number;
use sass_args::parser::Parser;
use sass_args::span::Span;
use sass_args::span::Token;
use sass_args::value::ArgListItem;
use sass_args::value::Brackets;
use sass_args::value::ListSeparator;
use sass_args::value::QuoteKind;
use sass_args::value::Unit;
use sass_args::value::Value;

fn lex(src: &str) -> Vec<Token> {
    let mut toks = Vec::new();
    let mut at: u64 = 0;
    for c in src.chars() {
        let len = c.len_utf8() as u64;
        toks.push(Token::new(Span::new(at, at + len), c));
        at += len;
    }
    toks
}

fn text(toks: &[Token]) -> String {
    toks.iter().map(|t| t.kind).collect()
}

fn rest(p: &mut Parser) -> String {
    let mut s = String::new();
    while let Some(t) = p.next() {
        s.push(t.kind);
    }
    s
}

fn whole(n: i64) -> Value {
    Value::Dimension(Number::from_integer(n), Unit::Unitless)
}

fn as_int(v: &Value) -> i64 {
    match v {
        Value::Dimension(n, Unit::Unitless) => n.to_integer().unwrap(),
        other => panic!("no bare number: {:?}", other),
    }
}

fn key(k: &CallArg) -> String {
    match k {
        CallArg::Named(n) => format!("${}", n),
        CallArg::Positional(i) => format!("#{}", i),
    }
}

fn payload(p: &ArgPayload) -> String {
    match p {
        ArgPayload::Raw(toks) => text(toks),
        ArgPayload::Evaluated(v) => format!("={}", as_int(v)),
    }
}

fn shape(args: &CallArgs) -> Vec<(String, String)> {
    args.entries.iter().map(|e| (key(&e.key), payload(&e.payload))).collect()
}

fn pairs(items: &[(&str, &str)]) -> Vec<(String, String)> {
    items.iter().map(|(k, v)| (k.to_string(), v.to_string())).collect()
}

fn complete(src: &str) -> (CallArgs, String) {
    let mut p = Parser::new(lex(src), Span::new(0, 0));
    match p.parse_call_args() {
        Ok(CallArgsStep::Complete(args)) => (args, rest(&mut p)),
        other => panic!("unexpected outcome {:?}", other),
    }
}

fn failure(src: &str) -> (ErrorKind, Span, String) {
    let mut p = Parser::new(lex(src), Span::new(1000, 1001));
    match p.parse_call_args() {
        Err(e) => (e.kind, e.span, e.detail),
        other => panic!("unexpected outcome {:?}", other),
    }
}

#[test]
fn arguments_are_comma_separated() {
    let (args, rest) = complete("1+1, 2+3, 4+5) rest");
    assert_eq!(shape(&args), pairs(&[("#0", "1+1"), ("#1", "2+3"), ("#2", "4+5")]));
    assert_eq!(rest, " rest");
}

#[test]
fn positional_arguments_are_numbered_in_order() {
    let (args, _) = complete("a, b, c)");
    for (i, e) in args.entries.iter().enumerate() {
        assert!(matches!(e.key, CallArg::Positional(n) if n == i));
    }
    assert_eq!(args.len(), 3);
}

#[test]
fn evaluates_arguments_later() {
    let (args, _) = complete("1+1)");
    assert_eq!(shape(&args), pairs(&[("#0", "1+1")]));
    assert!(matches!(args.entries[0].payload, ArgPayload::Raw(_)));
}

#[test]
fn nested_plain_css_fn() {
    let (args, rest) = complete("foo(foo(foo(1+1))));");
    assert_eq!(shape(&args), pairs(&[("#0", "foo(foo(foo(1+1)))")]));
    assert_eq!(rest, ";");
}

#[test]
fn converts_sql_quotes_stay_one_argument() {
    let (args, _) = complete("'hi, there', \"a)b\")");
    assert_eq!(shape(&args), pairs(&[("#0", "'hi, there'"), ("#1", "\"a)b\"")]));
}

#[test]
fn commas_inside_brackets_do_not_split() {
    let (args, _) = complete("[a, b], (c, d), e)");
    assert_eq!(shape(&args), pairs(&[("#0", "[a, b]"), ("#1", "(c, d)"), ("#2", "e")]));
}

#[test]
fn named_arguments() {
    let (args, _) = complete("$a: 1, $b : 2+2)");
    assert_eq!(shape(&args), pairs(&[("$a", "1"), ("$b", "2+2")]));
}

#[test]
fn named_and_positional_arguments_mixed() {
    let (args, _) = complete("1, $x: 2, 3)");
    assert_eq!(shape(&args), pairs(&[("#0", "1"), ("$x", "2"), ("#2", "3")]));
}

#[test]
fn a_variable_is_the_start_of_an_expression() {
    let (args, _) = complete("$a, $b + 1, $c+1)");
    assert_eq!(shape(&args), pairs(&[("#0", "$a"), ("#1", "$b + 1"), ("#2", "$c+1")]));
}

#[test]
fn evalutes_variables_as_positional_arguments() {
    let (args, _) = complete("$primary, $accent)");
    assert_eq!(shape(&args), pairs(&[("#0", "$primary"), ("#1", "$accent")]));
}

#[test]
fn a_repeated_name_is_kept() {
    let (args, _) = complete("$a: 1, $a: 2)");
    assert_eq!(shape(&args), pairs(&[("$a", "1"), ("$a", "2")]));
}

#[test]
fn a_single_dot_belongs_to_the_expression() {
    let (args, _) = complete("1.5, .5)");
    assert_eq!(shape(&args), pairs(&[("#0", "1.5"), ("#1", ".5")]));
}

#[test]
fn no_arguments() {
    let (args, rest) = complete(" )x");
    assert!(args.entries.is_empty());
    assert_eq!(args.span, Span::new(1, 2));
    assert_eq!(rest, "x");
}

#[test]
fn a_trailing_comma_adds_no_argument() {
    let (args, _) = complete("1, 2, )");
    assert_eq!(shape(&args), pairs(&[("#0", "1"), ("#1", "2")]));
}

#[test]
fn the_span_of_a_call_reaches_to_its_closing_parenthesis() {
    let (args, _) = complete("1, 2)");
    assert_eq!(args.span, Span::new(0, 5));
    assert_eq!(args.entries[0].span, Span::new(0, 1));
    assert_eq!(args.entries[1].span, Span::new(3, 4));
}

#[test]
fn the_span_of_an_argument_covers_its_expression() {
    let (args, _) = complete("1 + 2, )");
    assert_eq!(args.entries[0].span, Span::new(0, 5));
}

#[test]
fn an_empty_argument_is_placed_at_what_ends_it() {
    let (args, _) = complete(", 1)");
    assert_eq!(shape(&args), pairs(&[("#0", ""), ("#1", "1")]));
    assert_eq!(args.entries[0].span, Span::new(0, 1));
}

#[test]
fn no_call_input_is_reported_before_the_call() {
    assert_eq!(failure("  "), (ErrorKind::SyntaxError, Span::new(1000, 1001), ")".to_string()));
}

#[test]
fn input_that_ends_inside_the_arguments() {
    assert_eq!(failure("1, 2"), (ErrorKind::SyntaxError, Span::new(0, 1), ")".to_string()));
    assert_eq!(failure("1, "), (ErrorKind::SyntaxError, Span::new(0, 1), ")".to_string()));
}

#[test]
fn an_open_bracket_inside_an_argument() {
    assert_eq!(
        failure("1, [2, 3)"),
        (ErrorKind::UnterminatedDelimiter, Span::new(3, 4), "]".to_string())
    );
    assert_eq!(
        failure("(1, 2"),
        (ErrorKind::UnterminatedDelimiter, Span::new(0, 1), ")".to_string())
    );
    assert_eq!(
        failure("1, 'ab)"),
        (ErrorKind::UnterminatedDelimiter, Span::new(3, 4), "'".to_string())
    );
}

#[test]
fn an_argument_sigil_without_a_name() {
    assert_eq!(failure("$ , 1)"), (ErrorKind::SyntaxError, Span::new(1, 2), "identifier".to_string()));
}

#[test]
fn a_named_argument_cannot_be_splatted() {
    assert_eq!(failure("$a: $b...)"), (ErrorKind::SyntaxError, Span::new(7, 8), ")".to_string()));
}

#[test]
fn two_dots_are_no_splat() {
    assert_eq!(failure("$a..)"), (ErrorKind::SyntaxError, Span::new(3, 4), ".".to_string()));
    assert_eq!(failure("$a.."), (ErrorKind::SyntaxError, Span::new(3, 4), ".".to_string()));
}

#[test]
fn reading_stops_at_a_splat() {
    let mut p = Parser::new(lex("1, $list..., 2)"), Span::new(0, 0));
    match p.parse_call_args() {
        Ok(CallArgsStep::Splat(args, expr)) => {
            assert_eq!(shape(&args), pairs(&[("#0", "1")]));
            assert_eq!(text(&expr), "$list");
            assert_eq!(rest(&mut p), ", 2)");
        }
        other => panic!("unexpected outcome {:?}", other),
    }
}

#[test]
fn reading_resumes_behind_a_splat() {
    let mut p = Parser::new(lex("$list... )x"), Span::new(0, 0));
    let args = match p.parse_call_args() {
        Ok(CallArgsStep::Splat(args, expr)) => {
            assert_eq!(text(&expr), "$list");
            args
        }
        other => panic!("unexpected outcome {:?}", other),
    };
    let list = Value::List(vec![whole(1), whole(2), whole(3)], ListSeparator::Comma, Brackets::Bare);
    let args = args.splat(list, Span::new(0, 5)).unwrap();
    match p.resume_call_args(args) {
        Ok(CallArgsStep::Complete(args)) => {
            assert_eq!(shape(&args), pairs(&[("#0", "=1"), ("#1", "=2"), ("#2", "=3")]));
        }
        other => panic!("unexpected outcome {:?}", other),
    }
    assert_eq!(rest(&mut p), "x");
}

#[test]
fn resuming_at_the_end_of_input_fails() {
    let mut p = Parser::new(lex("  "), Span::new(0, 0));
    let args = CallArgs::new(Span::new(5, 9));
    let e = p.resume_call_args(args).unwrap_err();
    assert_eq!((e.kind, e.span, e.detail.as_str()), (ErrorKind::SyntaxError, Span::new(5, 9), ")"));
}

#[test]
fn arguments_behind_a_splat_are_numbered_behind_its_elements() {
    let mut p = Parser::new(lex("a, $l..."), Span::new(0, 0));
    let args = match p.parse_call_args() {
        Ok(CallArgsStep::Splat(args, _)) => args,
        other => panic!("unexpected outcome {:?}", other),
    };
    let list = Value::List(vec![whole(7), whole(8)], ListSeparator::Space, Brackets::Bracketed);
    let args = args.splat(list, Span::new(3, 5)).unwrap();
    let mut p = Parser::new(lex("b)"), Span::new(0, 0));
    match p.resume_call_args(args) {
        Ok(CallArgsStep::Complete(args)) => {
            assert_eq!(shape(&args), pairs(&[("#0", "a"), ("#1", "=7"), ("#2", "=8"), ("#3", "b")]));
        }
        other => panic!("unexpected outcome {:?}", other),
    }
}

#[test]
fn splatting_a_list_adds_positional_arguments_in_order() {
    let list = Value::List(vec![whole(1), whole(2), whole(3)], ListSeparator::Comma, Brackets::Bare);
    let at = Span::new(2, 9);
    let args = CallArgs::new(Span::new(0, 1)).splat(list, at).unwrap();
    assert_eq!(shape(&args), pairs(&[("#0", "=1"), ("#1", "=2"), ("#2", "=3")]));
    assert!(args.entries.iter().all(|e| e.span == at));
    assert_eq!(args.span, Span::new(0, 1));
}

#[test]
fn splatting_an_argument_list_keeps_the_places_of_its_elements() {
    let items = vec![
        ArgListItem { value: whole(4), name: None, span: Span::new(1, 2) },
        ArgListItem { value: whole(5), name: Some("n".to_string()), span: Span::new(3, 4) },
    ];
    let args = CallArgs::new(Span::new(0, 1)).splat(Value::ArgList(items), Span::new(8, 9)).unwrap();
    assert_eq!(shape(&args), pairs(&[("#0", "=4"), ("#1", "=5")]));
    assert_eq!(args.entries[0].span, Span::new(1, 2));
    assert_eq!(args.entries[1].span, Span::new(3, 4));
}

#[test]
fn splatting_a_map_adds_named_arguments() {
    let map = Value::Mapping(vec![
        (Value::String("a".to_string(), QuoteKind::Unquoted), whole(1)),
        (Value::String("b".to_string(), QuoteKind::Quoted), whole(2)),
    ]);
    let args = CallArgs::new(Span::new(0, 1)).splat(map, Span::new(2, 3)).unwrap();
    assert_eq!(shape(&args), pairs(&[("$a", "=1"), ("$b", "=2")]));
}

#[test]
fn splatting_a_map_with_a_key_that_is_no_string_fails() {
    let map = Value::Mapping(vec![
        (Value::String("a".to_string(), QuoteKind::Unquoted), whole(1)),
        (whole(2), whole(3)),
    ]);
    let at = Span::new(2, 3);
    let (e, back) = CallArgs::new(Span::new(0, 1)).splat(map, at).unwrap_err();
    assert_eq!(e.kind, ErrorKind::InvalidSplatTarget);
    assert_eq!(e.span, at);
    assert_eq!(e.detail, "2 is not a string in (a: 1, 2: 3)");
    assert_eq!(e.message(), "2 is not a string in (a: 1, 2: 3).");
    match back {
        Value::Mapping(entries) => {
            assert_eq!(entries.len(), 2);
            assert_eq!(as_int(&entries[1].0), 2);
            assert_eq!(as_int(&entries[1].1), 3);
        }
        other => panic!("unexpected value {:?}", other),
    }
}

#[test]
fn splatting_any_other_value_adds_it_as_one_argument() {
    let mut args = CallArgs::new(Span::new(0, 1));
    args.push_raw(None, lex("x"), Span::new(1, 2));
    let args = args.splat(whole(9), Span::new(2, 3)).unwrap();
    assert_eq!(shape(&args), pairs(&[("#0", "x"), ("#1", "=9")]));
    let args = args.splat(Value::Null, Span::new(2, 3)).unwrap();
    assert_eq!(args.len(), 3);
    assert!(matches!(args.entries[2].payload, ArgPayload::Evaluated(Value::Null)));
}

#[test]
fn splatting_an_empty_list_adds_nothing() {
    let list = Value::List(Vec::new(), ListSeparator::Comma, Brackets::Bare);
    let args = CallArgs::new(Span::new(0, 1)).splat(list, Span::new(2, 3)).unwrap();
    assert!(args.entries.is_empty());
}

#[test]
fn push_raw_keys_by_name_or_by_count() {
    let mut args = CallArgs::new(Span::new(0, 1));
    args.push_raw(Some("n".to_string()), lex("1"), Span::new(9, 9));
    args.push_raw(None, lex("22"), Span::new(9, 9));
    args.push_raw(None, Vec::new(), Span::new(7, 8));
    assert_eq!(shape(&args), pairs(&[("$n", "1"), ("#1", "22"), ("#2", "")]));
    assert_eq!(args.entries[1].span, Span::new(0, 2));
    assert_eq!(args.entries[2].span, Span::new(7, 8));
}

#[test]
fn disallows_named_arguments() {
    let (args, _) = complete("1, $a: 1+1)");
    let e = args.positional_only().unwrap_err();
    assert_eq!(e.kind, ErrorKind::NamedArgumentNotAllowed);
    assert_eq!(e.detail, "a");
    assert_eq!(e.span, Span::new(7, 10));
    assert_eq!(
        format!("Error: {}", e.message()),
        "Error: Plain CSS functions don't support keyword arguments."
    );
}

#[test]
fn positional_arguments_pass_as_they_are() {
    let (args, _) = complete("1+1, 2+3)");
    let entries = args.positional_only().unwrap();
    assert_eq!(entries.len(), 2);
    assert_eq!(payload(&entries[0].payload), "1+1");
    assert_eq!(payload(&entries[1].payload), "2+3");
}

#[test]
fn comments_before_an_argument_are_dropped() {
    let (args, _) = complete("/* first */ 1, // second\n 2, $a /* named */ : /* value */ 3)");
    assert_eq!(shape(&args), pairs(&[("#0", "1"), ("#1", "2"), ("$a", "3")]));
    assert_eq!(args.span, Span::new(12, 60));
}

#[test]
fn a_comment_behind_a_variable_is_kept_as_a_blank() {
    let (args, _) = complete("$a/* x */+ 1)");
    assert_eq!(shape(&args), pairs(&[("#0", "$a + 1")]));
}

#[test]
fn comments_inside_an_expression_are_kept() {
    let (args, _) = complete("1 /* x */ + 2)");
    assert_eq!(shape(&args), pairs(&[("#0", "1 /* x */ + 2")]));
}

#[test]
fn the_first_key_that_is_no_string_is_named() {
    let map = Value::Mapping(vec![(whole(1), whole(2))]);
    let (e, _) = CallArgs::new(Span::new(0, 1)).splat(map, Span::new(0, 7)).unwrap_err();
    assert_eq!(e.kind, ErrorKind::InvalidSplatTarget);
    assert_eq!(e.message(), "1 is not a string in (1: 2).");
    let map = Value::Mapping(vec![
        (Value::String("a".to_string(), QuoteKind::Quoted), whole(1)),
        (Value::Null, whole(2)),
        (whole(3), whole(4)),
    ]);
    let (e, _) = CallArgs::new(Span::new(0, 1)).splat(map, Span::new(0, 7)).unwrap_err();
    assert_eq!(e.message(), "null is not a string in (\"a\": 1, null: 2, 3: 4).");
}

#[test]
fn a_splatted_map_in_a_call_fails_on_a_key_that_is_no_string() {
    let mut p = Parser::new(lex("$m...)"), Span::new(0, 0));
    let (args, expr) = match p.parse_call_args() {
        Ok(CallArgsStep::Splat(args, expr)) => (args, expr),
        other => panic!("unexpected outcome {:?}", other),
    };
    assert_eq!(text(&expr), "$m");
    let map = Value::Mapping(vec![(whole(1), whole(2))]);
    let (e, back) = args.splat(map, Span::new(0, 2)).unwrap_err();
    assert_eq!(e.kind, ErrorKind::InvalidSplatTarget);
    assert_eq!(e.span, Span::new(0, 2));
    assert_eq!(format!("Error: {}", e.message()), "Error: 1 is not a string in (1: 2).");
    assert!(matches!(back, Value::Mapping(ref entries) if entries.len() == 1));
}
