use sass_args::bind::BindStep;
use sass_args::bind::Binder;
use sass_args::call_args::ArgPayload;
use sass_args::call_args::CallArgs;
use sass_args::call_parse::CallArgsStep;
use sass_args::error::ErrorKind;
use sass_args::error::SassError;
use sass_args::number::Number;
use sass_args::params::FuncArgs;
use sass_args::parser::Parser;
use sass_args::scope::Scope;
use sass_args::scope::Scopes;
use sass_args::span::Span;
use sass_args::span::Token;
use sass_args::value::Brackets;
use sass_args::value::ListSeparator;
use sass_args::value::QuoteKind;
use sass_args::value::Unit;
use sass_args::value::Value;

fn lex(src: &str) -> Vec<Token> {
    let mut toks = Vec::new();
    let mut at: u64 = 0;
    for c in src.chars() {
        let len = c.len_utf8() as u64;
        toks.push(Token::new(Span::new(at, at + len), c));
        at += len;
    }
    toks
}

fn whole(n: i64) -> Value {
    Value::Dimension(Number::from_integer(n), Unit::Unitless)
}

fn as_int(v: &Value) -> i64 {
    match v {
        Value::Dimension(n, Unit::Unitless) => n.to_integer().unwrap(),
        other => panic!("no bare number: {:?}", other),
    }
}

fn params(src: &str) -> FuncArgs {
    Parser::new(lex(src), Span::new(0, 0)).parse_func_args().unwrap()
}

fn call(src: &str) -> CallArgs {
    match Parser::new(lex(src), Span::new(0, 0)).parse_call_args() {
        Ok(CallArgsStep::Complete(args)) => args,
        other => panic!("unexpected outcome {:?}", other),
    }
}

/// Evaluates what the tests write as expressions: a whole number, or a variable.
fn eval(toks: &[Token], outer: &Scopes, inner: Option<&Scope>) -> Result<Value, SassError> {
    let text: String = toks.iter().map(|t| t.kind).collect();
    let text = text.trim();
    let at = toks.first().map(|t| t.pos).unwrap_or(Span::new(0, 0));
    if let Some(name) = text.strip_prefix('$') {
        let found = match inner {
            Some(scope) => outer.get_var_inside(scope, name),
            None => outer.get_var(name),
        };
        return match found {
            Some(v) => Ok(v.duplicate()),
            None => Err(SassError::new(ErrorKind::SyntaxError, at, "variable")),
        };
    }
    match text.parse::<i64>() {
        Ok(n) => Ok(whole(n)),
        Err(_) => Err(SassError::new(ErrorKind::SyntaxError, at, "number")),
    }
}

fn bind(params: FuncArgs, args: CallArgs, outer: &Scopes) -> Result<Scope, SassError> {
    let mut binder = Binder::new(params, args);
    loop {
        match binder.step() {
            BindStep::Done(scope) => return Ok(scope),
            BindStep::Failed(e) => return Err(e),
            BindStep::Argument(pending, payload, _) => {
                let v = match payload {
                    ArgPayload::Raw(toks) => eval(&toks, outer, None)?,
                    ArgPayload::Evaluated(v) => v,
                };
                binder = pending.supply(v);
            }
            BindStep::Default(pending, expr) => {
                let v = eval(&expr, outer, Some(pending.scope()))?;
                binder = pending.supply(v);
            }
        }
    }
}

fn var(scope: &Scope, name: &str) -> i64 {
    as_int(scope.get_var(name).unwrap())
}

fn rest_of(scope: &Scope, name: &str) -> Vec<(i64, Option<String>)> {
    match scope.get_var(name).unwrap() {
        Value::ArgList(items) => items.iter().map(|i| (as_int(&i.value), i.name.clone())).collect(),
        other => panic!("no argument list: {:?}", other),
    }
}

#[test]
fn a_variadic_parameter_takes_every_argument() {
    for n in 0..6 {
        let src: Vec<String> = (0..n).map(|k| (10 + k).to_string()).collect();
        let args = call(&format!("{})", src.join(", ")));
        let scope = bind(params("$rest...)"), args, &Scopes::new()).unwrap();
        let got = rest_of(&scope, "rest");
        assert_eq!(got.len(), n as usize);
        for (k, item) in got.iter().enumerate() {
            assert_eq!(item, &(10 + k as i64, None));
        }
        assert_eq!(scope.len(), 1);
    }
}

#[test]
fn a_variadic_parameter_takes_named_arguments_behind_the_positional_ones() {
    let scope = bind(params("$rest...)"), call("1, $x: 2, 3, $y: 4)"), &Scopes::new()).unwrap();
    assert_eq!(
        rest_of(&scope, "rest"),
        vec![(1, None), (3, None), (2, Some("x".to_string())), (4, Some("y".to_string()))]
    );
}

#[test]
fn a_variadic_parameter_takes_what_the_others_leave() {
    let scope = bind(params("$a, $b, $rest...)"), call("1, 2, 3, 4)"), &Scopes::new()).unwrap();
    assert_eq!(var(&scope, "a"), 1);
    assert_eq!(var(&scope, "b"), 2);
    assert_eq!(rest_of(&scope, "rest"), vec![(3, None), (4, None)]);
    let scope = bind(params("$a, $rest...)"), call("1)"), &Scopes::new()).unwrap();
    assert_eq!(var(&scope, "a"), 1);
    assert!(rest_of(&scope, "rest").is_empty());
}

#[test]
fn defaults_before_a_variadic_parameter() {
    let scope = bind(params("$a: 7, $rest...)"), call("$x: 1, $y: 2)"), &Scopes::new()).unwrap();
    assert_eq!(var(&scope, "a"), 7);
    assert_eq!(
        rest_of(&scope, "rest"),
        vec![(1, Some("x".to_string())), (2, Some("y".to_string()))]
    );
}

#[test]
fn too_few_arguments_name_the_first_parameter_left_without_one() {
    let e = bind(params("$a, $b, $c)"), call("1)"), &Scopes::new()).unwrap_err();
    assert_eq!(e.kind, ErrorKind::MissingArgument);
    assert_eq!(e.detail, "b");
    assert_eq!(e.span, Span::new(0, 2));
    assert_eq!(e.message(), "Missing argument $b.");
    let e = bind(params("$a, $b, $c)"), call(")"), &Scopes::new()).unwrap_err();
    assert_eq!((e.kind, e.detail.as_str()), (ErrorKind::MissingArgument, "a"));
    let e = bind(params("$a, $b, $c)"), call("1, 2)"), &Scopes::new()).unwrap_err();
    assert_eq!((e.kind, e.detail.as_str()), (ErrorKind::MissingArgument, "c"));
}

#[test]
fn a_missing_argument_behind_defaults_and_names() {
    let e = bind(params("$a, $b: 2, $c, $d)"), call("$a: 1, $d: 4)"), &Scopes::new()).unwrap_err();
    assert_eq!((e.kind, e.detail.as_str()), (ErrorKind::MissingArgument, "c"));
}

#[test]
fn a_default_sees_the_parameters_bound_before_it() {
    let mut outer = Scopes::new();
    outer.insert_var("a".to_string(), whole(99));
    let scope = bind(params("$a, $b: $a)"), call("1)"), &outer).unwrap();
    assert_eq!(var(&scope, "a"), 1);
    assert_eq!(var(&scope, "b"), 1);
}

#[test]
fn an_argument_sees_the_scope_of_the_caller() {
    let mut outer = Scopes::new();
    outer.insert_var("a".to_string(), whole(99));
    let scope = bind(params("$a, $b)"), call("1, $a)"), &outer).unwrap();
    assert_eq!(var(&scope, "a"), 1);
    assert_eq!(var(&scope, "b"), 99);
}

#[test]
fn a_default_sees_the_enclosing_scope_for_other_names() {
    let mut outer = Scopes::new();
    outer.insert_var("c".to_string(), whole(5));
    let scope = bind(params("$a: $c, $b: $a)"), call(")"), &outer).unwrap();
    assert_eq!(var(&scope, "a"), 5);
    assert_eq!(var(&scope, "b"), 5);
}

#[test]
fn a_default_is_not_used_where_an_argument_is_passed() {
    let scope = bind(params("$a: 1, $b: 2)"), call("$b: 20)"), &Scopes::new()).unwrap();
    assert_eq!(var(&scope, "a"), 1);
    assert_eq!(var(&scope, "b"), 20);
}

#[test]
fn arguments_are_found_by_name_or_by_position() {
    let scope = bind(params("$a, $b, $c)"), call("1, $c: 3, $b: 2)"), &Scopes::new()).unwrap();
    assert_eq!((var(&scope, "a"), var(&scope, "b"), var(&scope, "c")), (1, 2, 3));
}

#[test]
fn a_name_is_looked_for_before_a_position() {
    let e = bind(params("$a)"), call("1, $a: 2)"), &Scopes::new()).unwrap_err();
    assert_eq!(e.kind, ErrorKind::SurplusArgument);
    let scope = bind(params("$a, $rest...)"), call("1, $a: 2)"), &Scopes::new()).unwrap();
    assert_eq!(var(&scope, "a"), 2);
    assert_eq!(rest_of(&scope, "rest"), vec![(1, None)]);
}

#[test]
fn arguments_left_over_are_a_surplus() {
    let e = bind(params("$a)"), call("1, 2)"), &Scopes::new()).unwrap_err();
    assert_eq!(e.kind, ErrorKind::SurplusArgument);
    assert_eq!(e.span, Span::new(0, 5));
    let e = bind(params("$a)"), call("1, $b: 2)"), &Scopes::new()).unwrap_err();
    assert_eq!(e.kind, ErrorKind::SurplusArgument);
    let e = bind(params("$a)"), call("$a: 1, $a: 2)"), &Scopes::new()).unwrap_err();
    assert_eq!(e.kind, ErrorKind::SurplusArgument);
}

#[test]
fn an_empty_parameter_list_takes_no_arguments() {
    let scope = bind(params(")"), call(")"), &Scopes::new()).unwrap();
    assert_eq!(scope.len(), 0);
    let e = bind(params(")"), call("1)"), &Scopes::new()).unwrap_err();
    assert_eq!(e.kind, ErrorKind::SurplusArgument);
    assert_eq!(e.span, Span::new(0, 2));
}

#[test]
fn a_splatted_list_binds_parameters_in_order() {
    let list = Value::List(vec![whole(1), whole(2), whole(3)], ListSeparator::Comma, Brackets::Bare);
    let args = CallArgs::new(Span::new(0, 1)).splat(list, Span::new(0, 1)).unwrap();
    let scope = bind(params("$a, $b, $c)"), args, &Scopes::new()).unwrap();
    assert_eq!((var(&scope, "a"), var(&scope, "b"), var(&scope, "c")), (1, 2, 3));
}

#[test]
fn a_splatted_map_binds_parameters_by_name() {
    let map = Value::Mapping(vec![
        (Value::String("b".to_string(), QuoteKind::Unquoted), whole(2)),
        (Value::String("a".to_string(), QuoteKind::Unquoted), whole(1)),
    ]);
    let args = CallArgs::new(Span::new(0, 1)).splat(map, Span::new(0, 1)).unwrap();
    let scope = bind(params("$a, $b)"), args, &Scopes::new()).unwrap();
    assert_eq!((var(&scope, "a"), var(&scope, "b")), (1, 2));
}

#[test]
fn a_step_asks_for_one_value_at_a_time() {
    let binder = Binder::new(params("$a, $b: 5)"), call("3)"));
    let pending = match binder.step() {
        BindStep::Argument(pending, ArgPayload::Raw(toks), span) => {
            assert_eq!(toks.len(), 1);
            assert_eq!(toks[0].kind, '3');
            assert_eq!(span, Span::new(0, 1));
            assert_eq!(pending.scope().len(), 0);
            pending
        }
        other => panic!("unexpected step {:?}", other),
    };
    let pending = match pending.supply(whole(3)).step() {
        BindStep::Default(pending, expr) => {
            assert_eq!(expr.len(), 1);
            assert_eq!(expr[0].kind, '5');
            assert_eq!(var(pending.scope(), "a"), 3);
            pending
        }
        other => panic!("unexpected step {:?}", other),
    };
    match pending.supply(whole(5)).step() {
        BindStep::Done(scope) => {
            assert_eq!((var(&scope, "a"), var(&scope, "b")), (3, 5));
        }
        other => panic!("unexpected step {:?}", other),
    }
}

#[test]
fn a_scope_finds_the_latest_binding_of_a_name() {
    let mut s = Scope::new();
    assert!(s.get_var("a").is_none());
    s.insert_var("a".to_string(), whole(1));
    s.insert_var("b".to_string(), whole(2));
    s.insert_var("a".to_string(), whole(3));
    assert_eq!(var(&s, "a"), 3);
    assert_eq!(var(&s, "b"), 2);
    assert!(s.get_var("c").is_none());
    assert_eq!(s.len(), 3);
}

#[test]
fn inner_scopes_hide_outer_ones() {
    let mut scopes = Scopes::new();
    assert!(scopes.get_var("a").is_none());
    assert!(scopes.exit_scope().is_none());
    scopes.insert_var("a".to_string(), whole(1));
    scopes.insert_var("b".to_string(), whole(2));
    assert_eq!(scopes.depth(), 1);
    scopes.enter_new_scope();
    assert_eq!(as_int(scopes.get_var("a").unwrap()), 1);
    scopes.insert_var("a".to_string(), whole(10));
    assert_eq!(as_int(scopes.get_var("a").unwrap()), 10);
    assert_eq!(as_int(scopes.get_var("b").unwrap()), 2);
    assert_eq!(scopes.depth(), 2);
    let inner = scopes.exit_scope().unwrap();
    assert_eq!(var(&inner, "a"), 10);
    assert_eq!(as_int(scopes.get_var("a").unwrap()), 1);
    scopes.enter_scope(inner);
    assert_eq!(as_int(scopes.get_var("a").unwrap()), 10);
}

#[test]
fn a_scope_opened_inside_others_is_looked_in_first() {
    let mut scopes = Scopes::new();
    scopes.insert_var("a".to_string(), whole(1));
    scopes.insert_var("b".to_string(), whole(2));
    let mut inner = Scope::new();
    inner.insert_var("a".to_string(), whole(7));
    assert_eq!(as_int(scopes.get_var_inside(&inner, "a").unwrap()), 7);
    assert_eq!(as_int(scopes.get_var_inside(&inner, "b").unwrap()), 2);
    assert!(scopes.get_var_inside(&inner, "c").is_none());
}
