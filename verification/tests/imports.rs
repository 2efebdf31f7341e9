use sass_args::error::ErrorKind;
use sass_args::import::candidates;
use sass_args::import::child_of;
use sass_args::import::file_name_of;
use sass_args::import::find_import;
use sass_args::import::has_prefix;
use sass_args::import::has_suffix;
use sass_args::import::import;
use sass_args::import::resolve_import;
use sass_args::import::sibling_of;
use sass_args::import::ImportStack;
use sass_args::import::ImportStep;
use sass_args::import::LoadPath;
use sass_args::parser::Parser;
use sass_args::span::Span;
use sass_args::span::Token;
use sass_args::value::Brackets;
use sass_args::value::ListSeparator;
use sass_args::value::QuoteKind;
use sass_args::value::Value;

fn lex(src: &str) -> Vec<Token> {
    let mut toks = Vec::new();
    let mut at: u64 = 0;
    for c in src.chars() {
        let len = c.len_utf8() as u64;
        toks.push(Token::new(Span::new(at, at + len), c));
        at += len;
    }
    toks
}

fn quoted(s: &str) -> Value {
    Value::String(s.to_string(), QuoteKind::Quoted)
}

fn unquoted(s: &str) -> Value {
    Value::String(s.to_string(), QuoteKind::Unquoted)
}

fn list(items: Vec<Value>) -> Value {
    Value::List(items, ListSeparator::Comma, Brackets::Bare)
}

fn at() -> Span {
    Span::new(8, 20)
}

fn steps(v: &Value) -> Vec<String> {
    import(v, at())
        .unwrap()
        .into_iter()
        .map(|s| match s {
            ImportStep::Css(text) => format!("@import {};", text),
            ImportStep::File(spec) => format!("file {}", spec),
        })
        .collect()
}

/// A path with its `.` and `..` parts taken out, as a file system reads it.
fn tidy(path: &str) -> String {
    let mut parts: Vec<&str> = Vec::new();
    for part in path.split('/') {
        match part {
            "" | "." => {}
            ".." => {
                parts.pop();
            }
            other => parts.push(other),
        }
    }
    parts.join("/")
}

/// Finds an import among the files of a tree, the way a caller with a file system does:
/// it looks each candidate up and hands over those that are files.
fn find(tree: &[&str], importer: &str, specifier: &str, load_paths: &Vec<LoadPath>) -> Option<String> {
    let present: Vec<String> = candidates(importer, specifier, load_paths)
        .into_iter()
        .filter(|c| tree.contains(&tidy(c).as_str()))
        .collect();
    find_import(importer, specifier, load_paths, &present)
}

/// The file names that importing `specifier` into `importer` pulls in, in order, following
/// the imports that each file of `tree` is said to hold.
fn expand(tree: &[(&str, &[&str])], importer: &str, specifier: &str, out: &mut Vec<String>) {
    let names: Vec<&str> = tree.iter().map(|(n, _)| *n).collect();
    let found = find(&names, importer, specifier, &Vec::new()).expect("can't find stylesheet");
    let inner = tree.iter().find(|(n, _)| *n == tidy(&found)).unwrap().1;
    for next in inner {
        expand(tree, &found, next, out);
    }
    out.push(tidy(&found));
}

#[test]
fn imports_variable() {
    let value = quoted("imports_variable");
    assert_eq!(steps(&value), vec!["file imports_variable"]);
    let found = find(&["imports_variable"], "input.scss", "imports_variable", &Vec::new());
    assert_eq!(found, Some("imports_variable".to_string()));
}

#[test]
fn import_no_quotes() {
    let mut p = Parser::new(lex(" import_no_quotes"), Span::new(0, 7));
    match p.import_start() {
        Ok(..) => panic!("did not fail"),
        Err(e) => {
            assert_eq!("Error: Expected string.", format!("Error: {}", e.message()).as_str());
            assert_eq!(e.kind, ErrorKind::SyntaxError);
            assert_eq!(e.span, Span::new(1, 2));
        }
    }
}

#[test]
fn single_quotes_import() {
    let mut p = Parser::new(lex(" 'single_quotes_import';"), Span::new(0, 7));
    assert!(p.import_start().is_ok());
    assert_eq!(p.peek().map(|t| t.kind), Some('\''));
    assert_eq!(steps(&quoted("single_quotes_import")), vec!["file single_quotes_import"]);
    let found = find(&["single_quotes_import"], "input.scss", "single_quotes_import", &Vec::new());
    assert_eq!(found, Some("single_quotes_import".to_string()));
}

#[test]
fn comma_seperated_import() {
    let value = list(vec![quoted("firsta"), quoted("seconda")]);
    assert_eq!(steps(&value), vec!["file firsta", "file seconda"]);
    let tree = ["firsta", "seconda"];
    assert_eq!(find(&tree, "input.scss", "firsta", &Vec::new()), Some("firsta".to_string()));
    assert_eq!(find(&tree, "input.scss", "seconda", &Vec::new()), Some("seconda".to_string()));
}

#[test]
fn comma_seperated_import_order() {
    let value = list(vec![quoted("firstb"), quoted("secondb"), unquoted("url(third)")]);
    assert_eq!(steps(&value), vec!["file firstb", "file secondb", "@import url(third);"]);
}

#[test]
fn finds_name_scss() {
    let found = find(&["finds_name_scss.scss"], "input.scss", "finds_name_scss", &Vec::new());
    assert_eq!(found, Some("finds_name_scss.scss".to_string()));
}

#[test]
fn finds_underscore_name_scss() {
    let found = find(
        &["_finds_underscore_name_scss.scss"],
        "input.scss",
        "finds_underscore_name_scss",
        &Vec::new(),
    );
    assert_eq!(found, Some("_finds_underscore_name_scss.scss".to_string()));
}

#[test]
fn chained_imports() {
    let tree: [(&str, &[&str]); 3] = [
        ("chained_imports__a.scss", &["chained_imports__b"]),
        ("chained_imports__b.scss", &["chained_imports__c"]),
        ("chained_imports__c.scss", &[]),
    ];
    let mut order = Vec::new();
    expand(&tree, "input.scss", "chained_imports__a", &mut order);
    assert_eq!(
        order,
        vec!["chained_imports__c.scss", "chained_imports__b.scss", "chained_imports__a.scss"]
    );
}

#[test]
fn chained_imports_in_directory() {
    let tree: [(&str, &[&str]); 3] = [
        ("chained_imports_in_directory__a.scss", &["chained_imports_in_directory__b"]),
        ("chained_imports_in_directory__b/index.scss", &["../chained_imports_in_directory__c"]),
        ("chained_imports_in_directory__c.scss", &[]),
    ];
    let mut order = Vec::new();
    expand(&tree, "input.scss", "chained_imports_in_directory__a", &mut order);
    assert_eq!(
        order,
        vec![
            "chained_imports_in_directory__c.scss",
            "chained_imports_in_directory__b/index.scss",
            "chained_imports_in_directory__a.scss",
        ]
    );
}

#[test]
fn missing_input_after_import() {
    let before = Span::new(0, 7);
    let mut p = Parser::new(lex("  "), before);
    let e = p.import_start().unwrap_err();
    assert_eq!(e.kind, ErrorKind::SyntaxError);
    assert_eq!(e.span, before);
    assert_eq!(format!("Error: {}", e.message()), "Error: expected more input.");
}

#[test]
fn import_unquoted_http() {
    let mut p = Parser::new(lex(" http://foo.com/;"), Span::new(0, 7));
    let e = p.import_start().unwrap_err();
    assert_eq!(format!("Error: {}", e.message()), "Error: Expected string.");
}

#[test]
fn import_may_start_with_url() {
    let mut p = Parser::new(lex("url(foo..);"), Span::new(0, 7));
    assert!(p.import_start().is_ok());
    assert_eq!(p.peek().map(|t| t.kind), Some('u'));
}

#[test]
fn import_file_doesnt_exist() {
    let e = resolve_import("input.scss", "idontexist", &Vec::new(), &Vec::new(), at()).unwrap_err();
    assert_eq!(e.kind, ErrorKind::ImportNotFound);
    assert_eq!(e.span, at());
    assert_eq!(e.detail, "idontexist");
    assert_eq!(format!("Error: {}", e.message()), "Error: Can't find stylesheet to import.");
}

#[test]
fn file_name_is_two_periods() {
    let e = resolve_import("input.scss", "foo/..", &Vec::new(), &Vec::new(), at()).unwrap_err();
    assert_eq!(format!("Error: {}", e.message()), "Error: Can't find stylesheet to import.");
}

#[test]
fn resolving_hands_back_the_file() {
    let files = vec!["dir/_b.scss".to_string()];
    let found = resolve_import("dir/a.scss", "b", &Vec::new(), &files, at()).unwrap();
    assert_eq!(found, "dir/_b.scss");
}

#[test]
fn import_beginning_with_http() {
    assert_eq!(steps(&quoted("http://foo.com/")), vec!["@import \"http://foo.com/\";"]);
}

#[test]
fn import_beginning_with_http_no_ending_slash() {
    assert_eq!(steps(&quoted("http://foo.com")), vec!["@import \"http://foo.com\";"]);
}

#[test]
fn import_beginning_with_https() {
    assert_eq!(steps(&quoted("https://foo.com/")), vec!["@import \"https://foo.com/\";"]);
}

#[test]
fn import_ending_in_css() {
    assert_eq!(steps(&quoted("foo.css")), vec!["@import \"foo.css\";"]);
}

#[test]
fn import_url() {
    assert_eq!(steps(&unquoted("url(foo..)")), vec!["@import url(foo..);"]);
}

#[test]
fn plain_css_is_never_looked_for_as_a_file() {
    for spec in ["foo.css", "http://foo.com/a", "https://foo.com/a.scss"] {
        match &import(&quoted(spec), at()).unwrap()[..] {
            [ImportStep::Css(text)] => assert_eq!(text, &format!("\"{}\"", spec)),
            other => panic!("unexpected steps {:?}", other),
        }
    }
}

#[test]
fn a_quoted_url_call_names_a_file() {
    assert_eq!(steps(&quoted("url(foo)")), vec!["file url(foo)"]);
    assert_eq!(steps(&unquoted("foo.css")), vec!["file foo.css"]);
    assert_eq!(steps(&unquoted("http://foo.com")), vec!["file http://foo.com"]);
}

#[test]
fn only_strings_can_be_imported() {
    let not_importable = [
        Value::Null,
        Value::Ident("a".to_string()),
        list(vec![quoted("a"), Value::Null]),
        Value::List(vec![quoted("a"), quoted("b")], ListSeparator::Space, Brackets::Bare),
        list(vec![list(vec![quoted("a")])]),
    ];
    for v in not_importable {
        let e = import(&v, at()).unwrap_err();
        assert_eq!(e.kind, ErrorKind::SyntaxError);
        assert_eq!(e.span, at());
        assert_eq!(e.message(), "Expected string.");
    }
}

#[test]
fn an_empty_list_imports_nothing() {
    assert!(steps(&list(Vec::new())).is_empty());
}

#[test]
fn candidates_beside_the_importing_file() {
    assert_eq!(
        candidates("dir/a.scss", "b", &Vec::new()),
        vec!["dir/b", "dir/b.scss", "dir/_b.scss", "dir/b/index.scss", "dir/b/_index.scss"]
    );
    assert_eq!(
        candidates("a.scss", "sub/b", &Vec::new()),
        vec!["sub/b", "sub/b.scss", "sub/_b.scss", "sub/b/index.scss", "sub/b/_index.scss"]
    );
    assert_eq!(
        candidates("dir/a.scss", "/abs/b", &Vec::new()),
        vec!["/abs/b", "/abs/b.scss", "/abs/_b.scss", "/abs/b/index.scss", "/abs/b/_index.scss"]
    );
}

#[test]
fn candidates_of_load_paths_follow_in_order() {
    let load_paths = vec![
        LoadPath { path: "lib".to_string(), is_dir: true },
        LoadPath { path: "vendor/main.scss".to_string(), is_dir: false },
    ];
    assert_eq!(
        candidates("a.scss", "x/b", &load_paths),
        vec![
            "x/b",
            "x/b.scss",
            "x/_b.scss",
            "x/b/index.scss",
            "x/b/_index.scss",
            "lib/b.scss",
            "lib/_b.scss",
            "lib/index.scss",
            "lib/_index.scss",
            "vendor/main.scss",
            "vendor/b.scss",
            "vendor/_b.scss",
            "vendor/main.scss/index.scss",
            "vendor/main.scss/_index.scss",
        ]
    );
}

#[test]
fn the_stylesheet_is_found_before_its_partial() {
    let tree = ["b.scss", "_b.scss"];
    assert_eq!(find(&tree, "a.scss", "b", &Vec::new()), Some("b.scss".to_string()));
    let tree = ["_b.scss", "b/index.scss"];
    assert_eq!(find(&tree, "a.scss", "b", &Vec::new()), Some("_b.scss".to_string()));
    let tree = ["b/_index.scss", "b/index.scss"];
    assert_eq!(find(&tree, "a.scss", "b", &Vec::new()), Some("b/index.scss".to_string()));
    let tree = ["b/_index.scss"];
    assert_eq!(find(&tree, "a.scss", "b", &Vec::new()), Some("b/_index.scss".to_string()));
    let tree = ["b", "b.scss"];
    assert_eq!(find(&tree, "a.scss", "b", &Vec::new()), Some("b".to_string()));
}

#[test]
fn load_paths_are_searched_last_and_in_order() {
    let load_paths = vec![
        LoadPath { path: "one".to_string(), is_dir: true },
        LoadPath { path: "two".to_string(), is_dir: true },
    ];
    let tree = ["two/b.scss", "one/_b.scss"];
    assert_eq!(find(&tree, "a.scss", "b", &load_paths), Some("one/_b.scss".to_string()));
    let tree = ["two/b.scss", "one/_b.scss", "_b.scss"];
    assert_eq!(find(&tree, "a.scss", "b", &load_paths), Some("_b.scss".to_string()));
    let tree = ["two/index.scss"];
    assert_eq!(find(&tree, "a.scss", "b", &load_paths), Some("two/index.scss".to_string()));
    assert_eq!(find(&[], "a.scss", "b", &load_paths), None);
}

#[test]
fn a_load_path_that_is_a_file_is_a_candidate() {
    let load_paths = vec![LoadPath { path: "vendor/main.scss".to_string(), is_dir: false }];
    let tree = ["vendor/main.scss", "vendor/b.scss"];
    assert_eq!(find(&tree, "a.scss", "b", &load_paths), Some("vendor/main.scss".to_string()));
    let tree = ["vendor/_b.scss"];
    assert_eq!(find(&tree, "a.scss", "b", &load_paths), Some("vendor/_b.scss".to_string()));
}

#[test]
fn files_that_are_no_candidates_are_not_found() {
    let files = vec!["c.scss".to_string(), "dir/b.scss".to_string()];
    assert_eq!(find_import("a.scss", "b", &Vec::new(), &files), None);
}

#[test]
fn paths_and_their_parts() {
    assert_eq!(file_name_of("a/b/c.scss"), "c.scss");
    assert_eq!(file_name_of("c"), "c");
    assert_eq!(file_name_of("a/"), "");
    assert_eq!(file_name_of(""), "");
    assert_eq!(sibling_of("a/b/c.scss", "d"), "a/b/d");
    assert_eq!(sibling_of("c.scss", "d"), "d");
    assert_eq!(sibling_of("/c.scss", "d/e"), "/d/e");
    assert_eq!(sibling_of("a/b", "/d"), "/d");
    assert_eq!(child_of("a", "b"), "a/b");
    assert_eq!(child_of("a/", "b"), "a/b");
    assert_eq!(child_of("", "b"), "b");
}

#[test]
fn prefixes_and_suffixes() {
    assert!(has_prefix("http://x", "http://"));
    assert!(!has_prefix("http:/", "http://"));
    assert!(!has_prefix("xhttp://", "http://"));
    assert!(has_prefix("abc", ""));
    assert!(has_prefix("", ""));
    assert!(has_suffix("a.css", ".css"));
    assert!(has_suffix(".css", ".css"));
    assert!(!has_suffix("css", ".css"));
    assert!(!has_suffix("a.css ", ".css"));
    assert!(has_suffix("gr\u{fc}n.css", ".css"));
    assert!(has_prefix("\u{fc}ber", "\u{fc}b"));
}

#[test]
fn a_file_is_on_the_import_stack_once() {
    let stack = ImportStack::new();
    assert_eq!(stack.depth(), 0);
    assert!(!stack.holds("a.scss"));
    let (stack, entered) = stack.enter("a.scss".to_string());
    assert!(entered);
    let (stack, entered) = stack.enter("b.scss".to_string());
    assert!(entered);
    assert_eq!(stack.depth(), 2);
    assert!(stack.holds("a.scss"));
    assert!(stack.holds("b.scss"));
    let (stack, entered) = stack.enter("a.scss".to_string());
    assert!(!entered);
    assert_eq!(stack.depth(), 2);
    let stack = stack.leave();
    assert!(!stack.holds("b.scss"));
    assert!(stack.holds("a.scss"));
    let (stack, entered) = stack.enter("b.scss".to_string());
    assert!(entered);
    let stack = stack.leave().leave();
    assert_eq!(stack.depth(), 0);
    assert_eq!(stack.leave().depth(), 0);
}
