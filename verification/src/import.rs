//! Imports: which specifiers are passed through to the output, and in which order the
//! candidate files of the others are tried.
//!
//! Paths are texts with `/` between their parts. Whether a file exists is not looked up
//! here: the caller says which of the candidates are regular files.

use crate::error::ErrorKind;
use crate::error::SassError;
use crate::parser::Parser;
use crate::span::Span;
use crate::text::same_text;
use crate::value::ListSeparator;
use crate::value::QuoteKind;
use crate::value::Value;
use vstd::prelude::*;

verus! {

pub open spec fn starts_with(s: Seq<char>, prefix: Seq<char>) -> bool {
    prefix.len() <= s.len() && s.take(prefix.len() as int) == prefix
}

pub open spec fn ends_with(s: Seq<char>, suffix: Seq<char>) -> bool {
    suffix.len() <= s.len() && s.skip(s.len() - suffix.len()) == suffix
}

/// The length of `p` up to and including its last `/`; zero where it has none.
pub open spec fn dir_len(p: Seq<char>) -> int
    decreases p.len(),
{
    if p.len() == 0 {
        0
    } else if p.last() == '/' {
        p.len() as int
    } else {
        dir_len(p.drop_last())
    }
}

/// The last part of a path: what follows its last `/`.
pub open spec fn file_name(p: Seq<char>) -> Seq<char> {
    p.skip(dir_len(p))
}

/// The path `name` beside `p`: in the directory that `p` lies in. A `name` that starts with
/// `/` is a path of its own.
pub open spec fn sibling(p: Seq<char>, name: Seq<char>) -> Seq<char> {
    if name.len() > 0 && name[0] == '/' {
        name
    } else {
        p.take(dir_len(p)) + name
    }
}

/// The path `name` inside the directory `dir`.
pub open spec fn child(dir: Seq<char>, name: Seq<char>) -> Seq<char> {
    if dir.len() == 0 || dir.last() == '/' {
        dir + name
    } else {
        dir.push('/') + name
    }
}

/// The files that a path may stand for, in the order in which they are tried: the path
/// itself; the path with `.scss` behind it; the partial, which has `_` before its last part
/// and `.scss` behind it; and `index.scss` and `_index.scss` inside the path.
pub open spec fn expansions(base: Seq<char>) -> Seq<Seq<char>> {
    seq![
        base,
        base + ".scss"@,
        sibling(base, seq!['_'] + file_name(base)) + ".scss"@,
        child(base, "index.scss"@),
        child(base, "_index.scss"@),
    ]
}

/// The files that a load path may hold for an import whose last part is `name`. A load
/// path that is a directory is searched for the stylesheet, its partial and the two index
/// files; any other load path is a candidate itself, and the stylesheet and its partial are
/// looked for beside it.
pub open spec fn load_path_candidates(path: Seq<char>, is_dir: bool, name: Seq<char>) -> Seq<
    Seq<char>,
> {
    if is_dir {
        seq![
            child(path, name + ".scss"@),
            child(path, seq!['_'] + name + ".scss"@),
            child(path, "index.scss"@),
            child(path, "_index.scss"@),
        ]
    } else {
        seq![
            path,
            sibling(path, name) + ".scss"@,
            sibling(path, seq!['_'] + name) + ".scss"@,
            child(path, "index.scss"@),
            child(path, "_index.scss"@),
        ]
    }
}

/// A directory, or a file, that imports are searched in after the directory of the
/// importing file.
#[derive(Clone, Debug)]
pub struct LoadPath {
    pub path: String,
    pub is_dir: bool,
}

pub struct LoadPathView {
    pub path: Seq<char>,
    pub is_dir: bool,
}

impl View for LoadPath {
    type V = LoadPathView;

    open spec fn view(&self) -> LoadPathView {
        LoadPathView { path: self.path@, is_dir: self.is_dir }
    }
}

pub open spec fn load_paths_view(lps: Seq<LoadPath>) -> Seq<LoadPathView> {
    lps.map_values(|l: LoadPath| l@)
}

pub open spec fn texts(v: Seq<String>) -> Seq<Seq<char>> {
    v.map_values(|s: String| s@)
}

/// The candidates of the first `count` load paths, in order.
pub open spec fn load_candidates(lps: Seq<LoadPathView>, name: Seq<char>, count: int) -> Seq<
    Seq<char>,
>
    decreases count,
{
    if count <= 0 {
        Seq::empty()
    } else {
        load_candidates(lps, name, count - 1) + load_path_candidates(
            lps[count - 1].path,
            lps[count - 1].is_dir,
            name,
        )
    }
}

/// Every file that an import may stand for, in the order in which they are tried: first
/// what the specifier stands for beside the importing file, then what each load path holds
/// for it, load path by load path.
pub open spec fn import_candidates(
    importer: Seq<char>,
    specifier: Seq<char>,
    lps: Seq<LoadPathView>,
) -> Seq<Seq<char>> {
    let base = sibling(importer, specifier);
    expansions(base) + load_candidates(lps, file_name(base), lps.len() as int)
}

/// Whether `found` is the first of `candidates` that is among `files`, or nothing where none
/// of them is.
pub open spec fn first_existing(
    candidates: Seq<Seq<char>>,
    files: Seq<Seq<char>>,
    found: Option<Seq<char>>,
) -> bool {
    match found {
        Some(p) => exists|i: int|
            0 <= i < candidates.len() && #[trigger] candidates[i] == p && files.contains(p)
                && forall|j: int| 0 <= j < i ==> !files.contains(#[trigger] candidates[j]),
        None => forall|j: int|
            0 <= j < candidates.len() ==> !files.contains(#[trigger] candidates[j]),
    }
}

pub fn has_prefix(s: &str, prefix: &str) -> (r: bool)
    ensures
        r == starts_with(s@, prefix@),
{
    let n = prefix.unicode_len();
    if n > s.unicode_len() {
        return false;
    }
    let mut i: usize = 0;
    while i < n
        invariant
            i <= n,
            n == prefix@.len(),
            n <= s@.len(),
            s@.take(i as int) == prefix@.take(i as int),
        decreases n - i,
    {
        if s.get_char(i) != prefix.get_char(i) {
            proof {
                assert(s@.take(n as int)[i as int] != prefix@[i as int]);
            }
            return false;
        }
        proof {
            assert(s@.take(i + 1) == s@.take(i as int).push(s@[i as int]));
            assert(prefix@.take(i + 1) == prefix@.take(i as int).push(prefix@[i as int]));
        }
        i = i + 1;
    }
    proof {
        assert(prefix@.take(n as int) == prefix@);
    }
    true
}

pub fn has_suffix(s: &str, suffix: &str) -> (r: bool)
    ensures
        r == ends_with(s@, suffix@),
{
    let n = suffix.unicode_len();
    let len = s.unicode_len();
    if n > len {
        return false;
    }
    let start = len - n;
    let mut i: usize = 0;
    while i < n
        invariant
            i <= n,
            n == suffix@.len(),
            len == s@.len(),
            start == len - n,
            s@.skip(start as int).take(i as int) == suffix@.take(i as int),
        decreases n - i,
    {
        if s.get_char(start + i) != suffix.get_char(i) {
            proof {
                assert(s@.skip(start as int)[i as int] != suffix@[i as int]);
            }
            return false;
        }
        proof {
            assert(s@.skip(start as int).take(i + 1) == s@.skip(start as int).take(
                i as int,
            ).push(s@[start + i]));
            assert(suffix@.take(i + 1) == suffix@.take(i as int).push(suffix@[i as int]));
        }
        i = i + 1;
    }
    proof {
        assert(suffix@.take(n as int) == suffix@);
        assert(s@.skip(start as int).take(n as int) == s@.skip(start as int));
    }
    true
}

fn dir_length(p: &str) -> (n: usize)
    ensures
        n == dir_len(p@),
        n <= p@.len(),
{
    let mut i: usize = p.unicode_len();
    proof {
        assert(p@.take(i as int) == p@);
    }
    while i > 0
        invariant
            i <= p@.len(),
            dir_len(p@) == dir_len(p@.take(i as int)),
        decreases i,
    {
        if p.get_char(i - 1) == '/' {
            return i;
        }
        proof {
            assert(p@.take(i as int).drop_last() == p@.take(i - 1));
        }
        i = i - 1;
    }
    0
}

/// The last part of a path.
pub fn file_name_of(p: &str) -> (s: String)
    ensures
        s@ == file_name(p@),
{
    let k = dir_length(p);
    let n = p.unicode_len();
    proof {
        assert(p@.subrange(k as int, n as int) == p@.skip(k as int));
    }
    String::from_str(p.substring_char(k, n))
}

/// The path `name` beside `p`.
pub fn sibling_of(p: &str, name: &str) -> (s: String)
    ensures
        s@ == sibling(p@, name@),
{
    if name.unicode_len() > 0 && name.get_char(0) == '/' {
        return String::from_str(name);
    }
    let k = dir_length(p);
    proof {
        assert(p@.subrange(0, k as int) == p@.take(k as int));
    }
    String::from_str(p.substring_char(0, k)).concat(name)
}

/// The path `name` inside the directory `dir`.
pub fn child_of(dir: &str, name: &str) -> (s: String)
    ensures
        s@ == child(dir@, name@),
{
    let n = dir.unicode_len();
    if n == 0 || dir.get_char(n - 1) == '/' {
        String::from_str(dir).concat(name)
    } else {
        let mut s = String::from_str(dir);
        crate::text::push_char(&mut s, '/');
        s.concat(name)
    }
}

fn push_text(out: &mut Vec<String>, s: String)
    ensures
        texts(final(out)@) == texts(old(out)@).push(s@),
{
    proof {
        assert(texts(out@.push(s)) =~= texts(out@).push(s@));
    }
    out.push(s);
}

fn push_expansions(out: &mut Vec<String>, base: &str)
    ensures
        texts(final(out)@) == texts(old(out)@) + expansions(base@),
{
    let ghost before = texts(out@);
    push_text(out, String::from_str(base));
    push_text(out, String::from_str(base).concat(".scss"));
    let mut partial = String::new();
    crate::text::push_char(&mut partial, '_');
    let partial = partial.concat(file_name_of(base).as_str());
    proof {
        assert(partial@ =~= seq!['_'] + file_name(base@));
    }
    push_text(out, sibling_of(base, partial.as_str()).concat(".scss"));
    push_text(out, child_of(base, "index.scss"));
    push_text(out, child_of(base, "_index.scss"));
    proof {
        assert(texts(out@) =~= before + expansions(base@));
    }
}

fn push_load_path(out: &mut Vec<String>, lp: &LoadPath, name: &str)
    ensures
        texts(final(out)@) == texts(old(out)@) + load_path_candidates(lp.path@, lp.is_dir, name@),
{
    let ghost before = texts(out@);
    let mut partial = String::new();
    crate::text::push_char(&mut partial, '_');
    let partial = partial.concat(name);
    proof {
        assert(partial@ =~= seq!['_'] + name@);
    }
    let path = lp.path.as_str();
    if lp.is_dir {
        push_text(out, child_of(path, String::from_str(name).concat(".scss").as_str()));
        push_text(out, child_of(path, partial.concat(".scss").as_str()));
    } else {
        push_text(out, String::from_str(path));
        push_text(out, sibling_of(path, name).concat(".scss"));
        push_text(out, sibling_of(path, partial.as_str()).concat(".scss"));
    }
    push_text(out, child_of(path, "index.scss"));
    push_text(out, child_of(path, "_index.scss"));
    proof {
        assert(texts(out@) =~= before + load_path_candidates(lp.path@, lp.is_dir, name@));
    }
}

/// Every file that importing `specifier` from the file `importer` may stand for, in the
/// order in which they are tried.
pub fn candidates(importer: &str, specifier: &str, load_paths: &Vec<LoadPath>) -> (out: Vec<String>)
    ensures
        texts(out@) == import_candidates(importer@, specifier@, load_paths_view(load_paths@)),
{
    let base = sibling_of(importer, specifier);
    let name = file_name_of(base.as_str());
    let mut out: Vec<String> = Vec::new();
    proof {
        assert(texts(out@) =~= Seq::empty());
    }
    push_expansions(&mut out, base.as_str());
    let ghost lps = load_paths_view(load_paths@);
    let mut i: usize = 0;
    while i < load_paths.len()
        invariant
            i <= load_paths.len(),
            lps == load_paths_view(load_paths@),
            base@ == sibling(importer@, specifier@),
            name@ == file_name(base@),
            texts(out@) == expansions(base@) + load_candidates(lps, name@, i as int),
        decreases load_paths.len() - i,
    {
        push_load_path(&mut out, &load_paths[i], name.as_str());
        proof {
            assert(lps[i as int] == load_paths@[i as int]@);
            assert(expansions(base@) + load_candidates(lps, name@, i as int)
                + load_path_candidates(lps[i as int].path, lps[i as int].is_dir, name@)
                =~= expansions(base@) + load_candidates(lps, name@, i + 1));
        }
        i = i + 1;
    }
    out
}

fn is_among(files: &Vec<String>, p: &str) -> (r: bool)
    ensures
        r == texts(files@).contains(p@),
{
    let mut i: usize = 0;
    while i < files.len()
        invariant
            i <= files.len(),
            forall|j: int| 0 <= j < i ==> texts(files@)[j] != p@,
        decreases files.len() - i,
    {
        if same_text(files[i].as_str(), p) {
            proof {
                assert(texts(files@)[i as int] == p@);
            }
            return true;
        }
        i = i + 1;
    }
    false
}

/// The file that importing `specifier` from the file `importer` finds: the first candidate
/// that is among `files`, the regular files that exist.
pub fn find_import(
    importer: &str,
    specifier: &str,
    load_paths: &Vec<LoadPath>,
    files: &Vec<String>,
) -> (r: Option<String>)
    ensures
        first_existing(
            import_candidates(importer@, specifier@, load_paths_view(load_paths@)),
            texts(files@),
            match r {
                Some(p) => Some(p@),
                None => None,
            },
        ),
{
    let mut all = candidates(importer, specifier, load_paths);
    let ghost want = texts(all@);
    let mut i: usize = 0;
    while i < all.len()
        invariant
            i <= all.len(),
            want == texts(all@),
            want == import_candidates(importer@, specifier@, load_paths_view(load_paths@)),
            forall|j: int| 0 <= j < i ==> !texts(files@).contains(#[trigger] want[j]),
        decreases all.len() - i,
    {
        if is_among(files, all[i].as_str()) {
            proof {
                assert(want[i as int] == all@[i as int]@);
            }
            let found = all.swap_remove(i);
            proof {
                assert(want[i as int] == found@);
            }
            return Some(found);
        }
        i = i + 1;
    }
    None
}

/// Resolves an import to a file, or fails where no candidate exists. The failure is
/// reported at `span` and names the specifier.
pub fn resolve_import(
    importer: &str,
    specifier: &str,
    load_paths: &Vec<LoadPath>,
    files: &Vec<String>,
    span: Span,
) -> (r: Result<String, SassError>)
    ensures
        first_existing(
            import_candidates(importer@, specifier@, load_paths_view(load_paths@)),
            texts(files@),
            match r {
                Ok(p) => Some(p@),
                Err(_) => None,
            },
        ),
        r matches Err(e) ==> e.is(ErrorKind::ImportNotFound, span, specifier@),
{
    match find_import(importer, specifier, load_paths, files) {
        Some(p) => Ok(p),
        None => Err(SassError::new(ErrorKind::ImportNotFound, span, specifier)),
    }
}

/// What is done about one imported specifier.
#[derive(Clone, Debug)]
pub enum ImportStep {
    /// It is passed through: an `@import` statement with this text goes to the output.
    Css(String),
    /// It names a stylesheet, which is to be found, parsed and put in the import's place.
    File(String),
}

pub enum ImportStepView {
    Css(Seq<char>),
    File(Seq<char>),
}

impl View for ImportStep {
    type V = ImportStepView;

    open spec fn view(&self) -> ImportStepView {
        match self {
            ImportStep::Css(s) => ImportStepView::Css(s@),
            ImportStep::File(s) => ImportStepView::File(s@),
        }
    }
}

pub open spec fn steps_view(steps: Seq<ImportStep>) -> Seq<ImportStepView> {
    steps.map_values(|s: ImportStep| s@)
}

/// Whether a quoted specifier is plain CSS: it ends in `.css` or is an absolute URL.
pub open spec fn is_plain_css(s: Seq<char>) -> bool {
    ends_with(s, ".css"@) || starts_with(s, "http://"@) || starts_with(s, "https://"@)
}

/// What is done about one value of an import: a quoted string that is plain CSS is passed
/// through in its quotes, an unquoted one that starts with `url(` as it is; any other string
/// names a stylesheet. A value that is no string is not importable.
pub open spec fn import_step(v: Value) -> Option<ImportStepView> {
    match v {
        Value::String(s, QuoteKind::Quoted) => Some(
            if is_plain_css(s@) {
                ImportStepView::Css(seq!['"'] + s@ + seq!['"'])
            } else {
                ImportStepView::File(s@)
            },
        ),
        Value::String(s, QuoteKind::Unquoted) => Some(
            if starts_with(s@, "url("@) {
                ImportStepView::Css(s@)
            } else {
                ImportStepView::File(s@)
            },
        ),
        _ => None,
    }
}

/// Whether the first `n` of `items` are importable.
pub open spec fn importable(items: Seq<Value>, n: int) -> bool {
    forall|i: int| 0 <= i < n && i < items.len() ==> import_step(#[trigger] items[i]) is Some
}

/// What is done about the value of an import: a string gives one step; a list with commas
/// gives one step for each of its elements, in their order. Any other value, and a list with
/// an element that is no string, is not importable.
pub open spec fn import_steps(v: Value) -> Option<Seq<ImportStepView>> {
    match v {
        Value::String(_, _) => Some(seq![import_step(v).unwrap()]),
        Value::List(items, ListSeparator::Comma, _) => if importable(
            items@,
            items@.len() as int,
        ) {
            Some(Seq::new(items@.len(), |i: int| import_step(items@[i]).unwrap()))
        } else {
            None
        },
        _ => None,
    }
}

fn step_of(v: &Value) -> (r: Option<ImportStep>)
    ensures
        match import_step(*v) {
            Some(step) => r matches Some(s) && s@ == step,
            None => r is None,
        },
{
    match v {
        Value::String(s, QuoteKind::Quoted) => {
            let text = s.as_str();
            if has_suffix(text, ".css") || has_prefix(text, "http://") || has_prefix(
                text,
                "https://",
            ) {
                let mut quoted = String::new();
                crate::text::push_char(&mut quoted, '"');
                let mut quoted = quoted.concat(text);
                crate::text::push_char(&mut quoted, '"');
                proof {
                    assert(quoted@ =~= seq!['"'] + s@ + seq!['"']);
                }
                Some(ImportStep::Css(quoted))
            } else {
                Some(ImportStep::File(s.clone()))
            }
        },
        Value::String(s, QuoteKind::Unquoted) => {
            if has_prefix(s.as_str(), "url(") {
                Some(ImportStep::Css(s.clone()))
            } else {
                Some(ImportStep::File(s.clone()))
            }
        },
        _ => None,
    }
}

/// Decides what is done about the value that stands behind `@import`. A value that is not
/// importable is a syntax error at `span`: a string was expected.
#[verifier::loop_isolation(false)]
pub fn import(value: &Value, span: Span) -> (r: Result<Vec<ImportStep>, SassError>)
    ensures
        match import_steps(*value) {
            Some(steps) => r matches Ok(found) && steps_view(found@) == steps,
            None => r matches Err(e) && e.is(ErrorKind::SyntaxError, span, "string"@),
        },
{
    match value {
        Value::String(_, _) => {
            let mut out: Vec<ImportStep> = Vec::new();
            match step_of(value) {
                Some(s) => {
                    out.push(s);
                    proof {
                        assert(steps_view(out@) =~= seq![import_step(*value).unwrap()]);
                    }
                    Ok(out)
                },
                None => Err(SassError::new(ErrorKind::SyntaxError, span, "string")),
            }
        },
        Value::List(items, ListSeparator::Comma, _) => {
            let mut out: Vec<ImportStep> = Vec::new();
            let mut i: usize = 0;
            while i < items.len()
                invariant
                    i <= items.len(),
                    importable(items@, i as int),
                    out@.len() == i,
                    forall|j: int|
                        0 <= j < i ==> (#[trigger] out@[j])@ == import_step(items@[j]).unwrap(),
                decreases items.len() - i,
            {
                match step_of(&items[i]) {
                    Some(s) => {
                        out.push(s);
                    },
                    None => {
                        proof {
                            assert(import_step(items@[i as int]) is None);
                        }
                        return Err(SassError::new(ErrorKind::SyntaxError, span, "string"));
                    },
                }
                i = i + 1;
            }
            proof {
                assert(steps_view(out@) =~= Seq::new(
                    items@.len(),
                    |i: int| import_step(items@[i]).unwrap(),
                ));
            }
            Ok(out)
        },
        _ => Err(SassError::new(ErrorKind::SyntaxError, span, "string")),
    }
}

impl Parser {
    /// Checks that what follows `@import` can be the start of a specifier: a quote, or the
    /// `u` of `url(`. White space before it is consumed, the token itself is not.
    pub fn import_start(&mut self) -> (r: Result<(), SassError>)
        ensures
            final(self).span_before() == old(self).span_before(),
            final(self).remaining() == crate::parser::after_space(old(self).remaining()),
            ({
                let s = final(self).remaining();
                if s.len() == 0 {
                    r matches Err(e) && e.is(
                        ErrorKind::SyntaxError,
                        old(self).span_before(),
                        "more input"@,
                    )
                } else if s[0].kind == '\'' || s[0].kind == '"' || s[0].kind == 'u' {
                    r is Ok
                } else {
                    r matches Err(e) && e.is(ErrorKind::SyntaxError, s[0].pos, "string"@)
                }
            }),
    {
        self.whitespace();
        match self.peek() {
            None => Err(SassError::new(ErrorKind::SyntaxError, self.end_of_input(), "more input")),
            Some(t) => {
                if t.kind == '\'' || t.kind == '"' || t.kind == 'u' {
                    Ok(())
                } else {
                    Err(SassError::new(ErrorKind::SyntaxError, t.pos, "string"))
                }
            },
        }
    }
}

/// A quoted specifier that ends in `.css` or starts with `http://` or `https://` is passed
/// through and never looked for as a file, whatever files exist.
pub proof fn lemma_plain_css_is_passed_through(s: String, q: QuoteKind)
    requires
        q == QuoteKind::Quoted,
        is_plain_css(s@),
    ensures
        import_step(Value::String(s, q)) == Some(
            ImportStepView::Css(seq!['"'] + s@ + seq!['"']),
        ),
        import_steps(Value::String(s, q)) == Some(
            seq![ImportStepView::Css(seq!['"'] + s@ + seq!['"'])],
        ),
{
}

/// The steps of a list of imports stand in the order of the list, one for each element.
pub proof fn lemma_import_keeps_order(items: Vec<Value>, brackets: crate::value::Brackets)
    requires
        import_steps(Value::List(items, ListSeparator::Comma, brackets)) is Some,
    ensures
        import_steps(Value::List(items, ListSeparator::Comma, brackets)).unwrap().len()
            == items@.len(),
        forall|i: int|
            0 <= i < items@.len() ==> Some(
                #[trigger] import_steps(
                    Value::List(items, ListSeparator::Comma, brackets),
                ).unwrap()[i],
            ) == import_step(items@[i]),
{
}

/// A stylesheet is found before its partial: where `name.scss` exists beside the importing
/// file and the path `name` itself is no file, `name.scss` is what the import finds, whether
/// `_name.scss` exists or not.
pub proof fn lemma_stylesheet_before_partial(
    importer: Seq<char>,
    specifier: Seq<char>,
    lps: Seq<LoadPathView>,
    files: Seq<Seq<char>>,
    found: Option<Seq<char>>,
)
    requires
        first_existing(import_candidates(importer, specifier, lps), files, found),
        files.contains(sibling(importer, specifier) + ".scss"@),
        !files.contains(sibling(importer, specifier)),
    ensures
        found == Some(sibling(importer, specifier) + ".scss"@),
{
    let base = sibling(importer, specifier);
    let cands = import_candidates(importer, specifier, lps);
    assert(cands[0] == base);
    assert(cands[1] == base + ".scss"@);
    match found {
        Some(p) => {
            let i = choose|i: int|
                0 <= i < cands.len() && #[trigger] cands[i] == p && files.contains(p)
                    && forall|j: int| 0 <= j < i ==> !files.contains(#[trigger] cands[j]);
            if i > 1 {
                assert(!files.contains(cands[1]));
            }
        },
        None => {
            assert(!files.contains(cands[1]));
        },
    }
}

/// The first existing candidate is unique: the search has one answer.
pub proof fn lemma_first_existing_unique(
    candidates: Seq<Seq<char>>,
    files: Seq<Seq<char>>,
    a: Option<Seq<char>>,
    b: Option<Seq<char>>,
)
    requires
        first_existing(candidates, files, a),
        first_existing(candidates, files, b),
    ensures
        a == b,
{
    match (a, b) {
        (Some(p), Some(q)) => {
            let i = choose|i: int|
                0 <= i < candidates.len() && #[trigger] candidates[i] == p && files.contains(p)
                    && forall|j: int| 0 <= j < i ==> !files.contains(#[trigger] candidates[j]);
            let k = choose|k: int|
                0 <= k < candidates.len() && #[trigger] candidates[k] == q && files.contains(q)
                    && forall|j: int| 0 <= j < k ==> !files.contains(#[trigger] candidates[j]);
            if i < k {
                assert(!files.contains(candidates[i]));
            }
            if k < i {
                assert(!files.contains(candidates[k]));
            }
        },
        (Some(p), None) => {
            let i = choose|i: int|
                0 <= i < candidates.len() && #[trigger] candidates[i] == p && files.contains(p)
                    && forall|j: int| 0 <= j < i ==> !files.contains(#[trigger] candidates[j]);
            assert(!files.contains(candidates[i]));
        },
        (None, Some(q)) => {
            let k = choose|k: int|
                0 <= k < candidates.len() && #[trigger] candidates[k] == q && files.contains(q)
                    && forall|j: int| 0 <= j < k ==> !files.contains(#[trigger] candidates[j]);
            assert(!files.contains(candidates[k]));
        },
        (None, None) => {},
    }
}

/// Whether no path occurs twice.
pub open spec fn all_distinct(paths: Seq<Seq<char>>) -> bool {
    forall|i: int, j: int| 0 <= i < j < paths.len() ==> paths[i] != paths[j]
}

/// The files that are being imported, outermost first: the file whose import is being
/// carried out, the file that imported it, and so on. No file is on the stack twice, so an
/// import that leads back to a file on the stack is seen before it is entered.
#[derive(Debug)]
pub struct ImportStack {
    paths: Vec<String>,
}

impl View for ImportStack {
    type V = Seq<Seq<char>>;

    closed spec fn view(&self) -> Seq<Seq<char>> {
        texts(self.paths@)
    }
}

impl ImportStack {
    #[verifier::type_invariant]
    pub closed spec fn distinct(&self) -> bool {
        all_distinct(self@)
    }

    pub fn new() -> (s: ImportStack)
        ensures
            s@ == Seq::<Seq<char>>::empty(),
    {
        let paths: Vec<String> = Vec::new();
        assert(texts(paths@) =~= Seq::empty());
        ImportStack { paths }
    }

    /// How many files are being imported.
    pub fn depth(&self) -> (n: usize)
        ensures
            n == self@.len(),
    {
        self.paths.len()
    }

    /// Whether `path` is being imported.
    pub fn holds(&self, path: &str) -> (r: bool)
        ensures
            r == self@.contains(path@),
    {
        is_among(&self.paths, path)
    }

    /// Enters `path` unless it is being imported already, and says whether it did.
    pub fn enter(self, path: String) -> (r: (ImportStack, bool))
        ensures
            r.1 == !self@.contains(path@),
            r.0@ == if r.1 {
                self@.push(path@)
            } else {
                self@
            },
            all_distinct(r.0@),
    {
        proof {
            use_type_invariant(&self);
        }
        if is_among(&self.paths, path.as_str()) {
            return (self, false);
        }
        let ImportStack { paths } = self;
        let mut paths = paths;
        let ghost before = texts(paths@);
        proof {
            assert(texts(paths@.push(path)) =~= before.push(path@));
            assert forall|i: int, j: int| 0 <= i < j < before.push(path@).len() implies before.push(
                path@,
            )[i] != before.push(path@)[j] by {
                if j == before.len() {
                    assert(before.contains(before[i]));
                }
            }
        }
        paths.push(path);
        (ImportStack { paths }, true)
    }

    /// Leaves the file entered last.
    pub fn leave(self) -> (r: ImportStack)
        ensures
            r@ == if self@.len() > 0 {
                self@.drop_last()
            } else {
                self@
            },
            all_distinct(r@),
    {
        proof {
            use_type_invariant(&self);
        }
        let ImportStack { paths } = self;
        let mut paths = paths;
        let ghost before = texts(paths@);
        paths.pop();
        proof {
            assert(texts(paths@) =~= if before.len() > 0 {
                before.drop_last()
            } else {
                before
            });
        }
        ImportStack { paths }
    }
}

} // verus!
