//! Parameter lists: what a function or mixin declares between its parentheses.

use crate::error::ErrorKind;
use crate::error::SassError;
use crate::parser::after_space;
use crate::parser::lemma_name_end_bounds;
use crate::parser::lemma_skip_space_bounds;
use crate::parser::name_end;
use crate::parser::text_of;
use crate::parser::Parser;
use crate::scan::lemma_matching_close;
use crate::scan::matching_close;
use crate::span::kinds;
use crate::span::Span;
use crate::span::Token;
use vstd::prelude::*;

verus! {

/// One declared parameter. The default is kept as the tokens it was written with, to be
/// evaluated when a call leaves the parameter out.
#[derive(Clone, Debug)]
pub struct FuncArg {
    pub name: String,
    pub default: Option<Vec<Token>>,
    pub is_variadic: bool,
}

pub struct FuncArgView {
    pub name: Seq<char>,
    pub default: Option<Seq<Token>>,
    pub is_variadic: bool,
}

impl View for FuncArg {
    type V = FuncArgView;

    open spec fn view(&self) -> FuncArgView {
        FuncArgView {
            name: self.name@,
            default: match self.default {
                Some(d) => Some(d@),
                None => None,
            },
            is_variadic: self.is_variadic,
        }
    }
}

/// A parameter list in declaration order.
#[derive(Clone, Debug)]
pub struct FuncArgs(pub Vec<FuncArg>);

impl View for FuncArgs {
    type V = Seq<FuncArgView>;

    open spec fn view(&self) -> Seq<FuncArgView> {
        params_view(self.0@)
    }
}

pub open spec fn params_view(ps: Seq<FuncArg>) -> Seq<FuncArgView> {
    ps.map_values(|p: FuncArg| p@)
}

pub proof fn lemma_params_view_push(ps: Seq<FuncArg>, p: FuncArg)
    ensures
        params_view(ps.push(p)) == params_view(ps).push(p@),
{
    assert(params_view(ps.push(p)) =~= params_view(ps).push(p@));
}

/// A parameter list is well formed when only its last parameter may be variadic, and a
/// variadic parameter has no default.
pub open spec fn params_wf(ps: Seq<FuncArgView>) -> bool {
    &&& forall|i: int| 0 <= i < ps.len() - 1 ==> !(#[trigger] ps[i]).is_variadic
    &&& forall|i: int| 0 <= i < ps.len() && (#[trigger] ps[i]).is_variadic ==> ps[i].default is None
}

/// The outcome of a parse: a result with the tokens left behind it, or a failure of a kind
/// at a place, with the detail that goes with it.
pub enum Parsed<T> {
    Done(T, Seq<Token>),
    Failed(ErrorKind, Span, Seq<char>),
}

/// Where the scan of a default expression ends.
pub enum DefaultScan {
    /// The expression, and the tokens from behind the comma or from the closing parenthesis on.
    Stopped(Seq<Token>, Seq<Token>),
    /// The tokens ran out.
    Exhausted,
    /// A parenthesis opened at this place is never closed.
    Unterminated(Span),
}

/// Scans a default expression: every token up to the next comma or closing parenthesis that
/// stands outside parentheses belongs to it. A comma is consumed, a closing parenthesis is
/// left for the list. `acc` holds what has been collected so far.
pub open spec fn default_scan(s: Seq<Token>, acc: Seq<Token>) -> DefaultScan
    decreases s.len(),
{
    if s.len() == 0 {
        DefaultScan::Exhausted
    } else if s[0].kind == ',' {
        DefaultScan::Stopped(acc, s.skip(1))
    } else if s[0].kind == ')' {
        DefaultScan::Stopped(acc, s)
    } else if s[0].kind == '(' {
        match matching_close(s.skip(1), 0, 0, '(', ')') {
            Some(e) => {
                proof {
                    lemma_matching_close(s.skip(1), 0, 0, '(', ')');
                }
                default_scan(s.skip(e + 2), acc.push(s[0]) + s.skip(1).take(e + 1))
            },
            None => DefaultScan::Unterminated(s[0].pos),
        }
    } else {
        default_scan(s.skip(1), acc.push(s[0]))
    }
}

/// Skipping white space never lengthens a run of tokens.
pub proof fn lemma_space_shorter(s: Seq<Token>)
    ensures
        after_space(s).len() <= s.len(),
        after_space(s).len() > 0 ==> !crate::parser::is_space(after_space(s)[0].kind),
{
    lemma_skip_space_bounds(s, 0);
}

/// What a default scan leaves is no longer than what it started from.
pub proof fn lemma_default_scan_shorter(s: Seq<Token>, acc: Seq<Token>)
    ensures
        default_scan(s, acc) matches DefaultScan::Stopped(_, rest) ==> rest.len() <= s.len(),
    decreases s.len(),
{
    if s.len() == 0 {
    } else if s[0].kind == ',' {
    } else if s[0].kind == ')' {
    } else if s[0].kind == '(' {
        lemma_matching_close(s.skip(1), 0, 0, '(', ')');
        match matching_close(s.skip(1), 0, 0, '(', ')') {
            Some(e) => {
                lemma_default_scan_shorter(s.skip(e + 2), acc.push(s[0]) + s.skip(1).take(e + 1));
            },
            None => {},
        }
    } else {
        lemma_default_scan_shorter(s.skip(1), acc.push(s[0]));
    }
}

/// A default expression is handed back as it was written: it is what had been collected,
/// followed by the tokens before the comma or closing parenthesis that ended it.
pub proof fn lemma_default_is_verbatim(s: Seq<Token>, acc: Seq<Token>)
    ensures
        default_scan(s, acc) matches DefaultScan::Stopped(expr, rest) ==> ({
            let k = expr.len() - acc.len();
            &&& 0 <= k < s.len()
            &&& expr == acc + s.take(k)
            &&& s[k].kind == ',' || s[k].kind == ')'
            &&& rest == if s[k].kind == ',' {
                s.skip(k + 1)
            } else {
                s.skip(k)
            }
        }),
    decreases s.len(),
{
    if s.len() == 0 {
    } else if s[0].kind == ',' || s[0].kind == ')' {
        assert(acc + s.take(0) =~= acc);
        assert(s.skip(0) =~= s);
    } else {
        let m = if s[0].kind == '(' {
            lemma_matching_close(s.skip(1), 0, 0, '(', ')');
            match matching_close(s.skip(1), 0, 0, '(', ')') {
                Some(e) => e + 2,
                None => 0,
            }
        } else {
            1
        };
        if m > 0 {
            let next_acc = if s[0].kind == '(' {
                acc.push(s[0]) + s.skip(1).take(m - 1)
            } else {
                acc.push(s[0])
            };
            assert(next_acc =~= acc + s.take(m));
            lemma_default_is_verbatim(s.skip(m), next_acc);
            match default_scan(s, acc) {
                DefaultScan::Stopped(expr, rest) => {
                    let k = expr.len() - next_acc.len();
                    assert(acc + s.take(m) + s.skip(m).take(k) =~= acc + s.take(m + k));
                    assert(s.skip(m).skip(k) =~= s.skip(m + k));
                    assert(s.skip(m).skip(k + 1) =~= s.skip(m + k + 1));
                },
                _ => {},
            }
        }
    }
}

/// What must follow the first dot of a variadic marker: two more dots, then, after white
/// space, the closing parenthesis. `s` starts behind the first dot, which stood at `dot`.
pub open spec fn variadic_tail(s: Seq<Token>, dot: Span) -> Parsed<()> {
    if s.len() == 0 {
        Parsed::Failed(ErrorKind::SyntaxError, dot, "."@)
    } else if s[0].kind != '.' {
        Parsed::Failed(ErrorKind::SyntaxError, s[0].pos, "."@)
    } else if s.len() < 2 {
        Parsed::Failed(ErrorKind::SyntaxError, s[0].pos, "."@)
    } else if s[1].kind != '.' {
        Parsed::Failed(ErrorKind::SyntaxError, s[1].pos, "."@)
    } else {
        let rest = after_space(s.skip(2));
        if rest.len() == 0 {
            Parsed::Failed(ErrorKind::SyntaxError, s[1].pos, ")"@)
        } else if rest[0].kind != ')' {
            Parsed::Failed(ErrorKind::SyntaxError, rest[0].pos, ")"@)
        } else {
            Parsed::Done((), rest.skip(1))
        }
    }
}

/// Reads parameters from `s`, which starts where a parameter or the closing parenthesis is
/// expected, and adds them to `acc`. `first` is the place of the first token of the list,
/// where a list that never ends is reported.
///
/// A parameter is `$` and a name, followed by one of: `:` and a default expression; `...`,
/// which makes it variadic and must end the list; `,`; or the closing parenthesis. Any
/// other token behind the name is a syntax error at that token.
pub open spec fn params_from(s: Seq<Token>, acc: Seq<FuncArgView>, first: Span) -> Parsed<
    Seq<FuncArgView>,
>
    decreases s.len(),
{
    if s.len() == 0 {
        Parsed::Failed(ErrorKind::SyntaxError, first, ")"@)
    } else if s[0].kind == ')' {
        Parsed::Done(acc, s.skip(1))
    } else if s[0].kind != '$' {
        Parsed::Failed(ErrorKind::SyntaxError, s[0].pos, ")"@)
    } else {
        let s1 = s.skip(1);
        let n = name_end(s1, 0);
        let name = kinds(s1.take(n));
        let s2 = after_space(s1.skip(n));
        proof {
            lemma_name_end_bounds(s1, 0);
            lemma_space_shorter(s1.skip(n));
        }
        if n == 0 {
            Parsed::Failed(
                ErrorKind::SyntaxError,
                if s1.len() > 0 {
                    s1[0].pos
                } else {
                    s[0].pos
                },
                "identifier"@,
            )
        } else if s2.len() == 0 {
            Parsed::Failed(ErrorKind::SyntaxError, s[0].pos, ")"@)
        } else {
            let s3 = s2.skip(1);
            let plain = FuncArgView { name, default: None, is_variadic: false };
            if s2[0].kind == ':' {
                match default_scan(after_space(s3), seq![]) {
                    DefaultScan::Stopped(expr, rest) => {
                        proof {
                            lemma_space_shorter(s3);
                            lemma_default_scan_shorter(after_space(s3), seq![]);
                            lemma_space_shorter(rest);
                        }
                        params_from(
                            after_space(rest),
                            acc.push(FuncArgView { name, default: Some(expr), is_variadic: false }),
                            first,
                        )
                    },
                    DefaultScan::Exhausted => Parsed::Failed(ErrorKind::SyntaxError, first, ")"@),
                    DefaultScan::Unterminated(at) => Parsed::Failed(
                        ErrorKind::UnterminatedDelimiter,
                        at,
                        ")"@,
                    ),
                }
            } else if s2[0].kind == '.' {
                match variadic_tail(s3, s2[0].pos) {
                    Parsed::Done(_, rest) => Parsed::Done(
                        acc.push(FuncArgView { name, default: None, is_variadic: true }),
                        rest,
                    ),
                    Parsed::Failed(k, at, d) => Parsed::Failed(k, at, d),
                }
            } else if s2[0].kind == ')' {
                Parsed::Done(acc.push(plain), s3)
            } else if s2[0].kind == ',' {
                proof {
                    lemma_space_shorter(s3);
                }
                params_from(after_space(s3), acc.push(plain), first)
            } else {
                Parsed::Failed(ErrorKind::SyntaxError, s2[0].pos, ")"@)
            }
        }
    }
}

/// The parameter list that starts at the front of `s`, just inside its opening parenthesis.
/// With no token left the failure is reported at `before`.
pub open spec fn parsed_params(s: Seq<Token>, before: Span) -> Parsed<Seq<FuncArgView>> {
    if s.len() == 0 {
        Parsed::Failed(ErrorKind::SyntaxError, before, ")"@)
    } else {
        params_from(after_space(s), seq![], s[0].pos)
    }
}

/// Whether `r` is the outcome `want`, with the stream standing at `after`. A failure says
/// nothing of the stream.
pub open spec fn params_outcome(
    want: Parsed<Seq<FuncArgView>>,
    r: Result<FuncArgs, SassError>,
    after: Seq<Token>,
) -> bool {
    match want {
        Parsed::Done(ps, rest) => r matches Ok(found) && found@ == ps && after == rest,
        Parsed::Failed(kind, at, detail) => r matches Err(e) && e.is(kind, at, detail),
    }
}

impl Parser {
    /// Reads a default expression up to the comma or closing parenthesis that ends it.
    /// `Ok(None)` says that the tokens ran out.
    fn read_default(&mut self) -> (r: Result<Option<Vec<Token>>, SassError>)
        ensures
            final(self).span_before() == old(self).span_before(),
            match default_scan(old(self).remaining(), seq![]) {
                DefaultScan::Stopped(expr, rest) => r matches Ok(Some(v)) && v@ == expr
                    && final(self).remaining() == rest,
                DefaultScan::Exhausted => r matches Ok(None),
                DefaultScan::Unterminated(at) => r matches Err(e) && e.is(
                    ErrorKind::UnterminatedDelimiter,
                    at,
                    ")"@,
                ),
            },
    {
        let mut expr: Vec<Token> = Vec::new();
        loop
            invariant
                self.span_before() == old(self).span_before(),
                default_scan(self.remaining(), expr@) == default_scan(
                    old(self).remaining(),
                    seq![],
                ),
            decreases self.remaining().len(),
        {
            let ghost s = self.remaining();
            match self.peek() {
                None => {
                    return Ok(None);
                },
                Some(tok) => {
                    if tok.kind == ',' {
                        self.next();
                        return Ok(Some(expr));
                    } else if tok.kind == ')' {
                        return Ok(Some(expr));
                    } else if tok.kind == '(' {
                        self.next();
                        expr.push(tok);
                        proof {
                            lemma_matching_close(s.skip(1), 0, 0, '(', ')');
                        }
                        match self.read_until_closing_paren(tok.pos) {
                            Err(e) => {
                                return Err(e);
                            },
                            Ok(run) => {
                                let mut run = run;
                                let ghost e = matching_close(s.skip(1), 0, 0, '(', ')').unwrap();
                                proof {
                                    assert(s.skip(1).skip(e + 1) == s.skip(e + 2));
                                    assert(s.skip(1).subrange(0, e + 1) == s.skip(1).take(e + 1));
                                }
                                expr.append(&mut run);
                            },
                        }
                    } else {
                        self.next();
                        expr.push(tok);
                    }
                },
            }
        }
    }

    /// Reads what follows the first dot of a variadic marker, which stood at `dot`.
    fn read_variadic_tail(&mut self, dot: Span) -> (r: Result<(), SassError>)
        ensures
            final(self).span_before() == old(self).span_before(),
            match variadic_tail(old(self).remaining(), dot) {
                Parsed::Done(_, rest) => r is Ok && final(self).remaining() == rest,
                Parsed::Failed(kind, at, detail) => r matches Err(e) && e.is(kind, at, detail),
            },
    {
        let ghost s = self.remaining();
        let second = match self.next() {
            None => {
                return Err(SassError::new(ErrorKind::SyntaxError, dot, "."));
            },
            Some(t) => t,
        };
        if second.kind != '.' {
            return Err(SassError::new(ErrorKind::SyntaxError, second.pos, "."));
        }
        let third = match self.next() {
            None => {
                return Err(SassError::new(ErrorKind::SyntaxError, second.pos, "."));
            },
            Some(t) => t,
        };
        if third.kind != '.' {
            return Err(SassError::new(ErrorKind::SyntaxError, third.pos, "."));
        }
        proof {
            assert(s.skip(1).skip(1) == s.skip(2));
        }
        self.whitespace();
        match self.next() {
            None => Err(SassError::new(ErrorKind::SyntaxError, third.pos, ")")),
            Some(t) => {
                if t.kind != ')' {
                    Err(SassError::new(ErrorKind::SyntaxError, t.pos, ")"))
                } else {
                    Ok(())
                }
            },
        }
    }

    /// Reads a parameter list from just inside its opening parenthesis up to and including
    /// the parenthesis that closes it. What follows the list is left in the stream.
    pub fn parse_func_args(&mut self) -> (r: Result<FuncArgs, SassError>)
        ensures
            final(self).span_before() == old(self).span_before(),
            params_outcome(
                parsed_params(old(self).remaining(), old(self).span_before()),
                r,
                final(self).remaining(),
            ),
            r matches Ok(found) ==> params_wf(found@),
    {
        let first = match self.peek() {
            Some(t) => t.pos,
            None => {
                return Err(SassError::new(ErrorKind::SyntaxError, self.end_of_input(), ")"));
            },
        };
        self.whitespace();
        let mut args: Vec<FuncArg> = Vec::new();
        let ghost want = parsed_params(old(self).remaining(), old(self).span_before());
        proof {
            lemma_params_wf(self.remaining(), seq![], first);
            assert(params_view(args@) =~= seq![]);
        }
        loop
            invariant
                self.span_before() == old(self).span_before(),
                want == parsed_params(old(self).remaining(), old(self).span_before()),
                params_from(self.remaining(), params_view(args@), first) == want,
                want matches Parsed::Done(ps, _) ==> params_wf(ps),
            decreases self.remaining().len(),
        {
            let ghost s = self.remaining();
            let tok = match self.next() {
                None => {
                    return Err(SassError::new(ErrorKind::SyntaxError, first, ")"));
                },
                Some(t) => t,
            };
            if tok.kind == ')' {
                return Ok(FuncArgs(args));
            }
            if tok.kind != '$' {
                return Err(SassError::new(ErrorKind::SyntaxError, tok.pos, ")"));
            }
            let name_toks = self.read_name();
            proof {
                lemma_name_end_bounds(s.skip(1), 0);
                lemma_space_shorter(s.skip(1).skip(name_end(s.skip(1), 0)));
            }
            if name_toks.len() == 0 {
                let at = match self.peek() {
                    Some(t) => t.pos,
                    None => tok.pos,
                };
                return Err(SassError::new(ErrorKind::SyntaxError, at, "identifier"));
            }
            let name = text_of(&name_toks);
            self.whitespace();
            let sep = match self.next() {
                None => {
                    return Err(SassError::new(ErrorKind::SyntaxError, tok.pos, ")"));
                },
                Some(t) => t,
            };
            if sep.kind == ':' {
                proof {
                    lemma_space_shorter(self.remaining());
                }
                self.whitespace();
                let ghost s4 = self.remaining();
                match self.read_default() {
                    Err(e) => {
                        return Err(e);
                    },
                    Ok(None) => {
                        return Err(SassError::new(ErrorKind::SyntaxError, first, ")"));
                    },
                    Ok(Some(expr)) => {
                        let p = FuncArg { name, default: Some(expr), is_variadic: false };
                        proof {
                            lemma_params_view_push(args@, p);
                            lemma_default_scan_shorter(s4, seq![]);
                            lemma_space_shorter(self.remaining());
                        }
                        args.push(p);
                    },
                }
            } else if sep.kind == '.' {
                match self.read_variadic_tail(sep.pos) {
                    Err(e) => {
                        return Err(e);
                    },
                    Ok(()) => {
                        let p = FuncArg { name, default: None, is_variadic: true };
                        proof {
                            lemma_params_view_push(args@, p);
                        }
                        args.push(p);
                        return Ok(FuncArgs(args));
                    },
                }
            } else if sep.kind == ')' {
                let p = FuncArg { name, default: None, is_variadic: false };
                proof {
                    lemma_params_view_push(args@, p);
                }
                args.push(p);
                return Ok(FuncArgs(args));
            } else if sep.kind == ',' {
                let p = FuncArg { name, default: None, is_variadic: false };
                proof {
                    lemma_params_view_push(args@, p);
                    lemma_space_shorter(self.remaining());
                }
                args.push(p);
            } else {
                return Err(SassError::new(ErrorKind::SyntaxError, sep.pos, ")"));
            }
            self.whitespace();
        }
    }
}

/// Every list that `params_from` completes is well formed, if what it started from was and
/// held no variadic parameter.
pub proof fn lemma_params_wf(s: Seq<Token>, acc: Seq<FuncArgView>, first: Span)
    requires
        forall|i: int| 0 <= i < acc.len() ==> !(#[trigger] acc[i]).is_variadic,
    ensures
        params_from(s, acc, first) matches Parsed::Done(ps, _) ==> params_wf(ps),
    decreases s.len(),
{
    if s.len() > 0 && s[0].kind == '$' {
        let s1 = s.skip(1);
        let n = name_end(s1, 0);
        let name = kinds(s1.take(n));
        let s2 = after_space(s1.skip(n));
        lemma_name_end_bounds(s1, 0);
        lemma_space_shorter(s1.skip(n));
        if n != 0 && s2.len() != 0 {
            let s3 = s2.skip(1);
            let plain = FuncArgView { name, default: None, is_variadic: false };
            if s2[0].kind == ':' {
                match default_scan(after_space(s3), seq![]) {
                    DefaultScan::Stopped(expr, rest) => {
                        lemma_space_shorter(s3);
                        lemma_default_scan_shorter(after_space(s3), seq![]);
                        lemma_space_shorter(rest);
                        lemma_params_wf(
                            after_space(rest),
                            acc.push(FuncArgView { name, default: Some(expr), is_variadic: false }),
                            first,
                        );
                    },
                    _ => {},
                }
            } else if s2[0].kind == '.' {
            } else if s2[0].kind == ')' {
            } else if s2[0].kind == ',' {
                lemma_space_shorter(s3);
                lemma_params_wf(after_space(s3), acc.push(plain), first);
            }
        }
    }
}

} // verus!
