//! Reading the arguments of a call from the token stream.

use crate::call_args::raw_entry;
use crate::call_args::CallArgs;
use crate::call_args::CallArgsView;
use crate::error::ErrorKind;
use crate::error::SassError;
use crate::params::lemma_space_shorter;
use crate::parser::after_blank;
use crate::parser::after_space;
use crate::parser::lemma_name_end_bounds;
use crate::parser::name_end;
use crate::parser::lemma_skip_blank_bounds;
use crate::parser::skip_blank;
use crate::parser::text_of;
use crate::parser::Parser;
use crate::scan::closing_quote;
use crate::scan::lemma_closing_quote;
use crate::scan::lemma_matching_close;
use crate::scan::matching_close;
use crate::span::kinds;
use crate::span::Span;
use crate::span::Token;
use vstd::prelude::*;

verus! {

/// How an argument begins.
pub enum ArgHead {
    /// The closing parenthesis stood there: the call is complete. What follows it.
    Close(Seq<Token>),
    /// An argument begins: its name if it has one, the tokens that already belong to its
    /// expression, the place of the call so far, and the tokens that follow.
    Arg(Option<Seq<char>>, Seq<Token>, Span, Seq<Token>),
    Failed(ErrorKind, Span, Seq<char>),
}

/// How the expression of an argument ends.
pub enum ArgScan {
    /// At the closing parenthesis: the expression, the place of the parenthesis, the rest.
    Close(Seq<Token>, Span, Seq<Token>),
    /// At a comma: the expression, the place of the comma, the rest.
    Comma(Seq<Token>, Span, Seq<Token>),
    /// At three dots: the expression to splat, and the rest.
    Splat(Seq<Token>, Seq<Token>),
    /// The tokens ran out.
    Exhausted,
    Failed(ErrorKind, Span, Seq<char>),
}

/// Where reading the arguments of a call stops.
pub enum CallScan {
    /// At the closing parenthesis, with all arguments read.
    Complete(CallArgsView, Seq<Token>),
    /// At a splat: the arguments read so far, and the expression whose value is to be
    /// expanded into the call before reading goes on.
    Splat(CallArgsView, Seq<Token>, Seq<Token>),
    Failed(ErrorKind, Span, Seq<char>),
}

/// The beginning of an argument at the front of `s`. `$name:` names the argument. A `$name`
/// that no colon follows is the start of a positional argument's expression; white space
/// and comments behind it are kept as a single blank. White space and comments before the
/// expression are dropped. `span` is the place of the call so far; a `$` widens it.
pub open spec fn arg_head(s: Seq<Token>, span: Span) -> ArgHead {
    if s.len() > 0 && s[0].kind == '$' {
        let s1 = s.skip(1);
        let n = name_end(s1, 0);
        let s2 = s1.skip(n);
        let s3 = after_blank(s2);
        if n == 0 {
            ArgHead::Failed(
                ErrorKind::SyntaxError,
                if s1.len() > 0 {
                    s1[0].pos
                } else {
                    s[0].pos
                },
                "identifier"@,
            )
        } else if s3.len() > 0 && s3[0].kind == ':' {
            ArgHead::Arg(
                Some(kinds(s1.take(n))),
                seq![],
                span.spec_merge(s[0].pos),
                after_blank(s3.skip(1)),
            )
        } else {
            ArgHead::Arg(
                None,
                seq![s[0]] + s1.take(n) + (if skip_blank(s2, 0) > 0 {
                    seq![Token { kind: ' ', pos: s[0].pos }]
                } else {
                    seq![]
                }),
                span.spec_merge(s[0].pos),
                s3,
            )
        }
    } else if s.len() > 0 && s[0].kind == ')' {
        ArgHead::Close(s.skip(1))
    } else {
        ArgHead::Arg(None, seq![], span, after_blank(s))
    }
}

/// Scans the expression of an argument. Every token up to the next comma, closing
/// parenthesis or `...` that stands outside parentheses, square brackets and quotes belongs
/// to it; `acc` holds what has been collected so far. A named argument cannot be splatted.
pub open spec fn arg_scan(s: Seq<Token>, acc: Seq<Token>, named: bool) -> ArgScan
    decreases s.len(),
{
    if s.len() == 0 {
        ArgScan::Exhausted
    } else {
        let t = s[0];
        let r = s.skip(1);
        if t.kind == ')' {
            ArgScan::Close(acc, t.pos, r)
        } else if t.kind == ',' {
            ArgScan::Comma(acc, t.pos, r)
        } else if t.kind == '[' {
            match matching_close(r, 0, 0, '[', ']') {
                Some(e) => {
                    proof {
                        lemma_matching_close(r, 0, 0, '[', ']');
                    }
                    arg_scan(r.skip(e + 1), acc.push(t) + r.take(e + 1), named)
                },
                None => ArgScan::Failed(ErrorKind::UnterminatedDelimiter, t.pos, "]"@),
            }
        } else if t.kind == '(' {
            match matching_close(r, 0, 0, '(', ')') {
                Some(e) => {
                    proof {
                        lemma_matching_close(r, 0, 0, '(', ')');
                    }
                    arg_scan(r.skip(e + 1), acc.push(t) + r.take(e + 1), named)
                },
                None => ArgScan::Failed(ErrorKind::UnterminatedDelimiter, t.pos, ")"@),
            }
        } else if t.kind == '"' || t.kind == '\'' {
            match closing_quote(r, 0, t.kind) {
                Some(e) => {
                    proof {
                        lemma_closing_quote(r, 0, t.kind);
                    }
                    arg_scan(r.skip(e + 1), acc.push(t) + r.take(e + 1), named)
                },
                None => ArgScan::Failed(ErrorKind::UnterminatedDelimiter, t.pos, seq![t.kind]),
            }
        } else if t.kind == '.' && r.len() > 0 && r[0].kind == '.' {
            if named {
                ArgScan::Failed(ErrorKind::SyntaxError, r[0].pos, ")"@)
            } else if r.len() > 1 && r[1].kind == '.' {
                ArgScan::Splat(acc, r.skip(2))
            } else {
                ArgScan::Failed(ErrorKind::SyntaxError, r[0].pos, "."@)
            }
        } else {
            arg_scan(r, acc.push(t), named)
        }
    }
}

/// Skipping white space and comments never lengthens a run of tokens.
pub proof fn lemma_blank_shorter(s: Seq<Token>)
    ensures
        after_blank(s).len() <= s.len(),
{
    lemma_skip_blank_bounds(s, 0);
}

/// What follows the beginning of an argument is no longer than what it began in.
pub proof fn lemma_arg_head_shorter(s: Seq<Token>, span: Span)
    ensures
        arg_head(s, span) matches ArgHead::Arg(_, _, _, rest) ==> rest.len() <= s.len(),
{
    if s.len() > 0 && s[0].kind == '$' {
        let s1 = s.skip(1);
        let n = name_end(s1, 0);
        lemma_name_end_bounds(s1, 0);
        let s2 = s1.skip(n);
        lemma_blank_shorter(s2);
        let s3 = after_blank(s2);
        if s3.len() > 0 {
            lemma_blank_shorter(s3.skip(1));
        }
    } else {
        lemma_blank_shorter(s);
    }
}

/// What follows an argument is shorter than what the argument was read from.
pub proof fn lemma_arg_scan_shorter(s: Seq<Token>, acc: Seq<Token>, named: bool)
    ensures
        arg_scan(s, acc, named) matches ArgScan::Comma(_, _, rest) ==> rest.len() < s.len(),
        arg_scan(s, acc, named) matches ArgScan::Close(_, _, rest) ==> rest.len() < s.len(),
        arg_scan(s, acc, named) matches ArgScan::Splat(_, rest) ==> rest.len() < s.len(),
    decreases s.len(),
{
    if s.len() > 0 {
        let t = s[0];
        let r = s.skip(1);
        if t.kind == ')' || t.kind == ',' {
        } else if t.kind == '[' {
            lemma_matching_close(r, 0, 0, '[', ']');
            match matching_close(r, 0, 0, '[', ']') {
                Some(e) => lemma_arg_scan_shorter(r.skip(e + 1), acc.push(t) + r.take(e + 1), named),
                None => {},
            }
        } else if t.kind == '(' {
            lemma_matching_close(r, 0, 0, '(', ')');
            match matching_close(r, 0, 0, '(', ')') {
                Some(e) => lemma_arg_scan_shorter(r.skip(e + 1), acc.push(t) + r.take(e + 1), named),
                None => {},
            }
        } else if t.kind == '"' || t.kind == '\'' {
            lemma_closing_quote(r, 0, t.kind);
            match closing_quote(r, 0, t.kind) {
                Some(e) => lemma_arg_scan_shorter(r.skip(e + 1), acc.push(t) + r.take(e + 1), named),
                None => {},
            }
        } else if t.kind == '.' && r.len() > 0 && r[0].kind == '.' {
        } else {
            lemma_arg_scan_shorter(r, acc.push(t), named);
        }
    }
}

/// Whether `out` hands back an expression as it was written in `s`: the expression is `acc`
/// followed by the tokens of `s` before the comma, closing parenthesis or `...` that ended
/// it, and what is left of `s` stands behind that.
pub open spec fn verbatim(s: Seq<Token>, acc: Seq<Token>, named: bool, out: ArgScan) -> bool {
    match out {
        ArgScan::Close(expr, at, rest) => {
            let k = expr.len() - acc.len();
            0 <= k < s.len() && expr == acc + s.take(k) && s[k].kind == ')' && at == s[k].pos
                && rest == s.skip(k + 1)
        },
        ArgScan::Comma(expr, at, rest) => {
            let k = expr.len() - acc.len();
            0 <= k < s.len() && expr == acc + s.take(k) && s[k].kind == ',' && at == s[k].pos
                && rest == s.skip(k + 1)
        },
        ArgScan::Splat(expr, rest) => {
            let k = expr.len() - acc.len();
            0 <= k && k + 2 < s.len() && expr == acc + s.take(k) && s[k].kind == '.' && s[k
                + 1].kind == '.' && s[k + 2].kind == '.' && rest == s.skip(k + 3) && !named
        },
        _ => true,
    }
}

proof fn lemma_verbatim_behind(s: Seq<Token>, acc: Seq<Token>, named: bool, m: int, out: ArgScan)
    requires
        0 < m <= s.len(),
        verbatim(s.skip(m), acc + s.take(m), named, out),
    ensures
        verbatim(s, acc, named, out),
{
    let t = s.skip(m);
    let mid = acc + s.take(m);
    match out {
        ArgScan::Close(expr, at, rest) => {
            let k = expr.len() - mid.len();
            assert(mid + t.take(k) =~= acc + s.take(m + k));
            assert(t.skip(k + 1) =~= s.skip(m + k + 1));
        },
        ArgScan::Comma(expr, at, rest) => {
            let k = expr.len() - mid.len();
            assert(mid + t.take(k) =~= acc + s.take(m + k));
            assert(t.skip(k + 1) =~= s.skip(m + k + 1));
        },
        ArgScan::Splat(expr, rest) => {
            let k = expr.len() - mid.len();
            assert(mid + t.take(k) =~= acc + s.take(m + k));
            assert(t.skip(k + 3) =~= s.skip(m + k + 3));
        },
        _ => {},
    }
}

/// The expression of an argument is handed back as it was written.
pub proof fn lemma_argument_is_verbatim(s: Seq<Token>, acc: Seq<Token>, named: bool)
    ensures
        verbatim(s, acc, named, arg_scan(s, acc, named)),
    decreases s.len(),
{
    if s.len() > 0 {
        let t = s[0];
        let r = s.skip(1);
        if t.kind == ')' || t.kind == ',' {
            assert(acc + s.take(0) =~= acc);
        } else if t.kind == '.' && r.len() > 0 && r[0].kind == '.' {
            assert(acc + s.take(0) =~= acc);
            if r.len() > 1 {
                assert(r.skip(2) =~= s.skip(3));
            }
        } else {
            let close: Option<int> = if t.kind == '[' {
                lemma_matching_close(r, 0, 0, '[', ']');
                matching_close(r, 0, 0, '[', ']')
            } else if t.kind == '(' {
                lemma_matching_close(r, 0, 0, '(', ')');
                matching_close(r, 0, 0, '(', ')')
            } else if t.kind == '"' || t.kind == '\'' {
                lemma_closing_quote(r, 0, t.kind);
                closing_quote(r, 0, t.kind)
            } else {
                Some(-1int)
            };
            match close {
                Some(e) => {
                    let m = e + 2;
                    let next_acc = if e == -1 {
                        acc.push(t)
                    } else {
                        acc.push(t) + r.take(e + 1)
                    };
                    assert(next_acc =~= acc + s.take(m));
                    assert(r.skip(e + 1) =~= s.skip(m));
                    lemma_argument_is_verbatim(s.skip(m), next_acc, named);
                    assert(arg_scan(s, acc, named) == arg_scan(s.skip(m), next_acc, named));
                    lemma_verbatim_behind(s, acc, named, m, arg_scan(s, acc, named));
                },
                None => {},
            }
        }
    }
}

/// Reads arguments from `s`, which starts where an argument or the closing parenthesis is
/// expected, into `args`, up to the closing parenthesis or the first splat.
///
/// Each argument becomes an entry keyed by its name, or by the number of entries before it.
/// The place of the call grows by each `$` that begins an argument and by the closing
/// parenthesis that ends a last argument. A call whose tokens run out fails.
pub open spec fn call_args_from(s: Seq<Token>, args: CallArgsView) -> CallScan
    decreases s.len(),
{
    match arg_head(s, args.span) {
        ArgHead::Failed(kind, at, detail) => CallScan::Failed(kind, at, detail),
        ArgHead::Close(rest) => CallScan::Complete(args, rest),
        ArgHead::Arg(name, prefix, span, body) => match arg_scan(body, prefix, name is Some) {
            ArgScan::Failed(kind, at, detail) => CallScan::Failed(kind, at, detail),
            ArgScan::Exhausted => CallScan::Failed(ErrorKind::SyntaxError, span, ")"@),
            ArgScan::Splat(expr, rest) => CallScan::Splat(
                CallArgsView { entries: args.entries, span },
                expr,
                rest,
            ),
            ArgScan::Close(expr, at, rest) => CallScan::Complete(
                CallArgsView {
                    entries: args.entries.push(raw_entry(name, expr, args.entries.len(), at)),
                    span: span.spec_merge(at),
                },
                rest,
            ),
            ArgScan::Comma(expr, at, rest) => {
                let next = after_space(rest);
                if next.len() == 0 {
                    CallScan::Failed(ErrorKind::SyntaxError, span, ")"@)
                } else {
                    proof {
                        lemma_arg_head_shorter(s, args.span);
                        lemma_arg_scan_shorter(body, prefix, name is Some);
                        lemma_space_shorter(rest);
                    }
                    call_args_from(
                        next,
                        CallArgsView {
                            entries: args.entries.push(
                                raw_entry(name, expr, args.entries.len(), at),
                            ),
                            span,
                        },
                    )
                }
            },
        },
    }
}

/// The arguments of the call that starts at the front of `s`, just inside its opening
/// parenthesis. With no token left the failure is reported at `before`; else the place of
/// the call starts as that of the first token that is neither white space nor comment.
pub open spec fn parsed_call_args(s: Seq<Token>, before: Span) -> CallScan {
    let start = after_blank(s);
    if start.len() == 0 {
        CallScan::Failed(ErrorKind::SyntaxError, before, ")"@)
    } else {
        call_args_from(start, CallArgsView { entries: seq![], span: start[0].pos })
    }
}

/// The arguments that follow in `s` behind a splat that has been expanded into `args`.
pub open spec fn resumed_call_args(s: Seq<Token>, args: CallArgsView) -> CallScan {
    let start = after_space(s);
    if start.len() == 0 {
        CallScan::Failed(ErrorKind::SyntaxError, args.span, ")"@)
    } else {
        call_args_from(start, args)
    }
}

/// Where reading the arguments of a call stopped.
#[derive(Debug)]
pub enum CallArgsStep {
    /// At the closing parenthesis: these are the arguments of the call.
    Complete(CallArgs),
    /// At a splat. The tokens are the expression to evaluate; its value is to be expanded
    /// into the arguments, and reading resumed with them.
    Splat(CallArgs, Vec<Token>),
}

/// Whether `r` is the outcome `want`, with the stream standing at `after`. A failure says
/// nothing of the stream.
pub open spec fn call_outcome(want: CallScan, r: Result<CallArgsStep, SassError>, after: Seq<Token>)
    -> bool {
    match want {
        CallScan::Complete(args, rest) => r matches Ok(CallArgsStep::Complete(found)) && found@
            == args && after == rest,
        CallScan::Splat(args, expr, rest) => r matches Ok(CallArgsStep::Splat(found, e))
            && found@ == args && e@ == expr && after == rest,
        CallScan::Failed(kind, at, detail) => r matches Err(e) && e.is(kind, at, detail),
    }
}

enum HeadStep {
    Close,
    Arg(Option<String>, Vec<Token>, Span),
}

enum ScanStep {
    Close(Vec<Token>, Span),
    Comma(Vec<Token>, Span),
    Splat(Vec<Token>),
    Exhausted,
}

pub open spec fn name_view(name: Option<String>) -> Option<Seq<char>> {
    match name {
        Some(n) => Some(n@),
        None => None,
    }
}

impl Parser {
    fn read_arg_head(&mut self, span: Span) -> (r: Result<HeadStep, SassError>)
        ensures
            final(self).span_before() == old(self).span_before(),
            match arg_head(old(self).remaining(), span) {
                ArgHead::Close(rest) => r matches Ok(HeadStep::Close) && final(self).remaining()
                    == rest,
                ArgHead::Arg(name, prefix, merged, rest) => r matches Ok(HeadStep::Arg(n, p, m))
                    && name_view(n) == name && p@ == prefix && m == merged
                    && final(self).remaining() == rest,
                ArgHead::Failed(kind, at, detail) => r matches Err(e) && e.is(kind, at, detail),
            },
    {
        let ghost s = self.remaining();
        match self.peek() {
            Some(t) => {
                if t.kind == '$' {
                    self.next();
                    let mut name_toks = self.read_name();
                    proof {
                        lemma_name_end_bounds(s.skip(1), 0);
                    }
                    if name_toks.len() == 0 {
                        let at = match self.peek() {
                            Some(n) => n.pos,
                            None => t.pos,
                        };
                        return Err(SassError::new(ErrorKind::SyntaxError, at, "identifier"));
                    }
                    let spaced = self.whitespace_or_comment();
                    let merged = span.merge(t.pos);
                    let named = match self.peek() {
                        Some(c) => c.kind == ':',
                        None => false,
                    };
                    if named {
                        self.next();
                        self.whitespace_or_comment();
                        let name = text_of(&name_toks);
                        let prefix: Vec<Token> = Vec::new();
                        Ok(HeadStep::Arg(Some(name), prefix, merged))
                    } else {
                        let mut prefix: Vec<Token> = Vec::new();
                        prefix.push(t);
                        prefix.append(&mut name_toks);
                        if spaced {
                            prefix.push(Token::new(t.pos, ' '));
                        }
                        proof {
                            let s1 = s.skip(1);
                            let n = name_end(s1, 0);
                            let tail = if skip_blank(s1.skip(n), 0) > 0 {
                                seq![Token { kind: ' ', pos: s[0].pos }]
                            } else {
                                seq![]
                            };
                            assert(prefix@ =~= seq![s[0]] + s1.take(n) + tail);
                        }
                        Ok(HeadStep::Arg(None, prefix, merged))
                    }
                } else if t.kind == ')' {
                    self.next();
                    Ok(HeadStep::Close)
                } else {
                    self.whitespace_or_comment();
                    Ok(HeadStep::Arg(None, Vec::new(), span))
                }
            },
            None => {
                self.whitespace_or_comment();
                Ok(HeadStep::Arg(None, Vec::new(), span))
            },
        }
    }

    fn read_arg(&mut self, prefix: Vec<Token>, named: bool) -> (r: Result<ScanStep, SassError>)
        ensures
            final(self).span_before() == old(self).span_before(),
            match arg_scan(old(self).remaining(), prefix@, named) {
                ArgScan::Close(expr, at, rest) => r matches Ok(ScanStep::Close(e, a)) && e@ == expr
                    && a == at && final(self).remaining() == rest,
                ArgScan::Comma(expr, at, rest) => r matches Ok(ScanStep::Comma(e, a)) && e@ == expr
                    && a == at && final(self).remaining() == rest,
                ArgScan::Splat(expr, rest) => r matches Ok(ScanStep::Splat(e)) && e@ == expr
                    && final(self).remaining() == rest,
                ArgScan::Exhausted => r matches Ok(ScanStep::Exhausted),
                ArgScan::Failed(kind, at, detail) => r matches Err(e) && e.is(kind, at, detail),
            },
    {
        let mut val = prefix;
        loop
            invariant
                self.span_before() == old(self).span_before(),
                arg_scan(self.remaining(), val@, named) == arg_scan(
                    old(self).remaining(),
                    prefix@,
                    named,
                ),
            decreases self.remaining().len(),
        {
            let ghost s = self.remaining();
            let tok = match self.next() {
                None => {
                    return Ok(ScanStep::Exhausted);
                },
                Some(t) => t,
            };
            let ghost r = s.skip(1);
            if tok.kind == ')' {
                return Ok(ScanStep::Close(val, tok.pos));
            } else if tok.kind == ',' {
                return Ok(ScanStep::Comma(val, tok.pos));
            } else if tok.kind == '[' {
                val.push(tok);
                proof {
                    lemma_matching_close(r, 0, 0, '[', ']');
                }
                match self.read_until_closing_square_brace(tok.pos) {
                    Err(e) => {
                        return Err(e);
                    },
                    Ok(run) => {
                        let mut run = run;
                        proof {
                            let e = matching_close(r, 0, 0, '[', ']').unwrap();
                            assert(r.subrange(0, e + 1) == r.take(e + 1));
                        }
                        val.append(&mut run);
                    },
                }
            } else if tok.kind == '(' {
                val.push(tok);
                proof {
                    lemma_matching_close(r, 0, 0, '(', ')');
                }
                match self.read_until_closing_paren(tok.pos) {
                    Err(e) => {
                        return Err(e);
                    },
                    Ok(run) => {
                        let mut run = run;
                        proof {
                            let e = matching_close(r, 0, 0, '(', ')').unwrap();
                            assert(r.subrange(0, e + 1) == r.take(e + 1));
                        }
                        val.append(&mut run);
                    },
                }
            } else if tok.kind == '"' || tok.kind == '\'' {
                val.push(tok);
                proof {
                    lemma_closing_quote(r, 0, tok.kind);
                }
                match self.read_until_closing_quote(tok.kind, tok.pos) {
                    Err(e) => {
                        return Err(e);
                    },
                    Ok(run) => {
                        let mut run = run;
                        proof {
                            let e = closing_quote(r, 0, tok.kind).unwrap();
                            assert(r.subrange(0, e + 1) == r.take(e + 1));
                        }
                        val.append(&mut run);
                    },
                }
            } else if tok.kind == '.' {
                let second = self.peek();
                match second {
                    Some(dot) => {
                        if dot.kind == '.' {
                            if named {
                                return Err(SassError::new(ErrorKind::SyntaxError, dot.pos, ")"));
                            }
                            self.next();
                            match self.peek() {
                                Some(third) => {
                                    if third.kind == '.' {
                                        self.next();
                                        proof {
                                            assert(r.skip(1).skip(1) == r.skip(2));
                                        }
                                        return Ok(ScanStep::Splat(val));
                                    } else {
                                        return Err(
                                            SassError::new(ErrorKind::SyntaxError, dot.pos, "."),
                                        );
                                    }
                                },
                                None => {
                                    return Err(SassError::new(ErrorKind::SyntaxError, dot.pos, "."));
                                },
                            }
                        } else {
                            val.push(tok);
                        }
                    },
                    None => {
                        val.push(tok);
                    },
                }
            } else {
                val.push(tok);
            }
        }
    }

    fn call_args_loop(&mut self, args: CallArgs) -> (r: Result<CallArgsStep, SassError>)
        ensures
            final(self).span_before() == old(self).span_before(),
            call_outcome(call_args_from(old(self).remaining(), args@), r, final(self).remaining()),
    {
        let ghost want = call_args_from(old(self).remaining(), args@);
        let mut acc = args;
        loop
            invariant
                self.span_before() == old(self).span_before(),
                want == call_args_from(old(self).remaining(), args@),
                call_args_from(self.remaining(), acc@) == want,
            decreases self.remaining().len(),
        {
            let ghost s = self.remaining();
            let ghost before = acc@;
            match self.read_arg_head(acc.span) {
                Err(e) => {
                    return Err(e);
                },
                Ok(HeadStep::Close) => {
                    return Ok(CallArgsStep::Complete(acc));
                },
                Ok(HeadStep::Arg(name, prefix, span)) => {
                    let ghost body = self.remaining();
                    let ghost prefix_view = prefix@;
                    let named = name.is_some();
                    match self.read_arg(prefix, named) {
                        Err(e) => {
                            return Err(e);
                        },
                        Ok(ScanStep::Exhausted) => {
                            return Err(SassError::new(ErrorKind::SyntaxError, span, ")"));
                        },
                        Ok(ScanStep::Splat(expr)) => {
                            acc.span = span;
                            return Ok(CallArgsStep::Splat(acc, expr));
                        },
                        Ok(ScanStep::Close(expr, at)) => {
                            acc.push_raw(name, expr, at);
                            acc.span = span.merge(at);
                            return Ok(CallArgsStep::Complete(acc));
                        },
                        Ok(ScanStep::Comma(expr, at)) => {
                            acc.push_raw(name, expr, at);
                            acc.span = span;
                            proof {
                                lemma_arg_head_shorter(s, before.span);
                                lemma_arg_scan_shorter(body, prefix_view, named);
                                lemma_space_shorter(self.remaining());
                            }
                            self.whitespace();
                            match self.peek() {
                                None => {
                                    return Err(SassError::new(ErrorKind::SyntaxError, span, ")"));
                                },
                                Some(_) => {},
                            }
                        },
                    }
                },
            }
        }
    }

    /// Reads the arguments of a call from just inside its opening parenthesis, up to and
    /// including the parenthesis that closes it, or up to and including the first `...`.
    pub fn parse_call_args(&mut self) -> (r: Result<CallArgsStep, SassError>)
        ensures
            final(self).span_before() == old(self).span_before(),
            call_outcome(
                parsed_call_args(old(self).remaining(), old(self).span_before()),
                r,
                final(self).remaining(),
            ),
    {
        self.whitespace_or_comment();
        match self.peek() {
            None => Err(SassError::new(ErrorKind::SyntaxError, self.end_of_input(), ")")),
            Some(first) => self.call_args_loop(CallArgs::new(first.pos)),
        }
    }

    /// Goes on reading the arguments of a call behind a splat whose value has been expanded
    /// into `args`.
    pub fn resume_call_args(&mut self, args: CallArgs) -> (r: Result<CallArgsStep, SassError>)
        ensures
            final(self).span_before() == old(self).span_before(),
            call_outcome(
                resumed_call_args(old(self).remaining(), args@),
                r,
                final(self).remaining(),
            ),
    {
        self.whitespace();
        match self.peek() {
            None => Err(SassError::new(ErrorKind::SyntaxError, args.span, ")")),
            Some(_) => self.call_args_loop(args),
        }
    }
}

} // verus!
