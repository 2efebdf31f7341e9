//! Scanning to the closer that matches an opener already consumed: a parenthesis, a square
//! bracket or a quote. What is consumed is handed back untouched, to be parsed later.

use crate::error::ErrorKind;
use crate::error::SassError;
use crate::parser::Parser;
use crate::span::Span;
use crate::span::Token;
use crate::text::push_char;
use vstd::prelude::*;

verus! {

/// The index of the closer that ends a bracketed run. The run's opener was read before
/// index `i`, and `depth` further openers of the same family are open at `i`. Each opener
/// met on the way raises the depth and each closer lowers it; the closer met at depth zero
/// is the one. `None` when the tokens run out first.
pub open spec fn matching_close(s: Seq<Token>, i: int, depth: nat, open: char, close: char)
    -> Option<int>
    decreases s.len() - i,
{
    if i < 0 || i >= s.len() {
        None
    } else if s[i].kind == close {
        if depth == 0 {
            Some(i)
        } else {
            matching_close(s, i + 1, (depth - 1) as nat, open, close)
        }
    } else if s[i].kind == open {
        matching_close(s, i + 1, depth + 1, open, close)
    } else {
        matching_close(s, i + 1, depth, open, close)
    }
}

/// The index of the quote that ends a quoted run whose opening quote `q` was read before
/// index `i`: the first `q` that no backslash stands directly in front of, where a backslash
/// takes the token after it with it. `None` when the tokens run out first.
pub open spec fn closing_quote(s: Seq<Token>, i: int, q: char) -> Option<int>
    decreases s.len() - i,
{
    if i < 0 || i >= s.len() {
        None
    } else if s[i].kind == q {
        Some(i)
    } else if s[i].kind == '\\' {
        if i + 1 >= s.len() {
            None
        } else {
            closing_quote(s, i + 2, q)
        }
    } else {
        closing_quote(s, i + 1, q)
    }
}

/// How many openers stand open after the tokens from `i` up to `j`, starting from `depth`;
/// `None` if a closer is met at depth zero on the way.
pub open spec fn depth_after(s: Seq<Token>, i: int, j: int, depth: nat, open: char, close: char)
    -> Option<nat>
    decreases j - i,
{
    if i >= j {
        Some(depth)
    } else if s[i].kind == close {
        if depth == 0 {
            None
        } else {
            depth_after(s, i + 1, j, (depth - 1) as nat, open, close)
        }
    } else if s[i].kind == open {
        depth_after(s, i + 1, j, depth + 1, open, close)
    } else {
        depth_after(s, i + 1, j, depth, open, close)
    }
}

/// The closer that `matching_close` finds lies in range, is a closer, and is the first place
/// at which a closer meets depth zero: everything before it is balanced.
pub proof fn lemma_matching_close(s: Seq<Token>, i: int, depth: nat, open: char, close: char)
    requires
        0 <= i,
        open != close,
    ensures
        matching_close(s, i, depth, open, close) matches Some(e) ==> i <= e < s.len()
            && s[e].kind == close && depth_after(s, i, e, depth, open, close) == Some(0nat),
        matching_close(s, i, depth, open, close) is None ==> depth_after(
            s,
            i,
            s.len() as int,
            depth,
            open,
            close,
        ) is Some,
    decreases s.len() - i,
{
    if i < s.len() {
        if s[i].kind == close {
            if depth > 0 {
                lemma_matching_close(s, i + 1, (depth - 1) as nat, open, close);
            }
        } else if s[i].kind == open {
            lemma_matching_close(s, i + 1, depth + 1, open, close);
        } else {
            lemma_matching_close(s, i + 1, depth, open, close);
        }
    }
}

/// The quote that `closing_quote` finds lies in range and is a quote of the kind asked for.
pub proof fn lemma_closing_quote(s: Seq<Token>, i: int, q: char)
    requires
        0 <= i,
    ensures
        closing_quote(s, i, q) matches Some(e) ==> i <= e < s.len() && s[e].kind == q,
    decreases s.len() - i,
{
    if i < s.len() && s[i].kind != q {
        if s[i].kind == '\\' {
            if i + 1 < s.len() {
                lemma_closing_quote(s, i + 2, q);
            }
        } else {
            lemma_closing_quote(s, i + 1, q);
        }
    }
}

/// What a scan leaves behind: on success the tokens up to and including the closer at `end`
/// are returned and the stream goes on behind it; on failure the stream is used up and the
/// error names the place of the opener.
pub open spec fn scanned(
    before: Seq<Token>,
    after: Seq<Token>,
    end: Option<int>,
    opened_at: Span,
    closer: Seq<char>,
    r: Result<Vec<Token>, SassError>,
) -> bool {
    match end {
        Some(e) => r matches Ok(run) && run@ == before.subrange(0, e + 1) && after == before.skip(
            e + 1,
        ),
        None => r matches Err(err) && err.is(ErrorKind::UnterminatedDelimiter, opened_at, closer)
            && after.len() == 0,
    }
}

impl Parser {
    fn read_until_close(&mut self, open: char, close: char, opened_at: Span, name: &str) -> (r:
        Result<Vec<Token>, SassError>)
        requires
            open != close,
        ensures
            final(self).span_before() == old(self).span_before(),
            scanned(
                old(self).remaining(),
                final(self).remaining(),
                matching_close(old(self).remaining(), 0, 0, open, close),
                opened_at,
                name@,
                r,
            ),
    {
        let ghost orig = self.remaining();
        let ghost mut i: int = 0;
        let mut run: Vec<Token> = Vec::new();
        let mut depth: usize = 0;
        loop
            invariant
                open != close,
                orig == old(self).remaining(),
                self.span_before() == old(self).span_before(),
                0 <= i <= orig.len(),
                self.remaining() == orig.skip(i),
                run@ == orig.subrange(0, i),
                depth <= i,
                matching_close(orig, i, depth as nat, open, close) == matching_close(
                    orig,
                    0,
                    0,
                    open,
                    close,
                ),
            decreases orig.len() - i,
        {
            match self.next() {
                None => {
                    return Err(SassError::new(ErrorKind::UnterminatedDelimiter, opened_at, name));
                },
                Some(tok) => {
                    proof {
                        assert(orig.skip(i).skip(1) == orig.skip(i + 1));
                        assert(orig.subrange(0, i).push(orig[i]) == orig.subrange(0, i + 1));
                        i = i + 1;
                    }
                    run.push(tok);
                    assert(depth < run.len());
                    if tok.kind == close {
                        if depth == 0 {
                            return Ok(run);
                        }
                        depth = depth - 1;
                    } else if tok.kind == open {
                        depth = depth + 1;
                    }
                },
            }
        }
    }

    /// Consumes up to and including the `)` that matches a `(` read at `opened_at`.
    pub fn read_until_closing_paren(&mut self, opened_at: Span) -> (r: Result<
        Vec<Token>,
        SassError,
    >)
        ensures
            final(self).span_before() == old(self).span_before(),
            scanned(
                old(self).remaining(),
                final(self).remaining(),
                matching_close(old(self).remaining(), 0, 0, '(', ')'),
                opened_at,
                ")"@,
                r,
            ),
    {
        self.read_until_close('(', ')', opened_at, ")")
    }

    /// Consumes up to and including the `]` that matches a `[` read at `opened_at`.
    pub fn read_until_closing_square_brace(&mut self, opened_at: Span) -> (r: Result<
        Vec<Token>,
        SassError,
    >)
        ensures
            final(self).span_before() == old(self).span_before(),
            scanned(
                old(self).remaining(),
                final(self).remaining(),
                matching_close(old(self).remaining(), 0, 0, '[', ']'),
                opened_at,
                "]"@,
                r,
            ),
    {
        self.read_until_close('[', ']', opened_at, "]")
    }

    /// Consumes up to and including the quote `q` that ends a string opened at `opened_at`.
    pub fn read_until_closing_quote(&mut self, q: char, opened_at: Span) -> (r: Result<
        Vec<Token>,
        SassError,
    >)
        ensures
            final(self).span_before() == old(self).span_before(),
            scanned(
                old(self).remaining(),
                final(self).remaining(),
                closing_quote(old(self).remaining(), 0, q),
                opened_at,
                seq![q],
                r,
            ),
    {
        let ghost orig = self.remaining();
        let ghost mut i: int = 0;
        let mut run: Vec<Token> = Vec::new();
        let mut escaped = false;
        loop
            invariant
                orig == old(self).remaining(),
                self.span_before() == old(self).span_before(),
                0 <= i <= orig.len(),
                self.remaining() == orig.skip(i),
                run@ == orig.subrange(0, i),
                !escaped ==> closing_quote(orig, i, q) == closing_quote(orig, 0, q),
                escaped ==> i < orig.len() ==> closing_quote(orig, i + 1, q) == closing_quote(
                    orig,
                    0,
                    q,
                ),
                escaped ==> i >= orig.len() ==> closing_quote(orig, 0, q) is None,
            decreases orig.len() - i,
        {
            match self.next() {
                None => {
                    let mut detail = String::new();
                    push_char(&mut detail, q);
                    return Err(
                        SassError { kind: ErrorKind::UnterminatedDelimiter, span: opened_at, detail },
                    );
                },
                Some(tok) => {
                    proof {
                        assert(orig.skip(i).skip(1) == orig.skip(i + 1));
                        assert(orig.subrange(0, i).push(orig[i]) == orig.subrange(0, i + 1));
                        i = i + 1;
                    }
                    run.push(tok);
                    if escaped {
                        escaped = false;
                    } else if tok.kind == q {
                        return Ok(run);
                    } else if tok.kind == '\\' {
                        escaped = true;
                    }
                },
            }
        }
    }
}

} // verus!
