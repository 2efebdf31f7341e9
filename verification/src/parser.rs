//! The parser's view of the token stream, and the lexical steps shared by the
//! parameter-list and argument-list parsers.

use crate::span::Span;
use crate::span::Token;
use crate::stream::stream_next;
use crate::stream::stream_of;
use crate::stream::stream_peek_nth;
use crate::stream::stream_tokens;
use peekmore::PeekMoreIterator;
use std::vec::IntoIter;
use vstd::prelude::*;

verus! {

/// A parser over a stream of tokens. `span_before` is the place of the last token that the
/// caller consumed before handing over; errors at the end of input are reported there.
pub struct Parser {
    toks: PeekMoreIterator<IntoIter<Token>>,
    span_before: Span,
}

pub open spec fn is_space(c: char) -> bool {
    c == ' ' || c == '\t' || c == '\n' || c == '\r' || c == '\x0C'
}

/// The index of the first token at or after `i` that is no white space.
pub open spec fn skip_space(s: Seq<Token>, i: int) -> int
    decreases s.len() - i,
{
    if 0 <= i < s.len() && is_space(s[i].kind) {
        skip_space(s, i + 1)
    } else {
        i
    }
}

/// The index behind a block comment whose `/*` stands before `i`: behind the first `*/` at or
/// after `i`, and the end of the tokens where there is none.
pub open spec fn comment_end(s: Seq<Token>, i: int) -> int
    decreases s.len() - i,
{
    if i < 0 || i >= s.len() {
        s.len() as int
    } else if s[i].kind == '*' && i + 1 < s.len() && s[i + 1].kind == '/' {
        i + 2
    } else {
        comment_end(s, i + 1)
    }
}

/// The index of the line break that ends a line comment which runs at `i`, and the end of
/// the tokens where there is none.
pub open spec fn line_end(s: Seq<Token>, i: int) -> int
    decreases s.len() - i,
{
    if i < 0 || i >= s.len() {
        s.len() as int
    } else if s[i].kind == '\n' {
        i
    } else {
        line_end(s, i + 1)
    }
}

pub proof fn lemma_comment_end_bounds(s: Seq<Token>, i: int)
    requires
        0 <= i <= s.len(),
    ensures
        i <= comment_end(s, i) <= s.len(),
        i <= line_end(s, i) <= s.len(),
    decreases s.len() - i,
{
    if i < s.len() {
        lemma_comment_end_bounds(s, i + 1);
    }
}

/// The index of the first token at or after `i` that is neither white space nor part of a
/// comment. A comment is `/*` up to the next `*/`, or `//` up to the end of its line.
pub open spec fn skip_blank(s: Seq<Token>, i: int) -> int
    decreases s.len() - i,
{
    if i < 0 || i >= s.len() {
        i
    } else if is_space(s[i].kind) {
        skip_blank(s, i + 1)
    } else if s[i].kind == '/' && i + 1 < s.len() && s[i + 1].kind == '*' {
        proof {
            lemma_comment_end_bounds(s, i + 2);
        }
        skip_blank(s, comment_end(s, i + 2))
    } else if s[i].kind == '/' && i + 1 < s.len() && s[i + 1].kind == '/' {
        proof {
            lemma_comment_end_bounds(s, i + 2);
        }
        skip_blank(s, line_end(s, i + 2))
    } else {
        i
    }
}

pub proof fn lemma_skip_blank_bounds(s: Seq<Token>, i: int)
    requires
        0 <= i <= s.len(),
    ensures
        i <= skip_blank(s, i) <= s.len(),
    decreases s.len() - i,
{
    if i < s.len() {
        if is_space(s[i].kind) {
            lemma_skip_blank_bounds(s, i + 1);
        } else if s[i].kind == '/' && i + 1 < s.len() && s[i + 1].kind == '*' {
            lemma_comment_end_bounds(s, i + 2);
            lemma_skip_blank_bounds(s, comment_end(s, i + 2));
        } else if s[i].kind == '/' && i + 1 < s.len() && s[i + 1].kind == '/' {
            lemma_comment_end_bounds(s, i + 2);
            lemma_skip_blank_bounds(s, line_end(s, i + 2));
        }
    }
}

/// What is left of `s` behind its leading white space and comments.
pub open spec fn after_blank(s: Seq<Token>) -> Seq<Token> {
    s.skip(skip_blank(s, 0))
}

pub proof fn lemma_skip_space_bounds(s: Seq<Token>, i: int)
    requires
        0 <= i <= s.len(),
    ensures
        i <= skip_space(s, i) <= s.len(),
        skip_space(s, i) < s.len() ==> !is_space(s[skip_space(s, i)].kind),
        forall|j: int| i <= j < skip_space(s, i) ==> is_space(#[trigger] s[j].kind),
    decreases s.len() - i,
{
    if i < s.len() && is_space(s[i].kind) {
        lemma_skip_space_bounds(s, i + 1);
    }
}

impl Parser {
    /// The tokens that have not been consumed yet.
    pub closed spec fn remaining(&self) -> Seq<Token> {
        stream_tokens(self.toks)
    }

    pub closed spec fn span_before(&self) -> Span {
        self.span_before
    }

    /// The place where an error at the end of the input is reported.
    pub fn end_of_input(&self) -> (at: Span)
        ensures
            at == self.span_before(),
    {
        self.span_before
    }

    pub fn new(toks: Vec<Token>, span_before: Span) -> (p: Parser)
        ensures
            p.remaining() == toks@,
            p.span_before() == span_before,
    {
        Parser { toks: stream_of(toks), span_before }
    }

    /// The next token, which stays in the stream.
    pub fn peek(&mut self) -> (t: Option<Token>)
        ensures
            final(self).remaining() == old(self).remaining(),
            final(self).span_before() == old(self).span_before(),
            t == if old(self).remaining().len() > 0 {
                Some(old(self).remaining()[0])
            } else {
                None
            },
    {
        stream_peek_nth(&mut self.toks, 0)
    }

    /// The token behind the next one, which stays in the stream.
    pub fn peek_second(&mut self) -> (t: Option<Token>)
        ensures
            final(self).remaining() == old(self).remaining(),
            final(self).span_before() == old(self).span_before(),
            t == if old(self).remaining().len() > 1 {
                Some(old(self).remaining()[1])
            } else {
                None
            },
    {
        stream_peek_nth(&mut self.toks, 1)
    }

    /// Consumes the next token.
    pub fn next(&mut self) -> (t: Option<Token>)
        ensures
            final(self).remaining() == if old(self).remaining().len() > 0 {
                old(self).remaining().skip(1)
            } else {
                old(self).remaining()
            },
            final(self).span_before() == old(self).span_before(),
            t == if old(self).remaining().len() > 0 {
                Some(old(self).remaining()[0])
            } else {
                None
            },
    {
        stream_next(&mut self.toks)
    }

    /// Consumes the white space at the front of the stream and says whether there was any.
    pub fn whitespace(&mut self) -> (found: bool)
        ensures
            final(self).remaining() == old(self).remaining().skip(skip_space(old(self).remaining(), 0)),
            final(self).span_before() == old(self).span_before(),
            found == (skip_space(old(self).remaining(), 0) > 0),
    {
        let mut found = false;
        let ghost orig = self.remaining();
        let ghost mut i: int = 0;
        loop
            invariant
                orig == old(self).remaining(),
                0 <= i <= orig.len(),
                self.remaining() == orig.skip(i),
                self.span_before() == old(self).span_before(),
                skip_space(orig, i) == skip_space(orig, 0),
                found == (i > 0),
            decreases orig.len() - i,
        {
            match self.peek() {
                Some(t) => {
                    if is_space_char(t.kind) {
                        self.next();
                        proof {
                            assert(orig.skip(i).skip(1) == orig.skip(i + 1));
                            i = i + 1;
                        }
                        found = true;
                    } else {
                        return found;
                    }
                },
                None => {
                    return found;
                },
            }
        }
    }
}

impl Parser {
    /// Consumes the white space and the comments at the front of the stream and says
    /// whether there were any.
    pub fn whitespace_or_comment(&mut self) -> (found: bool)
        ensures
            final(self).remaining() == after_blank(old(self).remaining()),
            final(self).span_before() == old(self).span_before(),
            found == (skip_blank(old(self).remaining(), 0) > 0),
    {
        let mut found = false;
        let ghost orig = self.remaining();
        let ghost mut i: int = 0;
        loop
            invariant
                orig == old(self).remaining(),
                0 <= i <= orig.len(),
                self.remaining() == orig.skip(i),
                self.span_before() == old(self).span_before(),
                skip_blank(orig, i) == skip_blank(orig, 0),
                found == (i > 0),
            decreases orig.len() - i,
        {
            let first = match self.peek() {
                Some(t) => t,
                None => {
                    return found;
                },
            };
            if is_space_char(first.kind) {
                self.next();
                proof {
                    assert(orig.skip(i).skip(1) == orig.skip(i + 1));
                    i = i + 1;
                }
                found = true;
                continue ;
            }
            if first.kind != '/' {
                return found;
            }
            let second = match self.peek_second() {
                Some(t) => t,
                None => {
                    return found;
                },
            };
            if second.kind == '*' {
                self.next();
                self.next();
                proof {
                    assert(orig.skip(i).skip(1).skip(1) == orig.skip(i + 2));
                    lemma_comment_end_bounds(orig, i + 2);
                }
                let ghost start = i;
                proof {
                    i = i + 2;
                }
                found = true;
                loop
                    invariant_except_break
                        comment_end(orig, i) == comment_end(orig, start + 2),
                    invariant
                        orig == old(self).remaining(),
                        0 <= start,
                        start + 2 <= i <= orig.len(),
                        self.remaining() == orig.skip(i),
                        self.span_before() == old(self).span_before(),
                    ensures
                        0 <= start,
                        start + 2 <= i <= orig.len(),
                        self.remaining() == orig.skip(i),
                        self.span_before() == old(self).span_before(),
                        i == comment_end(orig, start + 2),
                    decreases orig.len() - i,
                {
                    let t = match self.next() {
                        Some(t) => t,
                        None => {
                            break ;
                        },
                    };
                    proof {
                        assert(orig.skip(i).skip(1) == orig.skip(i + 1));
                    }
                    if t.kind == '*' {
                        let closes = match self.peek() {
                            Some(n) => n.kind == '/',
                            None => false,
                        };
                        if closes {
                            self.next();
                            proof {
                                assert(orig.skip(i + 1).skip(1) == orig.skip(i + 2));
                                i = i + 2;
                            }
                            break ;
                        }
                    }
                    proof {
                        i = i + 1;
                    }
                }
            } else if second.kind == '/' {
                self.next();
                self.next();
                proof {
                    assert(orig.skip(i).skip(1).skip(1) == orig.skip(i + 2));
                    lemma_comment_end_bounds(orig, i + 2);
                }
                let ghost start = i;
                proof {
                    i = i + 2;
                }
                found = true;
                loop
                    invariant_except_break
                        line_end(orig, i) == line_end(orig, start + 2),
                    invariant
                        orig == old(self).remaining(),
                        0 <= start,
                        start + 2 <= i <= orig.len(),
                        self.remaining() == orig.skip(i),
                        self.span_before() == old(self).span_before(),
                    ensures
                        0 <= start,
                        start + 2 <= i <= orig.len(),
                        self.remaining() == orig.skip(i),
                        self.span_before() == old(self).span_before(),
                        i == line_end(orig, start + 2),
                    decreases orig.len() - i,
                {
                    let more = match self.peek() {
                        Some(t) => t.kind != '\n',
                        None => false,
                    };
                    if !more {
                        break ;
                    }
                    self.next();
                    proof {
                        assert(orig.skip(i).skip(1) == orig.skip(i + 1));
                        i = i + 1;
                    }
                }
            } else {
                return found;
            }
        }
    }
}

pub fn is_space_char(c: char) -> (b: bool)
    ensures
        b == is_space(c),
{
    c == ' ' || c == '\t' || c == '\n' || c == '\r' || c == '\x0C'
}

/// What is left of `s` behind its leading white space.
pub open spec fn after_space(s: Seq<Token>) -> Seq<Token> {
    s.skip(skip_space(s, 0))
}

/// The characters that a name is made of: ASCII letters and digits, `_`, `-`, and
/// everything outside ASCII.
pub open spec fn is_name_char(c: char) -> bool {
    ('a' <= c && c <= 'z') || ('A' <= c && c <= 'Z') || ('0' <= c && c <= '9') || c == '_' || c
        == '-' || c as u32 >= 0x80
}

/// The index of the first token at or after `i` that is no part of a name.
pub open spec fn name_end(s: Seq<Token>, i: int) -> int
    decreases s.len() - i,
{
    if 0 <= i < s.len() && is_name_char(s[i].kind) {
        name_end(s, i + 1)
    } else {
        i
    }
}

pub proof fn lemma_name_end_bounds(s: Seq<Token>, i: int)
    requires
        0 <= i <= s.len(),
    ensures
        i <= name_end(s, i) <= s.len(),
        name_end(s, i) < s.len() ==> !is_name_char(s[name_end(s, i)].kind),
        forall|j: int| i <= j < name_end(s, i) ==> is_name_char(#[trigger] s[j].kind),
    decreases s.len() - i,
{
    if i < s.len() && is_name_char(s[i].kind) {
        lemma_name_end_bounds(s, i + 1);
    }
}

pub fn is_name_char_exec(c: char) -> (b: bool)
    ensures
        b == is_name_char(c),
{
    ('a' <= c && c <= 'z') || ('A' <= c && c <= 'Z') || ('0' <= c && c <= '9') || c == '_' || c
        == '-' || c as u32 >= 0x80
}

impl Parser {
    /// Consumes the name at the front of the stream and returns its tokens, which are none
    /// where the stream starts with something else.
    pub fn read_name(&mut self) -> (name: Vec<Token>)
        ensures
            final(self).span_before() == old(self).span_before(),
            name@ == old(self).remaining().take(name_end(old(self).remaining(), 0)),
            final(self).remaining() == old(self).remaining().skip(
                name_end(old(self).remaining(), 0),
            ),
    {
        let ghost orig = self.remaining();
        let ghost mut i: int = 0;
        let mut name: Vec<Token> = Vec::new();
        loop
            invariant
                orig == old(self).remaining(),
                self.span_before() == old(self).span_before(),
                0 <= i <= orig.len(),
                self.remaining() == orig.skip(i),
                name@ == orig.take(i),
                name_end(orig, i) == name_end(orig, 0),
            decreases orig.len() - i,
        {
            match self.peek() {
                Some(t) => {
                    if is_name_char_exec(t.kind) {
                        self.next();
                        name.push(t);
                        proof {
                            assert(orig.skip(i).skip(1) == orig.skip(i + 1));
                            assert(orig.take(i).push(orig[i]) == orig.take(i + 1));
                            i = i + 1;
                        }
                    } else {
                        return name;
                    }
                },
                None => {
                    return name;
                },
            }
        }
    }
}

/// The text that a run of tokens spells.
pub fn text_of(toks: &Vec<Token>) -> (s: String)
    ensures
        s@ == crate::span::kinds(toks@),
{
    let mut s = String::new();
    let mut i: usize = 0;
    while i < toks.len()
        invariant
            i <= toks.len(),
            s@ == crate::span::kinds(toks@.take(i as int)),
        decreases toks.len() - i,
    {
        crate::text::push_char(&mut s, toks[i].kind);
        proof {
            assert(toks@.take(i as int).push(toks@[i as int]) == toks@.take(i + 1));
            assert(crate::span::kinds(toks@.take(i + 1)) == crate::span::kinds(
                toks@.take(i as int),
            ).push(toks@[i as int].kind));
        }
        i = i + 1;
    }
    proof {
        assert(toks@.take(toks.len() as int) == toks@);
    }
    s
}

} // verus!
