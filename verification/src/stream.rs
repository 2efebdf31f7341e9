//! The token stream: a `peekmore` iterator over a vector of tokens, seen by the
//! verifier as the sequence of tokens that have not been consumed yet.

use crate::span::Token;
use peekmore::PeekMore;
use peekmore::PeekMoreIterator;
use std::vec::IntoIter;
use vstd::prelude::*;

verus! {

/// `peekmore::PeekMoreIterator`, an iterator with a queue of items that were looked at and
/// not consumed. Nothing of its inside is visible here.
#[verifier::external_type_specification]
#[verifier::external_body]
#[verifier::reject_recursive_types(I)]
pub struct ExPeekMoreIterator<I: Iterator>(PeekMoreIterator<I>);

/// The tokens that the stream has not handed out yet, in the order in which it will.
pub uninterp spec fn stream_tokens(s: PeekMoreIterator<IntoIter<Token>>) -> Seq<Token>;

/// `PeekMore::peekmore` on the vector's owning iterator: the stream holds the
/// vector's tokens in order.
#[verifier::external_body]
pub(crate) fn stream_of(toks: Vec<Token>) -> (s: PeekMoreIterator<IntoIter<Token>>)
    ensures
        stream_tokens(s) == toks@,
{
    toks.into_iter().peekmore()
}

/// `PeekMoreIterator::peek_nth`: the unconsumed token at position `n`, counted from zero, if
/// there are that many, wherever the peek cursor stands; nothing is consumed. The outside
/// function queues every position up to `n`, so only the first two are admitted here.
#[verifier::external_body]
pub(crate) fn stream_peek_nth(s: &mut PeekMoreIterator<IntoIter<Token>>, n: usize) -> (t: Option<
    Token,
>)
    requires
        n <= 1,
    ensures
        stream_tokens(*final(s)) == stream_tokens(*old(s)),
        t == if n < stream_tokens(*old(s)).len() {
            Some(stream_tokens(*old(s))[n as int])
        } else {
            None
        },
{
    s.peek_nth(n).copied()
}

/// `Iterator::next` of `PeekMoreIterator`: hands out the first unconsumed token, if there is
/// one, and the rest stays in order.
#[verifier::external_body]
pub(crate) fn stream_next(s: &mut PeekMoreIterator<IntoIter<Token>>) -> (t: Option<Token>)
    ensures
        t == if stream_tokens(*old(s)).len() > 0 {
            Some(stream_tokens(*old(s))[0])
        } else {
            None
        },
        stream_tokens(*final(s)) == if stream_tokens(*old(s)).len() > 0 {
            stream_tokens(*old(s)).skip(1)
        } else {
            stream_tokens(*old(s))
        },
{
    s.next()
}

} // verus!
