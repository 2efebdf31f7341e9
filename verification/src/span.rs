//! Source locations and the positioned characters that the parsers consume.

use vstd::prelude::*;

verus! {

/// A half-open range of byte offsets into the source text.
#[derive(Clone, Copy, Debug, PartialEq, Eq, Structural)]
pub struct Span {
    pub low: u64,
    pub high: u64,
}

impl Span {
    /// A span is well formed when it does not end before it starts.
    pub open spec fn wf(self) -> bool {
        self.low <= self.high
    }

    /// The number of bytes that the span covers; none where it ends before it starts.
    pub open spec fn spec_len(self) -> int {
        if self.low <= self.high {
            self.high - self.low
        } else {
            0
        }
    }

    /// The smallest span that covers both `self` and `other`.
    pub open spec fn spec_merge(self, other: Span) -> Span {
        Span {
            low: if self.low <= other.low { self.low } else { other.low },
            high: if self.high >= other.high { self.high } else { other.high },
        }
    }

    /// The part of `self` between the offsets `begin` and `end`, counted from its start.
    pub open spec fn spec_subspan(self, begin: u64, end: u64) -> Span {
        Span { low: (self.low + begin) as u64, high: (self.low + end) as u64 }
    }

    pub fn new(low: u64, high: u64) -> (s: Span)
        ensures
            s == (Span { low, high }),
    {
        Span { low, high }
    }

    pub fn len(self) -> (n: u64)
        ensures
            n == self.spec_len(),
    {
        if self.low <= self.high {
            self.high - self.low
        } else {
            0
        }
    }

    #[verifier::when_used_as_spec(spec_merge)]
    pub fn merge(self, other: Span) -> (m: Span)
        ensures
            m == self.spec_merge(other),
            self.wf() && other.wf() ==> m.wf(),
    {
        Span {
            low: if self.low <= other.low { self.low } else { other.low },
            high: if self.high >= other.high { self.high } else { other.high },
        }
    }

    /// The part of `self` between two offsets, which there is none of where the offsets are
    /// out of order or reach past the end of `self`.
    pub fn subspan(self, begin: u64, end: u64) -> (r: Option<Span>)
        ensures
            r is Some <==> self.wf() && begin <= end && end <= self.spec_len(),
            r matches Some(s) ==> s == self.spec_subspan(begin, end) && s.wf()
                && s.spec_len() == end - begin,
    {
        if self.low <= self.high && begin <= end && end <= self.high - self.low {
            Some(Span { low: self.low + begin, high: self.low + end })
        } else {
            None
        }
    }
}

/// Merging is commutative, idempotent and associative, and the result covers both operands.
pub proof fn lemma_merge_laws(a: Span, b: Span, c: Span)
    ensures
        a.spec_merge(b) == b.spec_merge(a),
        a.spec_merge(a) == a,
        a.spec_merge(b).spec_merge(c) == a.spec_merge(b.spec_merge(c)),
        a.spec_merge(b).low <= a.low && a.high <= a.spec_merge(b).high,
{
}

/// One character of the source with the place it was read from.
#[derive(Clone, Copy, Debug, PartialEq, Eq, Structural)]
pub struct Token {
    pub kind: char,
    pub pos: Span,
}

impl Token {
    pub fn new(pos: Span, kind: char) -> (t: Token)
        ensures
            t == (Token { kind, pos }),
    {
        Token { kind, pos }
    }
}

/// The characters of a run of tokens, without their positions.
pub open spec fn kinds(toks: Seq<Token>) -> Seq<char> {
    toks.map_values(|t: Token| t.kind)
}

} // verus!
