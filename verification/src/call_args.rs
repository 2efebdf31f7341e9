//! The arguments of one call: what was written between its parentheses, keyed by position
//! or by name, each kept unevaluated until it is bound.

use crate::error::ErrorKind;
use crate::error::SassError;
use crate::span::Span;
use crate::span::Token;
use crate::value::Value;
use vstd::prelude::*;

verus! {

/// What an argument is found by.
#[derive(Clone, Debug)]
pub enum CallArg {
    Named(String),
    /// The number of arguments that the call held before this one.
    Positional(usize),
}

pub enum CallArgView {
    Named(Seq<char>),
    Positional(nat),
}

impl View for CallArg {
    type V = CallArgView;

    open spec fn view(&self) -> CallArgView {
        match self {
            CallArg::Named(n) => CallArgView::Named(n@),
            CallArg::Positional(i) => CallArgView::Positional(*i as nat),
        }
    }
}

/// What an argument holds: the tokens of an expression that is still to be evaluated, or,
/// where it came out of a splat, a value.
#[derive(Debug)]
pub enum ArgPayload {
    Raw(Vec<Token>),
    Evaluated(Value),
}

pub enum ArgPayloadView {
    Raw(Seq<Token>),
    Evaluated(Value),
}

impl View for ArgPayload {
    type V = ArgPayloadView;

    open spec fn view(&self) -> ArgPayloadView {
        match self {
            ArgPayload::Raw(toks) => ArgPayloadView::Raw(toks@),
            ArgPayload::Evaluated(v) => ArgPayloadView::Evaluated(*v),
        }
    }
}

/// One argument of a call, with the place it was written at.
#[derive(Debug)]
pub struct CallArgEntry {
    pub key: CallArg,
    pub payload: ArgPayload,
    pub span: Span,
}

pub struct EntryView {
    pub key: CallArgView,
    pub payload: ArgPayloadView,
    pub span: Span,
}

impl View for CallArgEntry {
    type V = EntryView;

    open spec fn view(&self) -> EntryView {
        EntryView { key: self.key@, payload: self.payload@, span: self.span }
    }
}

pub open spec fn entries_view(es: Seq<CallArgEntry>) -> Seq<EntryView> {
    es.map_values(|e: CallArgEntry| e@)
}

pub proof fn lemma_entries_view_push(es: Seq<CallArgEntry>, e: CallArgEntry)
    ensures
        entries_view(es.push(e)) == entries_view(es).push(e@),
{
    assert(entries_view(es.push(e)) =~= entries_view(es).push(e@));
}

/// The arguments of a call in the order in which they were written, and the place of the
/// call. An argument that repeats a key is kept: binding finds it left over.
#[derive(Debug)]
pub struct CallArgs {
    pub entries: Vec<CallArgEntry>,
    pub span: Span,
}

pub struct CallArgsView {
    pub entries: Seq<EntryView>,
    pub span: Span,
}

impl View for CallArgs {
    type V = CallArgsView;

    open spec fn view(&self) -> CallArgsView {
        CallArgsView { entries: entries_view(self.entries@), span: self.span }
    }
}

/// The place that a run of tokens covers, or `fallback` for an empty run.
pub open spec fn cover(toks: Seq<Token>, fallback: Span) -> Span {
    if toks.len() == 0 {
        fallback
    } else {
        toks[0].pos.spec_merge(toks.last().pos)
    }
}

pub fn cover_of(toks: &Vec<Token>, fallback: Span) -> (s: Span)
    ensures
        s == cover(toks@, fallback),
{
    if toks.len() == 0 {
        fallback
    } else {
        toks[0].pos.merge(toks[toks.len() - 1].pos)
    }
}

/// The entry that an unevaluated argument makes in a call that holds `count` arguments
/// already: keyed by its name if it has one, else by `count`.
pub open spec fn raw_entry(name: Option<Seq<char>>, expr: Seq<Token>, count: nat, end: Span)
    -> EntryView {
    EntryView {
        key: match name {
            Some(n) => CallArgView::Named(n),
            None => CallArgView::Positional(count),
        },
        payload: ArgPayloadView::Raw(expr),
        span: cover(expr, end),
    }
}

/// What a splatted value adds to the entries of a call, or `None` where the value is a map
/// with a key that is no string.
///
/// The elements of an argument list or a list become positional arguments in their order;
/// the entries of a map become arguments named by their keys; any other value becomes one
/// positional argument.
pub open spec fn splat_entries(entries: Seq<EntryView>, value: Value, span: Span) -> Option<
    Seq<EntryView>,
> {
    match value {
        Value::ArgList(items) => Some(
            entries + Seq::new(
                items@.len(),
                |i: int|
                    EntryView {
                        key: CallArgView::Positional((entries.len() + i) as nat),
                        payload: ArgPayloadView::Evaluated(items@[i].value),
                        span: items@[i].span,
                    },
            ),
        ),
        Value::List(items, _, _) => Some(
            entries + Seq::new(
                items@.len(),
                |i: int|
                    EntryView {
                        key: CallArgView::Positional((entries.len() + i) as nat),
                        payload: ArgPayloadView::Evaluated(items@[i]),
                        span,
                    },
            ),
        ),
        Value::Mapping(pairs) => if string_keys(pairs@, pairs@.len() as int) {
            Some(
                entries + Seq::new(
                    pairs@.len(),
                    |i: int|
                        EntryView {
                            key: CallArgView::Named(key_text(pairs@[i].0)),
                            payload: ArgPayloadView::Evaluated(pairs@[i].1),
                            span,
                        },
                ),
            )
        } else {
            None
        },
        other => Some(
            entries.push(
                EntryView {
                    key: CallArgView::Positional(entries.len()),
                    payload: ArgPayloadView::Evaluated(other),
                    span,
                },
            ),
        ),
    }
}

/// The index of the first key of a map at or after `from` that is no string; the length of
/// the map where there is none.
pub open spec fn first_other_key(pairs: Seq<(Value, Value)>, from: int) -> int
    decreases pairs.len() - from,
{
    if from < 0 || from >= pairs.len() {
        pairs.len() as int
    } else if pairs[from].0 is String {
        first_other_key(pairs, from + 1)
    } else {
        from
    }
}

/// What is wrong with a map that cannot be splatted: which key is no string, and in which
/// map. The key is the first one of the map that is no string, and both are written out.
pub open spec fn splat_fault(value: Value) -> Seq<char> {
    match value {
        Value::Mapping(pairs) => crate::inspect::inspect_text(
            pairs@[first_other_key(pairs@, 0)].0,
        ) + " is not a string in "@ + crate::inspect::inspect_text(value),
        _ => Seq::empty(),
    }
}

/// Whether the first `n` keys of a map are strings.
pub open spec fn string_keys(pairs: Seq<(Value, Value)>, n: int) -> bool {
    forall|i: int| 0 <= i < n && i < pairs.len() ==> (#[trigger] pairs[i]).0 is String
}

/// The text of a key that is a string.
pub open spec fn key_text(key: Value) -> Seq<char> {
    match key {
        Value::String(s, _) => s@,
        _ => Seq::empty(),
    }
}

impl CallArgs {
    pub fn new(span: Span) -> (args: CallArgs)
        ensures
            args@ == (CallArgsView { entries: Seq::empty(), span }),
    {
        let args = CallArgs { entries: Vec::new(), span };
        assert(entries_view(args.entries@) =~= Seq::empty());
        args
    }

    pub fn len(&self) -> (n: usize)
        ensures
            n == self@.entries.len(),
    {
        self.entries.len()
    }

    /// Adds an unevaluated argument, keyed by `name` if there is one and by its position in
    /// the call if not. `end` is the place of the token that ended the expression.
    pub fn push_raw(&mut self, name: Option<String>, expr: Vec<Token>, end: Span)
        ensures
            final(self)@.span == old(self)@.span,
            final(self)@.entries == old(self)@.entries.push(
                raw_entry(
                    match name {
                        Some(n) => Some(n@),
                        None => None,
                    },
                    expr@,
                    old(self)@.entries.len(),
                    end,
                ),
            ),
    {
        let span = cover_of(&expr, end);
        let key = match name {
            Some(n) => CallArg::Named(n),
            None => CallArg::Positional(self.entries.len()),
        };
        let entry = CallArgEntry { key, payload: ArgPayload::Raw(expr), span };
        proof {
            lemma_entries_view_push(self.entries@, entry);
        }
        self.entries.push(entry);
    }

    /// Expands a splatted value into the call. A map with a key that is no string is
    /// refused and handed back whole with the error, which says which key it is.
    pub fn splat(self, value: Value, span: Span) -> (r: Result<CallArgs, (SassError, Value)>)
        ensures
            match splat_entries(self@.entries, value, span) {
                Some(entries) => r matches Ok(args) && args@ == (CallArgsView {
                    entries,
                    span: self@.span,
                }),
                None => r matches Err((e, back)) && back == value && e.is(
                    ErrorKind::InvalidSplatTarget,
                    span,
                    splat_fault(value),
                ),
            },
    {
        let mut args = self;
        let ghost before = args@.entries;
        match value {
            Value::ArgList(items) => {
                let mut items = items;
                let ghost all = items@;
                let ghost want = splat_entries(before, value, span).unwrap();
                let ghost mut i: int = 0;
                while items.len() > 0
                    invariant
                        0 <= i <= all.len(),
                        items@ == all.skip(i),
                        args.span == self.span,
                        before.len() + all.len() == want.len(),
                        entries_view(args.entries@) == want.take(before.len() + i),
                        forall|j: int|
                            0 <= j < all.len() ==> #[trigger] want[before.len() + j] == (EntryView {
                                key: CallArgView::Positional((before.len() + j) as nat),
                                payload: ArgPayloadView::Evaluated(all[j].value),
                                span: all[j].span,
                            }),
                    decreases all.len() - i,
                {
                    let item = items.remove(0);
                    let entry = CallArgEntry {
                        key: CallArg::Positional(args.entries.len()),
                        payload: ArgPayload::Evaluated(item.value),
                        span: item.span,
                    };
                    proof {
                        lemma_entries_view_push(args.entries@, entry);
                        assert(all.skip(i).remove(0) == all.skip(i + 1));
                        assert(want.take(before.len() + i).push(want[before.len() + i])
                            == want.take(before.len() + i + 1));
                        i = i + 1;
                    }
                    args.entries.push(entry);
                }
                proof {
                    assert(want.take(want.len() as int) == want);
                }
                Ok(args)
            },
            Value::List(items, _, _) => {
                let mut items = items;
                let ghost all = items@;
                let ghost want = splat_entries(before, value, span).unwrap();
                let ghost mut i: int = 0;
                while items.len() > 0
                    invariant
                        0 <= i <= all.len(),
                        items@ == all.skip(i),
                        args.span == self.span,
                        before.len() + all.len() == want.len(),
                        entries_view(args.entries@) == want.take(before.len() + i),
                        forall|j: int|
                            0 <= j < all.len() ==> #[trigger] want[before.len() + j] == (EntryView {
                                key: CallArgView::Positional((before.len() + j) as nat),
                                payload: ArgPayloadView::Evaluated(all[j]),
                                span,
                            }),
                    decreases all.len() - i,
                {
                    let item = items.remove(0);
                    let entry = CallArgEntry {
                        key: CallArg::Positional(args.entries.len()),
                        payload: ArgPayload::Evaluated(item),
                        span,
                    };
                    proof {
                        lemma_entries_view_push(args.entries@, entry);
                        assert(all.skip(i).remove(0) == all.skip(i + 1));
                        assert(want.take(before.len() + i).push(want[before.len() + i])
                            == want.take(before.len() + i + 1));
                        i = i + 1;
                    }
                    args.entries.push(entry);
                }
                proof {
                    assert(want.take(want.len() as int) == want);
                }
                Ok(args)
            },
            Value::Mapping(pairs) => {
                let mut k: usize = 0;
                while k < pairs.len()
                    invariant
                        k <= pairs.len(),
                        string_keys(pairs@, k as int),
                        first_other_key(pairs@, k as int) == first_other_key(pairs@, 0),
                        value == Value::Mapping(pairs),
                    decreases pairs.len() - k,
                {
                    match &pairs[k].0 {
                        Value::String(_, _) => {},
                        _ => {
                            proof {
                                assert(!(pairs@[k as int].0 is String));
                            }
                            let key = pairs[k].0.inspect();
                            let map = Value::Mapping(pairs);
                            let detail = key.concat(" is not a string in ").concat(
                                map.inspect().as_str(),
                            );
                            return Err(
                                (
                                    SassError {
                                        kind: ErrorKind::InvalidSplatTarget,
                                        span,
                                        detail,
                                    },
                                    map,
                                ),
                            );
                        },
                    }
                    k = k + 1;
                }
                let mut pairs = pairs;
                let ghost all = pairs@;
                let ghost want = splat_entries(before, value, span).unwrap();
                let ghost mut i: int = 0;
                while pairs.len() > 0
                    invariant
                        0 <= i <= all.len(),
                        pairs@ == all.skip(i),
                        args.span == self.span,
                        string_keys(all, all.len() as int),
                        before.len() + all.len() == want.len(),
                        entries_view(args.entries@) == want.take(before.len() + i),
                        forall|j: int|
                            0 <= j < all.len() ==> #[trigger] want[before.len() + j] == (EntryView {
                                key: CallArgView::Named(key_text(all[j].0)),
                                payload: ArgPayloadView::Evaluated(all[j].1),
                                span,
                            }),
                    decreases all.len() - i,
                {
                    let pair = pairs.remove(0);
                    proof {
                        assert(all.skip(i).remove(0) == all.skip(i + 1));
                        assert(pair == all[i]);
                    }
                    let (key, item) = pair;
                    match key {
                        Value::String(name, _) => {
                            let entry = CallArgEntry {
                                key: CallArg::Named(name),
                                payload: ArgPayload::Evaluated(item),
                                span,
                            };
                            proof {
                                lemma_entries_view_push(args.entries@, entry);
                                assert(want.take(before.len() + i).push(want[before.len() + i])
                                    == want.take(before.len() + i + 1));
                            }
                            args.entries.push(entry);
                        },
                        _ => {
                            assert(false);
                        },
                    }
                    proof {
                        i = i + 1;
                    }
                }
                proof {
                    assert(want.take(want.len() as int) == want);
                }
                Ok(args)
            },
            other => {
                let entry = CallArgEntry {
                    key: CallArg::Positional(args.entries.len()),
                    payload: ArgPayload::Evaluated(other),
                    span,
                };
                proof {
                    lemma_entries_view_push(args.entries@, entry);
                }
                args.entries.push(entry);
                Ok(args)
            },
        }
    }
}

/// The index of the first named argument at or after `from`.
pub open spec fn first_named(entries: Seq<EntryView>, from: int) -> Option<int>
    decreases entries.len() - from,
{
    if from < 0 || from >= entries.len() {
        None
    } else if entries[from].key is Named {
        Some(from)
    } else {
        first_named(entries, from + 1)
    }
}

/// No argument before the first named one is named.
pub proof fn lemma_first_named(entries: Seq<EntryView>, from: int)
    requires
        0 <= from,
    ensures
        match first_named(entries, from) {
            Some(k) => from <= k < entries.len() && entries[k].key is Named && forall|j: int|
                from <= j < k ==> (#[trigger] entries[j]).key is Positional,
            None => forall|j: int|
                from <= j < entries.len() ==> (#[trigger] entries[j]).key is Positional,
        },
    decreases entries.len() - from,
{
    if from < entries.len() && !(entries[from].key is Named) {
        lemma_first_named(entries, from + 1);
    }
}

impl CallArgs {
    /// The arguments of a call to a plain CSS function, which takes arguments by position
    /// only: the arguments in their order, or a failure at the first named one, which it
    /// names.
    pub fn positional_only(self) -> (r: Result<Vec<CallArgEntry>, SassError>)
        ensures
            match first_named(self@.entries, 0) {
                Some(k) => r matches Err(e) && e.is(
                    ErrorKind::NamedArgumentNotAllowed,
                    self@.entries[k].span,
                    self@.entries[k].key->Named_0,
                ),
                None => r matches Ok(found) && entries_view(found@) == self@.entries,
            },
            r is Ok <==> forall|j: int|
                0 <= j < self@.entries.len() ==> (#[trigger] self@.entries[j]).key is Positional,
    {
        proof {
            lemma_first_named(self@.entries, 0);
        }
        let mut i: usize = 0;
        while i < self.entries.len()
            invariant
                i <= self.entries.len(),
                first_named(self@.entries, i as int) == first_named(self@.entries, 0),
            decreases self.entries.len() - i,
        {
            match &self.entries[i].key {
                CallArg::Named(n) => {
                    return Err(
                        SassError::new(
                            ErrorKind::NamedArgumentNotAllowed,
                            self.entries[i].span,
                            n.as_str(),
                        ),
                    );
                },
                CallArg::Positional(_) => {},
            }
            i = i + 1;
        }
        Ok(self.entries)
    }
}

} // verus!
