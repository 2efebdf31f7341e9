//! Binding the arguments of a call to the parameters of what is called.
//!
//! Binding decides; it does not evaluate. Each step either ends the binding or names one
//! expression whose value it needs next, and binding goes on when that value is supplied.

use crate::call_args::entries_view;
use crate::call_args::ArgPayload;
use crate::call_args::ArgPayloadView;
use crate::call_args::CallArg;
use crate::call_args::CallArgEntry;
use crate::call_args::CallArgView;
use crate::call_args::CallArgs;
use crate::call_args::CallArgsView;
use crate::call_args::EntryView;
use crate::error::ErrorKind;
use crate::error::SassError;
use crate::params::params_view;
use crate::params::FuncArg;
use crate::params::FuncArgView;
use crate::params::FuncArgs;
use crate::scope::Scope;
use crate::span::Span;
use crate::span::Token;
use crate::text::same_text;
use crate::value::ArgListItem;
use crate::value::Value;
use vstd::prelude::*;

verus! {

pub struct ArgListItemView {
    pub value: Value,
    pub name: Option<Seq<char>>,
    pub span: Span,
}

impl View for ArgListItem {
    type V = ArgListItemView;

    open spec fn view(&self) -> ArgListItemView {
        ArgListItemView {
            value: self.value,
            name: match self.name {
                Some(n) => Some(n@),
                None => None,
            },
            span: self.span,
        }
    }
}

pub open spec fn items_view(items: Seq<ArgListItem>) -> Seq<ArgListItemView> {
    items.map_values(|i: ArgListItem| i@)
}

/// A binding in progress.
pub struct BinderView {
    /// The parameters that are still to be bound, in declaration order.
    pub params: Seq<FuncArgView>,
    /// How many parameters have been dealt with.
    pub position: nat,
    /// The arguments that no parameter has taken yet, in the order of the call.
    pub args: Seq<EntryView>,
    /// The place of the call.
    pub span: Span,
    /// What has been bound so far.
    pub scope: Seq<(Seq<char>, Value)>,
    /// What has been collected for a variadic parameter so far.
    pub rest: Seq<ArgListItemView>,
}

/// What a supplied value is for.
pub enum SlotView {
    /// The parameter of this name.
    Param(Seq<char>),
    /// The next element of the variadic parameter's list: the name that the argument was
    /// passed under, if any, and its place.
    Rest(Option<Seq<char>>, Span),
}

/// A binding that waits for a value.
pub struct PendingView {
    pub binder: BinderView,
    pub slot: SlotView,
}

/// What a step of binding comes to.
pub enum StepView {
    /// All parameters are bound: the bindings of the fixed parameters, and the name and list
    /// of the variadic parameter if there is one.
    Done(Seq<(Seq<char>, Value)>, Option<(Seq<char>, Seq<ArgListItemView>)>),
    Failed(ErrorKind, Span, Seq<char>),
    /// The value of this argument is wanted. Where it is unevaluated, it is to be evaluated
    /// in the scope of the caller.
    Argument(PendingView, ArgPayloadView, Span),
    /// The value of this default expression is wanted, evaluated in the scope of what is
    /// called, in which the parameters bound so far are visible.
    Default(PendingView, Seq<Token>),
}

/// The index of the first argument at or after `from` that has the key `key`.
pub open spec fn first_with_key(args: Seq<EntryView>, key: CallArgView, from: int) -> Option<int>
    decreases args.len() - from,
{
    if from < 0 || from >= args.len() {
        None
    } else if args[from].key == key {
        Some(from)
    } else {
        first_with_key(args, key, from + 1)
    }
}

/// The index of the first positional argument at or after `from`.
pub open spec fn first_positional(args: Seq<EntryView>, from: int) -> Option<int>
    decreases args.len() - from,
{
    if from < 0 || from >= args.len() {
        None
    } else if args[from].key is Positional {
        Some(from)
    } else {
        first_positional(args, from + 1)
    }
}

/// The argument that a parameter takes: the first one passed under its name, and failing
/// that the first one passed at its position.
pub open spec fn find_arg(args: Seq<EntryView>, name: Seq<char>, position: nat) -> Option<int> {
    match first_with_key(args, CallArgView::Named(name), 0) {
        Some(k) => Some(k),
        None => first_with_key(args, CallArgView::Positional(position), 0),
    }
}

/// The argument that a variadic parameter takes next: the first positional one, and once
/// there is none, the first one. Meant for a call with arguments left.
pub open spec fn next_for_rest(args: Seq<EntryView>) -> int {
    match first_positional(args, 0) {
        Some(k) => k,
        None => 0,
    }
}

pub open spec fn key_name(key: CallArgView) -> Option<Seq<char>> {
    match key {
        CallArgView::Named(n) => Some(n),
        CallArgView::Positional(_) => None,
    }
}

/// One step of binding.
///
/// With no parameter left, arguments that are left over are a failure. A variadic parameter
/// takes every argument that is left, one per step, positional ones first, and is bound when
/// none is left; binding ends there. Any other parameter takes the argument passed under its
/// name or at its position; with no such argument its default is wanted; with no default
/// either the argument is missing.
pub open spec fn bind_step(b: BinderView) -> StepView {
    if b.params.len() == 0 {
        if b.args.len() > 0 {
            StepView::Failed(ErrorKind::SurplusArgument, b.span, Seq::empty())
        } else {
            StepView::Done(b.scope, None)
        }
    } else {
        let p = b.params[0];
        if p.is_variadic {
            if b.args.len() == 0 {
                StepView::Done(b.scope, Some((p.name, b.rest)))
            } else {
                let k = next_for_rest(b.args);
                StepView::Argument(
                    PendingView {
                        binder: BinderView { args: b.args.remove(k), ..b },
                        slot: SlotView::Rest(key_name(b.args[k].key), b.args[k].span),
                    },
                    b.args[k].payload,
                    b.args[k].span,
                )
            }
        } else {
            let after = BinderView { params: b.params.skip(1), position: b.position + 1, ..b };
            match find_arg(b.args, p.name, b.position) {
                Some(k) => StepView::Argument(
                    PendingView {
                        binder: BinderView { args: b.args.remove(k), ..after },
                        slot: SlotView::Param(p.name),
                    },
                    b.args[k].payload,
                    b.args[k].span,
                ),
                None => match p.default {
                    Some(d) => StepView::Default(
                        PendingView { binder: after, slot: SlotView::Param(p.name) },
                        d,
                    ),
                    None => StepView::Failed(ErrorKind::MissingArgument, b.span, p.name),
                },
            }
        }
    }
}

/// The binding that goes on when `value` is supplied to a waiting one.
pub open spec fn supplied(p: PendingView, value: Value) -> BinderView {
    match p.slot {
        SlotView::Param(name) => BinderView {
            scope: p.binder.scope.push((name, value)),
            ..p.binder
        },
        SlotView::Rest(name, span) => BinderView {
            rest: p.binder.rest.push(ArgListItemView { value, name, span }),
            ..p.binder
        },
    }
}

/// The binding of `params` to `args` before its first step.
pub open spec fn bind_start(params: Seq<FuncArgView>, args: CallArgsView) -> BinderView {
    BinderView {
        params,
        position: 0,
        args: args.entries,
        span: args.span,
        scope: Seq::empty(),
        rest: Seq::empty(),
    }
}

/// Whether `scope` holds the bindings `fixed`, followed by the binding of the variadic
/// parameter to its list where there is one.
pub open spec fn scope_holds(
    scope: Seq<(Seq<char>, Value)>,
    fixed: Seq<(Seq<char>, Value)>,
    rest: Option<(Seq<char>, Seq<ArgListItemView>)>,
) -> bool {
    match rest {
        None => scope == fixed,
        Some((name, items)) => scope.len() == fixed.len() + 1 && scope.drop_last() == fixed
            && scope.last().0 == name && (scope.last().1 matches Value::ArgList(list)
            && items_view(list@) == items),
    }
}

/// A binding in progress.
#[derive(Debug)]
pub struct Binder {
    params: Vec<FuncArg>,
    position: usize,
    args: CallArgs,
    scope: Scope,
    rest: Vec<ArgListItem>,
}

#[derive(Debug)]
enum Slot {
    Param(String),
    Rest(Option<String>, Span),
}

/// A binding that waits for the value it asked for.
#[derive(Debug)]
pub struct Pending {
    binder: Binder,
    slot: Slot,
}

/// What a step of binding comes to.
#[derive(Debug)]
pub enum BindStep {
    /// All parameters are bound.
    Done(Scope),
    Failed(SassError),
    /// The value of this argument is wanted: where it is unevaluated, that of its expression
    /// in the scope of the caller.
    Argument(Pending, ArgPayload, Span),
    /// The value of this default expression is wanted, in the scope of what is called.
    Default(Pending, Vec<Token>),
}

impl View for Binder {
    type V = BinderView;

    closed spec fn view(&self) -> BinderView {
        BinderView {
            params: params_view(self.params@),
            position: self.position as nat,
            args: self.args@.entries,
            span: self.args@.span,
            scope: self.scope@,
            rest: items_view(self.rest@),
        }
    }
}

impl View for Slot {
    type V = SlotView;

    closed spec fn view(&self) -> SlotView {
        match self {
            Slot::Param(n) => SlotView::Param(n@),
            Slot::Rest(n, span) => SlotView::Rest(
                match n {
                    Some(n) => Some(n@),
                    None => None,
                },
                *span,
            ),
        }
    }
}

impl View for Pending {
    type V = PendingView;

    closed spec fn view(&self) -> PendingView {
        PendingView { binder: self.binder@, slot: self.slot@ }
    }
}

/// Whether `r` is the step `want`.
pub open spec fn step_is(want: StepView, r: BindStep) -> bool {
    match want {
        StepView::Done(fixed, rest) => r matches BindStep::Done(scope) && scope_holds(
            scope@,
            fixed,
            rest,
        ),
        StepView::Failed(kind, at, detail) => r matches BindStep::Failed(e) && e.is(
            kind,
            at,
            detail,
        ),
        StepView::Argument(p, payload, span) => r matches BindStep::Argument(q, found, at) && q@
            == p && found@ == payload && at == span,
        StepView::Default(p, expr) => r matches BindStep::Default(q, found) && q@ == p && found@
            == expr,
    }
}

pub proof fn lemma_entries_view_remove(es: Seq<CallArgEntry>, k: int)
    requires
        0 <= k < es.len(),
    ensures
        entries_view(es.remove(k)) == entries_view(es).remove(k),
        entries_view(es)[k] == es[k]@,
{
    assert(entries_view(es.remove(k)) =~= entries_view(es).remove(k));
}

pub proof fn lemma_first_with_key_bounds(args: Seq<EntryView>, key: CallArgView, from: int)
    requires
        0 <= from,
    ensures
        first_with_key(args, key, from) matches Some(k) ==> from <= k < args.len() && args[k].key
            == key,
    decreases args.len() - from,
{
    if from < args.len() && args[from].key != key {
        lemma_first_with_key_bounds(args, key, from + 1);
    }
}

pub proof fn lemma_first_positional_bounds(args: Seq<EntryView>, from: int)
    requires
        0 <= from,
    ensures
        first_positional(args, from) matches Some(k) ==> from <= k < args.len()
            && args[k].key is Positional,
    decreases args.len() - from,
{
    if from < args.len() && !(args[from].key is Positional) {
        lemma_first_positional_bounds(args, from + 1);
    }
}

fn find_named(entries: &Vec<CallArgEntry>, name: &str) -> (r: Option<usize>)
    ensures
        match first_with_key(entries_view(entries@), CallArgView::Named(name@), 0) {
            Some(k) => r == Some(k as usize),
            None => r is None,
        },
{
    let ghost key = CallArgView::Named(name@);
    let mut i: usize = 0;
    while i < entries.len()
        invariant
            i <= entries.len(),
            key == CallArgView::Named(name@),
            first_with_key(entries_view(entries@), key, i as int) == first_with_key(
                entries_view(entries@),
                key,
                0,
            ),
        decreases entries.len() - i,
    {
        let hit = match &entries[i].key {
            CallArg::Named(n) => same_text(n.as_str(), name),
            CallArg::Positional(_) => false,
        };
        if hit {
            return Some(i);
        }
        i = i + 1;
    }
    None
}

fn find_positional(entries: &Vec<CallArgEntry>, position: usize) -> (r: Option<usize>)
    ensures
        match first_with_key(
            entries_view(entries@),
            CallArgView::Positional(position as nat),
            0,
        ) {
            Some(k) => r == Some(k as usize),
            None => r is None,
        },
{
    let ghost key = CallArgView::Positional(position as nat);
    let mut i: usize = 0;
    while i < entries.len()
        invariant
            i <= entries.len(),
            key == CallArgView::Positional(position as nat),
            first_with_key(entries_view(entries@), key, i as int) == first_with_key(
                entries_view(entries@),
                key,
                0,
            ),
        decreases entries.len() - i,
    {
        let hit = match &entries[i].key {
            CallArg::Named(_) => false,
            CallArg::Positional(p) => *p == position,
        };
        if hit {
            return Some(i);
        }
        i = i + 1;
    }
    None
}

fn find_any_positional(entries: &Vec<CallArgEntry>) -> (r: Option<usize>)
    ensures
        match first_positional(entries_view(entries@), 0) {
            Some(k) => r == Some(k as usize),
            None => r is None,
        },
{
    let mut i: usize = 0;
    while i < entries.len()
        invariant
            i <= entries.len(),
            first_positional(entries_view(entries@), i as int) == first_positional(
                entries_view(entries@),
                0,
            ),
        decreases entries.len() - i,
    {
        let hit = match &entries[i].key {
            CallArg::Named(_) => false,
            CallArg::Positional(_) => true,
        };
        if hit {
            return Some(i);
        }
        i = i + 1;
    }
    None
}

impl Binder {
    /// The parameters dealt with and those to come are together as many as the list held.
    #[verifier::type_invariant]
    spec fn counted(self) -> bool {
        self.position + self.params@.len() <= usize::MAX
    }

    /// Starts binding `args` to `params`.
    pub fn new(params: FuncArgs, args: CallArgs) -> (b: Binder)
        ensures
            b@ == bind_start(params@, args@),
    {
        assert(params.0.len() <= usize::MAX);
        let b = Binder { params: params.0, position: 0, args, scope: Scope::new(), rest: Vec::new() };
        assert(items_view(b.rest@) =~= Seq::empty());
        b
    }

    /// Takes the next step.
    pub fn step(self) -> (r: BindStep)
        ensures
            step_is(bind_step(self@), r),
    {
        proof {
            use_type_invariant(&self);
        }
        let Binder { params, position, args, scope, rest } = self;
        let mut params = params;
        let mut args = args;
        let mut scope = scope;
        if params.len() == 0 {
            if args.entries.len() > 0 {
                proof {
                    reveal_strlit("");
                    assert(""@ =~= Seq::<char>::empty());
                }
                return BindStep::Failed(SassError::new(ErrorKind::SurplusArgument, args.span, ""));
            }
            return BindStep::Done(scope);
        }
        if params[0].is_variadic {
            if args.entries.len() == 0 {
                let p = params.remove(0);
                let ghost fixed = scope@;
                let list = Value::ArgList(rest);
                scope.insert_var(p.name, list);
                proof {
                    assert(scope@.drop_last() == fixed);
                }
                return BindStep::Done(scope);
            }
            let k = match find_any_positional(&args.entries) {
                Some(k) => k,
                None => 0,
            };
            proof {
                lemma_first_positional_bounds(entries_view(args.entries@), 0);
                lemma_entries_view_remove(args.entries@, k as int);
            }
            let entry = args.entries.remove(k);
            let name = match entry.key {
                CallArg::Named(n) => Some(n),
                CallArg::Positional(_) => None,
            };
            let pending = Pending {
                binder: Binder { params, position, args, scope, rest },
                slot: Slot::Rest(name, entry.span),
            };
            return BindStep::Argument(pending, entry.payload, entry.span);
        }
        let ghost before = params@;
        let p = params.remove(0);
        proof {
            assert(params_view(before.remove(0)) =~= params_view(before).skip(1));
            assert(params_view(before)[0] == before[0]@);
        }
        let found = match find_named(&args.entries, p.name.as_str()) {
            Some(k) => Some(k),
            None => find_positional(&args.entries, position),
        };
        match found {
            Some(k) => {
                proof {
                    lemma_first_with_key_bounds(
                        entries_view(args.entries@),
                        CallArgView::Named(p.name@),
                        0,
                    );
                    lemma_first_with_key_bounds(
                        entries_view(args.entries@),
                        CallArgView::Positional(position as nat),
                        0,
                    );
                    lemma_entries_view_remove(args.entries@, k as int);
                }
                let entry = args.entries.remove(k);
                let pending = Pending {
                    binder: Binder { params, position: position + 1, args, scope, rest },
                    slot: Slot::Param(p.name),
                };
                BindStep::Argument(pending, entry.payload, entry.span)
            },
            None => match p.default {
                Some(d) => {
                    let pending = Pending {
                        binder: Binder { params, position: position + 1, args, scope, rest },
                        slot: Slot::Param(p.name),
                    };
                    BindStep::Default(pending, d)
                },
                None => BindStep::Failed(
                    SassError {
                        kind: ErrorKind::MissingArgument,
                        span: args.span,
                        detail: p.name,
                    },
                ),
            },
        }
    }
}

impl Pending {
    /// What is bound so far: the scope that a default expression is evaluated in.
    pub fn scope(&self) -> (s: &Scope)
        ensures
            s@ == self@.binder.scope,
    {
        &self.binder.scope
    }

    /// Goes on with the value that was asked for.
    pub fn supply(self, value: Value) -> (b: Binder)
        ensures
            b@ == supplied(self@, value),
    {
        let Pending { binder, slot } = self;
        proof {
            use_type_invariant(&binder);
        }
        let Binder { params, position, args, scope, rest } = binder;
        let mut scope = scope;
        let mut rest = rest;
        match slot {
            Slot::Param(name) => {
                scope.insert_var(name, value);
            },
            Slot::Rest(name, span) => {
                let item = ArgListItem { value, name, span };
                proof {
                    assert(items_view(rest@.push(item)) =~= items_view(rest@).push(item@));
                }
                rest.push(item);
            },
        }
        Binder { params, position, args, scope, rest }
    }
}

} // verus!
