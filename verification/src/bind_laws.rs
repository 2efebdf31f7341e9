//! What holds of every binding, stated over whole runs: a binding is run by taking steps and
//! supplying, for each value that a step asks for, the next of a list of values.

use crate::bind::bind_start;
use crate::bind::bind_step;
use crate::bind::first_positional;
use crate::bind::first_with_key;
use crate::bind::key_name;
use crate::bind::lemma_first_positional_bounds;
use crate::bind::lemma_first_with_key_bounds;
use crate::bind::next_for_rest;
use crate::bind::supplied;
use crate::bind::ArgListItemView;
use crate::bind::BinderView;
use crate::bind::PendingView;
use crate::bind::SlotView;
use crate::bind::StepView;
use crate::call_args::CallArgView;
use crate::call_args::CallArgsView;
use crate::call_args::EntryView;
use crate::error::ErrorKind;
use crate::params::FuncArgView;
use crate::span::Span;
use crate::value::Value;
use vstd::prelude::*;

verus! {

/// How a run of binding ends.
pub enum RunView {
    /// All parameters are bound: the bindings of the fixed parameters, and the name and list
    /// of the variadic parameter if there is one.
    Bound(Seq<(Seq<char>, Value)>, Option<(Seq<char>, Seq<ArgListItemView>)>),
    Failed(ErrorKind, Span, Seq<char>),
    /// A value was asked for and none was left to supply.
    Starved,
}

/// Runs a binding to its end, supplying `values` in order, one for each value asked for.
pub open spec fn bind_run(b: BinderView, values: Seq<Value>) -> RunView
    decreases values.len(),
{
    match bind_step(b) {
        StepView::Done(fixed, rest) => RunView::Bound(fixed, rest),
        StepView::Failed(kind, at, detail) => RunView::Failed(kind, at, detail),
        StepView::Argument(p, _, _) => if values.len() == 0 {
            RunView::Starved
        } else {
            bind_run(supplied(p, values[0]), values.skip(1))
        },
        StepView::Default(p, _) => if values.len() == 0 {
            RunView::Starved
        } else {
            bind_run(supplied(p, values[0]), values.skip(1))
        },
    }
}

/// Whether an argument with this key is among `args`.
pub open spec fn has_key(args: Seq<EntryView>, key: CallArgView) -> bool {
    exists|k: int| 0 <= k < args.len() && (#[trigger] args[k]).key == key
}

/// Whether an argument is passed for the parameter `name` at `position`.
pub open spec fn passed(args: Seq<EntryView>, name: Seq<char>, position: nat) -> bool {
    has_key(args, CallArgView::Named(name)) || has_key(args, CallArgView::Positional(position))
}

/// The order in which a variadic parameter takes the arguments that are left: positional
/// ones first, then the others, each group in the order of the call.
pub open spec fn rest_order(args: Seq<EntryView>) -> Seq<EntryView>
    decreases args.len(),
{
    if args.len() == 0 {
        Seq::empty()
    } else {
        let k = next_for_rest(args);
        proof {
            lemma_first_positional_bounds(args, 0);
        }
        seq![args[k]] + rest_order(args.remove(k))
    }
}

/// The list that a variadic parameter collects from `args` when the values supplied for
/// them are `values`, in the order in which they are asked for.
pub open spec fn collected(args: Seq<EntryView>, values: Seq<Value>) -> Seq<ArgListItemView> {
    Seq::new(
        args.len(),
        |k: int|
            ArgListItemView {
                value: values[k],
                name: key_name(rest_order(args)[k].key),
                span: rest_order(args)[k].span,
            },
    )
}

pub proof fn lemma_first_with_key_finds(args: Seq<EntryView>, key: CallArgView, from: int)
    requires
        0 <= from,
    ensures
        first_with_key(args, key, from) is Some <==> exists|k: int|
            from <= k < args.len() && (#[trigger] args[k]).key == key,
    decreases args.len() - from,
{
    if from < args.len() {
        if args[from].key == key {
            assert(args[from].key == key);
        } else {
            lemma_first_with_key_finds(args, key, from + 1);
        }
    }
}

pub proof fn lemma_rest_order_len(args: Seq<EntryView>)
    ensures
        rest_order(args).len() == args.len(),
    decreases args.len(),
{
    if args.len() > 0 {
        lemma_first_positional_bounds(args, 0);
        lemma_rest_order_len(args.remove(next_for_rest(args)));
    }
}

/// Where no positional argument stands behind a named one, a variadic parameter takes the
/// arguments that are left in the order of the call.
pub proof fn lemma_rest_order_is_call_order(args: Seq<EntryView>)
    requires
        forall|i: int, j: int|
            0 <= i < j < args.len() && (#[trigger] args[j]).key is Positional ==> (
            #[trigger] args[i]).key is Positional,
    ensures
        rest_order(args) == args,
    decreases args.len(),
{
    if args.len() > 0 {
        lemma_first_positional_bounds(args, 0);
        if !(args[0].key is Positional) {
            match first_positional(args, 0) {
                Some(k) => {
                    assert(args[k].key is Positional);
                    assert(args[0].key is Positional);
                },
                None => {},
            }
        }
        assert(next_for_rest(args) == 0);
        assert(args.remove(0) == args.skip(1));
        assert forall|i: int, j: int|
            0 <= i < j < args.skip(1).len() && (#[trigger] args.skip(1)[j]).key
                is Positional implies (#[trigger] args.skip(1)[i]).key is Positional by {
            assert(args[j + 1].key is Positional);
            assert(args[i + 1].key is Positional);
        }
        lemma_rest_order_is_call_order(args.skip(1));
        assert(seq![args[0]] + args.skip(1) == args);
    }
}

/// A variadic parameter takes every argument that is left. With one value supplied for each
/// of them the binding succeeds, and the list bound to the parameter holds those values in
/// the order of `rest_order`, behind what had been collected before.
pub proof fn lemma_variadic_takes_all(b: BinderView, values: Seq<Value>)
    requires
        b.params.len() > 0,
        b.params[0].is_variadic,
        values.len() >= b.args.len(),
    ensures
        bind_run(b, values) == RunView::Bound(
            b.scope,
            Some((b.params[0].name, b.rest + collected(b.args, values))),
        ),
        collected(b.args, values).len() == b.args.len(),
    decreases b.args.len(),
{
    if b.args.len() == 0 {
        assert(b.rest + collected(b.args, values) =~= b.rest);
    } else {
        let k = next_for_rest(b.args);
        lemma_first_positional_bounds(b.args, 0);
        let p = bind_step(b)->Argument_0;
        let next = supplied(p, values[0]);
        lemma_variadic_takes_all(next, values.skip(1));
        lemma_rest_order_len(b.args);
        lemma_rest_order_len(b.args.remove(k));
        assert(next.rest + collected(next.args, values.skip(1)) =~= b.rest + collected(
            b.args,
            values,
        )) by {
            let left = next.rest + collected(next.args, values.skip(1));
            let right = b.rest + collected(b.args, values);
            assert(left.len() == right.len());
            assert forall|j: int| 0 <= j < left.len() implies left[j] == right[j] by {
                if j < b.rest.len() {
                } else if j == b.rest.len() {
                    assert(rest_order(b.args)[0] == b.args[k]);
                } else {
                    let m = j - b.rest.len();
                    assert(rest_order(b.args)[m] == rest_order(b.args.remove(k))[m - 1]);
                    assert(values.skip(1)[m - 1] == values[m]);
                }
            }
        }
    }
}

/// A call whose parameter list is a single variadic parameter succeeds whatever arguments
/// it passes, and binds the parameter to a list of as many elements as there are arguments.
/// Element `k` is the value supplied for argument `k` of `rest_order`, which is the order of
/// the call where no positional argument stands behind a named one.
pub proof fn lemma_variadic_binds_every_argument(
    param: FuncArgView,
    args: CallArgsView,
    values: Seq<Value>,
)
    requires
        param.is_variadic,
        values.len() == args.entries.len(),
    ensures
        bind_run(bind_start(seq![param], args), values) == RunView::Bound(
            Seq::empty(),
            Some((param.name, collected(args.entries, values))),
        ),
        collected(args.entries, values).len() == args.entries.len(),
        forall|k: int|
            0 <= k < args.entries.len() ==> (#[trigger] collected(args.entries, values)[k]).value
                == values[k],
{
    let b = bind_start(seq![param], args);
    lemma_variadic_takes_all(b, values);
    assert(b.rest + collected(b.args, values) =~= collected(args.entries, values));
}

/// Removing an argument keeps every argument with another key.
pub proof fn lemma_remove_keeps_key(args: Seq<EntryView>, k: int, key: CallArgView)
    requires
        0 <= k < args.len(),
        args[k].key != key,
    ensures
        has_key(args.remove(k), key) == has_key(args, key),
{
    if has_key(args, key) {
        let j = choose|j: int| 0 <= j < args.len() && (#[trigger] args[j]).key == key;
        if j < k {
            assert(args.remove(k)[j] == args[j]);
        } else {
            assert(args.remove(k)[j - 1] == args[j]);
        }
    }
    if has_key(args.remove(k), key) {
        let j = choose|j: int|
            0 <= j < args.remove(k).len() && (#[trigger] args.remove(k)[j]).key == key;
        if j < k {
            assert(args[j] == args.remove(k)[j]);
        } else {
            assert(args[j + 1] == args.remove(k)[j]);
        }
    }
}

/// The arguments that are left when the first `count` of `params` have each taken theirs,
/// the first of them standing at `position`.
pub open spec fn args_after(
    args: Seq<EntryView>,
    params: Seq<FuncArgView>,
    position: nat,
    count: int,
) -> Seq<EntryView>
    decreases count,
{
    if count <= 0 || params.len() == 0 {
        args
    } else {
        let left = match crate::bind::find_arg(args, params[0].name, position) {
            Some(k) => args.remove(k),
            None => args,
        };
        args_after(left, params.skip(1), position + 1, count - 1)
    }
}

/// Whether parameter `j` of those still to be bound finds an argument among those that
/// the parameters before it leave.
pub open spec fn finds_argument(b: BinderView, j: int) -> bool {
    crate::bind::find_arg(
        args_after(b.args, b.params, b.position, j),
        b.params[j].name,
        (b.position + j) as nat,
    ) is Some
}

/// A binding fails on the first parameter that has no default and finds no argument among
/// those that the parameters before it leave, and names it, once a value has been supplied
/// for each parameter before it.
pub proof fn lemma_first_unbound_fails(b: BinderView, values: Seq<Value>, i: int)
    requires
        0 <= i < b.params.len(),
        values.len() >= i,
        forall|j: int| 0 <= j <= i ==> !(#[trigger] b.params[j]).is_variadic,
        forall|j: int|
            0 <= j < i ==> (#[trigger] b.params[j]).default is Some || finds_argument(b, j),
        b.params[i].default is None,
        !finds_argument(b, i),
    ensures
        bind_run(b, values) == RunView::Failed(
            ErrorKind::MissingArgument,
            b.span,
            b.params[i].name,
        ),
    decreases i,
{
    let p = b.params[0];
    lemma_first_with_key_bounds(b.args, CallArgView::Named(p.name), 0);
    lemma_first_with_key_bounds(b.args, CallArgView::Positional(b.position), 0);
    if i > 0 {
        assert(b.params[0].default is Some || finds_argument(b, 0));
        let pending = match bind_step(b) {
            StepView::Argument(q, _, _) => q,
            StepView::Default(q, _) => q,
            _ => arbitrary(),
        };
        let next = supplied(pending, values[0]);
        assert(next.params == b.params.skip(1));
        assert forall|j: int| 0 <= j <= i - 1 implies args_after(
            next.args,
            next.params,
            next.position,
            j,
        ) == args_after(b.args, b.params, b.position, j + 1) by {}
        assert forall|j: int| 0 <= j < i - 1 implies (#[trigger] next.params[j]).default is Some
            || finds_argument(next, j) by {
            assert(next.params[j] == b.params[j + 1]);
            assert(b.params[j + 1].default is Some || finds_argument(b, j + 1));
        }
        assert forall|j: int| 0 <= j <= i - 1 implies !(#[trigger] next.params[j]).is_variadic by {
            assert(next.params[j] == b.params[j + 1]);
        }
        assert(next.params[i - 1] == b.params[i]);
        lemma_first_unbound_fails(next, values.skip(1), i - 1);
    }
}

/// Whether parameter `j` of those still to be bound is sure of a value: it has a default, or
/// an argument at its position, or an argument under its name that no parameter before it
/// shares.
pub open spec fn served(b: BinderView, j: int) -> bool {
    ||| b.params[j].default is Some
    ||| has_key(b.args, CallArgView::Positional((b.position + j) as nat))
    ||| (has_key(b.args, CallArgView::Named(b.params[j].name)) && forall|k: int|
        0 <= k < j ==> (#[trigger] b.params[k]).name != b.params[j].name)
}

/// The first parameter that neither finds an argument nor has a default is the one that a
/// binding fails on, once a value has been supplied for each parameter before it.
///
/// `b` is a binding at any stage; `i` counts from the first parameter that is still to be
/// bound. The parameters up to `i` are not variadic. Each parameter before `i` has a default,
/// or an argument at its position, or an argument under its name that no parameter before it
/// shares.
pub proof fn lemma_first_missing_fails(b: BinderView, values: Seq<Value>, i: int)
    requires
        0 <= i < b.params.len(),
        values.len() >= i,
        forall|j: int| 0 <= j <= i ==> !(#[trigger] b.params[j]).is_variadic,
        forall|j: int| 0 <= j < i ==> served(b, j),
        b.params[i].default is None,
        !passed(b.args, b.params[i].name, (b.position + i) as nat),
    ensures
        bind_run(b, values) == RunView::Failed(
            ErrorKind::MissingArgument,
            b.span,
            b.params[i].name,
        ),
    decreases i,
{
    let p = b.params[0];
    lemma_first_with_key_finds(b.args, CallArgView::Named(p.name), 0);
    lemma_first_with_key_finds(b.args, CallArgView::Positional(b.position), 0);
    lemma_first_with_key_bounds(b.args, CallArgView::Named(p.name), 0);
    lemma_first_with_key_bounds(b.args, CallArgView::Positional(b.position), 0);
    if i == 0 {
    } else {
        assert(served(b, 0));
        assert(b.params[0].default is Some || passed(b.args, p.name, b.position));
        let pending = match bind_step(b) {
            StepView::Argument(q, _, _) => q,
            StepView::Default(q, _) => q,
            _ => arbitrary(),
        };
        let next = supplied(pending, values[0]);
        assert(next.params == b.params.skip(1));
        assert(next.position == b.position + 1);
        assert(next.span == b.span);
        assert forall|j: int| 0 <= j < i - 1 implies served(next, j) by {
            assert(next.params[j] == b.params[j + 1]);
            assert(served(b, j + 1));
            if next.args != b.args {
                let k = crate::bind::find_arg(b.args, p.name, b.position).unwrap();
                lemma_remove_keeps_key(
                    b.args,
                    k,
                    CallArgView::Positional((b.position + j + 1) as nat),
                );
                if has_key(b.args, CallArgView::Named(b.params[j + 1].name)) && forall|k: int|
                    0 <= k < j + 1 ==> (#[trigger] b.params[k]).name != b.params[j + 1].name {
                    assert(b.params[0].name != b.params[j + 1].name);
                    lemma_remove_keeps_key(b.args, k, CallArgView::Named(b.params[j + 1].name));
                    assert forall|m: int| 0 <= m < j implies (#[trigger] next.params[m]).name
                        != next.params[j].name by {
                        assert(next.params[m] == b.params[m + 1]);
                    }
                }
            } else {
                if has_key(b.args, CallArgView::Named(b.params[j + 1].name)) && forall|k: int|
                    0 <= k < j + 1 ==> (#[trigger] b.params[k]).name != b.params[j + 1].name {
                    assert forall|m: int| 0 <= m < j implies (#[trigger] next.params[m]).name
                        != next.params[j].name by {
                        assert(next.params[m] == b.params[m + 1]);
                    }
                }
            }
        }
        assert(!passed(next.args, next.params[i - 1].name, (next.position + i - 1) as nat)) by {
            assert(next.params[i - 1] == b.params[i]);
            if next.args != b.args {
                let k = crate::bind::find_arg(b.args, p.name, b.position).unwrap();
                lemma_remove_drops_no_key_in(b.args, k, CallArgView::Named(b.params[i].name));
                lemma_remove_drops_no_key_in(
                    b.args,
                    k,
                    CallArgView::Positional((b.position + i) as nat),
                );
            }
        }
        assert forall|j: int| 0 <= j <= i - 1 implies !(#[trigger] next.params[j]).is_variadic by {
            assert(next.params[j] == b.params[j + 1]);
        }
        lemma_first_missing_fails(next, values.skip(1), i - 1);
        assert(next.params[i - 1] == b.params[i]);
    }
}

/// Removing an argument adds no key.
pub proof fn lemma_remove_drops_no_key_in(args: Seq<EntryView>, k: int, key: CallArgView)
    requires
        0 <= k < args.len(),
        !has_key(args, key),
    ensures
        !has_key(args.remove(k), key),
{
    if has_key(args.remove(k), key) {
        let j = choose|j: int|
            0 <= j < args.remove(k).len() && (#[trigger] args.remove(k)[j]).key == key;
        if j < k {
            assert(args[j] == args.remove(k)[j]);
        } else {
            assert(args[j + 1] == args.remove(k)[j]);
        }
    }
}

/// A call that passes fewer arguments than the list has parameters, all by position, to
/// parameters that have no default fails on the first parameter that no argument is left
/// for, and names it.
pub proof fn lemma_too_few_arguments(
    params: Seq<FuncArgView>,
    args: CallArgsView,
    values: Seq<Value>,
)
    requires
        args.entries.len() < params.len(),
        values.len() >= args.entries.len(),
        forall|j: int|
            0 <= j < params.len() ==> !(#[trigger] params[j]).is_variadic
                && params[j].default is None,
        forall|k: int|
            0 <= k < args.entries.len() ==> (#[trigger] args.entries[k]).key
                == CallArgView::Positional(k as nat),
    ensures
        bind_run(bind_start(params, args), values) == RunView::Failed(
            ErrorKind::MissingArgument,
            args.span,
            params[args.entries.len() as int].name,
        ),
{
    let b = bind_start(params, args);
    let n = args.entries.len() as int;
    assert forall|j: int| 0 <= j < n implies served(b, j) by {
        assert(args.entries[j].key == CallArgView::Positional(j as nat));
    }
    lemma_first_missing_fails(b, values, n);
}

/// The bindings that `count` parameters make when each is bound to the value supplied for it.
pub open spec fn bound_to(params: Seq<FuncArgView>, values: Seq<Value>, count: int) -> Seq<
    (Seq<char>, Value),
> {
    Seq::new(count as nat, |j: int| (params[j].name, values[j]))
}

/// Parameters with defaults that no argument is passed for take their defaults, and a
/// variadic parameter behind them takes every argument of the call.
///
/// `b` is a binding at any stage whose next `fixed` parameters are such parameters and whose
/// parameter after them is variadic. With one value supplied for each default and each
/// argument, the binding succeeds: the parameters are bound to the first `fixed` values, and
/// the variadic parameter to a list of as many elements as the call has arguments left.
pub proof fn lemma_defaults_then_variadic(b: BinderView, values: Seq<Value>, fixed: int)
    requires
        0 <= fixed < b.params.len(),
        b.params[fixed].is_variadic,
        values.len() >= fixed + b.args.len(),
        forall|j: int|
            0 <= j < fixed ==> !(#[trigger] b.params[j]).is_variadic && b.params[j].default is Some
                && !passed(b.args, b.params[j].name, (b.position + j) as nat),
    ensures
        bind_run(b, values) == RunView::Bound(
            b.scope + bound_to(b.params, values, fixed),
            Some((b.params[fixed].name, b.rest + collected(b.args, values.skip(fixed)))),
        ),
        collected(b.args, values.skip(fixed)).len() == b.args.len(),
    decreases fixed,
{
    if fixed == 0 {
        lemma_variadic_takes_all(b, values);
        assert(values.skip(0) =~= values);
        assert(b.scope + bound_to(b.params, values, 0) =~= b.scope);
    } else {
        let p = b.params[0];
        lemma_first_with_key_finds(b.args, CallArgView::Named(p.name), 0);
        lemma_first_with_key_finds(b.args, CallArgView::Positional(b.position), 0);
        assert(!passed(b.args, p.name, b.position));
        let pending = bind_step(b)->Default_0;
        let next = supplied(pending, values[0]);
        assert forall|j: int| 0 <= j < fixed - 1 implies !(#[trigger] next.params[j]).is_variadic
            && next.params[j].default is Some && !passed(
            next.args,
            next.params[j].name,
            (next.position + j) as nat,
        ) by {
            assert(next.params[j] == b.params[j + 1]);
        }
        assert(next.params[fixed - 1] == b.params[fixed]);
        lemma_defaults_then_variadic(next, values.skip(1), fixed - 1);
        assert(values.skip(1).skip(fixed - 1) =~= values.skip(fixed));
        assert(next.scope + bound_to(next.params, values.skip(1), fixed - 1) =~= b.scope
            + bound_to(b.params, values, fixed)) by {
            let left = next.scope + bound_to(next.params, values.skip(1), fixed - 1);
            let right = b.scope + bound_to(b.params, values, fixed);
            assert(left.len() == right.len());
            assert forall|j: int| 0 <= j < left.len() implies left[j] == right[j] by {
                if j > b.scope.len() {
                    let m = j - b.scope.len();
                    assert(next.params[m - 1] == b.params[m]);
                    assert(values.skip(1)[m - 1] == values[m]);
                }
            }
        }
    }
}

/// A default expression is evaluated where the parameters bound before it are visible, and
/// there a parameter hides a variable of the same name in the scopes around the call.
///
/// When a step asks for a default, the scope it is to be evaluated in holds what the binding
/// has bound; opened inside any enclosing scopes `outer`, every name bound in it resolves to
/// the value bound in it.
pub proof fn lemma_default_sees_bound_parameters(
    b: BinderView,
    outer: Seq<Seq<(Seq<char>, Value)>>,
    name: Seq<char>,
)
    requires
        bind_step(b) is Default,
        crate::scope::bound_value(b.scope, name) is Some,
    ensures
        bind_step(b)->Default_0.binder.scope == b.scope,
        crate::scope::resolved_value(outer.push(bind_step(b)->Default_0.binder.scope), name)
            == crate::scope::bound_value(b.scope, name),
{
    crate::scope::lemma_inner_binding_shadows(outer, b.scope, name);
}

/// A value supplied for a parameter is what the parameter's name is bound to from then on,
/// until a later parameter of the same name is bound.
pub proof fn lemma_supplied_value_is_bound(p: PendingView, name: Seq<char>, value: Value)
    requires
        p.slot == SlotView::Param(name),
    ensures
        crate::scope::bound_value(supplied(p, value).scope, name) == Some(value),
{
    assert(supplied(p, value).scope.last() == (name, value));
}

/// How many parameters stand before the first variadic one; all of them where none is
/// variadic.
pub open spec fn fixed_count(params: Seq<FuncArgView>) -> int
    decreases params.len(),
{
    if params.len() == 0 || params[0].is_variadic {
        0
    } else {
        1 + fixed_count(params.skip(1))
    }
}

pub proof fn lemma_fixed_count_bounds(params: Seq<FuncArgView>)
    ensures
        0 <= fixed_count(params) <= params.len(),
        fixed_count(params) < params.len() ==> params[fixed_count(params)].is_variadic,
        forall|j: int| 0 <= j < fixed_count(params) ==> !(#[trigger] params[j]).is_variadic,
    decreases params.len(),
{
    if params.len() > 0 && !params[0].is_variadic {
        lemma_fixed_count_bounds(params.skip(1));
        assert forall|j: int| 0 <= j < fixed_count(params) implies !(#[trigger] params[j])
            .is_variadic by {
            if j > 0 {
                assert(params[j] == params.skip(1)[j - 1]);
            }
        }
    }
}

/// Whether `fixed` and `rest` bind exactly the names of `params`, in the order of their
/// declaration, behind the bindings `before`: one binding for each parameter up to the
/// first variadic one, and the list under the name of that one, if there is one.
pub open spec fn binds_names(
    params: Seq<FuncArgView>,
    before: Seq<(Seq<char>, Value)>,
    fixed: Seq<(Seq<char>, Value)>,
    rest: Option<(Seq<char>, Seq<ArgListItemView>)>,
) -> bool {
    let k = fixed_count(params);
    &&& fixed.len() == before.len() + k
    &&& fixed.take(before.len() as int) == before
    &&& forall|j: int| 0 <= j < k ==> (#[trigger] fixed[before.len() + j]).0 == params[j].name
    &&& if k < params.len() {
        rest matches Some((name, _)) && name == params[k].name
    } else {
        rest is None
    }
}

/// A binding that succeeds binds exactly the names of the parameters that were still to be
/// bound, in the order of their declaration, behind what had been bound before.
pub proof fn lemma_run_binds_names(b: BinderView, values: Seq<Value>)
    ensures
        bind_run(b, values) matches RunView::Bound(fixed, rest) ==> binds_names(
            b.params,
            b.scope,
            fixed,
            rest,
        ),
    decreases values.len(),
{
    lemma_fixed_count_bounds(b.params);
    match bind_step(b) {
        StepView::Done(fixed, rest) => {
            assert(fixed.take(b.scope.len() as int) =~= b.scope);
        },
        StepView::Failed(_, _, _) => {},
        StepView::Argument(p, _, _) => {
            if values.len() > 0 {
                lemma_names_after_supply(b, p, values);
            }
        },
        StepView::Default(p, _) => {
            if values.len() > 0 {
                lemma_names_after_supply(b, p, values);
            }
        },
    }
}

proof fn lemma_names_after_supply(b: BinderView, p: PendingView, values: Seq<Value>)
    requires
        values.len() > 0,
        match bind_step(b) {
            StepView::Argument(q, _, _) => q == p,
            StepView::Default(q, _) => q == p,
            _ => false,
        },
    ensures
        bind_run(supplied(p, values[0]), values.skip(1)) matches RunView::Bound(fixed, rest)
            ==> binds_names(b.params, b.scope, fixed, rest),
    decreases values.len(), 0int,
{
    let next = supplied(p, values[0]);
    lemma_run_binds_names(next, values.skip(1));
    lemma_fixed_count_bounds(b.params);
    lemma_first_positional_bounds(b.args, 0);
    match bind_run(next, values.skip(1)) {
        RunView::Bound(fixed, rest) => {
            if b.params[0].is_variadic {
                assert(next.params == b.params);
                assert(next.scope == b.scope);
            } else {
                assert(next.params == b.params.skip(1));
                assert(next.scope == b.scope.push((b.params[0].name, values[0])));
                let k = fixed_count(b.params);
                assert(fixed.take(b.scope.len() as int) =~= fixed.take(
                    next.scope.len() as int,
                ).take(b.scope.len() as int));
                assert(next.scope.take(b.scope.len() as int) =~= b.scope);
                assert forall|j: int| 0 <= j < k implies (#[trigger] fixed[b.scope.len() + j]).0
                    == b.params[j].name by {
                    if j == 0 {
                        assert(fixed.take(next.scope.len() as int)[b.scope.len() as int]
                            == next.scope[b.scope.len() as int]);
                    } else {
                        assert(fixed[next.scope.len() + (j - 1)].0 == next.params[j - 1].name);
                        assert(next.params[j - 1] == b.params[j]);
                    }
                }
                if k < b.params.len() {
                    assert(next.params[k - 1] == b.params[k]);
                }
            }
        },
        _ => {},
    }
}

/// A call that binds binds exactly the names of its parameters, in the order of their
/// declaration.
pub proof fn lemma_bound_names_are_the_parameters(
    params: Seq<FuncArgView>,
    args: CallArgsView,
    values: Seq<Value>,
)
    ensures
        bind_run(bind_start(params, args), values) matches RunView::Bound(fixed, rest)
            ==> binds_names(params, Seq::empty(), fixed, rest),
{
    lemma_run_binds_names(bind_start(params, args), values);
}

} // verus!
