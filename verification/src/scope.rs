//! Variable scopes: the bindings of one invocation, and the stack of scopes that names are
//! resolved in, innermost first.

use crate::text::same_text;
use crate::value::Value;
use vstd::prelude::*;

verus! {

/// The value that a name is bound to in a list of bindings: that of its latest binding.
pub open spec fn bound_value(bindings: Seq<(Seq<char>, Value)>, name: Seq<char>) -> Option<Value>
    decreases bindings.len(),
{
    if bindings.len() == 0 {
        None
    } else if bindings.last().0 == name {
        Some(bindings.last().1)
    } else {
        bound_value(bindings.drop_last(), name)
    }
}

/// The value that a name resolves to in a stack of scopes: that of the innermost scope that
/// binds it. The last scope of the stack is the innermost.
pub open spec fn resolved_value(stack: Seq<Seq<(Seq<char>, Value)>>, name: Seq<char>) -> Option<
    Value,
>
    decreases stack.len(),
{
    if stack.len() == 0 {
        None
    } else {
        match bound_value(stack.last(), name) {
            Some(v) => Some(v),
            None => resolved_value(stack.drop_last(), name),
        }
    }
}

/// The variables of one scope, in the order in which they were bound.
#[derive(Debug)]
pub struct Scope {
    vars: Vec<(String, Value)>,
}

pub open spec fn binding_view(b: (String, Value)) -> (Seq<char>, Value) {
    (b.0@, b.1)
}

impl View for Scope {
    type V = Seq<(Seq<char>, Value)>;

    closed spec fn view(&self) -> Seq<(Seq<char>, Value)> {
        self.vars@.map_values(|b: (String, Value)| binding_view(b))
    }
}

impl Scope {
    pub fn new() -> (s: Scope)
        ensures
            s@ == Seq::<(Seq<char>, Value)>::empty(),
    {
        let s = Scope { vars: Vec::new() };
        assert(s@ =~= Seq::empty());
        s
    }

    pub fn len(&self) -> (n: usize)
        ensures
            n == self@.len(),
    {
        self.vars.len()
    }

    /// Binds `name` to `value`. An earlier binding of the name is shadowed.
    pub fn insert_var(&mut self, name: String, value: Value)
        ensures
            final(self)@ == old(self)@.push((name@, value)),
            bound_value(final(self)@, name@) == Some(value),
    {
        proof {
            assert(self.vars@.push((name, value)).map_values(|b: (String, Value)| binding_view(b))
                =~= self@.push((name@, value)));
        }
        self.vars.push((name, value));
    }

    /// The value that `name` is bound to, if it is bound.
    pub fn get_var(&self, name: &str) -> (r: Option<&Value>)
        ensures
            match bound_value(self@, name@) {
                Some(v) => r == Some(&v),
                None => r is None,
            },
    {
        let mut i: usize = self.vars.len();
        proof {
            assert(self@.take(i as int) == self@);
        }
        while i > 0
            invariant
                i <= self.vars.len(),
                self@.len() == self.vars.len(),
                bound_value(self@, name@) == bound_value(self@.take(i as int), name@),
            decreases i,
        {
            i = i - 1;
            proof {
                assert(self@.take(i + 1).drop_last() == self@.take(i as int));
                assert(self@.take(i + 1).last() == binding_view(self.vars@[i as int]));
            }
            if same_text(self.vars[i].0.as_str(), name) {
                return Some(&self.vars[i].1);
            }
        }
        None
    }
}

/// The scopes that are open, outermost first.
#[derive(Debug)]
pub struct Scopes {
    stack: Vec<Scope>,
}

impl View for Scopes {
    type V = Seq<Seq<(Seq<char>, Value)>>;

    closed spec fn view(&self) -> Seq<Seq<(Seq<char>, Value)>> {
        self.stack@.map_values(|s: Scope| s@)
    }
}

impl Scopes {
    pub fn new() -> (s: Scopes)
        ensures
            s@ == Seq::<Seq<(Seq<char>, Value)>>::empty(),
    {
        let s = Scopes { stack: Vec::new() };
        assert(s@ =~= Seq::empty());
        s
    }

    pub fn depth(&self) -> (n: usize)
        ensures
            n == self@.len(),
    {
        self.stack.len()
    }

    /// Opens an empty scope inside the others.
    pub fn enter_new_scope(&mut self)
        ensures
            final(self)@ == old(self)@.push(Seq::empty()),
    {
        let s = Scope::new();
        proof {
            assert(self.stack@.push(s).map_values(|s: Scope| s@) =~= self@.push(Seq::empty()));
        }
        self.stack.push(s);
    }

    /// Opens `scope` inside the others.
    pub fn enter_scope(&mut self, scope: Scope)
        ensures
            final(self)@ == old(self)@.push(scope@),
    {
        proof {
            assert(self.stack@.push(scope).map_values(|s: Scope| s@) =~= self@.push(scope@));
        }
        self.stack.push(scope);
    }

    /// Closes the innermost scope and hands it back, if there is one.
    pub fn exit_scope(&mut self) -> (r: Option<Scope>)
        ensures
            old(self)@.len() == 0 ==> r is None && final(self)@ == old(self)@,
            old(self)@.len() > 0 ==> (r matches Some(s) && s@ == old(self)@.last() && final(self)@
                == old(self)@.drop_last()),
    {
        let r = self.stack.pop();
        proof {
            assert(self@ =~= if old(self)@.len() > 0 {
                old(self)@.drop_last()
            } else {
                old(self)@
            });
        }
        r
    }

    /// Binds `name` to `value` in the innermost scope. With no scope open, one is opened.
    pub fn insert_var(&mut self, name: String, value: Value)
        ensures
            old(self)@.len() == 0 ==> final(self)@ == seq![seq![(name@, value)]],
            old(self)@.len() > 0 ==> final(self)@ == old(self)@.drop_last().push(
                old(self)@.last().push((name@, value)),
            ),
            resolved_value(final(self)@, name@) == Some(value),
    {
        let mut inner = match self.stack.pop() {
            Some(s) => s,
            None => Scope::new(),
        };
        let ghost below = self@;
        inner.insert_var(name, value);
        proof {
            assert(self.stack@.push(inner).map_values(|s: Scope| s@) =~= below.push(inner@));
            assert(below =~= if old(self)@.len() > 0 {
                old(self)@.drop_last()
            } else {
                old(self)@
            });
            assert(below.push(inner@).drop_last() == below);
        }
        self.stack.push(inner);
    }

    /// The value that `name` resolves to where `inner` is opened inside the scopes: that of
    /// `inner` if it binds the name, else what the name resolves to without it.
    pub fn get_var_inside<'a>(&'a self, inner: &'a Scope, name: &str) -> (r: Option<&'a Value>)
        ensures
            match resolved_value(self@.push(inner@), name@) {
                Some(v) => r == Some(&v),
                None => r is None,
            },
    {
        proof {
            assert(self@.push(inner@).last() == inner@);
            assert(self@.push(inner@).drop_last() == self@);
        }
        match inner.get_var(name) {
            Some(v) => Some(v),
            None => self.get_var(name),
        }
    }

    /// The value that `name` resolves to: that of the innermost scope that binds it.
    pub fn get_var(&self, name: &str) -> (r: Option<&Value>)
        ensures
            match resolved_value(self@, name@) {
                Some(v) => r == Some(&v),
                None => r is None,
            },
    {
        let mut i: usize = self.stack.len();
        proof {
            assert(self@.take(i as int) == self@);
        }
        while i > 0
            invariant
                i <= self.stack.len(),
                self@.len() == self.stack.len(),
                resolved_value(self@, name@) == resolved_value(self@.take(i as int), name@),
            decreases i,
        {
            i = i - 1;
            proof {
                assert(self@.take(i + 1).drop_last() == self@.take(i as int));
                assert(self@.take(i + 1).last() == self.stack@[i as int]@);
            }
            match self.stack[i].get_var(name) {
                Some(v) => {
                    return Some(v);
                },
                None => {},
            }
        }
        None
    }
}

/// A name that the innermost scope binds resolves to the value it has there, whatever the
/// enclosing scopes bind it to.
pub proof fn lemma_inner_binding_shadows(
    outer: Seq<Seq<(Seq<char>, Value)>>,
    inner: Seq<(Seq<char>, Value)>,
    name: Seq<char>,
)
    requires
        bound_value(inner, name) is Some,
    ensures
        resolved_value(outer.push(inner), name) == bound_value(inner, name),
{
    assert(outer.push(inner).last() == inner);
}

/// A name that the innermost scope does not bind resolves as it does in the enclosing scopes.
pub proof fn lemma_unbound_resolves_outside(
    outer: Seq<Seq<(Seq<char>, Value)>>,
    inner: Seq<(Seq<char>, Value)>,
    name: Seq<char>,
)
    requires
        bound_value(inner, name) is None,
    ensures
        resolved_value(outer.push(inner), name) == resolved_value(outer, name),
{
    assert(outer.push(inner).last() == inner);
    assert(outer.push(inner).drop_last() == outer);
}

} // verus!
