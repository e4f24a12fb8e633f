//! Scopes: where variables are defined and looked up.

use vstd::prelude::*;

use crate::css::{clone_value, CssV, Value};
use crate::error::{Error, ErrorV};
use crate::sass::Function;

verus! {

#[verifier::ext_equal]
/// What a scope holds, as evaluation sees it: the value of each variable
/// that it defines, each function that it defines, the value that the
/// parent selector `&` stands for, and how many calls of user functions
/// may still nest.
pub struct Env {
    pub vars: spec_fn(Seq<char>) -> Option<CssV>,
    pub functions: spec_fn(Seq<char>) -> Option<Function>,
    pub selectors: CssV,
    pub depth: nat,
}

impl Env {
    /// The environment after defining `name` as `v`.
    pub open spec fn define(self, name: Seq<char>, v: CssV) -> Env {
        Env {
            vars: |n: Seq<char>|
                if n == name {
                    Some(v)
                } else {
                    (self.vars)(n)
                },
            functions: self.functions,
            selectors: self.selectors,
            depth: self.depth,
        }
    }

    /// The environment with `depth` calls left to nest.
    pub open spec fn at_depth(self, depth: nat) -> Env {
        Env { vars: self.vars, functions: self.functions, selectors: self.selectors, depth }
    }
}

/// A scope: variables of its own, over an optional parent scope.
pub struct ScopeImpl<'a> {
    parent: Option<&'a ScopeImpl<'a>>,
    variables: Vec<(String, Value)>,
    functions: Vec<(String, Function)>,
    selectors: Value,
    depth: usize,
}

/// The last definition of the function `name` among `fns`.
pub open spec fn local_fn_lookup(fns: Seq<(String, Function)>, name: Seq<char>) -> Option<Function>
    decreases fns.len(),
{
    if fns.len() == 0 {
        None
    } else if fns.last().0@ == name {
        Some(fns.last().1)
    } else {
        local_fn_lookup(fns.drop_last(), name)
    }
}

/// The last definition of `name` among `vars`.
pub open spec fn local_lookup(vars: Seq<(String, Value)>, name: Seq<char>) -> Option<CssV>
    decreases vars.len(),
{
    if vars.len() == 0 {
        None
    } else if vars.last().0@ == name {
        Some(vars.last().1@)
    } else {
        local_lookup(vars.drop_last(), name)
    }
}

impl<'a> ScopeImpl<'a> {
    /// The value of the variable `name`: its definition in this scope, else
    /// in the parent.
    pub closed spec fn lookup(&self, name: Seq<char>) -> Option<CssV>
        decreases self,
    {
        match local_lookup(self.variables@, name) {
            Some(v) => Some(v),
            None => match self.parent {
                Some(p) => p.lookup(name),
                None => None,
            },
        }
    }

    /// The function `name`: its definition in this scope, else in the
    /// parent.
    pub closed spec fn fn_lookup(&self, name: Seq<char>) -> Option<Function>
        decreases self,
    {
        match local_fn_lookup(self.functions@, name) {
            Some(f) => Some(f),
            None => match self.parent {
                Some(p) => p.fn_lookup(name),
                None => None,
            },
        }
    }

    /// How many calls of user functions may still nest in this scope.
    pub closed spec fn call_depth(&self) -> nat {
        self.depth as nat
    }

    /// The value that `&` stands for: that of the outermost scope.
    pub closed spec fn selectors_value(&self) -> CssV
        decreases self,
    {
        match self.parent {
            Some(p) => p.selectors_value(),
            None => self.selectors@,
        }
    }

    /// The scope as evaluation sees it.
    pub open spec fn env(&self) -> Env {
        Env {
            vars: |n: Seq<char>| self.lookup(n),
            functions: |n: Seq<char>| self.fn_lookup(n),
            selectors: self.selectors_value(),
            depth: self.call_depth(),
        }
    }

    /// An outermost scope without variables or functions, where `&` stands
    /// for `selectors`. As many calls may nest as a `usize` counts: the
    /// stack runs out long before the count does.
    pub fn new(selectors: Value) -> (r: ScopeImpl<'a>)
        ensures
            forall|n: Seq<char>| r.lookup(n) is None,
            forall|n: Seq<char>| r.fn_lookup(n) is None,
            r.selectors_value() == selectors@,
            r.call_depth() == usize::MAX,
    {
        Self::with_call_depth(selectors, usize::MAX)
    }

    /// An outermost scope without variables or functions, where `&` stands
    /// for `selectors`, and where at most `depth` calls of user functions
    /// may nest.
    pub fn with_call_depth(selectors: Value, depth: usize) -> (r: ScopeImpl<'a>)
        ensures
            forall|n: Seq<char>| r.lookup(n) is None,
            forall|n: Seq<char>| r.fn_lookup(n) is None,
            r.selectors_value() == selectors@,
            r.call_depth() == depth,
    {
        let r = ScopeImpl {
            parent: None,
            variables: Vec::new(),
            functions: Vec::new(),
            selectors,
            depth,
        };
        assert forall|n: Seq<char>| r.lookup(n) is None by {
            assert(local_lookup(r.variables@, n) is None);
        }
        assert forall|n: Seq<char>| r.fn_lookup(n) is None by {
            assert(local_fn_lookup(r.functions@, n) is None);
        }
        r
    }

    /// A scope inside `parent`, without variables or functions of its own.
    pub fn sub(parent: &'a ScopeImpl<'a>) -> (r: ScopeImpl<'a>)
        ensures
            r.env() == parent.env(),
    {
        let r = ScopeImpl {
            parent: Some(parent),
            variables: Vec::new(),
            functions: Vec::new(),
            selectors: Value::Null,
            depth: parent.depth,
        };
        assert forall|n: Seq<char>| r.lookup(n) == parent.lookup(n) by {
            assert(local_lookup(r.variables@, n) is None);
        }
        assert forall|n: Seq<char>| r.fn_lookup(n) == parent.fn_lookup(n) by {
            assert(local_fn_lookup(r.functions@, n) is None);
        }
        assert(r.env() =~= parent.env());
        r
    }

    /// A scope inside `parent` for the body of a call: without variables
    /// or functions of its own, with one call less left to nest.
    pub fn deeper(parent: &'a ScopeImpl<'a>) -> (r: ScopeImpl<'a>)
        requires
            parent.call_depth() > 0,
        ensures
            r.env() == parent.env().at_depth((parent.call_depth() - 1) as nat),
    {
        let r = ScopeImpl {
            parent: Some(parent),
            variables: Vec::new(),
            functions: Vec::new(),
            selectors: Value::Null,
            depth: parent.depth - 1,
        };
        assert forall|n: Seq<char>| r.lookup(n) == parent.lookup(n) by {
            assert(local_lookup(r.variables@, n) is None);
        }
        assert forall|n: Seq<char>| r.fn_lookup(n) == parent.fn_lookup(n) by {
            assert(local_fn_lookup(r.functions@, n) is None);
        }
        assert(r.env() =~= parent.env().at_depth((parent.call_depth() - 1) as nat));
        r
    }

    /// How many calls of user functions may still nest in this scope.
    pub fn depth(&self) -> (r: usize)
        ensures
            r == self.call_depth(),
    {
        self.depth
    }

    /// Defines the function `name` in this scope.
    pub fn define_function(&mut self, name: &str, f: Function)
        ensures
            forall|n: Seq<char>|
                #![trigger final(self).fn_lookup(n)]
                final(self).fn_lookup(n) == (if n == name@ {
                    Some(f)
                } else {
                    old(self).fn_lookup(n)
                }),
            forall|n: Seq<char>| #![trigger final(self).lookup(n)] final(self).lookup(n) == old(self).lookup(n),
            final(self).selectors_value() == old(self).selectors_value(),
            final(self).call_depth() == old(self).call_depth(),
    {
        let ghost before = *self;
        let ghost g = f;
        self.functions.push((String::from_str(name), f));
        assert forall|n: Seq<char>|
            #![trigger self.fn_lookup(n)]
            self.fn_lookup(n) == (if n == name@ {
                Some(g)
            } else {
                before.fn_lookup(n)
            }) by {
            assert(self.functions@.drop_last() =~= before.functions@);
        }
    }

    /// The function `name`; none where no scope defines it.
    pub fn get_function(&self, name: &str) -> (r: Option<&Function>)
        ensures
            match self.fn_lookup(name@) {
                Some(f) => r matches Some(g) && *g == f,
                None => r is None,
            },
        decreases self,
    {
        let n = String::from_str(name);
        let mut i = self.functions.len();
        assert(self.functions@.take(i as int) =~= self.functions@);
        while i > 0
            invariant
                i <= self.functions.len(),
                n@ == name@,
                local_fn_lookup(self.functions@, name@) == local_fn_lookup(
                    self.functions@.take(i as int),
                    name@,
                ),
            decreases i,
        {
            assert(self.functions@.take(i as int).drop_last() =~= self.functions@.take(i - 1));
            if self.functions[i - 1].0 == n {
                return Some(&self.functions[i - 1].1);
            }
            i = i - 1;
        }
        assert(local_fn_lookup(self.functions@.take(0), name@) is None);
        match self.parent {
            Some(p) => p.get_function(name),
            None => None,
        }
    }

    /// Defines the variable `name` in this scope.
    pub fn define(&mut self, name: &str, value: &Value)
        ensures
            forall|n: Seq<char>|
                #![trigger final(self).lookup(n)]
                final(self).lookup(n) == (if n == name@ {
                    Some(value@)
                } else {
                    old(self).lookup(n)
                }),
            forall|n: Seq<char>|
                #![trigger final(self).fn_lookup(n)]
                final(self).fn_lookup(n) == old(self).fn_lookup(n),
            final(self).selectors_value() == old(self).selectors_value(),
            final(self).call_depth() == old(self).call_depth(),
    {
        let ghost before = *self;
        self.variables.push((String::from_str(name), clone_value(value)));
        assert forall|n: Seq<char>|
            #![trigger self.lookup(n)]
            self.lookup(n) == (if n == name@ {
                Some(value@)
            } else {
                before.lookup(n)
            }) by {
            assert(self.variables@.drop_last() =~= before.variables@);
        }
    }

    /// The value of the variable `name`; an error where no scope defines it.
    pub fn get(&self, name: &str) -> (r: Result<Value, Error>)
        ensures
            match self.lookup(name@) {
                Some(v) => r matches Ok(x) && x@ == v,
                None => r matches Err(e) && e@ == ErrorV::Undefined(name@),
            },
        decreases self,
    {
        let n = String::from_str(name);
        let mut i = self.variables.len();
        assert(self.variables@.take(i as int) =~= self.variables@);
        while i > 0
            invariant
                i <= self.variables.len(),
                n@ == name@,
                local_lookup(self.variables@, name@) == local_lookup(
                    self.variables@.take(i as int),
                    name@,
                ),
            decreases i,
        {
            assert(self.variables@.take(i as int).drop_last() =~= self.variables@.take(i - 1));
            if self.variables[i - 1].0 == n {
                return Ok(clone_value(&self.variables[i - 1].1));
            }
            i = i - 1;
        }
        assert(local_lookup(self.variables@.take(0), name@) is None);
        match self.parent {
            Some(p) => p.get(name),
            None => Err(Error::Undefined(n)),
        }
    }

    /// The value that `&` stands for.
    pub fn get_selectors(&self) -> (r: Value)
        ensures
            r@ == self.selectors_value(),
        decreases self,
    {
        match self.parent {
            Some(p) => p.get_selectors(),
            None => clone_value(&self.selectors),
        }
    }
}

} // verus!
