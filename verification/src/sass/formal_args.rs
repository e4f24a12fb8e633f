//! The declared arguments of a mixin or function, and binding them to the
//! arguments of a call.

use vstd::prelude::*;

use super::value::{spec_eval, value_calls, value_size, Value};
use crate::css::{self, clone_value, CssV};
use crate::error::{Error, ErrorV};
use crate::text::str_eq;
use crate::value::ListSeparator;
use crate::variablescope::{Env, ScopeImpl};

verus! {

/// The declared arguments of a mixin or function declaration.
///
/// The arguments are ordered (so they have a position).
/// Each argument also has a name and may have a default value.
/// The flag tells whether the last argument takes the remaining arguments.
#[derive(Debug, PartialEq, Eq, PartialOrd)]
pub struct FormalArgs(pub Vec<(String, Value)>, pub bool);

/// The declared arguments as names and defaults.
pub open spec fn formals_view(v: Seq<(String, Value)>) -> Seq<(Seq<char>, Value)> {
    v.map_values(|p: (String, Value)| (p.0@, p.1))
}

/// The number of calls in the defaults.
pub open spec fn formals_calls(f: Seq<(Seq<char>, Value)>) -> nat
    decreases f.len(),
{
    if f.len() == 0 {
        0
    } else {
        formals_calls(f.drop_last()) + value_calls(f.last().1)
    }
}

/// The size of the defaults.
pub open spec fn formals_size(f: Seq<(Seq<char>, Value)>) -> nat
    decreases f.len(),
{
    if f.len() == 0 {
        0
    } else {
        formals_size(f.drop_last()) + value_size(f.last().1)
    }
}

/// A default has no more calls and no more size than all of them.
pub proof fn lemma_formals_measure(f: Seq<(Seq<char>, Value)>, i: int)
    requires
        0 <= i < f.len(),
    ensures
        value_calls(f[i].1) <= formals_calls(f),
        value_size(f[i].1) <= formals_size(f),
    decreases f.len(),
{
    if i < f.len() - 1 {
        lemma_formals_measure(f.drop_last(), i);
        assert(f.drop_last()[i] == f[i]);
    }
}

/// The value of the first argument given by the name `name`.
pub open spec fn named_arg(args: Seq<(Option<Seq<char>>, CssV)>, name: Seq<char>) -> Option<CssV>
    decreases args.len(),
{
    if args.len() == 0 {
        None
    } else if args[0].0 == Some(name) {
        Some(args[0].1)
    } else {
        named_arg(args.drop_first(), name)
    }
}

/// The values of the arguments from position `i` on, names dropped.
pub open spec fn rest_values(args: Seq<(Option<Seq<char>>, CssV)>, i: int) -> Seq<CssV> {
    args.skip(i).map_values(|a: (Option<Seq<char>>, CssV)| a.1)
}

/// The value bound to the declared argument at position `i` (which is
/// one), in `env`: the argument given by its name first; else, for the
/// last declared argument of a function that takes the rest, when more
/// arguments are given than declared, a comma list of the values of all
/// arguments from its position on; else the argument at its position, if
/// it has no name; else the default, evaluated in `env`.
pub open spec fn spec_bound_value(
    formals: Seq<(Seq<char>, Value)>,
    varargs: bool,
    i: int,
    env: Env,
    args: Seq<(Option<Seq<char>>, CssV)>,
) -> Result<CssV, ErrorV>
    decreases env.depth, formals_calls(formals), formals_size(formals) + 2 * (formals.len() - i)
        - 1,
{
    if i < 0 || i >= formals.len() {
        Ok(CssV::Null)
    } else {
        match named_arg(args, formals[i].0) {
            Some(v) => Ok(v),
            None => if varargs && i + 1 == formals.len() && args.len() > formals.len() {
                Ok(CssV::List(rest_values(args, i), ListSeparator::Comma, false))
            } else if i < args.len() && args[i].0 is None {
                Ok(args[i].1)
            } else {
                proof {
                    lemma_formals_measure(formals, i);
                }
                spec_eval(formals[i].1, env, true)
            },
        }
    }
}

/// Binds the declared arguments from position `i` on, each to its value
/// as [`spec_bound_value`] gives it in the scope as far as it is bound;
/// the first error ends it.
pub open spec fn spec_bind(
    formals: Seq<(Seq<char>, Value)>,
    varargs: bool,
    i: int,
    env: Env,
    args: Seq<(Option<Seq<char>>, CssV)>,
) -> Result<Env, ErrorV>
    decreases env.depth, formals_calls(formals), formals_size(formals) + 2 * (formals.len() - i),
{
    if i < 0 || i >= formals.len() {
        Ok(env)
    } else {
        match spec_bound_value(formals, varargs, i, env, args) {
            Err(e) => Err(e),
            Ok(v) => spec_bind(formals, varargs, i + 1, env.define(formals[i].0, v), args),
        }
    }
}


fn find_named(args: &css::CallArgs, name: &str) -> (r: Option<css::Value>)
    ensures
        match r {
            Some(v) => named_arg(args@, name@) == Some(v@),
            None => named_arg(args@, name@) is None,
        },
{
    proof {
        css::lemma_args_view(args.0@);
    }
    let mut j: usize = 0;
    assert(args@.skip(0) =~= args@);
    while j < args.0.len()
        invariant
            j <= args.0.len(),
            args@.len() == args.0.len(),
            args@ == css::args_view(args.0@),
            forall|t: int|
                0 <= t < args.0@.len() ==> #[trigger] args@[t] == (
                    css::opt_str_view(args.0@[t].0),
                    args.0@[t].1@,
                ),
            named_arg(args@, name@) == named_arg(args@.skip(j as int), name@),
        decreases args.0.len() - j,
    {
        assert(args@.skip(j as int).drop_first() =~= args@.skip(j + 1));
        assert(args@.skip(j as int)[0] == args@[j as int]);
        assert(args@[j as int] == (css::opt_str_view(args.0@[j as int].0), args.0@[j as int].1@));
        match &args.0[j].0 {
            Some(k) => {
                if str_eq(k.as_str(), name) {
                    return Some(clone_value(&args.0[j].1));
                }
            },
            None => {},
        }
        j = j + 1;
    }
    None
}

fn rest_args(args: &css::CallArgs, i: usize) -> (r: Vec<css::Value>)
    requires
        i <= args.0.len(),
    ensures
        css::css_views(r@) == rest_values(args@, i as int),
{
    proof {
        css::lemma_args_view(args.0@);
    }
    let mut out: Vec<css::Value> = Vec::new();
    let mut j: usize = i;
    while j < args.0.len()
        invariant
            i <= j <= args.0.len(),
            args@.len() == args.0.len(),
            args@ == css::args_view(args.0@),
            forall|t: int|
                0 <= t < args.0@.len() ==> #[trigger] args@[t] == (
                    css::opt_str_view(args.0@[t].0),
                    args.0@[t].1@,
                ),
            css::css_views(out@) == args@.subrange(i as int, j as int).map_values(
                |a: (Option<Seq<char>>, CssV)| a.1,
            ),
        decreases args.0.len() - j,
    {
        let x = clone_value(&args.0[j].1);
        assert(args@[j as int] == (css::opt_str_view(args.0@[j as int].0), args.0@[j as int].1@));
        proof {
            css::lemma_css_views_push(out@, x);
        }
        out.push(x);
        assert(args@.subrange(i as int, j + 1).map_values(|a: (Option<Seq<char>>, CssV)| a.1)
            =~= args@.subrange(i as int, j as int).map_values(|a: (Option<Seq<char>>, CssV)| a.1).push(
            args@[j as int].1,
        ));
        j = j + 1;
    }
    assert(args@.subrange(i as int, args.0.len() as int) =~= args@.skip(i as int));
    out
}

impl FormalArgs {
    /// The declared arguments `a`; `is_varargs` tells whether the last one
    /// takes the remaining arguments.
    pub fn new(a: Vec<(String, Value)>, is_varargs: bool) -> (r: Self)
        ensures
            r.0 == a,
            r.1 == is_varargs,
    {
        FormalArgs(a, is_varargs)
    }

    /// A scope inside `scope` where the declared arguments are bound to
    /// `args`, as [`spec_bind`] states.
    pub fn eval<'a>(&self, scope: &'a ScopeImpl<'a>, args: &css::CallArgs) -> (r: Result<
        ScopeImpl<'a>,
        Error,
    >)
        requires
            spec_bind(formals_view(self.0@), self.1, 0, scope.env(), args@) != Err::<Env, ErrorV>(
                ErrorV::Refused,
            ),
        ensures
            match (r, spec_bind(formals_view(self.0@), self.1, 0, scope.env(), args@)) {
                (Ok(s), Ok(env)) => s.env() == env,
                (Err(e), Err(e2)) => e@ == e2,
                _ => false,
            },
        decreases scope.call_depth(), formals_calls(formals_view(self.0@)), formals_size(
            formals_view(self.0@),
        ) + 2 * self.0.len(),
    {
        let ghost fv = formals_view(self.0@);
        let ghost whole = spec_bind(fv, self.1, 0, scope.env(), args@);
        let mut argscope = ScopeImpl::sub(scope);
        let n = self.0.len();
        let mut i: usize = 0;
        while i < n
            invariant
                n == self.0.len(),
                fv == formals_view(self.0@),
                fv.len() == n,
                i <= n,
                whole == spec_bind(fv, self.1, 0, scope.env(), args@),
                whole != Err::<Env, ErrorV>(ErrorV::Refused),
                whole == spec_bind(fv, self.1, i as int, argscope.env(), args@),
                argscope.call_depth() == scope.call_depth(),
            decreases n - i,
        {
            let name = self.0[i].0.as_str();
            assert(fv[i as int] == (self.0@[i as int].0@, self.0@[i as int].1));
            proof {
                css::lemma_args_view(args.0@);
            }
            let ghost before = argscope.env();
            let bound = match find_named(args, name) {
                Some(v) => v,
                None => {
                    if self.1 && i + 1 == n && args.0.len() > n {
                        css::Value::List(rest_args(args, i), ListSeparator::Comma, false)
                    } else if i < args.0.len() && args.0[i].0.is_none() {
                        assert(args@[i as int] == (
                            css::opt_str_view(args.0@[i as int].0),
                            args.0@[i as int].1@,
                        ));
                        clone_value(&args.0[i].1)
                    } else {
                        proof {
                            if i < args.0.len() {
                                assert(args@[i as int] == (
                                    css::opt_str_view(args.0@[i as int].0),
                                    args.0@[i as int].1@,
                                ));
                            }
                            lemma_formals_measure(fv, i as int);
                        }
                        match self.0[i].1.do_evaluate(&argscope, true) {
                            Ok(v) => v,
                            Err(e) => {
                                return Err(e);
                            },
                        }
                    }
                },
            };
            assert(spec_bound_value(fv, self.1, i as int, before, args@) == Ok::<CssV, ErrorV>(
                bound@,
            ));
            argscope.define(name, &bound);
            assert(argscope.env() =~= before.define(name@, bound@));
            i = i + 1;
        }
        Ok(argscope)
    }
}

impl Default for FormalArgs {
    fn default() -> (r: Self)
        ensures
            r.0@.len() == 0,
            !r.1,
    {
        FormalArgs::new(Vec::new(), false)
    }
}


/// Some declared argument from position `from` on has the name `n`.
pub open spec fn declares(formals: Seq<(Seq<char>, Value)>, from: int, n: Seq<char>) -> bool {
    exists|j: int| from <= j < formals.len() && #[trigger] formals[j].0 == n
}

/// Binding leaves every name that it does not declare, the functions,
/// `&` and the depth of calls as they are.
pub proof fn lemma_bind_keeps_others(
    formals: Seq<(Seq<char>, Value)>,
    varargs: bool,
    i: int,
    env: Env,
    args: Seq<(Option<Seq<char>>, CssV)>,
)
    requires
        0 <= i,
    ensures
        spec_bind(formals, varargs, i, env, args) matches Ok(e2) ==> {
            &&& forall|n: Seq<char>| !declares(formals, i, n) ==> (e2.vars)(n) == (env.vars)(n)
            &&& e2.functions == env.functions
            &&& e2.selectors == env.selectors
            &&& e2.depth == env.depth
        },
    decreases formals.len() - i,
{
    if i < formals.len() {
        let name = formals[i].0;
        if let Ok(e2) = spec_bind(formals, varargs, i, env, args) {
            let v = spec_bound_value(formals, varargs, i, env, args)->Ok_0;
            lemma_bind_keeps_others(formals, varargs, i + 1, env.define(name, v), args);
            assert forall|n: Seq<char>| !declares(formals, i, n) implies (e2.vars)(n) == (
            env.vars)(n) by {
                if declares(formals, i + 1, n) {
                    let j = choose|j: int| i + 1 <= j < formals.len() && #[trigger] formals[j].0 == n;
                    assert(formals[j].0 == n);
                }
                assert(n != name);
            }
        }
    }
}

/// Binding that succeeds gives a value to every declared argument.
pub proof fn lemma_bind_binds_all(
    formals: Seq<(Seq<char>, Value)>,
    varargs: bool,
    i: int,
    env: Env,
    args: Seq<(Option<Seq<char>>, CssV)>,
)
    requires
        0 <= i,
    ensures
        spec_bind(formals, varargs, i, env, args) matches Ok(e2) ==> forall|j: int|
            i <= j < formals.len() ==> (e2.vars)(#[trigger] formals[j].0) is Some,
    decreases formals.len() - i,
{
    if i < formals.len() {
        let name = formals[i].0;
        if let Ok(e2) = spec_bind(formals, varargs, i, env, args) {
            let e1 = env.define(name, spec_bound_value(formals, varargs, i, env, args)->Ok_0);
            lemma_bind_binds_all(formals, varargs, i + 1, e1, args);
            lemma_bind_keeps_others(formals, varargs, i + 1, e1, args);
            assert forall|j: int| i <= j < formals.len() implies (e2.vars)(
                #[trigger] formals[j].0,
            ) is Some by {
                if j == i && !declares(formals, i + 1, name) {
                    assert((e1.vars)(name) is Some);
                } else if j == i {
                    let k = choose|k: int| i + 1 <= k < formals.len() && #[trigger] formals[k].0 == name;
                    assert((e2.vars)(formals[k].0) is Some);
                }
            }
        }
    }
}

/// An argument given by the name of a declared argument is bound to the
/// value given (where a name is declared twice, both are bound to it).
pub proof fn lemma_named_argument_bound(
    formals: Seq<(Seq<char>, Value)>,
    varargs: bool,
    i: int,
    env: Env,
    args: Seq<(Option<Seq<char>>, CssV)>,
    j: int,
)
    requires
        0 <= i <= j < formals.len(),
        named_arg(args, formals[j].0) is Some,
    ensures
        spec_bind(formals, varargs, i, env, args) matches Ok(e2) ==> (e2.vars)(formals[j].0)
            == named_arg(args, formals[j].0),
    decreases formals.len() - i,
{
    let name = formals[i].0;
    if let Ok(e2) = spec_bind(formals, varargs, i, env, args) {
        let e1 = env.define(name, spec_bound_value(formals, varargs, i, env, args)->Ok_0);
        if i < j {
            lemma_named_argument_bound(formals, varargs, i + 1, e1, args, j);
        } else if declares(formals, i + 1, name) {
            let k = choose|k: int| i + 1 <= k < formals.len() && #[trigger] formals[k].0 == name;
            lemma_named_argument_bound(formals, varargs, i + 1, e1, args, k);
        } else {
            lemma_bind_keeps_others(formals, varargs, i + 1, e1, args);
        }
    }
}

/// How a declared argument at position `i` gets its value: by its name
/// where an argument has that name; else, for the last one of a function
/// that takes the rest, with more arguments than declared, the list of the
/// rest; else the argument at its position where that has no name; else,
/// where the position holds a named argument or nothing, its default
/// evaluated in the scope.
pub proof fn lemma_bound_value_rules(
    formals: Seq<(Seq<char>, Value)>,
    varargs: bool,
    i: int,
    env: Env,
    args: Seq<(Option<Seq<char>>, CssV)>,
)
    requires
        0 <= i < formals.len(),
    ensures
        named_arg(args, formals[i].0) matches Some(v) ==> spec_bound_value(
            formals,
            varargs,
            i,
            env,
            args,
        ) == Ok::<CssV, ErrorV>(v),
        named_arg(args, formals[i].0) is None && varargs && i == formals.len() - 1 && args.len()
            > formals.len() ==> spec_bound_value(formals, varargs, i, env, args) == Ok::<CssV, ErrorV>(
            CssV::List(args.skip(i).map_values(|a: (Option<Seq<char>>, CssV)| a.1), ListSeparator::Comma, false),
        ),
        named_arg(args, formals[i].0) is None && !(varargs && i == formals.len() - 1 && args.len()
            > formals.len()) && i < args.len() && args[i].0 is None ==> spec_bound_value(
            formals,
            varargs,
            i,
            env,
            args,
        ) == Ok::<CssV, ErrorV>(args[i].1),
        named_arg(args, formals[i].0) is None && !(varargs && i == formals.len() - 1 && args.len()
            > formals.len()) && (i >= args.len() || args[i].0 is Some) ==> spec_bound_value(
            formals,
            varargs,
            i,
            env,
            args,
        ) == spec_eval(formals[i].1, env, true),
{
}

/// A declared argument that no argument names, that is not the rest
/// argument, and whose position holds an argument without a name, is
/// bound to that argument (where no later declared argument has its name).
pub proof fn lemma_positional_argument_bound(
    formals: Seq<(Seq<char>, Value)>,
    varargs: bool,
    i: int,
    env: Env,
    args: Seq<(Option<Seq<char>>, CssV)>,
    j: int,
)
    requires
        0 <= i <= j < formals.len(),
        !declares(formals, j + 1, formals[j].0),
        named_arg(args, formals[j].0) is None,
        !(varargs && j == formals.len() - 1 && args.len() > formals.len()),
        j < args.len(),
        args[j].0 is None,
    ensures
        spec_bind(formals, varargs, i, env, args) matches Ok(e2) ==> (e2.vars)(formals[j].0)
            == Some(args[j].1),
    decreases formals.len() - i,
{
    let name = formals[i].0;
    if let Ok(e2) = spec_bind(formals, varargs, i, env, args) {
        let e1 = env.define(name, spec_bound_value(formals, varargs, i, env, args)->Ok_0);
        if i < j {
            lemma_positional_argument_bound(formals, varargs, i + 1, e1, args, j);
        } else {
            lemma_bind_keeps_others(formals, varargs, i + 1, e1, args);
        }
    }
}

/// The last declared argument of a function that takes the rest, given
/// more arguments than declared and not named, is bound to the comma list
/// of the values of the arguments from its position on.
pub proof fn lemma_rest_argument_bound(
    formals: Seq<(Seq<char>, Value)>,
    i: int,
    env: Env,
    args: Seq<(Option<Seq<char>>, CssV)>,
)
    requires
        0 <= i < formals.len(),
        named_arg(args, formals.last().0) is None,
        args.len() > formals.len(),
    ensures
        spec_bind(formals, true, i, env, args) matches Ok(e2) ==> (e2.vars)(formals.last().0)
            == Some(
            CssV::List(
                args.skip(formals.len() - 1).map_values(|a: (Option<Seq<char>>, CssV)| a.1),
                ListSeparator::Comma,
                false,
            ),
        ),
    decreases formals.len() - i,
{
    let name = formals[i].0;
    if let Ok(e2) = spec_bind(formals, true, i, env, args) {
        let e1 = env.define(name, spec_bound_value(formals, true, i, env, args)->Ok_0);
        if i < formals.len() - 1 {
            lemma_rest_argument_bound(formals, i + 1, e1, args);
        } else {
            lemma_bind_keeps_others(formals, true, i + 1, e1, args);
        }
    }
}

} // verus!
