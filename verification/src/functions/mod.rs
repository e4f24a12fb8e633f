//! The built-in functions, and calling them.

use vstd::prelude::*;

use crate::css::{self, result_view, CssV};
use crate::error::{Error, ErrorV};
use crate::sass::formal_args::{formals_calls, formals_size, formals_view, spec_bind, FormalArgs};
use crate::text::str_eq;
use crate::variablescope::ScopeImpl;
use crate::sass::value::Value;
use crate::value::{Number, Unit};
use crate::variablescope::Env;

pub mod strings;

use strings::{
    quote, str_index, str_insert, str_length, str_slice, to_lower_case, to_upper_case, unquote,
    spec_quote, spec_str_index, spec_str_insert, spec_str_length, spec_str_slice,
    spec_to_lower_case, spec_to_upper_case, spec_unquote,
};

verus! {

/// A built-in function.
#[derive(Clone, Copy, Debug, PartialEq, Eq, Structural)]
pub enum Builtin {
    Quote,
    Unquote,
    StrInsert,
    StrSlice,
    StrLength,
    StrIndex,
    ToUpperCase,
    ToLowerCase,
}

/// The built-in function of a name.
pub open spec fn builtin_named(name: Seq<char>) -> Option<Builtin> {
    if name == "quote"@ {
        Some(Builtin::Quote)
    } else if name == "unquote"@ {
        Some(Builtin::Unquote)
    } else if name == "str-insert"@ {
        Some(Builtin::StrInsert)
    } else if name == "str-slice"@ {
        Some(Builtin::StrSlice)
    } else if name == "str-length"@ {
        Some(Builtin::StrLength)
    } else if name == "str-index"@ {
        Some(Builtin::StrIndex)
    } else if name == "to-upper-case"@ {
        Some(Builtin::ToUpperCase)
    } else if name == "to-lower-case"@ {
        Some(Builtin::ToLowerCase)
    } else {
        None
    }
}

/// The declared arguments of a built-in function; only the end of
/// `str-slice` has a default, `-1`.
pub open spec fn builtin_formals(f: Builtin) -> Seq<(Seq<char>, Value)> {
    match f {
        Builtin::Quote | Builtin::Unquote => seq![("contents"@, Value::Null)],
        Builtin::StrInsert => seq![
            ("string"@, Value::Null),
            ("insert"@, Value::Null),
            ("index"@, Value::Null),
        ],
        Builtin::StrSlice => seq![
            ("string"@, Value::Null),
            ("start_at"@, Value::Null),
            ("end_at"@, Value::Numeric(Number::from_integer_spec(-1isize), Unit::Unitless)),
        ],
        Builtin::StrLength | Builtin::ToUpperCase | Builtin::ToLowerCase => seq![
            ("string"@, Value::Null),
        ],
        Builtin::StrIndex => seq![("string"@, Value::Null), ("substring"@, Value::Null)],
    }
}

/// The defaults of the built-in functions call nothing and are small.
pub proof fn lemma_builtin_measure(f: Builtin)
    ensures
        formals_calls(builtin_formals(f)) == 0,
        formals_size(builtin_formals(f)) + 2 * builtin_formals(f).len() < 16,
{
    reveal_with_fuel(formals_calls, 4);
    reveal_with_fuel(formals_size, 4);
    let s = builtin_formals(f);
    assert(s.len() <= 3);
    if s.len() == 3 {
        assert(s.drop_last().drop_last().drop_last().len() == 0);
    }
}

/// The value bound to `name`, or the error that looking it up gives.
pub open spec fn bound_arg(env: Env, name: Seq<char>) -> Result<CssV, ErrorV> {
    match (env.vars)(name) {
        Some(v) => Ok(v),
        None => Err(ErrorV::Undefined(name)),
    }
}

/// What the body of a built-in function gives in the scope of its
/// bound arguments.
pub open spec fn spec_builtin_body(f: Builtin, env: Env) -> Result<CssV, ErrorV> {
    match f {
        Builtin::Quote => match bound_arg(env, "contents"@) {
            Ok(c) => spec_quote(c),
            Err(e) => Err(e),
        },
        Builtin::Unquote => match bound_arg(env, "contents"@) {
            Ok(c) => spec_unquote(c),
            Err(e) => Err(e),
        },
        Builtin::StrInsert => match (
            bound_arg(env, "string"@),
            bound_arg(env, "insert"@),
            bound_arg(env, "index"@),
        ) {
            (Ok(s), Ok(ins), Ok(idx)) => spec_str_insert(s, ins, idx),
            (Err(e), _, _) => Err(e),
            (_, Err(e), _) => Err(e),
            (_, _, Err(e)) => Err(e),
        },
        Builtin::StrSlice => match (
            bound_arg(env, "string"@),
            bound_arg(env, "start_at"@),
            bound_arg(env, "end_at"@),
        ) {
            (Ok(s), Ok(a), Ok(b)) => spec_str_slice(s, a, b),
            (Err(e), _, _) => Err(e),
            (_, Err(e), _) => Err(e),
            (_, _, Err(e)) => Err(e),
        },
        Builtin::StrLength => match bound_arg(env, "string"@) {
            Ok(s) => spec_str_length(s),
            Err(e) => Err(e),
        },
        Builtin::StrIndex => match (bound_arg(env, "string"@), bound_arg(env, "substring"@)) {
            (Ok(s), Ok(sub)) => spec_str_index(s, sub),
            (Err(e), _) => Err(e),
            (_, Err(e)) => Err(e),
        },
        Builtin::ToUpperCase => match bound_arg(env, "string"@) {
            Ok(s) => spec_to_upper_case(s),
            Err(e) => Err(e),
        },
        Builtin::ToLowerCase => match bound_arg(env, "string"@) {
            Ok(s) => spec_to_lower_case(s),
            Err(e) => Err(e),
        },
    }
}

/// A call of a built-in function: its declared arguments bound to the
/// arguments of the call in a scope inside `env`, then its body.
pub open spec fn spec_call_builtin(f: Builtin, env: Env, args: Seq<(Option<Seq<char>>, CssV)>) -> Result<
    CssV,
    ErrorV,
>
    decreases env.depth, 0nat, 16nat,
{
    proof {
        lemma_builtin_measure(f);
    }
    match spec_bind(builtin_formals(f), false, 0, env, args) {
        Err(e) => Err(e),
        Ok(inner) => spec_builtin_body(f, inner),
    }
}


/// The built-in function of a name, as [`builtin_named`] states.
pub fn get_builtin_function(name: &str) -> (r: Option<Builtin>)
    ensures
        r == builtin_named(name@),
{
    if str_eq(name, "quote") {
        Some(Builtin::Quote)
    } else if str_eq(name, "unquote") {
        Some(Builtin::Unquote)
    } else if str_eq(name, "str-insert") {
        Some(Builtin::StrInsert)
    } else if str_eq(name, "str-slice") {
        Some(Builtin::StrSlice)
    } else if str_eq(name, "str-length") {
        Some(Builtin::StrLength)
    } else if str_eq(name, "str-index") {
        Some(Builtin::StrIndex)
    } else if str_eq(name, "to-upper-case") {
        Some(Builtin::ToUpperCase)
    } else if str_eq(name, "to-lower-case") {
        Some(Builtin::ToLowerCase)
    } else {
        None
    }
}

fn formal(name: &str, default: Value) -> (r: (String, Value))
    ensures
        r.0@ == name@,
        r.1 == default,
{
    (String::from_str(name), default)
}

impl Builtin {
    /// The declared arguments, as [`builtin_formals`] states.
    pub fn formal_args(&self) -> (r: FormalArgs)
        ensures
            formals_view(r.0@) == builtin_formals(*self),
            !r.1,
    {
        let mut v: Vec<(String, Value)> = Vec::new();
        match self {
            Builtin::Quote | Builtin::Unquote => {
                v.push(formal("contents", Value::Null));
            },
            Builtin::StrInsert => {
                v.push(formal("string", Value::Null));
                v.push(formal("insert", Value::Null));
                v.push(formal("index", Value::Null));
            },
            Builtin::StrSlice => {
                v.push(formal("string", Value::Null));
                v.push(formal("start_at", Value::Null));
                v.push(formal("end_at", Value::scalar(-1)));
            },
            Builtin::StrLength | Builtin::ToUpperCase | Builtin::ToLowerCase => {
                v.push(formal("string", Value::Null));
            },
            Builtin::StrIndex => {
                v.push(formal("string", Value::Null));
                v.push(formal("substring", Value::Null));
            },
        }
        assert(formals_view(v@) =~= builtin_formals(*self));
        FormalArgs(v, false)
    }

    /// Calls the function with `args` in `scope`, as [`spec_call_builtin`]
    /// states.
    pub fn call(&self, scope: &ScopeImpl, args: &css::CallArgs) -> (r: Result<css::Value, Error>)
        requires
            spec_call_builtin(*self, scope.env(), args@) != Err::<CssV, ErrorV>(ErrorV::Refused),
        ensures
            result_view(r) == spec_call_builtin(*self, scope.env(), args@),
        decreases scope.call_depth(), 0nat, 16nat,
    {
        let fa = self.formal_args();
        proof {
            lemma_builtin_measure(*self);
        }
        let s = fa.eval(scope, args)?;
        match self {
            Builtin::Quote => {
                let c = s.get("contents")?;
                quote(c)
            },
            Builtin::Unquote => {
                let c = s.get("contents")?;
                unquote(c)
            },
            Builtin::StrInsert => {
                let a = s.get("string")?;
                let b = s.get("insert")?;
                let c = s.get("index")?;
                str_insert(&a, &b, &c)
            },
            Builtin::StrSlice => {
                let a = s.get("string")?;
                let b = s.get("start_at")?;
                let c = s.get("end_at")?;
                str_slice(&a, &b, &c)
            },
            Builtin::StrLength => {
                let a = s.get("string")?;
                str_length(&a)
            },
            Builtin::StrIndex => {
                let a = s.get("string")?;
                let b = s.get("substring")?;
                str_index(&a, &b)
            },
            Builtin::ToUpperCase => {
                let a = s.get("string")?;
                to_upper_case(a)
            },
            Builtin::ToLowerCase => {
                let a = s.get("string")?;
                to_lower_case(a)
            },
        }
    }
}

} // verus!
