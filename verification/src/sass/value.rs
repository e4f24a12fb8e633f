//! A Sass value, and its evaluation in a scope.

use vstd::prelude::*;

use super::{CallArgs, SassString};
use crate::css::{self, clone_value, result_view, CssV};
use crate::text::push_char;
use crate::error::{Error, ErrorV};
use crate::functions::{builtin_named, get_builtin_function, spec_call_builtin};
use super::formal_args::{formals_view, lemma_bind_keeps_others, spec_bind};
use crate::value::{ListSeparator, Number, Operator, Quotes, Rgba, Unit, Fraction};
use crate::variablescope::{Env, ScopeImpl};

verus! {

/// A sass value.
#[derive(Debug, PartialEq, Eq, PartialOrd)]
pub enum Value {
    /// A special kind of escape. Only really used for `!important`.
    Bang(String),
    /// A call has a name and an argument (which may be multi).
    Call(SassString, CallArgs),
    Literal(SassString),
    /// A comma- or space separated list of values, with or without brackets.
    List(Vec<Value>, ListSeparator, bool),
    /// A numeric value is a rational value with a unit (which may be
    /// `Unit::Unitless`).
    Numeric(Number, Unit),
    /// `(a/b)` and `a/b` differ semantically. Parens means the value
    /// should be evaluated numerically if possible, without parens `/`
    /// is not always division.
    /// The boolean tells if the paren itself should be kept for output.
    Paren(Box<Value>, bool),
    Variable(String),
    /// Both a numerical and original string representation,
    /// since case and length should be preserved (#AbC vs #aabbcc).
    Color(Rgba, Option<String>),
    Null,
    True,
    False,
    /// A binary operation, two operands and an operator.
    /// The boolean represents possible whitespace.
    BinOp(Box<Value>, bool, Operator, bool, Box<Value>),
    UnaryOp(Operator, Box<Value>),
    /// A map in sass source is just a list of key/value pairs.
    /// Actual map behaviour comes after evaluating it.
    Mapping(Vec<(Value, Value)>),
    /// The magic value "&", expanding to the current selectors.
    HereSelector,
    /// A unicode range for font selections. U+NN, U+N?, U+NN-MM.
    /// The string is the entire value, including the "U+" tag.
    UnicodeRange(String),
}

/// The name of the kind of a value.
pub open spec fn spec_type_name(v: Value) -> Seq<char> {
    match v {
        Value::Color(..) => "color"@,
        Value::Literal(..) => "string"@,
        Value::Numeric(..) => "number"@,
        Value::List(..) => "list"@,
        Value::True | Value::False => "bool"@,
        Value::Null => "null"@,
        _ => "unknown"@,
    }
}

/// All values other than `False` and `Null` are true.
pub open spec fn spec_is_true(v: Value) -> bool {
    !(v is False || v is Null)
}

/// Null, or a list without brackets of values that are all null.
pub open spec fn spec_is_null(v: Value) -> bool
    decreases v,
{
    match v {
        Value::Null => true,
        Value::List(items, _, brackets) => !brackets && all_null(items@),
        _ => false,
    }
}

/// Every value of `s` is null.
pub open spec fn all_null(s: Seq<Value>) -> bool
    decreases s,
{
    if s.len() == 0 {
        true
    } else {
        all_null(s.drop_last()) && spec_is_null(s.last())
    }
}

// The size of a value, and the number of calls in it: together they
// measure how far evaluation can go from a value.

/// The number of nodes of a value.
pub open spec fn value_size(v: Value) -> nat
    decreases v,
{
    match v {
        Value::Call(_, args) => 1 + args_size(args.0@),
        Value::List(items, _, _) => 1 + seq_size(items@),
        Value::Paren(b, _) => 1 + value_size(*b),
        Value::BinOp(a, _, _, _, b) => 1 + value_size(*a) + value_size(*b),
        Value::UnaryOp(_, b) => 1 + value_size(*b),
        Value::Mapping(m) => 1 + pairs_size(m@),
        _ => 1,
    }
}

/// The number of nodes of a sequence of values and of the sequence itself.
pub open spec fn seq_size(s: Seq<Value>) -> nat
    decreases s,
{
    if s.len() == 0 {
        0
    } else {
        seq_size(s.drop_last()) + value_size(s.last()) + 1
    }
}

pub open spec fn args_size(s: Seq<(Option<String>, Value)>) -> nat
    decreases s,
{
    if s.len() == 0 {
        0
    } else {
        args_size(s.drop_last()) + value_size(s.last().1) + 1
    }
}

pub open spec fn pairs_size(s: Seq<(Value, Value)>) -> nat
    decreases s,
{
    if s.len() == 0 {
        0
    } else {
        pairs_size(s.drop_last()) + value_size(s.last().0) + value_size(s.last().1) + 1
    }
}

/// The number of calls in a value.
pub open spec fn value_calls(v: Value) -> nat
    decreases v,
{
    match v {
        Value::Call(_, args) => 1 + args_calls(args.0@),
        Value::List(items, _, _) => seq_calls(items@),
        Value::Paren(b, _) => value_calls(*b),
        Value::BinOp(a, _, _, _, b) => value_calls(*a) + value_calls(*b),
        Value::UnaryOp(_, b) => value_calls(*b),
        Value::Mapping(m) => pairs_calls(m@),
        _ => 0,
    }
}

pub open spec fn seq_calls(s: Seq<Value>) -> nat
    decreases s,
{
    if s.len() == 0 {
        0
    } else {
        seq_calls(s.drop_last()) + value_calls(s.last())
    }
}

pub open spec fn args_calls(s: Seq<(Option<String>, Value)>) -> nat
    decreases s,
{
    if s.len() == 0 {
        0
    } else {
        args_calls(s.drop_last()) + value_calls(s.last().1)
    }
}

pub open spec fn pairs_calls(s: Seq<(Value, Value)>) -> nat
    decreases s,
{
    if s.len() == 0 {
        0
    } else {
        pairs_calls(s.drop_last()) + value_calls(s.last().0) + value_calls(s.last().1)
    }
}

/// Evaluated values are true except `False` and `Null`.
pub open spec fn css_is_true(v: CssV) -> bool {
    !(v is False || v is Null)
}

/// A number marked as calculated.
pub open spec fn is_calculated(v: CssV) -> bool {
    v matches CssV::Numeric(_, _, c) && c
}

/// What a binary operator gives for two evaluated operands, where it
/// gives anything: `and` gives the second operand if the first is true,
/// else the first; `or` gives the first if it is true, else the second;
/// `==` and `!=` tell whether the operands are the same value. The other
/// operators give nothing, and the operation is kept as it is.
pub open spec fn spec_operate(op: Operator, a: CssV, b: CssV) -> Option<CssV> {
    match op {
        Operator::And => Some(if css_is_true(a) { b } else { a }),
        Operator::Or => Some(if css_is_true(a) { a } else { b }),
        Operator::Equal => Some(if a == b { CssV::True } else { CssV::False }),
        Operator::NotEqual => Some(if a != b { CssV::True } else { CssV::False }),
        _ => None,
    }
}

/// A unary operation on an evaluated operand: `not` of a number is whether
/// it is zero, `not` swaps `true` and `false`, `-` negates a number (which
/// overflows for the least numerator), `+` marks a number as written with
/// a plus sign, `-` before an unquoted string joins them; anything else
/// stays an operation.
pub open spec fn spec_unary(op: Operator, v: CssV) -> Result<CssV, ErrorV> {
    match (op, v) {
        (Operator::Not, CssV::Numeric(n, _, _)) => Ok(
            if n.value.numer == 0 {
                CssV::True
            } else {
                CssV::False
            },
        ),
        (Operator::Not, CssV::True) => Ok(CssV::False),
        (Operator::Not, CssV::False) => Ok(CssV::True),
        (Operator::Minus, CssV::Numeric(n, u, _)) => if n.value.numer == isize::MIN {
            Err(ErrorV::Refused)
        } else {
            Ok(
                CssV::Numeric(
                    Number {
                        value: Fraction { numer: (-n.value.numer) as isize, denom: n.value.denom },
                        plus_sign: n.plus_sign,
                        lead_zero: n.lead_zero,
                    },
                    u,
                    true,
                ),
            )
        },
        (Operator::Plus, CssV::Numeric(n, u, _)) => Ok(
            CssV::Numeric(Number { plus_sign: true, ..n }, u, true),
        ),
        (Operator::Minus, CssV::Literal(s, Quotes::Unquoted)) => Ok(
            CssV::Literal(seq!['-'] + s, Quotes::Unquoted),
        ),
        (op, v) => Ok(CssV::UnaryOp(op, Box::new(v))),
    }
}

/// The value of `v` evaluated in `env`; `arithmetic` tells whether `/`
/// is division there. A call with an unquoted name goes first to the user
/// function of that name: its declared arguments are bound in `env` with
/// one call less left to nest, and its body is evaluated there; where no
/// call is left to nest, it is the error `CallDepth`. Else it goes to the
/// built-in function of that name; else it stays a call.
pub open spec fn spec_eval(v: Value, env: Env, arithmetic: bool) -> Result<CssV, ErrorV>
    decreases env.depth, value_calls(v), value_size(v),
{
    match v {
        Value::Bang(s) => Ok(CssV::Bang(s@)),
        Value::Literal(s) => if s.raw@.len() == 0 && s.quotes == Quotes::Unquoted {
            Ok(CssV::Null)
        } else {
            Ok(CssV::Literal(s.raw@, s.quotes))
        },
        Value::Paren(b, keep) => match spec_eval(*b, env, !keep) {
            Ok(x) => if !keep {
                Ok(x)
            } else {
                Ok(CssV::Paren(Box::new(x)))
            },
            Err(e) => Err(e),
        },
        Value::Color(c, name) => Ok(CssV::Color(c, css::opt_str_view(name))),
        Value::Variable(name) => match (env.vars)(name@) {
            Some(x) => Ok(css::calculated(x)),
            None => Err(ErrorV::Undefined(name@)),
        },
        Value::List(items, sep, brackets) => match spec_eval_seq(items@, env, false) {
            Ok(xs) => Ok(CssV::List(xs, sep, brackets)),
            Err(e) => Err(e),
        },
        Value::Call(name, args) => match spec_eval_args(args.0@, env, true) {
            Err(e) => Err(e),
            Ok(xs) => if name.quotes == Quotes::Unquoted {
                match (env.functions)(name.raw@) {
                    Some(f) => if env.depth == 0 {
                        Err(ErrorV::CallDepth(name.raw@))
                    } else {
                        let d = (env.depth - 1) as nat;
                        match spec_bind(formals_view(f.args.0@), f.args.1, 0, env.at_depth(d), xs) {
                            Err(e) => Err(e),
                            Ok(inner) => spec_eval(f.body, inner.at_depth(d), false),
                        }
                    },
                    None => match builtin_named(name.raw@) {
                        Some(f) => spec_call_builtin(f, env, xs),
                        None => Ok(CssV::Call(name.raw@, xs)),
                    },
                }
            } else {
                Ok(CssV::Call(name.raw@, xs))
            },
        },
        Value::Numeric(n, u) => Ok(CssV::Numeric(n, u, arithmetic)),
        Value::Mapping(m) => match spec_eval_pairs(m@, env) {
            Ok(xs) => Ok(CssV::Mapping(xs)),
            Err(e) => Err(e),
        },
        Value::Null => Ok(CssV::Null),
        Value::True => Ok(CssV::True),
        Value::False => Ok(CssV::False),
        Value::BinOp(a, _, op, _, b) => {
            let arith = arithmetic || op != Operator::Div;
            match spec_eval(*a, env, arith) {
                Err(e) => Err(e),
                Ok(aa) => match spec_eval(*b, env, arith || is_calculated(aa)) {
                    Err(e) => Err(e),
                    Ok(bb) => {
                        let first = if !arith && is_calculated(bb) && !is_calculated(aa) {
                            spec_eval(*a, env, true)
                        } else {
                            Ok(aa)
                        };
                        match first {
                            Err(e) => Err(e),
                            Ok(x) => Ok(
                                match spec_operate(op, x, bb) {
                                    Some(r) => r,
                                    None => CssV::BinOp(Box::new(x), false, op, false, Box::new(bb)),
                                },
                            ),
                        }
                    },
                },
            }
        },
        Value::UnaryOp(op, b) => match spec_eval(*b, env, true) {
            Err(e) => Err(e),
            Ok(x) => spec_unary(op, x),
        },
        Value::HereSelector => Ok(env.selectors),
        Value::UnicodeRange(s) => Ok(CssV::UnicodeRange(s@)),
    }
}

/// The values of a sequence, evaluated in order; the first error ends it.
pub open spec fn spec_eval_seq(s: Seq<Value>, env: Env, arithmetic: bool) -> Result<Seq<CssV>, ErrorV>
    decreases env.depth, seq_calls(s), seq_size(s),
{
    if s.len() == 0 {
        Ok(seq![])
    } else {
        match spec_eval_seq(s.drop_last(), env, arithmetic) {
            Err(e) => Err(e),
            Ok(xs) => match spec_eval(s.last(), env, arithmetic) {
                Err(e) => Err(e),
                Ok(x) => Ok(xs.push(x)),
            },
        }
    }
}

/// The values of call arguments, evaluated in order, names kept.
pub open spec fn spec_eval_args(s: Seq<(Option<String>, Value)>, env: Env, arithmetic: bool) -> Result<
    Seq<(Option<Seq<char>>, CssV)>,
    ErrorV,
>
    decreases env.depth, args_calls(s), args_size(s),
{
    if s.len() == 0 {
        Ok(seq![])
    } else {
        match spec_eval_args(s.drop_last(), env, arithmetic) {
            Err(e) => Err(e),
            Ok(xs) => match spec_eval(s.last().1, env, arithmetic) {
                Err(e) => Err(e),
                Ok(x) => Ok(xs.push((css::opt_str_view(s.last().0), x))),
            },
        }
    }
}

/// The position of the first entry of `xs` with the key `k`.
pub open spec fn key_position(xs: Seq<(CssV, CssV)>, k: CssV) -> Option<int>
    decreases xs.len(),
{
    if xs.len() == 0 {
        None
    } else {
        match key_position(xs.drop_last(), k) {
            Some(j) => Some(j),
            None => if xs.last().0 == k {
                Some(xs.len() - 1)
            } else {
                None
            },
        }
    }
}

/// The entries of a map with the entry `k: v` put in: where an entry has
/// the key `k`, its value becomes `v` and it keeps its place; else the
/// entry comes last.
pub open spec fn map_insert(xs: Seq<(CssV, CssV)>, k: CssV, v: CssV) -> Seq<(CssV, CssV)> {
    match key_position(xs, k) {
        Some(j) => xs.update(j, (k, v)),
        None => xs.push((k, v)),
    }
}

/// No two entries have the same key.
pub open spec fn distinct_keys(xs: Seq<(CssV, CssV)>) -> bool {
    forall|i: int, j: int| 0 <= i < j < xs.len() ==> #[trigger] xs[i].0 != #[trigger] xs[j].0
}

/// [`key_position`] is the first position with the key, if any.
pub proof fn lemma_key_position(xs: Seq<(CssV, CssV)>, k: CssV)
    ensures
        match key_position(xs, k) {
            Some(j) => 0 <= j < xs.len() && xs[j].0 == k && forall|t: int|
                0 <= t < j ==> #[trigger] xs[t].0 != k,
            None => forall|t: int| 0 <= t < xs.len() ==> #[trigger] xs[t].0 != k,
        },
    decreases xs.len(),
{
    if xs.len() > 0 {
        lemma_key_position(xs.drop_last(), k);
        assert forall|t: int| 0 <= t < xs.len() - 1 implies #[trigger] xs[t] == xs.drop_last()[t] by {}
    }
}

/// Putting an entry in a map with distinct keys keeps its keys distinct.
pub proof fn lemma_map_insert_distinct(xs: Seq<(CssV, CssV)>, k: CssV, v: CssV)
    requires
        distinct_keys(xs),
    ensures
        distinct_keys(map_insert(xs, k, v)),
{
    lemma_key_position(xs, k);
    let r = map_insert(xs, k, v);
    assert forall|i: int, j: int| 0 <= i < j < r.len() implies #[trigger] r[i].0 != #[trigger] r[j].0 by {
        if key_position(xs, k) is None && j == xs.len() {
            assert(xs[i].0 != k);
        } else {
            assert(xs[i].0 != xs[j].0);
        }
    }
}

/// A map evaluates to entries with distinct keys: a key given twice keeps
/// the place of its first entry and the value of its last.
pub proof fn lemma_evaluated_map_keys_distinct(s: Seq<(Value, Value)>, env: Env)
    ensures
        spec_eval_pairs(s, env) matches Ok(xs) ==> distinct_keys(xs),
    decreases s.len(),
{
    if s.len() > 0 {
        lemma_evaluated_map_keys_distinct(s.drop_last(), env);
        if let Ok(xs) = spec_eval_pairs(s.drop_last(), env) {
            if let Ok(k) = spec_eval(s.last().0, env, false) {
                if let Ok(x) = spec_eval(s.last().1, env, false) {
                    lemma_map_insert_distinct(xs, k, x);
                }
            }
        }
    }
}

/// The entries of a map, each key before its value, evaluated in order,
/// each put in as [`map_insert`] states.
pub open spec fn spec_eval_pairs(s: Seq<(Value, Value)>, env: Env) -> Result<Seq<(CssV, CssV)>, ErrorV>
    decreases env.depth, pairs_calls(s), pairs_size(s),
{
    if s.len() == 0 {
        Ok(seq![])
    } else {
        match spec_eval_pairs(s.drop_last(), env) {
            Err(e) => Err(e),
            Ok(xs) => match spec_eval(s.last().0, env, false) {
                Err(e) => Err(e),
                Ok(k) => match spec_eval(s.last().1, env, false) {
                    Err(e) => Err(e),
                    Ok(x) => Ok(map_insert(xs, k, x)),
                },
            },
        }
    }
}


/// A value has no more calls than the sequence it is in, and is smaller.
pub proof fn lemma_seq_measure(s: Seq<Value>, i: int)
    requires
        0 <= i < s.len(),
    ensures
        value_calls(s[i]) <= seq_calls(s),
        value_size(s[i]) < seq_size(s),
    decreases s.len(),
{
    if i < s.len() - 1 {
        lemma_seq_measure(s.drop_last(), i);
        assert(s.drop_last()[i] == s[i]);
    }
}

/// An argument has no more calls than the arguments it is in, and is smaller.
pub proof fn lemma_args_measure(s: Seq<(Option<String>, Value)>, i: int)
    requires
        0 <= i < s.len(),
    ensures
        value_calls(s[i].1) <= args_calls(s),
        value_size(s[i].1) < args_size(s),
    decreases s.len(),
{
    if i < s.len() - 1 {
        lemma_args_measure(s.drop_last(), i);
        assert(s.drop_last()[i] == s[i]);
    }
}

/// A key or a value has no more calls than the map entries it is in, and
/// is smaller.
pub proof fn lemma_pairs_measure(s: Seq<(Value, Value)>, i: int)
    requires
        0 <= i < s.len(),
    ensures
        value_calls(s[i].0) <= pairs_calls(s),
        value_size(s[i].0) < pairs_size(s),
        value_calls(s[i].1) <= pairs_calls(s),
        value_size(s[i].1) < pairs_size(s),
    decreases s.len(),
{
    if i < s.len() - 1 {
        lemma_pairs_measure(s.drop_last(), i);
        assert(s.drop_last()[i] == s[i]);
    }
}

/// An error in evaluating a prefix of a sequence is the error of the whole.
pub proof fn lemma_eval_seq_prefix(s: Seq<Value>, k: int, env: Env, arithmetic: bool)
    requires
        0 <= k <= s.len(),
        spec_eval_seq(s.take(k), env, arithmetic) is Err,
    ensures
        spec_eval_seq(s, env, arithmetic) == spec_eval_seq(s.take(k), env, arithmetic),
    decreases s.len() - k,
{
    if k == s.len() {
        assert(s.take(k) =~= s);
    } else {
        assert(s.take(k + 1).drop_last() =~= s.take(k));
        lemma_eval_seq_prefix(s, k + 1, env, arithmetic);
    }
}

/// An error in evaluating a prefix of the arguments is the error of all.
pub proof fn lemma_eval_args_prefix(
    s: Seq<(Option<String>, Value)>,
    k: int,
    env: Env,
    arithmetic: bool,
)
    requires
        0 <= k <= s.len(),
        spec_eval_args(s.take(k), env, arithmetic) is Err,
    ensures
        spec_eval_args(s, env, arithmetic) == spec_eval_args(s.take(k), env, arithmetic),
    decreases s.len() - k,
{
    if k == s.len() {
        assert(s.take(k) =~= s);
    } else {
        assert(s.take(k + 1).drop_last() =~= s.take(k));
        lemma_eval_args_prefix(s, k + 1, env, arithmetic);
    }
}

/// An error in evaluating a prefix of the entries is the error of all.
pub proof fn lemma_eval_pairs_prefix(s: Seq<(Value, Value)>, k: int, env: Env)
    requires
        0 <= k <= s.len(),
        spec_eval_pairs(s.take(k), env) is Err,
    ensures
        spec_eval_pairs(s, env) == spec_eval_pairs(s.take(k), env),
    decreases s.len() - k,
{
    if k == s.len() {
        assert(s.take(k) =~= s);
    } else {
        assert(s.take(k + 1).drop_last() =~= s.take(k));
        lemma_eval_pairs_prefix(s, k + 1, env);
    }
}

fn operate(op: Operator, a: &css::Value, b: &css::Value) -> (r: Option<css::Value>)
    ensures
        match r {
            Some(x) => spec_operate(op, a@, b@) == Some(x@),
            None => spec_operate(op, a@, b@) is None,
        },
{
    match op {
        Operator::And => Some(
            if a.is_true() {
                clone_value(b)
            } else {
                clone_value(a)
            },
        ),
        Operator::Or => Some(
            if a.is_true() {
                clone_value(a)
            } else {
                clone_value(b)
            },
        ),
        Operator::Equal => Some(css::Value::bool(css::css_eq(a, b))),
        Operator::NotEqual => Some(css::Value::bool(!css::css_eq(a, b))),
        _ => None,
    }
}

fn unary(op: Operator, value: css::Value) -> (r: Result<css::Value, Error>)
    requires
        spec_unary(op, value@) != Err::<CssV, ErrorV>(ErrorV::Refused),
    ensures
        result_view(r) == spec_unary(op, value@),
{
    match (op, value) {
        (Operator::Not, css::Value::Numeric(v, _, _)) => Ok(css::Value::bool(v.is_zero())),
        (Operator::Not, css::Value::True) => Ok(css::Value::False),
        (Operator::Not, css::Value::False) => Ok(css::Value::True),
        (Operator::Minus, css::Value::Numeric(v, u, _)) => Ok(
            css::Value::Numeric(
                Number { value: v.value.neg(), plus_sign: v.plus_sign, lead_zero: v.lead_zero },
                u,
                true,
            ),
        ),
        (Operator::Plus, css::Value::Numeric(v, u, _)) => {
            let mut num = v;
            num.plus_sign = true;
            Ok(css::Value::Numeric(num, u, true))
        },
        (Operator::Minus, css::Value::Literal(s, Quotes::Unquoted)) => {
            let mut t = String::new();
            push_char(&mut t, '-');
            t.append(s.as_str());
            Ok(css::Value::Literal(t, Quotes::Unquoted))
        },
        (op, v) => Ok(css::Value::UnaryOp(op, Box::new(v))),
    }
}

impl Value {
    /// A unitless number.
    pub fn scalar(v: isize) -> (r: Self)
        ensures
            r == Value::Numeric(Number::from_integer_spec(v), Unit::Unitless),
    {
        Value::Numeric(Number::from_integer(v), Unit::Unitless)
    }

    /// `True` or `False`.
    pub fn bool(v: bool) -> (r: Self)
        ensures
            r == (if v {
                Value::True
            } else {
                Value::False
            }),
    {
        if v {
            Value::True
        } else {
            Value::False
        }
    }

    /// The color black, by its name.
    pub fn black() -> (r: Self)
        ensures
            r matches Value::Color(c, Some(name)) && c == (Rgba {
                red: Fraction { numer: 0, denom: 1 },
                green: Fraction { numer: 0, denom: 1 },
                blue: Fraction { numer: 0, denom: 1 },
                alpha: Fraction { numer: 1, denom: 1 },
            }) && name@ == "black"@,
    {
        Value::Color(Rgba::from_rgb(0, 0, 0), Some(String::from_str("black")))
    }

    /// A color from its channels, without a name.
    pub fn rgba(r: Fraction, g: Fraction, b: Fraction, a: Fraction) -> (v: Self)
        ensures
            v matches Value::Color(c, None) && c == (Rgba { red: r, green: g, blue: b, alpha: a }),
    {
        Value::Color(Rgba::new(r, g, b, a), None)
    }

    /// The name of the kind of this value.
    pub fn value_type_name(&self) -> (r: &'static str)
        ensures
            r@ == spec_type_name(*self),
    {
        match self {
            Value::Color(..) => "color",
            Value::Literal(..) => "string",
            Value::Numeric(..) => "number",
            Value::List(..) => "list",
            Value::True | Value::False => "bool",
            Value::Null => "null",
            _ => "unknown",
        }
    }

    /// All values other than `False` and `Null` should be considered true.
    pub fn is_true(&self) -> (r: bool)
        ensures
            r == spec_is_true(*self),
    {
        match self {
            Value::False | Value::Null => false,
            _ => true,
        }
    }

    /// Null, or a list without brackets of null values only.
    pub fn is_null(&self) -> (r: bool)
        ensures
            r == spec_is_null(*self),
        decreases value_size(*self),
    {
        match self {
            Value::Null => true,
            Value::List(list, _, false) => {
                let mut i: usize = 0;
                while i < list.len()
                    invariant
                        i <= list.len(),
                        all_null(list@.take(i as int)),
                        value_size(*self) == 1 + seq_size(list@),
                        spec_is_null(*self) == all_null(list@),
                    decreases list.len() - i,
                {
                    assert(list@.take(i + 1).drop_last() =~= list@.take(i as int));
                    assert(list@.take(i + 1).last() == list@[i as int]);
                    proof {
                        lemma_seq_measure(list@, i as int);
                    }
                    if !list[i].is_null() {
                        assert(!all_null(list@.take(i + 1)));
                        proof {
                            lemma_all_null_prefix(list@, i + 1);
                        }
                        return false;
                    }
                    i = i + 1;
                }
                assert(list@.take(list.len() as int) =~= list@);
                true
            },
            _ => false,
        }
    }

    /// The value of this value in `scope`, where `/` is not division.
    pub fn evaluate(&self, scope: &ScopeImpl) -> (r: Result<css::Value, Error>)
        requires
            spec_eval(*self, scope.env(), false) != Err::<CssV, ErrorV>(ErrorV::Refused),
        ensures
            result_view(r) == spec_eval(*self, scope.env(), false),
    {
        self.do_evaluate(scope, false)
    }

    /// The value of this value in `scope`, as [`spec_eval`] states;
    /// `arithmetic` tells whether `/` is division. A call goes to the user
    /// function of its name where the scope has one (its body evaluated in
    /// a scope inside `scope` where its arguments are bound, with one call
    /// less left to nest, the error `CallDepth` where none is left), else
    /// to the built-in function of that name.
    pub fn do_evaluate(&self, scope: &ScopeImpl, arithmetic: bool) -> (r: Result<css::Value, Error>)
        requires
            spec_eval(*self, scope.env(), arithmetic) != Err::<CssV, ErrorV>(ErrorV::Refused),
        ensures
            result_view(r) == spec_eval(*self, scope.env(), arithmetic),
        decreases scope.call_depth(), value_calls(*self), value_size(*self),
    {
        match self {
            Value::Bang(s) => Ok(css::Value::Bang(s.clone())),
            Value::Literal(s) => {
                let (t, q) = s.evaluate();
                if t.as_str().is_empty() && q == Quotes::Unquoted {
                    Ok(css::Value::Null)
                } else {
                    Ok(css::Value::Literal(t, q))
                }
            },
            Value::Paren(v, keep) => {
                let x = v.do_evaluate(scope, !*keep)?;
                if !*keep {
                    Ok(x)
                } else {
                    Ok(css::Value::Paren(Box::new(x)))
                }
            },
            Value::Color(c, name) => Ok(css::Value::Color(*c, css::clone_opt_str(name))),
            Value::Variable(name) => {
                let v = scope.get(name.as_str())?;
                Ok(v.into_calculated())
            },
            Value::List(v, sep, brackets) => {
                let items = eval_seq(v, scope, false)?;
                Ok(css::Value::List(items, *sep, *brackets))
            },
            Value::Call(name, args) => {
                let cargs = css::CallArgs(eval_args(&args.0, scope, true)?);
                match name.single_raw() {
                    Some(n) => match scope.get_function(n) {
                        Some(f) => {
                            if scope.depth() == 0 {
                                return Err(Error::CallDepth(String::from_str(n)));
                            }
                            let inner = ScopeImpl::deeper(scope);
                            let s = f.args.eval(&inner, &cargs)?;
                            proof {
                                lemma_bind_keeps_others(
                                    formals_view(f.args.0@),
                                    f.args.1,
                                    0,
                                    inner.env(),
                                    cargs@,
                                );
                                assert(s.env().at_depth(inner.call_depth()) =~= s.env());
                            }
                            f.body.do_evaluate(&s, false)
                        },
                        None => match get_builtin_function(n) {
                            Some(f) => f.call(scope, &cargs),
                            None => Ok(css::Value::Call(String::from_str(n), cargs)),
                        },
                    },
                    None => {
                        let (n, _) = name.evaluate();
                        Ok(css::Value::Call(n, cargs))
                    },
                }
            },
            Value::Numeric(num, unit) => Ok(css::Value::Numeric(*num, *unit, arithmetic)),
            Value::Mapping(m) => {
                let items = eval_pairs(m, scope)?;
                Ok(css::Value::Mapping(items))
            },
            Value::Null => Ok(css::Value::Null),
            Value::True => Ok(css::Value::True),
            Value::False => Ok(css::Value::False),
            Value::BinOp(a, _, op, _, b) => {
                let arith = arithmetic || *op != Operator::Div;
                let aa = a.do_evaluate(scope, arith)?;
                let bb = b.do_evaluate(scope, arith || aa.is_calculated())?;
                let x = if !arith && bb.is_calculated() && !aa.is_calculated() {
                    a.do_evaluate(scope, true)?
                } else {
                    aa
                };
                match operate(*op, &x, &bb) {
                    Some(r) => Ok(r),
                    None => Ok(css::Value::BinOp(Box::new(x), false, *op, false, Box::new(bb))),
                }
            },
            Value::UnaryOp(op, v) => {
                let value = v.do_evaluate(scope, true)?;
                unary(*op, value)
            },
            Value::HereSelector => Ok(scope.get_selectors()),
            Value::UnicodeRange(s) => Ok(css::Value::UnicodeRange(s.clone())),
        }
    }
}

/// A value that is not null makes a sequence with it not all null.
pub proof fn lemma_all_null_prefix(s: Seq<Value>, k: int)
    requires
        0 <= k <= s.len(),
        !all_null(s.take(k)),
    ensures
        !all_null(s),
    decreases s.len() - k,
{
    if k == s.len() {
        assert(s.take(k) =~= s);
    } else {
        assert(s.take(k + 1).drop_last() =~= s.take(k));
        lemma_all_null_prefix(s, k + 1);
    }
}

fn eval_seq(items: &Vec<Value>, scope: &ScopeImpl, arithmetic: bool) -> (r: Result<
    Vec<css::Value>,
    Error,
>)
    requires
        spec_eval_seq(items@, scope.env(), arithmetic) != Err::<Seq<CssV>, ErrorV>(ErrorV::Refused),
    ensures
        match r {
            Ok(v) => spec_eval_seq(items@, scope.env(), arithmetic) == Ok::<Seq<CssV>, ErrorV>(
                css::css_views(v@),
            ),
            Err(e) => spec_eval_seq(items@, scope.env(), arithmetic) == Err::<Seq<CssV>, ErrorV>(e@),
        },
    decreases scope.call_depth(), seq_calls(items@), seq_size(items@),
{
    let ghost env = scope.env();
    let mut out: Vec<css::Value> = Vec::new();
    let mut i: usize = 0;
    while i < items.len()
        invariant
            i <= items.len(),
            env == scope.env(),
            spec_eval_seq(items@, env, arithmetic) != Err::<Seq<CssV>, ErrorV>(ErrorV::Refused),
            spec_eval_seq(items@.take(i as int), env, arithmetic) == Ok::<Seq<CssV>, ErrorV>(
                css::css_views(out@),
            ),
        decreases items.len() - i,
    {
        assert(items@.take(i + 1).drop_last() =~= items@.take(i as int));
        assert(items@.take(i + 1).last() == items@[i as int]);
        proof {
            lemma_seq_measure(items@, i as int);
            if spec_eval(items@[i as int], env, arithmetic) is Err {
                lemma_eval_seq_prefix(items@, i + 1, env, arithmetic);
            }
        }
        match items[i].do_evaluate(scope, arithmetic) {
            Ok(x) => {
                proof {
                    css::lemma_css_views_push(out@, x);
                }
                out.push(x);
            },
            Err(e) => {
                return Err(e);
            },
        }
        i = i + 1;
    }
    assert(items@.take(items.len() as int) =~= items@);
    Ok(out)
}

fn eval_args(items: &Vec<(Option<String>, Value)>, scope: &ScopeImpl, arithmetic: bool) -> (r: Result<
    Vec<(Option<String>, css::Value)>,
    Error,
>)
    requires
        spec_eval_args(items@, scope.env(), arithmetic) != Err::<
            Seq<(Option<Seq<char>>, CssV)>,
            ErrorV,
        >(ErrorV::Refused),
    ensures
        match r {
            Ok(v) => spec_eval_args(items@, scope.env(), arithmetic) == Ok::<
                Seq<(Option<Seq<char>>, CssV)>,
                ErrorV,
            >(css::args_view(v@)),
            Err(e) => spec_eval_args(items@, scope.env(), arithmetic) == Err::<
                Seq<(Option<Seq<char>>, CssV)>,
                ErrorV,
            >(e@),
        },
    decreases scope.call_depth(), args_calls(items@), args_size(items@),
{
    let ghost env = scope.env();
    let mut out: Vec<(Option<String>, css::Value)> = Vec::new();
    let mut i: usize = 0;
    while i < items.len()
        invariant
            i <= items.len(),
            env == scope.env(),
            spec_eval_args(items@, env, arithmetic) != Err::<
                Seq<(Option<Seq<char>>, CssV)>,
                ErrorV,
            >(ErrorV::Refused),
            spec_eval_args(items@.take(i as int), env, arithmetic) == Ok::<
                Seq<(Option<Seq<char>>, CssV)>,
                ErrorV,
            >(css::args_view(out@)),
        decreases items.len() - i,
    {
        assert(items@.take(i + 1).drop_last() =~= items@.take(i as int));
        assert(items@.take(i + 1).last() == items@[i as int]);
        proof {
            lemma_args_measure(items@, i as int);
            if spec_eval(items@[i as int].1, env, arithmetic) is Err {
                lemma_eval_args_prefix(items@, i + 1, env, arithmetic);
            }
        }
        match items[i].1.do_evaluate(scope, arithmetic) {
            Ok(x) => {
                let n = css::clone_opt_str(&items[i].0);
                proof {
                    css::lemma_args_view_push(out@, (n, x));
                }
                out.push((n, x));
            },
            Err(e) => {
                return Err(e);
            },
        }
        i = i + 1;
    }
    assert(items@.take(items.len() as int) =~= items@);
    Ok(out)
}

fn put_entry(out: &mut Vec<(css::Value, css::Value)>, k: css::Value, x: css::Value)
    ensures
        css::pairs_view(final(out)@) == map_insert(css::pairs_view(old(out)@), k@, x@),
{
    proof {
        css::lemma_pairs_view(out@);
        lemma_key_position(css::pairs_view(out@), k@);
    }
    let ghost xs = css::pairs_view(out@);
    let mut j: usize = 0;
    while j < out.len()
        invariant
            j <= out.len(),
            xs == css::pairs_view(out@),
            xs == css::pairs_view(old(out)@),
            xs.len() == out.len(),
            forall|t: int| 0 <= t < out.len() ==> #[trigger] xs[t] == (out@[t].0@, out@[t].1@),
            forall|t: int| 0 <= t < j ==> #[trigger] xs[t].0 != k@,
        decreases out.len() - j,
    {
        if css::css_eq(&out[j].0, &k) {
            assert(key_position(xs, k@) == Some(j as int)) by {
                lemma_key_position(xs, k@);
                if let Some(p) = key_position(xs, k@) {
                    if p < j {
                        assert(xs[p].0 != k@);
                    } else if p > j {
                        assert(xs[j as int].0 == k@);
                    }
                }
            }
            out.set(j, (k, x));
            proof {
                css::lemma_pairs_view(out@);
            }
            assert(css::pairs_view(out@) =~= xs.update(j as int, (k@, x@)));
            return;
        }
        j = j + 1;
    }
    assert(key_position(xs, k@) is None) by {
        if let Some(p) = key_position(xs, k@) {
            assert(xs[p].0 != k@);
        }
    }
    proof {
        css::lemma_pairs_view_push(out@, (k, x));
    }
    out.push((k, x));
}

fn eval_pairs(items: &Vec<(Value, Value)>, scope: &ScopeImpl) -> (r: Result<
    Vec<(css::Value, css::Value)>,
    Error,
>)
    requires
        spec_eval_pairs(items@, scope.env()) != Err::<Seq<(CssV, CssV)>, ErrorV>(ErrorV::Refused),
    ensures
        match r {
            Ok(v) => spec_eval_pairs(items@, scope.env()) == Ok::<Seq<(CssV, CssV)>, ErrorV>(
                css::pairs_view(v@),
            ),
            Err(e) => spec_eval_pairs(items@, scope.env()) == Err::<Seq<(CssV, CssV)>, ErrorV>(e@),
        },
    decreases scope.call_depth(), pairs_calls(items@), pairs_size(items@),
{
    let ghost env = scope.env();
    let mut out: Vec<(css::Value, css::Value)> = Vec::new();
    let mut i: usize = 0;
    while i < items.len()
        invariant
            i <= items.len(),
            env == scope.env(),
            spec_eval_pairs(items@, env) != Err::<Seq<(CssV, CssV)>, ErrorV>(ErrorV::Refused),
            spec_eval_pairs(items@.take(i as int), env) == Ok::<Seq<(CssV, CssV)>, ErrorV>(
                css::pairs_view(out@),
            ),
        decreases items.len() - i,
    {
        assert(items@.take(i + 1).drop_last() =~= items@.take(i as int));
        assert(items@.take(i + 1).last() == items@[i as int]);
        proof {
            lemma_pairs_measure(items@, i as int);
            if spec_eval(items@[i as int].0, env, false) is Err || (spec_eval(
                items@[i as int].0,
                env,
                false,
            ) is Ok && spec_eval(items@[i as int].1, env, false) is Err) {
                lemma_eval_pairs_prefix(items@, i + 1, env);
            }
        }
        let k = match items[i].0.do_evaluate(scope, false) {
            Ok(k) => k,
            Err(e) => {
                return Err(e);
            },
        };
        match items[i].1.do_evaluate(scope, false) {
            Ok(x) => {
                put_entry(&mut out, k, x);
            },
            Err(e) => {
                return Err(e);
            },
        }
        i = i + 1;
    }
    assert(items@.take(items.len() as int) =~= items@);
    Ok(out)
}


/// Parentheses that are not kept make their content evaluate numerically:
/// `/` in them is division.
pub proof fn lemma_paren_is_arithmetic(v: Value, env: Env, arithmetic: bool)
    ensures
        spec_eval(Value::Paren(Box::new(v), false), env, arithmetic) == spec_eval(v, env, true),
{
}

/// A color keeps the text it was written with, so that case and length
/// are preserved.
pub proof fn lemma_color_keeps_its_text(c: Rgba, name: Option<String>, env: Env, arithmetic: bool)
    ensures
        spec_eval(Value::Color(c, name), env, arithmetic) == Ok::<CssV, ErrorV>(
            CssV::Color(c, css::opt_str_view(name)),
        ),
{
}


/// Evaluating a sequence gives one value for each of its values.
pub proof fn lemma_eval_seq_length(s: Seq<Value>, env: Env, arithmetic: bool)
    ensures
        spec_eval_seq(s, env, arithmetic) matches Ok(xs) ==> xs.len() == s.len(),
    decreases s.len(),
{
    if s.len() > 0 {
        lemma_eval_seq_length(s.drop_last(), env, arithmetic);
    }
}

/// A list evaluates to a list with as many items, the same separator and
/// the same brackets.
pub proof fn lemma_list_keeps_its_shape(
    items: Vec<Value>,
    sep: ListSeparator,
    brackets: bool,
    env: Env,
    arithmetic: bool,
)
    ensures
        spec_eval(Value::List(items, sep, brackets), env, arithmetic) matches Ok(x) ==> (x matches CssV::List(
            xs,
            sep2,
            brackets2,
        ) && xs.len() == items@.len() && sep2 == sep && brackets2 == brackets),
{
    lemma_eval_seq_length(items@, env, false);
}

/// A call asks the scope for a user function of its name first: where one
/// is defined, its result is that of binding its arguments (with one call
/// less left to nest) and evaluating its body, whatever built-in function
/// has the same name.
pub proof fn lemma_user_function_first(
    name: SassString,
    args: CallArgs,
    env: Env,
    arithmetic: bool,
    f: crate::sass::Function,
)
    requires
        name.quotes == Quotes::Unquoted,
        (env.functions)(name.raw@) == Some(f),
        env.depth > 0,
    ensures
        spec_eval(Value::Call(name, args), env, arithmetic) == match spec_eval_args(
            args.0@,
            env,
            true,
        ) {
            Err(e) => Err(e),
            Ok(xs) => match spec_bind(
                formals_view(f.args.0@),
                f.args.1,
                0,
                env.at_depth((env.depth - 1) as nat),
                xs,
            ) {
                Err(e) => Err(e),
                Ok(inner) => spec_eval(f.body, inner.at_depth((env.depth - 1) as nat), false),
            },
        },
{
}

/// Where no more calls may nest, a call of a user function is the error
/// `CallDepth`, so that evaluation always ends.
pub proof fn lemma_call_depth_ends_recursion(
    name: SassString,
    args: CallArgs,
    env: Env,
    arithmetic: bool,
)
    requires
        name.quotes == Quotes::Unquoted,
        (env.functions)(name.raw@) is Some,
        env.depth == 0,
        spec_eval_args(args.0@, env, true) is Ok,
    ensures
        spec_eval(Value::Call(name, args), env, arithmetic) == Err::<CssV, ErrorV>(
            ErrorV::CallDepth(name.raw@),
        ),
{
}

/// `not` negates a boolean: where the operand evaluates to `true` the
/// result is `false`, where it evaluates to `false` the result is `true`;
/// of a number it tells whether the number is zero.
pub proof fn lemma_not_negates(b: Value, env: Env, arithmetic: bool)
    ensures
        spec_eval(b, env, true) == Ok::<CssV, ErrorV>(CssV::True) ==> spec_eval(
            Value::UnaryOp(Operator::Not, Box::new(b)),
            env,
            arithmetic,
        ) == Ok::<CssV, ErrorV>(CssV::False),
        spec_eval(b, env, true) == Ok::<CssV, ErrorV>(CssV::False) ==> spec_eval(
            Value::UnaryOp(Operator::Not, Box::new(b)),
            env,
            arithmetic,
        ) == Ok::<CssV, ErrorV>(CssV::True),
        spec_eval(b, env, true) matches Ok(CssV::Numeric(n, _, _)) ==> spec_eval(
            Value::UnaryOp(Operator::Not, Box::new(b)),
            env,
            arithmetic,
        ) == Ok::<CssV, ErrorV>(if n.value.numer == 0 { CssV::True } else { CssV::False }),
{
}

/// `not true` is `false` and `not false` is `true`, in any scope.
pub proof fn lemma_not_of_booleans(env: Env, arithmetic: bool)
    ensures
        spec_eval(Value::UnaryOp(Operator::Not, Box::new(Value::True)), env, arithmetic) == Ok::<
            CssV,
            ErrorV,
        >(CssV::False),
        spec_eval(Value::UnaryOp(Operator::Not, Box::new(Value::False)), env, arithmetic) == Ok::<
            CssV,
            ErrorV,
        >(CssV::True),
{
    lemma_not_negates(Value::True, env, arithmetic);
    lemma_not_negates(Value::False, env, arithmetic);
}

/// Negating a number twice gives it back, as a calculated number; `+`
/// keeps its value.
pub proof fn lemma_minus_twice(n: Number, u: Unit, c: bool)
    requires
        n.value.numer != isize::MIN,
    ensures
        spec_unary(Operator::Minus, CssV::Numeric(n, u, c)) matches Ok(x) && spec_unary(
            Operator::Minus,
            x,
        ) == Ok::<CssV, ErrorV>(CssV::Numeric(n, u, true)),
        spec_unary(Operator::Minus, CssV::Numeric(n, u, c)) matches Ok(CssV::Numeric(m, u2, _))
            && m.value.numer == -n.value.numer && m.value.denom == n.value.denom && u2 == u,
        spec_unary(Operator::Plus, CssV::Numeric(n, u, c)) matches Ok(CssV::Numeric(m, u2, _))
            && m.value == n.value && m.plus_sign && u2 == u,
{
}

} // verus!
