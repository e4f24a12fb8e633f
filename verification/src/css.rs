//! Evaluated values, as they go into CSS.

use vstd::prelude::*;

use crate::error::{Error, ErrorV};
use crate::value::{ListSeparator, Number, Operator, Quotes, Rgba, Unit};

verus! {

/// An evaluated value.
#[derive(Debug, PartialEq, Eq)]
pub enum Value {
    /// A special kind of escape, such as `!important`.
    Bang(String),
    /// A function call that stays as it is: a name and arguments.
    Call(String, CallArgs),
    /// A string and its quotes.
    Literal(String, Quotes),
    /// A list with its separator; the flag tells whether it has brackets.
    List(Vec<Value>, ListSeparator, bool),
    /// A number with its unit; the flag tells whether it was calculated.
    Numeric(Number, Unit, bool),
    /// A value in parentheses.
    Paren(Box<Value>),
    /// A color and the name it was written with, if any.
    Color(Rgba, Option<String>),
    Null,
    True,
    False,
    /// A binary operation that stays as it is; the flags tell about whitespace.
    BinOp(Box<Value>, bool, Operator, bool, Box<Value>),
    /// A unary operation that stays as it is.
    UnaryOp(Operator, Box<Value>),
    /// A map from keys to values, in order.
    Mapping(Vec<(Value, Value)>),
    /// A unicode range, `U+` included.
    UnicodeRange(String),
}

/// The arguments of a call: each with its name, if it is given by name.
#[derive(Debug, PartialEq, Eq)]
pub struct CallArgs(pub Vec<(Option<String>, Value)>);

/// The mathematical value of a [`Value`].
pub enum CssV {
    Bang(Seq<char>),
    Call(Seq<char>, Seq<(Option<Seq<char>>, CssV)>),
    Literal(Seq<char>, Quotes),
    List(Seq<CssV>, ListSeparator, bool),
    Numeric(Number, Unit, bool),
    Paren(Box<CssV>),
    Color(Rgba, Option<Seq<char>>),
    Null,
    True,
    False,
    BinOp(Box<CssV>, bool, Operator, bool, Box<CssV>),
    UnaryOp(Operator, Box<CssV>),
    Mapping(Seq<(CssV, CssV)>),
    UnicodeRange(Seq<char>),
}

/// The view of an optional string.
pub open spec fn opt_str_view(o: Option<String>) -> Option<Seq<char>> {
    match o {
        Some(s) => Some(s@),
        None => None,
    }
}

/// The value of an evaluated value.
pub open spec fn css_view(v: Value) -> CssV
    decreases v,
{
    match v {
        Value::Bang(s) => CssV::Bang(s@),
        Value::Call(name, args) => CssV::Call(name@, args_view(args.0@)),
        Value::Literal(s, q) => CssV::Literal(s@, q),
        Value::List(items, sep, brackets) => CssV::List(css_views(items@), sep, brackets),
        Value::Numeric(n, u, c) => CssV::Numeric(n, u, c),
        Value::Paren(b) => CssV::Paren(Box::new(css_view(*b))),
        Value::Color(c, name) => CssV::Color(c, opt_str_view(name)),
        Value::Null => CssV::Null,
        Value::True => CssV::True,
        Value::False => CssV::False,
        Value::BinOp(a, s1, op, s2, b) => CssV::BinOp(
            Box::new(css_view(*a)),
            s1,
            op,
            s2,
            Box::new(css_view(*b)),
        ),
        Value::UnaryOp(op, b) => CssV::UnaryOp(op, Box::new(css_view(*b))),
        Value::Mapping(m) => CssV::Mapping(pairs_view(m@)),
        Value::UnicodeRange(s) => CssV::UnicodeRange(s@),
    }
}

/// The values of a sequence of evaluated values.
pub open spec fn css_views(s: Seq<Value>) -> Seq<CssV>
    decreases s,
{
    if s.len() == 0 {
        seq![]
    } else {
        css_views(s.drop_last()).push(css_view(s.last()))
    }
}

/// The values of call arguments.
pub open spec fn args_view(s: Seq<(Option<String>, Value)>) -> Seq<(Option<Seq<char>>, CssV)>
    decreases s,
{
    if s.len() == 0 {
        seq![]
    } else {
        args_view(s.drop_last()).push((opt_str_view(s.last().0), css_view(s.last().1)))
    }
}

/// The values of the entries of a map.
pub open spec fn pairs_view(s: Seq<(Value, Value)>) -> Seq<(CssV, CssV)>
    decreases s,
{
    if s.len() == 0 {
        seq![]
    } else {
        pairs_view(s.drop_last()).push((css_view(s.last().0), css_view(s.last().1)))
    }
}

/// The value of an evaluation result.
pub open spec fn result_view(r: Result<Value, Error>) -> Result<CssV, ErrorV> {
    match r {
        Ok(v) => Ok(v@),
        Err(e) => Err(e@),
    }
}

impl View for Value {
    type V = CssV;

    open spec fn view(&self) -> CssV {
        css_view(*self)
    }
}

impl View for CallArgs {
    type V = Seq<(Option<Seq<char>>, CssV)>;

    open spec fn view(&self) -> Seq<(Option<Seq<char>>, CssV)> {
        args_view(self.0@)
    }
}


/// A copy of an optional string.
pub fn clone_opt_str(o: &Option<String>) -> (r: Option<String>)
    ensures
        opt_str_view(r) == opt_str_view(*o),
{
    match o {
        Some(s) => Some(s.clone()),
        None => None,
    }
}

/// A copy of `v` with the same value.
pub fn clone_value(v: &Value) -> (r: Value)
    ensures
        r@ == v@,
    decreases v,
{
    match v {
        Value::Bang(s) => Value::Bang(s.clone()),
        Value::Call(name, args) => Value::Call(name.clone(), CallArgs(clone_args(&args.0))),
        Value::Literal(s, q) => Value::Literal(s.clone(), *q),
        Value::List(items, sep, b) => Value::List(clone_values(items), *sep, *b),
        Value::Numeric(n, u, c) => Value::Numeric(*n, *u, *c),
        Value::Paren(b) => Value::Paren(Box::new(clone_value(b))),
        Value::Color(c, name) => Value::Color(*c, clone_opt_str(name)),
        Value::Null => Value::Null,
        Value::True => Value::True,
        Value::False => Value::False,
        Value::BinOp(a, s1, op, s2, b) => Value::BinOp(
            Box::new(clone_value(a)),
            *s1,
            *op,
            *s2,
            Box::new(clone_value(b)),
        ),
        Value::UnaryOp(op, b) => Value::UnaryOp(*op, Box::new(clone_value(b))),
        Value::Mapping(m) => Value::Mapping(clone_pairs(m)),
        Value::UnicodeRange(s) => Value::UnicodeRange(s.clone()),
    }
}

/// Copies of the values of `items`.
pub fn clone_values(items: &Vec<Value>) -> (r: Vec<Value>)
    ensures
        css_views(r@) == css_views(items@),
    decreases items,
{
    let mut r: Vec<Value> = Vec::new();
    let mut i: usize = 0;
    while i < items.len()
        invariant
            i <= items.len(),
            css_views(r@) == css_views(items@.take(i as int)),
        decreases items.len() - i,
    {
        assert(decreases_to!(items => items@[i as int]));
        let c = clone_value(&items[i]);
        let ghost before = r@;
        r.push(c);
        assert(r@.drop_last() =~= before);
        assert(items@.take(i + 1).drop_last() =~= items@.take(i as int));
        i = i + 1;
    }
    assert(items@.take(items.len() as int) =~= items@);
    r
}

fn clone_args(items: &Vec<(Option<String>, Value)>) -> (r: Vec<(Option<String>, Value)>)
    ensures
        args_view(r@) == args_view(items@),
    decreases items,
{
    let mut r: Vec<(Option<String>, Value)> = Vec::new();
    let mut i: usize = 0;
    while i < items.len()
        invariant
            i <= items.len(),
            args_view(r@) == args_view(items@.take(i as int)),
        decreases items.len() - i,
    {
        assert(decreases_to!(items => items@[i as int].1));
        let n = clone_opt_str(&items[i].0);
        let c = clone_value(&items[i].1);
        let ghost before = r@;
        r.push((n, c));
        assert(r@.drop_last() =~= before);
        assert(items@.take(i + 1).drop_last() =~= items@.take(i as int));
        i = i + 1;
    }
    assert(items@.take(items.len() as int) =~= items@);
    r
}

fn clone_pairs(items: &Vec<(Value, Value)>) -> (r: Vec<(Value, Value)>)
    ensures
        pairs_view(r@) == pairs_view(items@),
    decreases items,
{
    let mut r: Vec<(Value, Value)> = Vec::new();
    let mut i: usize = 0;
    while i < items.len()
        invariant
            i <= items.len(),
            pairs_view(r@) == pairs_view(items@.take(i as int)),
        decreases items.len() - i,
    {
        assert(decreases_to!(items => items@[i as int].0));
        assert(decreases_to!(items => items@[i as int].1));
        let k = clone_value(&items[i].0);
        let v = clone_value(&items[i].1);
        let ghost before = r@;
        r.push((k, v));
        assert(r@.drop_last() =~= before);
        assert(items@.take(i + 1).drop_last() =~= items@.take(i as int));
        i = i + 1;
    }
    assert(items@.take(items.len() as int) =~= items@);
    r
}

impl Clone for Value {
    fn clone(&self) -> (r: Self)
        ensures
            r@ == self@,
    {
        clone_value(self)
    }
}

impl Value {
    /// `True` or `False`.
    pub fn bool(b: bool) -> (r: Value)
        ensures
            r@ == (if b { CssV::True } else { CssV::False }),
    {
        if b {
            Value::True
        } else {
            Value::False
        }
    }

    /// A number that was calculated.
    pub fn is_calculated(&self) -> (r: bool)
        ensures
            r == (self@ matches CssV::Numeric(_, _, c) && c),
    {
        match self {
            Value::Numeric(_, _, c) => *c,
            _ => false,
        }
    }

    /// The value with a number marked as calculated.
    pub fn into_calculated(self) -> (r: Value)
        ensures
            r@ == calculated(self@),
    {
        match self {
            Value::Numeric(n, u, _) => Value::Numeric(n, u, true),
            other => other,
        }
    }
}

/// A number marked as calculated; any other value as it is.
pub open spec fn calculated(v: CssV) -> CssV {
    match v {
        CssV::Numeric(n, u, _) => CssV::Numeric(n, u, true),
        other => other,
    }
}


/// The view of a sequence of values is the sequence of their views.
pub proof fn lemma_css_views(s: Seq<Value>)
    ensures
        css_views(s).len() == s.len(),
        forall|i: int| 0 <= i < s.len() ==> #[trigger] css_views(s)[i] == s[i]@,
    decreases s.len(),
{
    if s.len() > 0 {
        lemma_css_views(s.drop_last());
        assert forall|i: int| 0 <= i < s.len() implies #[trigger] css_views(s)[i] == s[i]@ by {
            if i < s.len() - 1 {
                assert(s.drop_last()[i] == s[i]);
            }
        }
    }
}

/// The view of call arguments is the sequence of their views.
pub proof fn lemma_args_view(s: Seq<(Option<String>, Value)>)
    ensures
        args_view(s).len() == s.len(),
        forall|i: int|
            0 <= i < s.len() ==> #[trigger] args_view(s)[i] == (opt_str_view(s[i].0), s[i].1@),
    decreases s.len(),
{
    if s.len() > 0 {
        lemma_args_view(s.drop_last());
        assert forall|i: int| 0 <= i < s.len() implies #[trigger] args_view(s)[i] == (
            opt_str_view(s[i].0),
            s[i].1@,
        ) by {
            if i < s.len() - 1 {
                assert(s.drop_last()[i] == s[i]);
            }
        }
    }
}

/// Pushing onto a sequence of values pushes its view.
pub proof fn lemma_css_views_push(s: Seq<Value>, v: Value)
    ensures
        css_views(s.push(v)) == css_views(s).push(v@),
{
    assert(s.push(v).drop_last() =~= s);
}

/// Pushing onto call arguments pushes its view.
pub proof fn lemma_args_view_push(s: Seq<(Option<String>, Value)>, a: (Option<String>, Value))
    ensures
        args_view(s.push(a)) == args_view(s).push((opt_str_view(a.0), a.1@)),
{
    assert(s.push(a).drop_last() =~= s);
}

/// The view of map entries has as many entries.
pub proof fn lemma_pairs_view_len(s: Seq<(Value, Value)>)
    ensures
        pairs_view(s).len() == s.len(),
    decreases s.len(),
{
    if s.len() > 0 {
        lemma_pairs_view_len(s.drop_last());
    }
}

/// Pushing onto map entries pushes its view.
pub proof fn lemma_pairs_view_push(s: Seq<(Value, Value)>, a: (Value, Value))
    ensures
        pairs_view(s.push(a)) == pairs_view(s).push((a.0@, a.1@)),
{
    assert(s.push(a).drop_last() =~= s);
}


impl Value {
    /// All values but `False` and `Null` are true.
    pub fn is_true(&self) -> (r: bool)
        ensures
            r == !(self@ is False || self@ is Null),
    {
        match self {
            Value::False | Value::Null => false,
            _ => true,
        }
    }
}


/// The entries of a map, each as the views of its key and value.
pub proof fn lemma_pairs_view(s: Seq<(Value, Value)>)
    ensures
        pairs_view(s).len() == s.len(),
        forall|i: int| 0 <= i < s.len() ==> #[trigger] pairs_view(s)[i] == (s[i].0@, s[i].1@),
    decreases s.len(),
{
    if s.len() > 0 {
        lemma_pairs_view(s.drop_last());
        assert forall|i: int| 0 <= i < s.len() implies #[trigger] pairs_view(s)[i] == (
            s[i].0@,
            s[i].1@,
        ) by {
            if i < s.len() - 1 {
                assert(s.drop_last()[i] == s[i]);
            }
        }
    }
}

/// Whether two optional strings are the same.
pub fn opt_str_eq(a: &Option<String>, b: &Option<String>) -> (r: bool)
    ensures
        r == (opt_str_view(*a) == opt_str_view(*b)),
{
    match (a, b) {
        (Some(x), Some(y)) => crate::text::str_eq(x.as_str(), y.as_str()),
        (None, None) => true,
        _ => false,
    }
}

/// Whether two evaluated values are the same value.
pub fn css_eq(a: &Value, b: &Value) -> (r: bool)
    ensures
        r == (a@ == b@),
    decreases a,
{
    match (a, b) {
        (Value::Bang(x), Value::Bang(y)) => crate::text::str_eq(x.as_str(), y.as_str()),
        (Value::Call(n1, a1), Value::Call(n2, a2)) => {
            let same_name = crate::text::str_eq(n1.as_str(), n2.as_str());
            same_name && args_eq(&a1.0, &a2.0)
        },
        (Value::Literal(x, q1), Value::Literal(y, q2)) => {
            let same = crate::text::str_eq(x.as_str(), y.as_str());
            same && *q1 == *q2
        },
        (Value::List(x, s1, b1), Value::List(y, s2, b2)) => *s1 == *s2 && *b1 == *b2 && values_eq(
            x,
            y,
        ),
        (Value::Numeric(n1, u1, c1), Value::Numeric(n2, u2, c2)) => *n1 == *n2 && *u1 == *u2 && *c1
            == *c2,
        (Value::Paren(x), Value::Paren(y)) => css_eq(x, y),
        (Value::Color(c1, m1), Value::Color(c2, m2)) => *c1 == *c2 && opt_str_eq(m1, m2),
        (Value::Null, Value::Null) => true,
        (Value::True, Value::True) => true,
        (Value::False, Value::False) => true,
        (Value::BinOp(a1, s1, o1, t1, b1), Value::BinOp(a2, s2, o2, t2, b2)) => {
            if *s1 == *s2 && *o1 == *o2 && *t1 == *t2 {
                let left = css_eq(a1, a2);
                left && css_eq(b1, b2)
            } else {
                false
            }
        },
        (Value::UnaryOp(o1, x), Value::UnaryOp(o2, y)) => *o1 == *o2 && css_eq(x, y),
        (Value::Mapping(x), Value::Mapping(y)) => pairs_eq(x, y),
        (Value::UnicodeRange(x), Value::UnicodeRange(y)) => crate::text::str_eq(
            x.as_str(),
            y.as_str(),
        ),
        _ => false,
    }
}

fn values_eq(a: &Vec<Value>, b: &Vec<Value>) -> (r: bool)
    ensures
        r == (css_views(a@) == css_views(b@)),
    decreases a,
{
    proof {
        lemma_css_views(a@);
        lemma_css_views(b@);
    }
    if a.len() != b.len() {
        return false;
    }
    let mut i: usize = 0;
    while i < a.len()
        invariant
            i <= a.len(),
            a.len() == b.len(),
            css_views(a@).len() == a.len(),
            css_views(b@).len() == b.len(),
            forall|t: int| 0 <= t < a.len() ==> #[trigger] css_views(a@)[t] == a@[t]@,
            forall|t: int| 0 <= t < b.len() ==> #[trigger] css_views(b@)[t] == b@[t]@,
            forall|t: int| 0 <= t < i ==> a@[t]@ == b@[t]@,
        decreases a.len() - i,
    {
        assert(decreases_to!(a => a@[i as int]));
        if !css_eq(&a[i], &b[i]) {
            assert(css_views(a@)[i as int] != css_views(b@)[i as int]);
            return false;
        }
        i = i + 1;
    }
    assert(css_views(a@) =~= css_views(b@));
    true
}

fn args_eq(a: &Vec<(Option<String>, Value)>, b: &Vec<(Option<String>, Value)>) -> (r: bool)
    ensures
        r == (args_view(a@) == args_view(b@)),
    decreases a,
{
    proof {
        lemma_args_view(a@);
        lemma_args_view(b@);
    }
    if a.len() != b.len() {
        return false;
    }
    let mut i: usize = 0;
    while i < a.len()
        invariant
            i <= a.len(),
            a.len() == b.len(),
            args_view(a@).len() == a.len(),
            args_view(b@).len() == b.len(),
            forall|t: int|
                0 <= t < a.len() ==> #[trigger] args_view(a@)[t] == (opt_str_view(a@[t].0), a@[t].1@),
            forall|t: int|
                0 <= t < b.len() ==> #[trigger] args_view(b@)[t] == (opt_str_view(b@[t].0), b@[t].1@),
            forall|t: int| 0 <= t < i ==> #[trigger] args_view(a@)[t] == args_view(b@)[t],
        decreases a.len() - i,
    {
        assert(decreases_to!(a => a@[i as int].1));
        let same_name = opt_str_eq(&a[i].0, &b[i].0);
        if !same_name || !css_eq(&a[i].1, &b[i].1) {
            assert(args_view(a@)[i as int] != args_view(b@)[i as int]);
            return false;
        }
        assert(args_view(a@)[i as int] == args_view(b@)[i as int]);
        i = i + 1;
    }
    assert(args_view(a@) =~= args_view(b@));
    true
}

fn pairs_eq(a: &Vec<(Value, Value)>, b: &Vec<(Value, Value)>) -> (r: bool)
    ensures
        r == (pairs_view(a@) == pairs_view(b@)),
    decreases a,
{
    proof {
        lemma_pairs_view(a@);
        lemma_pairs_view(b@);
    }
    if a.len() != b.len() {
        return false;
    }
    let mut i: usize = 0;
    while i < a.len()
        invariant
            i <= a.len(),
            a.len() == b.len(),
            pairs_view(a@).len() == a.len(),
            pairs_view(b@).len() == b.len(),
            forall|t: int| 0 <= t < a.len() ==> #[trigger] pairs_view(a@)[t] == (a@[t].0@, a@[t].1@),
            forall|t: int| 0 <= t < b.len() ==> #[trigger] pairs_view(b@)[t] == (b@[t].0@, b@[t].1@),
            forall|t: int| 0 <= t < i ==> #[trigger] pairs_view(a@)[t] == pairs_view(b@)[t],
        decreases a.len() - i,
    {
        assert(decreases_to!(a => a@[i as int].0));
        assert(decreases_to!(a => a@[i as int].1));
        let same_key = css_eq(&a[i].0, &b[i].0);
        if !same_key || !css_eq(&a[i].1, &b[i].1) {
            assert(pairs_view(a@)[i as int] != pairs_view(b@)[i as int]);
            return false;
        }
        assert(pairs_view(a@)[i as int] == pairs_view(b@)[i as int]);
        i = i + 1;
    }
    assert(pairs_view(a@) =~= pairs_view(b@));
    true
}

} // verus!
