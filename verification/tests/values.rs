use rsass::css;
use rsass::css::css_eq;
use rsass::error::Error;
use rsass::sass::formal_args::FormalArgs;
use rsass::sass::value::Value;
use rsass::sass::{CallArgs, SassString};
use rsass::value::{Fraction, ListSeparator, Number, Operator, Quotes, Rgba, Unit};
use rsass::variablescope::ScopeImpl;

fn lit(s: &str) -> Value {
    Value::Literal(SassString { raw: s.to_string(), quotes: Quotes::Unquoted })
}

fn qlit(s: &str) -> Value {
    Value::Literal(SassString { raw: s.to_string(), quotes: Quotes::Double })
}

fn num(n: isize) -> Number {
    Number::from_integer(n)
}

fn css_num(n: isize, calculated: bool) -> css::Value {
    css::Value::Numeric(num(n), Unit::Unitless, calculated)
}

fn css_str(s: &str, q: Quotes) -> css::Value {
    css::Value::Literal(s.to_string(), q)
}

#[test]
fn scalar_is_unitless_number() {
    assert_eq!(
        Value::scalar(3),
        Value::Numeric(
            Number { value: Fraction { numer: 3, denom: 1 }, plus_sign: false, lead_zero: true },
            Unit::Unitless
        )
    );
}

#[test]
fn bool_and_black_and_rgba() {
    assert_eq!(Value::bool(true), Value::True);
    assert_eq!(Value::bool(false), Value::False);
    assert_eq!(
        Value::black(),
        Value::Color(Rgba::from_rgb(0, 0, 0), Some("black".to_string()))
    );
    let half = Fraction { numer: 1, denom: 2 };
    assert_eq!(
        Value::rgba(half, half, half, half),
        Value::Color(Rgba { red: half, green: half, blue: half, alpha: half }, None)
    );
}

#[test]
fn type_names() {
    assert_eq!(Value::black().value_type_name(), "color");
    assert_eq!(lit("a").value_type_name(), "string");
    assert_eq!(Value::scalar(1).value_type_name(), "number");
    assert_eq!(Value::List(vec![], ListSeparator::Comma, false).value_type_name(), "list");
    assert_eq!(Value::True.value_type_name(), "bool");
    assert_eq!(Value::False.value_type_name(), "bool");
    assert_eq!(Value::Null.value_type_name(), "null");
    assert_eq!(Value::HereSelector.value_type_name(), "unknown");
}

#[test]
fn truth_of_values() {
    assert!(!Value::False.is_true());
    assert!(!Value::Null.is_true());
    assert!(Value::True.is_true());
    assert!(Value::scalar(0).is_true());
    assert!(lit("").is_true());
}

#[test]
fn nullness_of_values() {
    assert!(Value::Null.is_null());
    assert!(Value::List(vec![], ListSeparator::Space, false).is_null());
    assert!(Value::List(vec![Value::Null, Value::Null], ListSeparator::Comma, false).is_null());
    assert!(!Value::List(vec![Value::Null], ListSeparator::Comma, true).is_null());
    assert!(!Value::List(vec![Value::Null, Value::True], ListSeparator::Comma, false).is_null());
    assert!(!Value::False.is_null());
}

#[test]
fn evaluate_literals_and_numbers() {
    let scope = ScopeImpl::new(css::Value::Null);
    assert_eq!(lit("foo").evaluate(&scope), Ok(css_str("foo", Quotes::Unquoted)));
    assert_eq!(qlit("").evaluate(&scope), Ok(css_str("", Quotes::Double)));
    assert_eq!(lit("").evaluate(&scope), Ok(css::Value::Null));
    assert_eq!(Value::scalar(4).evaluate(&scope), Ok(css_num(4, false)));
    assert_eq!(Value::scalar(4).do_evaluate(&scope, true), Ok(css_num(4, true)));
    assert_eq!(
        Value::Bang("important".to_string()).evaluate(&scope),
        Ok(css::Value::Bang("important".to_string()))
    );
}

#[test]
fn evaluate_variables() {
    let mut scope = ScopeImpl::new(css::Value::Null);
    scope.define("x", &css_num(7, false));
    assert_eq!(Value::Variable("x".to_string()).evaluate(&scope), Ok(css_num(7, true)));
    assert_eq!(
        Value::Variable("y".to_string()).evaluate(&scope),
        Err(Error::Undefined("y".to_string()))
    );
}

#[test]
fn evaluate_lists_and_maps() {
    let scope = ScopeImpl::new(css::Value::Null);
    let v = Value::List(vec![Value::scalar(1), lit("a")], ListSeparator::Comma, true);
    assert_eq!(
        v.do_evaluate(&scope, true),
        Ok(css::Value::List(
            vec![css_num(1, false), css_str("a", Quotes::Unquoted)],
            ListSeparator::Comma,
            true
        ))
    );
    let m = Value::Mapping(vec![(lit("k"), Value::scalar(2))]);
    assert_eq!(
        m.evaluate(&scope),
        Ok(css::Value::Mapping(vec![(css_str("k", Quotes::Unquoted), css_num(2, false))]))
    );
    let bad = Value::List(vec![Value::Variable("nope".to_string())], ListSeparator::Space, false);
    assert_eq!(bad.evaluate(&scope), Err(Error::Undefined("nope".to_string())));
}

#[test]
fn evaluate_parens() {
    let scope = ScopeImpl::new(css::Value::Null);
    let kept = Value::Paren(Box::new(Value::scalar(1)), true);
    assert_eq!(kept.evaluate(&scope), Ok(css::Value::Paren(Box::new(css_num(1, false)))));
    let dropped = Value::Paren(Box::new(Value::scalar(1)), false);
    assert_eq!(dropped.evaluate(&scope), Ok(css_num(1, true)));
}

#[test]
fn evaluate_binary_operations() {
    let scope = ScopeImpl::new(css::Value::Null);
    let and = Value::BinOp(Box::new(Value::True), true, Operator::And, true, Box::new(lit("b")));
    assert_eq!(and.evaluate(&scope), Ok(css_str("b", Quotes::Unquoted)));
    let and = Value::BinOp(Box::new(Value::Null), true, Operator::And, true, Box::new(lit("b")));
    assert_eq!(and.evaluate(&scope), Ok(css::Value::Null));
    let or = Value::BinOp(Box::new(Value::False), true, Operator::Or, true, Box::new(lit("b")));
    assert_eq!(or.evaluate(&scope), Ok(css_str("b", Quotes::Unquoted)));
    let div = Value::BinOp(
        Box::new(Value::scalar(1)),
        false,
        Operator::Div,
        false,
        Box::new(Value::scalar(2)),
    );
    assert_eq!(
        div.evaluate(&scope),
        Ok(css::Value::BinOp(
            Box::new(css_num(1, false)),
            false,
            Operator::Div,
            false,
            Box::new(css_num(2, false))
        ))
    );
    let plus = Value::BinOp(
        Box::new(Value::scalar(1)),
        true,
        Operator::Plus,
        true,
        Box::new(Value::scalar(2)),
    );
    assert_eq!(
        plus.evaluate(&scope),
        Ok(css::Value::BinOp(
            Box::new(css_num(1, true)),
            false,
            Operator::Plus,
            false,
            Box::new(css_num(2, true))
        ))
    );
}

#[test]
fn evaluate_division_with_a_calculated_right_side() {
    let mut scope = ScopeImpl::new(css::Value::Null);
    scope.define("b", &css_num(2, false));
    let div = Value::BinOp(
        Box::new(Value::scalar(1)),
        false,
        Operator::Div,
        false,
        Box::new(Value::Variable("b".to_string())),
    );
    assert_eq!(
        div.evaluate(&scope),
        Ok(css::Value::BinOp(
            Box::new(css_num(1, true)),
            false,
            Operator::Div,
            false,
            Box::new(css_num(2, true))
        ))
    );
}

#[test]
fn evaluate_unary_operations() {
    let scope = ScopeImpl::new(css::Value::Null);
    let neg = Value::UnaryOp(Operator::Minus, Box::new(Value::scalar(3)));
    assert_eq!(neg.evaluate(&scope), Ok(css_num(-3, true)));
    let plus = Value::UnaryOp(Operator::Plus, Box::new(Value::scalar(3)));
    assert_eq!(
        plus.evaluate(&scope),
        Ok(css::Value::Numeric(
            Number { value: Fraction { numer: 3, denom: 1 }, plus_sign: true, lead_zero: true },
            Unit::Unitless,
            true
        ))
    );
    let not0 = Value::UnaryOp(Operator::Not, Box::new(Value::scalar(0)));
    assert_eq!(not0.evaluate(&scope), Ok(css::Value::True));
    let not1 = Value::UnaryOp(Operator::Not, Box::new(Value::scalar(1)));
    assert_eq!(not1.evaluate(&scope), Ok(css::Value::False));
    let not_t = Value::UnaryOp(Operator::Not, Box::new(Value::True));
    assert_eq!(not_t.evaluate(&scope), Ok(css::Value::False));
    let minus_str = Value::UnaryOp(Operator::Minus, Box::new(lit("foo")));
    assert_eq!(minus_str.evaluate(&scope), Ok(css_str("-foo", Quotes::Unquoted)));
    let minus_q = Value::UnaryOp(Operator::Minus, Box::new(qlit("foo")));
    assert_eq!(
        minus_q.evaluate(&scope),
        Ok(css::Value::UnaryOp(Operator::Minus, Box::new(css_str("foo", Quotes::Double))))
    );
}

#[test]
fn evaluate_selector_reference_and_unicode_range() {
    let scope = ScopeImpl::new(css_str("a b", Quotes::Unquoted));
    let inner = ScopeImpl::sub(&scope);
    assert_eq!(Value::HereSelector.evaluate(&inner), Ok(css_str("a b", Quotes::Unquoted)));
    assert_eq!(
        Value::UnicodeRange("U+0-7F".to_string()).evaluate(&inner),
        Ok(css::Value::UnicodeRange("U+0-7F".to_string()))
    );
}

fn call(name: &str, args: Vec<(Option<&str>, Value)>) -> Value {
    Value::Call(
        SassString { raw: name.to_string(), quotes: Quotes::Unquoted },
        CallArgs(args.into_iter().map(|(k, v)| (k.map(|k| k.to_string()), v)).collect()),
    )
}

#[test]
fn evaluate_calls_of_builtin_and_unknown_functions() {
    let scope = ScopeImpl::new(css::Value::Null);
    assert_eq!(
        call("str-length", vec![(None, qlit("héllo"))]).evaluate(&scope),
        Ok(css_num(5, true))
    );
    assert_eq!(
        call("to-upper-case", vec![(Some("string"), lit("abc"))]).evaluate(&scope),
        Ok(css_str("ABC", Quotes::Unquoted))
    );
    assert_eq!(
        call("str-slice", vec![(None, qlit("abcd")), (None, Value::scalar(2))]).evaluate(&scope),
        Ok(css_str("bcd", Quotes::Double))
    );
    assert_eq!(
        call("str-length", vec![(None, Value::scalar(1))]).evaluate(&scope),
        Err(Error::BadArguments("string", vec![css_num(1, true)]))
    );
    assert_eq!(
        call("foo", vec![(Some("x"), Value::scalar(1))]).evaluate(&scope),
        Ok(css::Value::Call(
            "foo".to_string(),
            css::CallArgs(vec![(Some("x".to_string()), css_num(1, true))])
        ))
    );
    let quoted_name = Value::Call(
        SassString { raw: "str-length".to_string(), quotes: Quotes::Double },
        CallArgs(vec![]),
    );
    assert_eq!(
        quoted_name.evaluate(&scope),
        Ok(css::Value::Call("str-length".to_string(), css::CallArgs(vec![])))
    );
}

#[test]
fn formal_args_bind_by_name_position_and_default() {
    let scope = ScopeImpl::new(css::Value::Null);
    let fa = FormalArgs::new(
        vec![
            ("a".to_string(), Value::Null),
            ("b".to_string(), Value::scalar(5)),
            ("c".to_string(), Value::Variable("a".to_string())),
        ],
        false,
    );
    let args = css::CallArgs(vec![
        (None, css_num(1, false)),
        (Some("b".to_string()), css_num(2, false)),
    ]);
    let s = fa.eval(&scope, &args).unwrap();
    assert_eq!(s.get("a"), Ok(css_num(1, false)));
    assert_eq!(s.get("b"), Ok(css_num(2, false)));
    assert_eq!(s.get("c"), Ok(css_num(1, true)));
    let s = fa.eval(&scope, &css::CallArgs(vec![])).unwrap();
    assert_eq!(s.get("a"), Ok(css::Value::Null));
    assert_eq!(s.get("b"), Ok(css_num(5, true)));
    assert_eq!(s.get("c"), Ok(css::Value::Null));
}

#[test]
fn formal_args_varargs_take_the_rest() {
    let scope = ScopeImpl::new(css::Value::Null);
    let fa = FormalArgs::new(
        vec![("a".to_string(), Value::Null), ("rest".to_string(), Value::Null)],
        true,
    );
    let args = css::CallArgs(vec![
        (None, css_num(1, false)),
        (None, css_num(2, false)),
        (Some("z".to_string()), css_num(3, false)),
    ]);
    let s = fa.eval(&scope, &args).unwrap();
    assert_eq!(s.get("a"), Ok(css_num(1, false)));
    assert_eq!(
        s.get("rest"),
        Ok(css::Value::List(
            vec![css_num(2, false), css_num(3, false)],
            ListSeparator::Comma,
            false
        ))
    );
}

#[test]
fn formal_args_default_error() {
    let scope = ScopeImpl::new(css::Value::Null);
    let fa = FormalArgs::new(vec![("a".to_string(), Value::Variable("q".to_string()))], false);
    assert!(matches!(
        fa.eval(&scope, &css::CallArgs(vec![])),
        Err(Error::Undefined(_))
    ));
    let empty = FormalArgs::default();
    assert_eq!(empty, FormalArgs(vec![], false));
    assert!(empty.eval(&scope, &css::CallArgs(vec![])).is_ok());
}

#[test]
fn inner_scope_sees_outer_variables() {
    let mut outer = ScopeImpl::new(css::Value::Null);
    outer.define("x", &css_num(1, false));
    let mut inner = ScopeImpl::sub(&outer);
    assert_eq!(inner.get("x"), Ok(css_num(1, false)));
    inner.define("x", &css_num(2, false));
    assert_eq!(inner.get("x"), Ok(css_num(2, false)));
    assert_eq!(outer.get("x"), Ok(css_num(1, false)));
}

#[test]
fn user_function_is_called_before_builtins() {
    let mut scope = ScopeImpl::new(css::Value::Null);
    scope.define_function(
        "double-it",
        rsass::sass::Function {
            args: FormalArgs::new(vec![("x".to_string(), Value::Null)], false),
            body: Value::List(
                vec![Value::Variable("x".to_string()), Value::Variable("x".to_string())],
                ListSeparator::Space,
                false,
            ),
        },
    );
    scope.define_function(
        "quote",
        rsass::sass::Function {
            args: FormalArgs::new(vec![("contents".to_string(), Value::Null)], false),
            body: lit("mine"),
        },
    );
    assert_eq!(
        call("double-it", vec![(None, Value::scalar(2))]).evaluate(&scope),
        Ok(css::Value::List(vec![css_num(2, true), css_num(2, true)], ListSeparator::Space, false))
    );
    assert_eq!(
        call("quote", vec![(None, lit("a"))]).evaluate(&scope),
        Ok(css_str("mine", Quotes::Unquoted))
    );
    assert_eq!(
        call("str-length", vec![(None, qlit("abc"))]).evaluate(&scope),
        Ok(css_num(3, true))
    );
}

#[test]
fn endless_recursion_is_cut_at_the_call_depth() {
    let mut scope = ScopeImpl::with_call_depth(css::Value::Null, 20);
    scope.define_function(
        "forever",
        rsass::sass::Function { args: FormalArgs::new(vec![], false), body: call("forever", vec![]) },
    );
    assert_eq!(
        call("forever", vec![]).evaluate(&scope),
        Err(Error::CallDepth("forever".to_string()))
    );
}

#[test]
fn quote_of_a_call_writes_its_css_text() {
    let scope = ScopeImpl::new(css::Value::Null);
    assert_eq!(
        call("quote", vec![(None, Value::List(vec![Value::scalar(1), lit("a")], ListSeparator::Comma, true))])
            .evaluate(&scope),
        Ok(css_str("[1, a]", Quotes::Double))
    );
}

#[test]
fn evaluated_map_keeps_one_entry_per_key() {
    let scope = ScopeImpl::new(css::Value::Null);
    let m = Value::Mapping(vec![
        (lit("a"), Value::scalar(1)),
        (lit("b"), Value::scalar(2)),
        (lit("a"), Value::scalar(3)),
    ]);
    assert_eq!(
        m.evaluate(&scope),
        Ok(css::Value::Mapping(vec![
            (css_str("a", Quotes::Unquoted), css_num(3, false)),
            (css_str("b", Quotes::Unquoted), css_num(2, false)),
        ]))
    );
}

#[test]
fn equality_operators_compare_values() {
    let scope = ScopeImpl::new(css::Value::Null);
    let eq = Value::BinOp(Box::new(lit("a")), true, Operator::Equal, true, Box::new(lit("a")));
    assert_eq!(eq.evaluate(&scope), Ok(css::Value::True));
    let ne = Value::BinOp(Box::new(lit("a")), true, Operator::NotEqual, true, Box::new(qlit("a")));
    assert_eq!(ne.evaluate(&scope), Ok(css::Value::True));
    let eq = Value::BinOp(
        Box::new(Value::scalar(1)),
        true,
        Operator::Equal,
        true,
        Box::new(Value::scalar(2)),
    );
    assert_eq!(eq.evaluate(&scope), Ok(css::Value::False));
}

#[test]
fn css_values_compare_by_value() {

    let a = css::Value::List(vec![css_num(1, true), css_str("x", Quotes::Double)], ListSeparator::Space, false);
    let b = css::Value::List(vec![css_num(1, true), css_str("x", Quotes::Double)], ListSeparator::Space, false);
    let c = css::Value::List(vec![css_num(1, true)], ListSeparator::Space, false);
    assert!(css_eq(&a, &b));
    assert!(!css_eq(&a, &c));
    assert!(!css_eq(&css::Value::True, &css::Value::False));
}

#[test]
fn formal_args_default_may_quote_a_number() {
    let scope = ScopeImpl::new(css::Value::Null);
    let fa = FormalArgs::new(
        vec![("a".to_string(), call("quote", vec![(None, Value::scalar(12))]))],
        false,
    );
    let bound = fa.eval(&scope, &css::CallArgs(vec![])).unwrap();
    assert_eq!(bound.get("a"), Ok(css_str("12", Quotes::Double)));
}

#[test]
fn repeated_declared_name_takes_the_named_value() {
    let scope = ScopeImpl::new(css::Value::Null);
    let fa = FormalArgs::new(
        vec![("a".to_string(), Value::Null), ("a".to_string(), Value::Null)],
        false,
    );
    let bound = fa
        .eval(&scope, &css::CallArgs(vec![(None, css_num(1, true)), (Some("a".to_string()), css_num(2, true))]))
        .unwrap();
    assert_eq!(bound.get("a"), Ok(css_num(2, true)));
}
