use rsass::css::Value;
use rsass::error::Error;
use rsass::functions::strings::{
    index_to_rust, quote, str_index, str_insert, str_length, str_slice, to_lower_case,
    to_upper_case, unquote,
};
use rsass::functions::{get_builtin_function, Builtin};
use rsass::value::{Fraction, Number, Quotes, Unit};

fn s(v: &str, q: Quotes) -> Value {
    Value::Literal(v.to_string(), q)
}

fn n(v: isize) -> Value {
    Value::Numeric(Number::from_integer(v), Unit::Unitless, false)
}

fn calc_int(v: isize) -> Value {
    Value::Numeric(Number::from_integer(v), Unit::Unitless, true)
}

#[test]
fn index_conversion() {
    assert_eq!(index_to_rust(&Number::from_integer(1), "abc"), 0);
    assert_eq!(index_to_rust(&Number::from_integer(3), "abc"), 2);
    assert_eq!(index_to_rust(&Number::from_integer(7), "abc"), 6);
    assert_eq!(index_to_rust(&Number::from_integer(0), "abc"), 0);
    assert_eq!(index_to_rust(&Number::from_integer(-1), "abc"), 2);
    assert_eq!(index_to_rust(&Number::from_integer(-2), "abc"), 1);
    assert_eq!(index_to_rust(&Number::from_integer(-3), "abc"), 0);
    assert_eq!(index_to_rust(&Number::from_integer(-9), "abc"), 0);
    let three_halves = Number { value: Fraction { numer: 3, denom: 2 }, plus_sign: false, lead_zero: true };
    assert_eq!(index_to_rust(&three_halves, "abc"), 0);
    let minus_five_halves = Number { value: Fraction { numer: -5, denom: 2 }, plus_sign: false, lead_zero: true };
    assert_eq!(index_to_rust(&minus_five_halves, "abcde"), 3);
}

#[test]
fn quoting() {
    assert_eq!(quote(s("a", Quotes::Unquoted)), Ok(s("a", Quotes::Double)));
    assert_eq!(unquote(s("a", Quotes::Single)), Ok(s("a", Quotes::Unquoted)));
    assert_eq!(unquote(n(3)), Ok(n(3)));
}

#[test]
fn inserting() {
    assert_eq!(
        str_insert(&s("abcd", Quotes::Double), &s("X", Quotes::Unquoted), &n(1)),
        Ok(s("Xabcd", Quotes::Double))
    );
    assert_eq!(
        str_insert(&s("abcd", Quotes::Double), &s("X", Quotes::Unquoted), &n(3)),
        Ok(s("abXcd", Quotes::Double))
    );
    assert_eq!(
        str_insert(&s("abcd", Quotes::Double), &s("X", Quotes::Unquoted), &n(99)),
        Ok(s("abcdX", Quotes::Double))
    );
    assert_eq!(
        str_insert(&s("abcd", Quotes::Double), &s("X", Quotes::Unquoted), &n(-1)),
        Ok(s("abcXd", Quotes::Double))
    );
    assert_eq!(
        str_insert(&n(1), &s("X", Quotes::Unquoted), &n(1)),
        Err(Error::BadArguments(
            "string, string, number",
            vec![n(1), s("X", Quotes::Unquoted), n(1)]
        ))
    );
}

#[test]
fn slicing() {
    assert_eq!(str_slice(&s("abcde", Quotes::Unquoted), &n(2), &n(4)), Ok(s("bcd", Quotes::Unquoted)));
    assert_eq!(str_slice(&s("abcde", Quotes::Unquoted), &n(2), &n(-1)), Ok(s("bcde", Quotes::Unquoted)));
    assert_eq!(str_slice(&s("abcde", Quotes::Unquoted), &n(3), &n(99)), Ok(s("cde", Quotes::Unquoted)));
    assert_eq!(str_slice(&s("abcde", Quotes::Unquoted), &n(0), &n(0)), Ok(s("a", Quotes::Unquoted)));
    assert_eq!(str_slice(&s("abcde", Quotes::Unquoted), &n(-2), &n(-1)), Ok(s("de", Quotes::Unquoted)));
    assert_eq!(
        str_slice(&s("abc", Quotes::Unquoted), &s("x", Quotes::Unquoted), &n(1)),
        Err(Error::BadArguments(
            "string, number, number",
            vec![s("abc", Quotes::Unquoted), s("x", Quotes::Unquoted), n(1)]
        ))
    );
}

#[test]
fn lengths_and_indexes() {
    assert_eq!(str_length(&s("håll", Quotes::Double)), Ok(calc_int(4)));
    assert_eq!(str_length(&n(1)), Err(Error::BadArguments("string", vec![n(1)])));
    assert_eq!(str_index(&s("abcabc", Quotes::Double), &s("ca", Quotes::Double)), Ok(calc_int(3)));
    assert_eq!(str_index(&s("åbc", Quotes::Double), &s("c", Quotes::Double)), Ok(calc_int(3)));
    assert_eq!(str_index(&s("abc", Quotes::Double), &s("", Quotes::Double)), Ok(calc_int(1)));
    assert_eq!(str_index(&s("abc", Quotes::Double), &s("x", Quotes::Double)), Ok(Value::Null));
    assert_eq!(
        str_index(&s("abc", Quotes::Double), &n(1)),
        Err(Error::BadArguments("string, string", vec![s("abc", Quotes::Double), n(1)]))
    );
}

#[test]
fn cases() {
    assert_eq!(to_upper_case(s("aBc", Quotes::Single)), Ok(s("ABC", Quotes::Single)));
    assert_eq!(to_lower_case(s("aBc", Quotes::Single)), Ok(s("abc", Quotes::Single)));
    assert_eq!(to_upper_case(n(2)), Ok(n(2)));
    assert_eq!(to_lower_case(n(2)), Ok(n(2)));
}

#[test]
fn builtin_names() {
    assert_eq!(get_builtin_function("str-index"), Some(Builtin::StrIndex));
    assert_eq!(get_builtin_function("quote"), Some(Builtin::Quote));
    assert_eq!(get_builtin_function("str_index"), None);
    assert_eq!(get_builtin_function("lighten"), None);
}

#[test]
fn insert_adds_lengths() {
    let base = s("héllo", Quotes::Double);
    let ins = s("ab", Quotes::Single);
    let r = str_insert(&base, &ins, &n(3)).unwrap();
    assert_eq!(str_length(&r), Ok(calc_int(7)));
    assert_eq!(r, s("héabllo", Quotes::Double));
}

#[test]
fn slice_from_first_to_last_is_whole() {
    assert_eq!(str_slice(&s("héllo", Quotes::Single), &n(1), &n(-1)), Ok(s("héllo", Quotes::Single)));
}

#[test]
fn quote_then_unquote() {
    let q = quote(s("x", Quotes::Single)).unwrap();
    assert_eq!(unquote(q), Ok(s("x", Quotes::Unquoted)));
    let u = unquote(s("x", Quotes::Single)).unwrap();
    assert_eq!(quote(u), Ok(s("x", Quotes::Double)));
}

#[test]
fn quote_of_other_values_is_their_css_text() {
    assert_eq!(quote(n(3)), Ok(s("3", Quotes::Double)));
    assert_eq!(quote(Value::True), Ok(s("true", Quotes::Double)));
    assert_eq!(quote(Value::Null), Ok(s("", Quotes::Double)));
    let half = Number { value: Fraction { numer: -1, denom: 3 }, plus_sign: false, lead_zero: false };
    assert_eq!(quote(Value::Numeric(half, Unit::Px, false)), Ok(s("-.33333px", Quotes::Double)));
    let q = Number { value: Fraction { numer: 5, denom: 4 }, plus_sign: true, lead_zero: true };
    assert_eq!(quote(Value::Numeric(q, Unit::Percent, true)), Ok(s("+1.25%", Quotes::Double)));
    let two_thirds = Number { value: Fraction { numer: 2, denom: 3 }, plus_sign: false, lead_zero: true };
    assert_eq!(quote(Value::Numeric(two_thirds, Unit::Em, false)), Ok(s("0.66667em", Quotes::Double)));
    assert_eq!(
        quote(Value::List(vec![s("a", Quotes::Single), n(1)], rsass::value::ListSeparator::Space, false)),
        Ok(s("'a' 1", Quotes::Double))
    );
    assert_eq!(
        quote(Value::Call(
            "f".to_string(),
            rsass::css::CallArgs(vec![(Some("x".to_string()), n(1)), (None, n(2))])
        )),
        Ok(s("f(x: 1, 2)", Quotes::Double))
    );
    assert_eq!(
        quote(Value::Mapping(vec![(s("k", Quotes::Unquoted), n(2))])),
        Ok(s("(k: 2)", Quotes::Double))
    );
    assert_eq!(
        quote(Value::Color(rsass::value::Rgba::from_rgb(255, 0, 0), None)),
        Ok(s("rgba(255, 0, 0, 1)", Quotes::Double))
    );
}
