//! Writing evaluated values as CSS text.

use vstd::prelude::*;

use crate::css::{css_views, lemma_css_views, lemma_css_views_push, CssV, Value};
use crate::text::{decimal_text, digit, digit_char, digits, push_char, push_digits};
use crate::value::{Fraction, ListSeparator, Number, Operator, Quotes, Rgba, Unit};

verus! {

/// The text of a unit.
pub open spec fn unit_text(u: Unit) -> Seq<char> {
    match u {
        Unit::Em => "em"@,
        Unit::Ex => "ex"@,
        Unit::Ch => "ch"@,
        Unit::Rem => "rem"@,
        Unit::Vw => "vw"@,
        Unit::Vh => "vh"@,
        Unit::Vmin => "vmin"@,
        Unit::Vmax => "vmax"@,
        Unit::Cm => "cm"@,
        Unit::Mm => "mm"@,
        Unit::Q => "q"@,
        Unit::In => "in"@,
        Unit::Pt => "pt"@,
        Unit::Pc => "pc"@,
        Unit::Px => "px"@,
        Unit::Deg => "deg"@,
        Unit::Grad => "grad"@,
        Unit::Rad => "rad"@,
        Unit::Turn => "turn"@,
        Unit::S => "s"@,
        Unit::Ms => "ms"@,
        Unit::Hz => "Hz"@,
        Unit::Khz => "kHz"@,
        Unit::Dpi => "dpi"@,
        Unit::Dpcm => "dpcm"@,
        Unit::Dppx => "dppx"@,
        Unit::Percent => "%"@,
        Unit::Unitless => seq![],
    }
}

/// The text of an operator.
pub open spec fn op_text(op: Operator) -> Seq<char> {
    match op {
        Operator::And => "and"@,
        Operator::Or => "or"@,
        Operator::Equal => "=="@,
        Operator::NotEqual => "!="@,
        Operator::Greater => ">"@,
        Operator::GreaterE => ">="@,
        Operator::Lesser => "<"@,
        Operator::LesserE => "<="@,
        Operator::Plus => "+"@,
        Operator::Minus => "-"@,
        Operator::Multiply => "*"@,
        Operator::Div => "/"@,
        Operator::Modulo => "%"@,
        Operator::Not => "not"@,
    }
}

/// The absolute value of an integer.
pub open spec fn abs(x: int) -> nat {
    if x < 0 {
        (-x) as nat
    } else {
        x as nat
    }
}

/// The absolute value of a fraction times 100000, rounded to the nearest
/// integer (halves away from zero); zero for a zero denominator.
pub open spec fn scaled(f: Fraction) -> nat {
    let a = abs(f.numer as int);
    let b = abs(f.denom as int);
    if b == 0 {
        0
    } else {
        ((2 * a * 100000 + b) / (2 * b)) as nat
    }
}

/// The last `k` decimal digits of `f`, zeros in front where it has fewer.
pub open spec fn padded_digits(f: nat, k: nat) -> Seq<char>
    decreases k,
{
    if k == 0 {
        seq![]
    } else {
        padded_digits(f / 10, (k - 1) as nat).push(digit_char(f % 10))
    }
}

/// The `k` digits of `f` as [`padded_digits`] gives them, without the
/// zeros at their end.
pub open spec fn trimmed_digits(f: nat, k: nat) -> Seq<char>
    decreases k,
{
    if k > 0 && f % 10 == 0 {
        trimmed_digits(f / 10, (k - 1) as nat)
    } else {
        padded_digits(f, k)
    }
}

/// The text of a number: a sign where it is negative (and does not round
/// to zero) or was written with a plus sign, its integer part, and, where
/// it is not an integer, a point and at most five decimals, rounded, with
/// no zeros at their end. The zero before the point is left out where the
/// number was written without one.
pub open spec fn number_text(n: Number) -> Seq<char> {
    let t = scaled(n.value);
    let ip = t / 100000;
    let fp = t % 100000;
    let sign = if n.value.is_negative_spec() && t != 0 {
        seq!['-']
    } else if n.plus_sign {
        seq!['+']
    } else {
        seq![]
    };
    sign + if fp == 0 {
        digits(ip)
    } else {
        (if ip == 0 && !n.lead_zero {
            seq![]
        } else {
            digits(ip)
        }) + seq!['.'] + trimmed_digits(fp, 5)
    }
}

/// The text of a color channel.
pub open spec fn channel_text(f: Fraction) -> Seq<char> {
    number_text(Number { value: f, plus_sign: false, lead_zero: true })
}

/// The text of a color without a name: `rgba(r, g, b, a)`.
pub open spec fn rgba_text(c: Rgba) -> Seq<char> {
    "rgba("@ + channel_text(c.red) + ", "@ + channel_text(c.green) + ", "@ + channel_text(c.blue)
        + ", "@ + channel_text(c.alpha) + ")"@
}

/// A string in its quotes.
pub open spec fn quoted_text(s: Seq<char>, q: Quotes) -> Seq<char> {
    match q {
        Quotes::Double => seq!['"'] + s + seq!['"'],
        Quotes::Single => seq!['\''] + s + seq!['\''],
        Quotes::Unquoted => s,
    }
}

/// What stands between the items of a list.
pub open spec fn separator_text(sep: ListSeparator) -> Seq<char> {
    match sep {
        ListSeparator::Comma => ", "@,
        ListSeparator::Space => " "@,
    }
}

/// A space where the flag is set.
pub open spec fn space_if(b: bool) -> Seq<char> {
    if b {
        " "@
    } else {
        seq![]
    }
}

/// The text of a unary operator before its operand.
pub open spec fn unary_text(op: Operator) -> Seq<char> {
    match op {
        Operator::Not => "not "@,
        op => op_text(op),
    }
}

/// The CSS text of an evaluated value: `!` and the text of a bang; a call
/// with its arguments (`name: value` where named) between parentheses,
/// separated by `, `; a string in its quotes; the items of a list with
/// their separator, in brackets where it has them; a number and its unit;
/// a value in parentheses; a color by its name, else as `rgba(..)`;
/// nothing for null; `true` and `false`; an operation kept as it was,
/// with its spaces; the entries `key: value` of a map between parentheses,
/// separated by `, `; a unicode range as it is.
pub open spec fn css_text(v: CssV) -> Seq<char>
    decreases v,
{
    match v {
        CssV::Bang(s) => seq!['!'] + s,
        CssV::Call(name, args) => name + seq!['('] + args_text(args) + seq![')'],
        CssV::Literal(s, q) => quoted_text(s, q),
        CssV::List(items, sep, brackets) => {
            let t = items_text(items, separator_text(sep));
            if brackets {
                seq!['['] + t + seq![']']
            } else {
                t
            }
        },
        CssV::Numeric(n, u, _) => number_text(n) + unit_text(u),
        CssV::Paren(b) => seq!['('] + css_text(*b) + seq![')'],
        CssV::Color(c, name) => match name {
            Some(s) => s,
            None => rgba_text(c),
        },
        CssV::Null => seq![],
        CssV::True => "true"@,
        CssV::False => "false"@,
        CssV::BinOp(a, s1, op, s2, b) => css_text(*a) + space_if(s1) + op_text(op) + space_if(s2)
            + css_text(*b),
        CssV::UnaryOp(op, b) => unary_text(op) + css_text(*b),
        CssV::Mapping(m) => seq!['('] + pairs_text(m) + seq![')'],
        CssV::UnicodeRange(s) => s,
    }
}

/// The texts of values, with `sep` between them.
pub open spec fn items_text(s: Seq<CssV>, sep: Seq<char>) -> Seq<char>
    decreases s,
{
    if s.len() == 0 {
        seq![]
    } else if s.len() == 1 {
        css_text(s.last())
    } else {
        items_text(s.drop_last(), sep) + sep + css_text(s.last())
    }
}

/// The texts of call arguments, `name: value` where named, with `, `
/// between them.
pub open spec fn args_text(s: Seq<(Option<Seq<char>>, CssV)>) -> Seq<char>
    decreases s,
{
    if s.len() == 0 {
        seq![]
    } else {
        let a = match s.last().0 {
            Some(n) => n + ": "@ + css_text(s.last().1),
            None => css_text(s.last().1),
        };
        if s.len() == 1 {
            a
        } else {
            args_text(s.drop_last()) + ", "@ + a
        }
    }
}

/// The texts `key: value` of map entries, with `, ` between them.
pub open spec fn pairs_text(s: Seq<(CssV, CssV)>) -> Seq<char>
    decreases s,
{
    if s.len() == 0 {
        seq![]
    } else {
        let a = css_text(s.last().0) + ": "@ + css_text(s.last().1);
        if s.len() == 1 {
            a
        } else {
            pairs_text(s.drop_last()) + ", "@ + a
        }
    }
}

fn abs_u128(x: isize) -> (r: u128)
    ensures
        r == abs(x as int),
{
    if x < 0 {
        (-(x as i128)) as u128
    } else {
        x as u128
    }
}

fn push_str(out: &mut String, s: &str)
    ensures
        final(out)@ == old(out)@ + s@,
{
    out.append(s);
}

fn push_padded(out: &mut String, f: u128, k: u32)
    ensures
        final(out)@ == old(out)@ + padded_digits(f as nat, k as nat),
    decreases k,
{
    if k > 0 {
        push_padded(out, f / 10, k - 1);
        push_char(out, digit(f % 10));
        assert(out@ =~= old(out)@ + padded_digits(f as nat, k as nat));
    } else {
        assert(out@ =~= old(out)@ + padded_digits(f as nat, k as nat));
    }
}

/// Appends the text of a number, as [`number_text`] states.
pub fn write_number(n: &Number, out: &mut String)
    ensures
        final(out)@ == old(out)@ + number_text(*n),
{
    let a = abs_u128(n.value.numer);
    let b = abs_u128(n.value.denom);
    let t: u128 = if b == 0 {
        0
    } else {
        (2 * a * 100000 + b) / (2 * b)
    };
    assert(t == scaled(n.value));
    let ip = t / 100000;
    let fp = t % 100000;
    let ghost start = out@;
    if n.value.is_negative() && t != 0 {
        push_char(out, '-');
    } else if n.plus_sign {
        push_char(out, '+');
    }
    let ghost signed = out@;
    if fp == 0 {
        push_digits(out, ip);
    } else {
        if !(ip == 0 && !n.lead_zero) {
            push_digits(out, ip);
        }
        push_char(out, '.');
        let mut f = fp;
        let mut k: u32 = 5;
        while k > 0 && f % 10 == 0
            invariant
                k <= 5,
                trimmed_digits(f as nat, k as nat) == trimmed_digits(fp as nat, 5),
            decreases k,
        {
            f = f / 10;
            k = k - 1;
        }
        push_padded(out, f, k);
    }
    assert(out@ =~= start + number_text(*n));
}

/// Appends the text of a color channel.
fn write_channel(f: Fraction, out: &mut String)
    ensures
        final(out)@ == old(out)@ + channel_text(f),
{
    write_number(&Number { value: f, plus_sign: false, lead_zero: true }, out);
}

/// Appends the CSS text of `v`, as [`css_text`] states.
pub fn write_css(v: &Value, out: &mut String)
    ensures
        final(out)@ == old(out)@ + css_text(v@),
    decreases v, 2nat,
{
    let ghost start = out@;
    match v {
        Value::Bang(s) => {
            push_char(out, '!');
            push_str(out, s.as_str());
            assert(out@ =~= start + css_text(v@));
        },
        Value::Call(name, args) => {
            push_str(out, name.as_str());
            push_char(out, '(');
            write_args(&args.0, out);
            push_char(out, ')');
            assert(out@ =~= start + css_text(v@));
        },
        Value::Literal(s, q) => {
            write_literal(s.as_str(), *q, out);
            assert(out@ =~= start + css_text(v@));
        },
        Value::List(items, sep, brackets) => {
            write_list(items, *sep, *brackets, out);
            assert(out@ =~= start + css_text(v@));
        },
        Value::Numeric(n, u, _) => {
            write_number(n, out);
            write_unit(*u, out);
            assert(out@ =~= start + css_text(v@));
        },
        Value::Paren(b) => {
            push_char(out, '(');
            write_css(b, out);
            push_char(out, ')');
            assert(out@ =~= start + css_text(v@));
        },
        Value::Color(c, name) => {
            write_color(*c, name, out);
            assert(out@ =~= start + css_text(v@));
        },
        Value::Null => {
            assert(out@ =~= start + css_text(v@));
        },
        Value::True => {
            push_str(out, "true");
            proof {
                reveal_strlit("true");
            }
            assert(out@ =~= start + css_text(v@));
        },
        Value::False => {
            push_str(out, "false");
            proof {
                reveal_strlit("false");
            }
            assert(out@ =~= start + css_text(v@));
        },
        Value::BinOp(a, s1, op, s2, b) => {
            write_css(a, out);
            if *s1 {
                push_char(out, ' ');
            }
            write_op(*op, out);
            if *s2 {
                push_char(out, ' ');
            }
            write_css(b, out);
            proof {
                reveal_strlit(" ");
            }
            assert(out@ =~= start + css_text(v@));
        },
        Value::UnaryOp(op, b) => {
            if *op == Operator::Not {
                push_str(out, "not ");
            } else {
                write_op(*op, out);
            }
            write_css(b, out);
            proof {
                reveal_strlit("not ");
            }
            assert(out@ =~= start + css_text(v@));
        },
        Value::Mapping(m) => {
            push_char(out, '(');
            write_pairs(m, out);
            push_char(out, ')');
            assert(out@ =~= start + css_text(v@));
        },
        Value::UnicodeRange(s) => {
            push_str(out, s.as_str());
            assert(out@ =~= start + css_text(v@));
        },
    }
}

fn write_literal(s: &str, q: Quotes, out: &mut String)
    ensures
        final(out)@ == old(out)@ + quoted_text(s@, q),
{
    match q {
        Quotes::Double => push_char(out, '"'),
        Quotes::Single => push_char(out, '\''),
        Quotes::Unquoted => {},
    }
    push_str(out, s);
    match q {
        Quotes::Double => push_char(out, '"'),
        Quotes::Single => push_char(out, '\''),
        Quotes::Unquoted => {},
    }
    assert(out@ =~= old(out)@ + quoted_text(s@, q));
}

fn write_color(c: Rgba, name: &Option<String>, out: &mut String)
    ensures
        final(out)@ == old(out)@ + css_text(CssV::Color(c, crate::css::opt_str_view(*name))),
{
    match name {
        Some(s) => push_str(out, s.as_str()),
        None => {
            push_str(out, "rgba(");
            write_channel(c.red, out);
            push_str(out, ", ");
            write_channel(c.green, out);
            push_str(out, ", ");
            write_channel(c.blue, out);
            push_str(out, ", ");
            write_channel(c.alpha, out);
            push_str(out, ")");
            proof {
                reveal_strlit("rgba(");
                reveal_strlit(", ");
                reveal_strlit(")");
            }
            assert(out@ =~= old(out)@ + rgba_text(c));
        },
    }
}

fn write_list(items: &Vec<Value>, sep: ListSeparator, brackets: bool, out: &mut String)
    ensures
        final(out)@ == old(out)@ + css_text(CssV::List(css_views(items@), sep, brackets)),
    decreases items, 1nat,
{
    if brackets {
        push_char(out, '[');
    }
    let s = match sep {
        ListSeparator::Comma => ", ",
        ListSeparator::Space => " ",
    };
    proof {
        reveal_strlit(", ");
        reveal_strlit(" ");
    }
    assert(s@ == separator_text(sep));
    write_items(items, s, out);
    if brackets {
        push_char(out, ']');
    }
    assert(out@ =~= old(out)@ + css_text(CssV::List(css_views(items@), sep, brackets)));
}

fn write_unit(u: Unit, out: &mut String)
    ensures
        final(out)@ == old(out)@ + unit_text(u),
{
    let s = match u {
        Unit::Em => "em",
        Unit::Ex => "ex",
        Unit::Ch => "ch",
        Unit::Rem => "rem",
        Unit::Vw => "vw",
        Unit::Vh => "vh",
        Unit::Vmin => "vmin",
        Unit::Vmax => "vmax",
        Unit::Cm => "cm",
        Unit::Mm => "mm",
        Unit::Q => "q",
        Unit::In => "in",
        Unit::Pt => "pt",
        Unit::Pc => "pc",
        Unit::Px => "px",
        Unit::Deg => "deg",
        Unit::Grad => "grad",
        Unit::Rad => "rad",
        Unit::Turn => "turn",
        Unit::S => "s",
        Unit::Ms => "ms",
        Unit::Hz => "Hz",
        Unit::Khz => "kHz",
        Unit::Dpi => "dpi",
        Unit::Dpcm => "dpcm",
        Unit::Dppx => "dppx",
        Unit::Percent => "%",
        Unit::Unitless => "",
    };
    push_str(out, s);
    proof {
        match u {
            Unit::Em => reveal_strlit("em"),
            Unit::Ex => reveal_strlit("ex"),
            Unit::Ch => reveal_strlit("ch"),
            Unit::Rem => reveal_strlit("rem"),
            Unit::Vw => reveal_strlit("vw"),
            Unit::Vh => reveal_strlit("vh"),
            Unit::Vmin => reveal_strlit("vmin"),
            Unit::Vmax => reveal_strlit("vmax"),
            Unit::Cm => reveal_strlit("cm"),
            Unit::Mm => reveal_strlit("mm"),
            Unit::Q => reveal_strlit("q"),
            Unit::In => reveal_strlit("in"),
            Unit::Pt => reveal_strlit("pt"),
            Unit::Pc => reveal_strlit("pc"),
            Unit::Px => reveal_strlit("px"),
            Unit::Deg => reveal_strlit("deg"),
            Unit::Grad => reveal_strlit("grad"),
            Unit::Rad => reveal_strlit("rad"),
            Unit::Turn => reveal_strlit("turn"),
            Unit::S => reveal_strlit("s"),
            Unit::Ms => reveal_strlit("ms"),
            Unit::Hz => reveal_strlit("Hz"),
            Unit::Khz => reveal_strlit("kHz"),
            Unit::Dpi => reveal_strlit("dpi"),
            Unit::Dpcm => reveal_strlit("dpcm"),
            Unit::Dppx => reveal_strlit("dppx"),
            Unit::Percent => reveal_strlit("%"),
            Unit::Unitless => reveal_strlit(""),
        }
    }
    assert(out@ =~= old(out)@ + unit_text(u));
}

fn write_op(op: Operator, out: &mut String)
    ensures
        final(out)@ == old(out)@ + op_text(op),
{
    let s = match op {
        Operator::And => "and",
        Operator::Or => "or",
        Operator::Equal => "==",
        Operator::NotEqual => "!=",
        Operator::Greater => ">",
        Operator::GreaterE => ">=",
        Operator::Lesser => "<",
        Operator::LesserE => "<=",
        Operator::Plus => "+",
        Operator::Minus => "-",
        Operator::Multiply => "*",
        Operator::Div => "/",
        Operator::Modulo => "%",
        Operator::Not => "not",
    };
    push_str(out, s);
    proof {
        match op {
            Operator::And => reveal_strlit("and"),
            Operator::Or => reveal_strlit("or"),
            Operator::Equal => reveal_strlit("=="),
            Operator::NotEqual => reveal_strlit("!="),
            Operator::Greater => reveal_strlit(">"),
            Operator::GreaterE => reveal_strlit(">="),
            Operator::Lesser => reveal_strlit("<"),
            Operator::LesserE => reveal_strlit("<="),
            Operator::Plus => reveal_strlit("+"),
            Operator::Minus => reveal_strlit("-"),
            Operator::Multiply => reveal_strlit("*"),
            Operator::Div => reveal_strlit("/"),
            Operator::Modulo => reveal_strlit("%"),
            Operator::Not => reveal_strlit("not"),
        }
    }
}

fn write_items(items: &Vec<Value>, sep: &str, out: &mut String)
    ensures
        final(out)@ == old(out)@ + items_text(css_views(items@), sep@),
    decreases items, 0nat,
{
    let ghost start = out@;
    let mut i: usize = 0;
    while i < items.len()
        invariant
            i <= items.len(),
            out@ == start + items_text(css_views(items@.take(i as int)), sep@),
        decreases items.len() - i,
    {
        let ghost before = css_views(items@.take(i as int));
        proof {
            lemma_css_views(items@.take(i as int));
        }
        if i > 0 {
            push_str(out, sep);
        }
        assert(decreases_to!(items => items@[i as int]));
        write_css(&items[i], out);
        proof {
            assert(items@.take(i + 1) =~= items@.take(i as int).push(items@[i as int]));
            lemma_css_views_push(items@.take(i as int), items@[i as int]);
            let after = before.push(items@[i as int]@);
            assert(after.drop_last() =~= before);
            assert(out@ =~= start + items_text(after, sep@));
        }
        i = i + 1;
    }
    assert(items@.take(items.len() as int) =~= items@);
}

fn write_args(items: &Vec<(Option<String>, Value)>, out: &mut String)
    ensures
        final(out)@ == old(out)@ + args_text(crate::css::args_view(items@)),
    decreases items, 0nat,
{
    let ghost start = out@;
    let mut i: usize = 0;
    while i < items.len()
        invariant
            i <= items.len(),
            out@ == start + args_text(crate::css::args_view(items@.take(i as int))),
        decreases items.len() - i,
    {
        let ghost before = crate::css::args_view(items@.take(i as int));
        proof {
            crate::css::lemma_args_view(items@.take(i as int));
        }
        if i > 0 {
            push_str(out, ", ");
        }
        match &items[i].0 {
            Some(n) => {
                push_str(out, n.as_str());
                push_str(out, ": ");
            },
            None => {},
        }
        assert(decreases_to!(items => items@[i as int].1));
        write_css(&items[i].1, out);
        proof {
            reveal_strlit(", ");
            reveal_strlit(": ");
            assert(items@.take(i + 1) =~= items@.take(i as int).push(items@[i as int]));
            crate::css::lemma_args_view_push(items@.take(i as int), items@[i as int]);
            let after = before.push((crate::css::opt_str_view(items@[i as int].0), items@[i as int].1@));
            assert(after.drop_last() =~= before);
            assert(out@ =~= start + args_text(after));
        }
        i = i + 1;
    }
    assert(items@.take(items.len() as int) =~= items@);
}

fn write_pairs(items: &Vec<(Value, Value)>, out: &mut String)
    ensures
        final(out)@ == old(out)@ + pairs_text(crate::css::pairs_view(items@)),
    decreases items, 0nat,
{
    let ghost start = out@;
    let mut i: usize = 0;
    while i < items.len()
        invariant
            i <= items.len(),
            out@ == start + pairs_text(crate::css::pairs_view(items@.take(i as int))),
        decreases items.len() - i,
    {
        let ghost before = crate::css::pairs_view(items@.take(i as int));
        proof {
            crate::css::lemma_pairs_view_len(items@.take(i as int));
        }
        if i > 0 {
            push_str(out, ", ");
        }
        assert(decreases_to!(items => items@[i as int].0));
        assert(decreases_to!(items => items@[i as int].1));
        write_css(&items[i].0, out);
        push_str(out, ": ");
        write_css(&items[i].1, out);
        proof {
            reveal_strlit(", ");
            reveal_strlit(": ");
            assert(items@.take(i + 1) =~= items@.take(i as int).push(items@[i as int]));
            crate::css::lemma_pairs_view_push(items@.take(i as int), items@[i as int]);
            let after = before.push((items@[i as int].0@, items@[i as int].1@));
            assert(after.drop_last() =~= before);
            assert(out@ =~= start + pairs_text(after));
        }
        i = i + 1;
    }
    assert(items@.take(items.len() as int) =~= items@);
}

/// An integer is written as its decimal text.
pub proof fn lemma_integer_text(n: isize)
    ensures
        number_text(Number::from_integer_spec(n)) == decimal_text(n as int),
{
    let a = abs(n as int);
    assert((2 * a * 100000 + 1) / 2 == a * 100000) by (nonlinear_arith);
    assert((a * 100000) / 100000 == a && (a * 100000) % 100000 == 0) by (nonlinear_arith);
    assert(scaled(Fraction { numer: n, denom: 1 }) == a * 100000);
    if n < 0 {
        assert(number_text(Number::from_integer_spec(n)) =~= decimal_text(n as int));
    } else {
        assert(number_text(Number::from_integer_spec(n)) =~= decimal_text(n as int));
    }
}

/// Every value has one CSS text, and a string is written in its quotes.
pub proof fn lemma_string_text(s: Seq<char>, q: Quotes)
    ensures
        css_text(CssV::Literal(s, q)) == quoted_text(s, q),
        css_text(CssV::Literal(s, Quotes::Unquoted)) == s,
{
}

} // verus!
