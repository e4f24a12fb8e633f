//! The scalar parts of values: rational numbers, units, quotes, list
//! separators, operators and colors.

use vstd::prelude::*;

verus! {

/// A rational number `numer / denom`, held as its two integers.
#[derive(Clone, Copy, Debug, PartialEq, Eq, PartialOrd, Structural)]
pub struct Fraction {
    pub numer: isize,
    pub denom: isize,
}

/// Integer division of `n` by `d` rounded toward zero.
pub open spec fn trunc_div(n: int, d: int) -> int {
    let q = (if n < 0 { -n } else { n }) / (if d < 0 { -d } else { d });
    if (n < 0) != (d < 0) {
        -q
    } else {
        q
    }
}

impl Fraction {
    /// Less than zero.
    pub open spec fn is_negative_spec(self) -> bool {
        (self.numer < 0 && self.denom > 0) || (self.numer > 0 && self.denom < 0)
    }

    /// Greater than zero.
    pub open spec fn is_positive_spec(self) -> bool {
        (self.numer > 0 && self.denom > 0) || (self.numer < 0 && self.denom < 0)
    }

    /// The integer `n`.
    pub fn from_integer(n: isize) -> (r: Fraction)
        ensures
            r == (Fraction { numer: n, denom: 1 }),
    {
        Fraction { numer: n, denom: 1 }
    }

    /// Less than zero.
    pub fn is_negative(&self) -> (r: bool)
        ensures
            r == self.is_negative_spec(),
    {
        ratio_is_negative(self.numer, self.denom)
    }

    /// Greater than zero.
    pub fn is_positive(&self) -> (r: bool)
        ensures
            r == self.is_positive_spec(),
    {
        ratio_is_positive(self.numer, self.denom)
    }

    /// Equal to zero.
    pub fn is_zero(&self) -> (r: bool)
        ensures
            r == (self.numer == 0),
    {
        ratio_is_zero(self.numer, self.denom)
    }

    /// The integer part, rounded toward zero.
    pub fn to_integer(&self) -> (r: isize)
        requires
            self.denom != 0,
            !(self.numer == isize::MIN && self.denom == -1),
        ensures
            r == trunc_div(self.numer as int, self.denom as int),
    {
        ratio_to_integer(self.numer, self.denom)
    }

    /// The negated fraction; its numerator must have a negation.
    pub fn neg(&self) -> (r: Fraction)
        requires
            self.numer != isize::MIN,
        ensures
            r.numer == -self.numer,
            r.denom == self.denom,
    {
        let (numer, denom) = ratio_neg(self.numer, self.denom);
        Fraction { numer, denom }
    }
}

/// `num_traits::Signed::is_negative` of `Ratio::new_raw(numer, denom)`: the
/// numerator and the denominator have opposite signs, neither being zero.
#[verifier::external_body]
fn ratio_is_negative(numer: isize, denom: isize) -> (r: bool)
    ensures
        r == ((numer < 0 && denom > 0) || (numer > 0 && denom < 0)),
{
    num_traits::Signed::is_negative(&num_rational::Ratio::new_raw(numer, denom))
}

/// `num_traits::Signed::is_positive` of `Ratio::new_raw(numer, denom)`: the
/// numerator and the denominator have the same sign, neither being zero.
#[verifier::external_body]
fn ratio_is_positive(numer: isize, denom: isize) -> (r: bool)
    ensures
        r == ((numer > 0 && denom > 0) || (numer < 0 && denom < 0)),
{
    num_traits::Signed::is_positive(&num_rational::Ratio::new_raw(numer, denom))
}

/// `num_traits::Zero::is_zero` of `Ratio::new_raw(numer, denom)`: the
/// numerator is zero.
#[verifier::external_body]
fn ratio_is_zero(numer: isize, denom: isize) -> (r: bool)
    ensures
        r == (numer == 0),
{
    num_traits::Zero::is_zero(&num_rational::Ratio::new_raw(numer, denom))
}

/// `Ratio::to_integer` of `Ratio::new_raw(numer, denom)`: the quotient
/// `numer / denom` of isize division, which rounds toward zero; that
/// division panics for a zero denominator and overflows for `MIN / -1`.
#[verifier::external_body]
fn ratio_to_integer(numer: isize, denom: isize) -> (r: isize)
    requires
        denom != 0,
        !(numer == isize::MIN && denom == -1),
    ensures
        r == trunc_div(numer as int, denom as int),
{
    num_rational::Ratio::new_raw(numer, denom).to_integer()
}

/// `Neg` of `Ratio::new_raw(numer, denom)`: `new_raw(-numer, denom)`;
/// negating `isize::MIN` overflows.
#[verifier::external_body]
fn ratio_neg(numer: isize, denom: isize) -> (r: (isize, isize))
    requires
        numer != isize::MIN,
    ensures
        r.0 == -numer,
        r.1 == denom,
{
    (-num_rational::Ratio::new_raw(numer, denom)).into_raw()
}

/// A number as it was written: its value, whether it had an explicit
/// plus sign, and whether a zero stood before its decimal point.
#[derive(Clone, Copy, Debug, PartialEq, Eq, PartialOrd, Structural)]
pub struct Number {
    pub value: Fraction,
    pub plus_sign: bool,
    pub lead_zero: bool,
}

impl Number {
    /// The integer `n`, written without a sign.
    pub open spec fn from_integer_spec(n: isize) -> Number {
        Number { value: Fraction { numer: n, denom: 1 }, plus_sign: false, lead_zero: true }
    }

    /// The integer `n`, written without a sign.
    pub fn from_integer(n: isize) -> (r: Number)
        ensures
            r == Number::from_integer_spec(n),
    {
        Number { value: Fraction::from_integer(n), plus_sign: false, lead_zero: true }
    }

    /// Equal to zero.
    pub fn is_zero(&self) -> (r: bool)
        ensures
            r == (self.value.numer == 0),
    {
        self.value.is_zero()
    }
}

/// The unit of a number.
#[derive(Clone, Copy, Debug, PartialEq, Eq, PartialOrd, Structural)]
pub enum Unit {
    Em,
    Ex,
    Ch,
    Rem,
    Vw,
    Vh,
    Vmin,
    Vmax,
    Cm,
    Mm,
    Q,
    In,
    Pt,
    Pc,
    Px,
    Deg,
    Grad,
    Rad,
    Turn,
    S,
    Ms,
    Hz,
    Khz,
    Dpi,
    Dpcm,
    Dppx,
    Percent,
    /// No unit: a plain number.
    Unitless,
}

/// The quotes around a string.
#[derive(Clone, Copy, Debug, PartialEq, Eq, PartialOrd, Structural)]
pub enum Quotes {
    Double,
    Single,
    /// No quotes.
    Unquoted,
}

/// How the items of a list are separated.
#[derive(Clone, Copy, Debug, PartialEq, Eq, PartialOrd, Structural)]
pub enum ListSeparator {
    Comma,
    Space,
}

/// A unary or binary operator.
#[derive(Clone, Copy, Debug, PartialEq, Eq, PartialOrd, Structural)]
pub enum Operator {
    And,
    Or,
    Equal,
    NotEqual,
    Greater,
    GreaterE,
    Lesser,
    LesserE,
    Plus,
    Minus,
    Multiply,
    Div,
    Modulo,
    Not,
}

/// A color by its red, green, blue and alpha channels.
#[derive(Clone, Copy, Debug, PartialEq, Eq, PartialOrd, Structural)]
pub struct Rgba {
    pub red: Fraction,
    pub green: Fraction,
    pub blue: Fraction,
    pub alpha: Fraction,
}

impl Rgba {
    /// An opaque color from its three byte channels.
    pub fn from_rgb(r: u8, g: u8, b: u8) -> (c: Rgba)
        ensures
            c == (Rgba {
                red: Fraction { numer: r as isize, denom: 1 },
                green: Fraction { numer: g as isize, denom: 1 },
                blue: Fraction { numer: b as isize, denom: 1 },
                alpha: Fraction { numer: 1, denom: 1 },
            }),
    {
        Rgba {
            red: Fraction::from_integer(r as isize),
            green: Fraction::from_integer(g as isize),
            blue: Fraction::from_integer(b as isize),
            alpha: Fraction::from_integer(1),
        }
    }

    /// A color from its four channels.
    pub fn new(red: Fraction, green: Fraction, blue: Fraction, alpha: Fraction) -> (c: Rgba)
        ensures
            c == (Rgba { red, green, blue, alpha }),
    {
        Rgba { red, green, blue, alpha }
    }
}

} // verus!
