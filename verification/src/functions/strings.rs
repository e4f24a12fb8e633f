//! The string functions: `quote`, `unquote`, `str-insert`, `str-slice`,
//! `str-length`, `str-index`, `to-upper-case` and `to-lower-case`.

use vstd::prelude::*;

use crate::css::{css_views, lemma_css_views_push, result_view, CssV, Value};
use crate::render::{css_text, write_css};
use crate::error::{Error, ErrorV};
use crate::value::{trunc_div, Number, Quotes, Unit};

verus! {

/// What `str::to_uppercase` makes of a string.
pub uninterp spec fn uppercase(s: Seq<char>) -> Seq<char>;

/// What `str::to_lowercase` makes of a string.
pub uninterp spec fn lowercase(s: Seq<char>) -> Seq<char>;

/// `str::to_uppercase`; its result is named by [`uppercase`].
#[verifier::external_body]
fn to_uppercase(s: &str) -> (r: String)
    ensures
        r@ == uppercase(s@),
{
    s.to_uppercase()
}

/// The lower case of an ASCII character: `A` to `Z` become `a` to `z`.
pub open spec fn ascii_lower(c: char) -> char {
    if 'A' <= c <= 'Z' {
        ((c as u32) + 32) as char
    } else {
        c
    }
}

/// `str::to_lowercase`; its result is named by [`lowercase`]. Lower case
/// is that of Unicode, which for ASCII text maps `A` to `Z` to `a` to `z`
/// and leaves the other characters.
#[verifier::external_body]
pub(crate) fn to_lowercase(s: &str) -> (r: String)
    ensures
        r@ == lowercase(s@),
        (forall|i: int| 0 <= i < s@.len() ==> (#[trigger] s@[i] as u32) < 128) ==> r@
            == s@.map_values(|c: char| ascii_lower(c)),
{
    s.to_lowercase()
}

/// The integer part of a number, rounded toward zero.
pub open spec fn number_trunc(n: Number) -> int {
    trunc_div(n.value.numer as int, n.value.denom as int)
}

/// A string index converts without panicking: its integer part can be
/// computed (a denominator that is not zero, no overflow); a negative one
/// has an integer part with an absolute value; a positive one has an
/// integer part of at least one.
pub open spec fn index_convertible(index: Number) -> bool {
    &&& index.value.denom != 0
    &&& !(index.value.numer == isize::MIN && index.value.denom == -1)
    &&& index.value.is_negative_spec() ==> number_trunc(index) != isize::MIN
    &&& index.value.is_positive_spec() ==> number_trunc(index) >= 1
}

/// A Sass string index (rational, the first character is one) as a
/// zero-based index into a string of `len` characters. A negative index
/// counts from the end: `-1` is the last character; one that goes past
/// the start gives zero.
pub open spec fn spec_index_to_rust(index: Number, len: nat) -> int {
    let t = number_trunc(index);
    if index.value.is_negative_spec() {
        if len > -t {
            len + t
        } else {
            0
        }
    } else if index.value.is_positive_spec() {
        t - 1
    } else {
        0
    }
}

/// Converts a Sass string index for the string `s`, as
/// [`spec_index_to_rust`] states.
pub fn index_to_rust(index: &Number, s: &str) -> (r: usize)
    requires
        index_convertible(*index),
    ensures
        r == spec_index_to_rust(*index, s@.len()),
{
    if index.value.is_negative() {
        let l = s.unicode_len();
        let t = index.value.to_integer();
        let i: usize = (-t) as usize;
        if l > i {
            l - i
        } else {
            0
        }
    } else if index.value.is_positive() {
        (index.value.to_integer() as usize) - 1
    } else {
        0
    }
}

/// A calculated unitless number for a count.
pub open spec fn int_value(n: int) -> CssV {
    CssV::Numeric(Number::from_integer_spec(n as isize), Unit::Unitless, true)
}

fn intvalue(n: usize) -> (r: Value)
    ensures
        r@ == int_value(n as int),
{
    Value::Numeric(Number::from_integer(n as isize), Unit::Unitless, true)
}

/// `quote`: a string gets double quotes; any other value becomes its CSS
/// text in double quotes.
pub open spec fn spec_quote(contents: CssV) -> Result<CssV, ErrorV> {
    match contents {
        CssV::Literal(v, _) => Ok(CssV::Literal(v, Quotes::Double)),
        v => Ok(CssV::Literal(css_text(v), Quotes::Double)),
    }
}

/// `unquote`: a string loses its quotes; any other value stays as it is.
pub open spec fn spec_unquote(contents: CssV) -> Result<CssV, ErrorV> {
    match contents {
        CssV::Literal(v, _) => Ok(CssV::Literal(v, Quotes::Unquoted)),
        v => Ok(v),
    }
}

/// `str-insert`: `insert` placed before the character at `index`.
pub open spec fn spec_str_insert(string: CssV, insert: CssV, index: CssV) -> Result<CssV, ErrorV> {
    match (string, insert, index) {
        (CssV::Literal(s, q), CssV::Literal(ins, _), CssV::Numeric(idx, Unit::Unitless, _)) => {
            if !index_convertible(idx) {
                Err(ErrorV::Refused)
            } else {
                let i = spec_index_to_rust(idx, s.len());
                let k = if i < s.len() { i } else { s.len() as int };
                Ok(CssV::Literal(s.take(k) + ins + s.skip(k), q))
            }
        },
        _ => Err(ErrorV::BadArguments("string, string, number"@, seq![string, insert, index])),
    }
}

/// `str-slice`: the characters from `start_at` through `end_at`. The
/// count of characters to take must not be negative.
pub open spec fn spec_str_slice(string: CssV, start_at: CssV, end_at: CssV) -> Result<CssV, ErrorV> {
    match (string, start_at, end_at) {
        (
            CssV::Literal(s, q),
            CssV::Numeric(st, Unit::Unitless, _),
            CssV::Numeric(en, Unit::Unitless, _),
        ) => {
            if !index_convertible(st) || !index_convertible(en) {
                Err(ErrorV::Refused)
            } else {
                let a = spec_index_to_rust(st, s.len());
                let b = spec_index_to_rust(en, s.len());
                if b + 1 < a || b + 1 > usize::MAX {
                    Err(ErrorV::Refused)
                } else {
                    let from = if a < s.len() { a } else { s.len() as int };
                    let to = if b + 1 < s.len() { b + 1 } else { s.len() as int };
                    Ok(CssV::Literal(s.subrange(from, to), q))
                }
            }
        },
        _ => Err(ErrorV::BadArguments("string, number, number"@, seq![string, start_at, end_at])),
    }
}

/// `str-length`: the number of characters.
pub open spec fn spec_str_length(string: CssV) -> Result<CssV, ErrorV> {
    match string {
        CssV::Literal(s, _) => Ok(int_value(s.len() as int)),
        _ => Err(ErrorV::BadArguments("string"@, seq![string])),
    }
}

/// The first position at or after `k` where `sub` occurs in `s`.
pub open spec fn find_from(s: Seq<char>, sub: Seq<char>, k: int) -> Option<int>
    decreases s.len() - k,
{
    if k < 0 || k + sub.len() > s.len() {
        None
    } else if s.subrange(k, k + sub.len()) == sub {
        Some(k)
    } else if k >= s.len() {
        None
    } else {
        find_from(s, sub, k + 1)
    }
}

/// `str-index`: the one-based position of the first occurrence of
/// `substring`, or null.
pub open spec fn spec_str_index(string: CssV, substring: CssV) -> Result<CssV, ErrorV> {
    match (string, substring) {
        (CssV::Literal(s, _), CssV::Literal(sub, _)) => match find_from(s, sub, 0) {
            Some(k) => Ok(int_value(1 + k)),
            None => Ok(CssV::Null),
        },
        _ => Err(ErrorV::BadArguments("string, string"@, seq![string, substring])),
    }
}

/// `to-upper-case`: a string in upper case; any other value as it is.
pub open spec fn spec_to_upper_case(string: CssV) -> Result<CssV, ErrorV> {
    match string {
        CssV::Literal(s, q) => Ok(CssV::Literal(uppercase(s), q)),
        v => Ok(v),
    }
}

/// `to-lower-case`: a string in lower case; any other value as it is.
pub open spec fn spec_to_lower_case(string: CssV) -> Result<CssV, ErrorV> {
    match string {
        CssV::Literal(s, q) => Ok(CssV::Literal(lowercase(s), q)),
        v => Ok(v),
    }
}

fn string_of(s: &str) -> (r: String)
    ensures
        r@ == s@,
{
    String::from_str(s)
}

/// `quote`, as [`spec_quote`] states.
pub fn quote(contents: Value) -> (r: Result<Value, Error>)
    ensures
        result_view(r) == spec_quote(contents@),
{
    match contents {
        Value::Literal(v, _) => Ok(Value::Literal(v, Quotes::Double)),
        v => {
            let mut t = String::new();
            write_css(&v, &mut t);
            assert(t@ =~= css_text(v@));
            Ok(Value::Literal(t, Quotes::Double))
        },
    }
}

fn values1(a: &Value) -> (r: Vec<Value>)
    ensures
        css_views(r@) == seq![a@],
{
    let mut v: Vec<Value> = Vec::new();
    let x = a.clone();
    proof {
        lemma_css_views_push(v@, x);
    }
    v.push(x);
    assert(css_views(Seq::<Value>::empty()) =~= Seq::<CssV>::empty());
    assert(css_views(v@) =~= seq![a@]);
    v
}

fn values2(a: &Value, b: &Value) -> (r: Vec<Value>)
    ensures
        css_views(r@) == seq![a@, b@],
{
    let mut v = values1(a);
    let y = b.clone();
    proof {
        lemma_css_views_push(v@, y);
    }
    v.push(y);
    assert(css_views(v@) =~= seq![a@, b@]);
    v
}

fn values3(a: &Value, b: &Value, c: &Value) -> (r: Vec<Value>)
    ensures
        css_views(r@) == seq![a@, b@, c@],
{
    let mut v = values2(a, b);
    let z = c.clone();
    proof {
        lemma_css_views_push(v@, z);
    }
    v.push(z);
    assert(css_views(v@) =~= seq![a@, b@, c@]);
    v
}

fn bad_arguments(kinds: &'static str, values: Vec<Value>) -> (r: Result<Value, Error>)
    ensures
        result_view(r) == Err::<CssV, ErrorV>(ErrorV::BadArguments(kinds@, css_views(values@))),
{
    Err(Error::BadArguments(kinds, values))
}

/// `unquote`, as [`spec_unquote`] states.
pub fn unquote(contents: Value) -> (r: Result<Value, Error>)
    ensures
        result_view(r) == spec_unquote(contents@),
{
    match contents {
        Value::Literal(v, _) => Ok(Value::Literal(v, Quotes::Unquoted)),
        v => Ok(v),
    }
}

/// `str-insert`, as [`spec_str_insert`] states.
pub fn str_insert(string: &Value, insert: &Value, index: &Value) -> (r: Result<Value, Error>)
    requires
        spec_str_insert(string@, insert@, index@) != Err::<CssV, ErrorV>(ErrorV::Refused),
    ensures
        result_view(r) == spec_str_insert(string@, insert@, index@),
{
    match (string, insert, index) {
        (Value::Literal(s, q), Value::Literal(ins, _), Value::Numeric(idx, Unit::Unitless, _)) => {
            let i = index_to_rust(idx, s.as_str());
            let len = s.as_str().unicode_len();
            let k = if i < len {
                i
            } else {
                len
            };
            let mut r = string_of(s.as_str().substring_char(0, k));
            r.append(ins.as_str());
            r.append(s.as_str().substring_char(k, len));
            assert(s@.subrange(0, k as int) =~= s@.take(k as int));
            assert(s@.subrange(k as int, len as int) =~= s@.skip(k as int));
            Ok(Value::Literal(r, *q))
        },
        _ => {
            let r = bad_arguments(
                "string, string, number",
                values3(string, insert, index),
            );
            proof {
                reveal_strlit("string, string, number");
            }
            r
        },
    }
}

/// `str-slice`, as [`spec_str_slice`] states.
pub fn str_slice(string: &Value, start_at: &Value, end_at: &Value) -> (r: Result<Value, Error>)
    requires
        spec_str_slice(string@, start_at@, end_at@) != Err::<CssV, ErrorV>(ErrorV::Refused),
    ensures
        result_view(r) == spec_str_slice(string@, start_at@, end_at@),
{
    match (string, start_at, end_at) {
        (
            Value::Literal(s, q),
            Value::Numeric(st, Unit::Unitless, _),
            Value::Numeric(en, Unit::Unitless, _),
        ) => {
            let a = index_to_rust(st, s.as_str());
            let b = index_to_rust(en, s.as_str());
            let len = s.as_str().unicode_len();
            let from = if a < len {
                a
            } else {
                len
            };
            let to = if b + 1 < len {
                b + 1
            } else {
                len
            };
            let r = string_of(s.as_str().substring_char(from, to));
            Ok(Value::Literal(r, *q))
        },
        _ => {
            let r = bad_arguments(
                "string, number, number",
                values3(string, start_at, end_at),
            );
            proof {
                reveal_strlit("string, number, number");
            }
            r
        },
    }
}

/// `str-length`, as [`spec_str_length`] states.
pub fn str_length(string: &Value) -> (r: Result<Value, Error>)
    ensures
        result_view(r) == spec_str_length(string@),
{
    match string {
        Value::Literal(v, _) => Ok(intvalue(v.as_str().unicode_len())),
        _ => {
            let r = bad_arguments("string", values1(string));
            proof {
                reveal_strlit("string");
            }
            r
        },
    }
}

fn matches_at(s: &str, sub: &str, k: usize, len: usize) -> (r: bool)
    requires
        len == s@.len(),
        k + sub@.len() <= s@.len(),
    ensures
        r == (s@.subrange(k as int, k + sub@.len()) == sub@),
{
    let m = sub.unicode_len();
    let mut j: usize = 0;
    while j < m
        invariant
            j <= m,
            m == sub@.len(),
            k + m <= s@.len(),
            len == s@.len(),
            forall|t: int| 0 <= t < j ==> s@[k + t] == sub@[t],
        decreases m - j,
    {
        if s.get_char(k + j) != sub.get_char(j) {
            assert(s@.subrange(k as int, k + sub@.len())[j as int] != sub@[j as int]);
            return false;
        }
        j = j + 1;
    }
    assert(s@.subrange(k as int, k + sub@.len()) =~= sub@);
    true
}

fn find_chars(s: &str, sub: &str) -> (r: Option<usize>)
    ensures
        match r {
            Some(k) => find_from(s@, sub@, 0) == Some(k as int) && k + sub@.len() <= s@.len() && (
            sub@.len() == 0 ==> k == 0) && k < usize::MAX,
            None => find_from(s@, sub@, 0) is None,
        },
{
    let len = s.unicode_len();
    let m = sub.unicode_len();
    if m > len {
        return None;
    }
    let mut k: usize = 0;
    loop
        invariant
            m <= len,
            len == s@.len(),
            m == sub@.len(),
            k <= len - m,
            m == 0 ==> k == 0,
            find_from(s@, sub@, 0) == find_from(s@, sub@, k as int),
        decreases len - k,
    {
        if m == 0 {
            assert(s@.subrange(k as int, k as int) =~= sub@);
        }
        if matches_at(s, sub, k, len) {
            return Some(k);
        }
        if k == len - m {
            assert(find_from(s@, sub@, k + 1) is None);
            return None;
        }
        k = k + 1;
    }
}

/// `str-index`, as [`spec_str_index`] states.
pub fn str_index(string: &Value, substring: &Value) -> (r: Result<Value, Error>)
    ensures
        result_view(r) == spec_str_index(string@, substring@),
{
    match (string, substring) {
        (Value::Literal(s, _), Value::Literal(sub, _)) => match find_chars(s.as_str(), sub.as_str()) {
            Some(k) => {
                let r = intvalue(1 + k);
                Ok(r)
            },
            None => Ok(Value::Null),
        },
        _ => {
            let r = bad_arguments("string, string", values2(string, substring));
            proof {
                reveal_strlit("string, string");
            }
            r
        },
    }
}

/// `to-upper-case`, as [`spec_to_upper_case`] states.
pub fn to_upper_case(string: Value) -> (r: Result<Value, Error>)
    ensures
        result_view(r) == spec_to_upper_case(string@),
{
    match string {
        Value::Literal(v, q) => Ok(Value::Literal(to_uppercase(v.as_str()), q)),
        v => Ok(v),
    }
}

/// `to-lower-case`, as [`spec_to_lower_case`] states.
pub fn to_lower_case(string: Value) -> (r: Result<Value, Error>)
    ensures
        result_view(r) == spec_to_lower_case(string@),
{
    match string {
        Value::Literal(v, q) => Ok(Value::Literal(to_lowercase(v.as_str()), q)),
        v => Ok(v),
    }
}


/// Indexes count from one: the positive integer `k` is the character at
/// zero-based `k - 1`.
pub proof fn lemma_index_first_is_one(k: isize, len: nat)
    requires
        k >= 1,
    ensures
        index_convertible(Number::from_integer_spec(k)),
        spec_index_to_rust(Number::from_integer_spec(k), len) == k - 1,
{
}

/// Negative indexes count from the end: `-1` is the last character.
pub proof fn lemma_index_minus_one_is_last(len: nat)
    requires
        len >= 1,
    ensures
        index_convertible(Number::from_integer_spec(-1isize)),
        spec_index_to_rust(Number::from_integer_spec(-1isize), len) == len - 1,
{
}

/// A converted index is never negative.
pub proof fn lemma_index_nonnegative(index: Number, len: nat)
    requires
        index_convertible(index),
    ensures
        spec_index_to_rust(index, len) >= 0,
{
}

/// Inserting adds the length of the insert to the length of the string.
pub proof fn lemma_insert_length(s: Seq<char>, q: Quotes, ins: Seq<char>, q2: Quotes, idx: Number, c: bool)
    requires
        index_convertible(idx),
    ensures
        spec_str_insert(CssV::Literal(s, q), CssV::Literal(ins, q2), CssV::Numeric(idx, Unit::Unitless, c))
            matches Ok(CssV::Literal(r, q3)) && q3 == q && r.len() == s.len() + ins.len(),
        spec_str_length(
            spec_str_insert(CssV::Literal(s, q), CssV::Literal(ins, q2), CssV::Numeric(idx, Unit::Unitless, c))->Ok_0,
        ) == Ok::<CssV, ErrorV>(int_value((s.len() + ins.len()) as int)),
{
    lemma_index_nonnegative(idx, s.len());
}

/// A slice from the first character to the last is the whole string.
pub proof fn lemma_slice_whole(s: Seq<char>, q: Quotes, c1: bool, c2: bool)
    requires
        1 <= s.len() <= usize::MAX,
    ensures
        spec_str_slice(
            CssV::Literal(s, q),
            CssV::Numeric(Number::from_integer_spec(1isize), Unit::Unitless, c1),
            CssV::Numeric(Number::from_integer_spec(-1isize), Unit::Unitless, c2),
        ) == Ok::<CssV, ErrorV>(CssV::Literal(s, q)),
{
    assert(s.subrange(0, s.len() as int) =~= s);
}

/// Unquoting a quoted string gives the string without quotes, and quoting
/// an unquoted one gives it in double quotes.
pub proof fn lemma_quote_unquote(v: Seq<char>, q: Quotes)
    ensures
        spec_unquote(spec_quote(CssV::Literal(v, q))->Ok_0) == Ok::<CssV, ErrorV>(
            CssV::Literal(v, Quotes::Unquoted),
        ),
        spec_quote(spec_unquote(CssV::Literal(v, q))->Ok_0) == Ok::<CssV, ErrorV>(
            CssV::Literal(v, Quotes::Double),
        ),
{
}

/// `quote` never fails: every value comes out as a string in double
/// quotes, a string keeping its text and any other value giving its CSS
/// text.
pub proof fn lemma_quote_gives_double_quotes(v: CssV)
    ensures
        spec_quote(v) matches Ok(CssV::Literal(t, Quotes::Double)) && t == (match v {
            CssV::Literal(s, _) => s,
            other => css_text(other),
        }),
{
}

/// `sub` occurs in `s` at character `j`.
pub open spec fn occurs_at(s: Seq<char>, sub: Seq<char>, j: int) -> bool {
    0 <= j && j + sub.len() <= s.len() && s.subrange(j, j + sub.len()) == sub
}

/// The search from `k` finds the first occurrence at or after `k`.
proof fn lemma_find_from(s: Seq<char>, sub: Seq<char>, k: int)
    requires
        0 <= k,
    ensures
        match find_from(s, sub, k) {
            Some(j) => k <= j && occurs_at(s, sub, j) && forall|t: int|
                k <= t < j ==> !occurs_at(s, sub, t),
            None => forall|t: int| k <= t ==> !occurs_at(s, sub, t),
        },
    decreases s.len() - k,
{
    if k + sub.len() > s.len() {
    } else if s.subrange(k, k + sub.len()) == sub {
    } else if k >= s.len() {
        assert(sub.len() == 0);
        assert(s.subrange(k, k + sub.len()) =~= sub);
    } else {
        lemma_find_from(s, sub, k + 1);
    }
}

/// `str-index` gives the one-based position `p` of the first occurrence:
/// the substring occurs at character `p - 1` and at no earlier one; it
/// gives null only where the substring occurs nowhere.
pub proof fn lemma_str_index_finds_first(s: Seq<char>, q1: Quotes, sub: Seq<char>, q2: Quotes)
    ensures
        match spec_str_index(CssV::Literal(s, q1), CssV::Literal(sub, q2)) {
            Ok(CssV::Null) => forall|j: int| !occurs_at(s, sub, j),
            Ok(x) => exists|p: int|
                1 <= p <= s.len() + 1 && x == int_value(p) && occurs_at(s, sub, p - 1) && forall|j: int|
                    0 <= j < p - 1 ==> !occurs_at(s, sub, j),
            Err(_) => false,
        },
{
    lemma_find_from(s, sub, 0);
    match find_from(s, sub, 0) {
        Some(k) => {
            assert(occurs_at(s, sub, (1 + k) - 1));
        },
        None => {
            assert forall|j: int| !occurs_at(s, sub, j) by {
                if j >= 0 {
                    assert(!occurs_at(s, sub, j));
                }
            }
        },
    }
}

} // verus!
