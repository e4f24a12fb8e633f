//! Reading a selector from bytes.
//!
//! The grammar, with streaming semantics: a scanner that runs into the end
//! of the input while it still needs bytes reports that the input is
//! incomplete rather than failing.
//!
//! ```text
//! selector  = part+                      (a trailing descendant is dropped)
//! part      = simple | attribute | "&" | space? (">" | "+" | "~") space? | space
//! simple    = selector-char+             (ASCII letter or digit, "_", ".", "#")
//! attribute = "[" space? simple space? ("*=" | "=") space? quoted space? "]"
//! quoted    = '"' not-'"'+ '"' | "'" not-"'"+ "'"
//! space     = (whitespace | "/*" ... "*/" | "//" not-newline*)+
//! ```
//! Every alternative of `part` but the last, and every alternative inside
//! an attribute, counts an incomplete scan as a failure.

use vstd::prelude::*;
use vstd::utf8::valid_utf8;

use super::{parts_view, PartView, Selector, SelectorPart};
use crate::text::str_from_utf8;

verus! {

/// The outcome of a scan that starts at some position of the input.
pub enum SpecScan<T> {
    /// Success; the scan ends before the given position.
    Done(int, T),
    /// The input does not match.
    Error,
    /// The input ended while the scan needed more of it.
    Incomplete,
    /// A quoted attribute value that is not UTF-8: reading it is refused.
    Abort,
}

/// The outcome of an executable scan; its view is a [`SpecScan`].
pub enum Scan<T> {
    Done(usize, T),
    Error,
    Incomplete,
    Abort,
}

impl<T: View> View for Scan<T> {
    type V = SpecScan<T::V>;

    open spec fn view(&self) -> SpecScan<T::V> {
        match self {
            Scan::Done(n, t) => SpecScan::Done(*n as int, t@),
            Scan::Error => SpecScan::Error,
            Scan::Incomplete => SpecScan::Incomplete,
            Scan::Abort => SpecScan::Abort,
        }
    }
}

/// ASCII letters and digits.
pub open spec fn ascii_alphanumeric(c: u8) -> bool {
    (0x41 <= c <= 0x5A) || (0x61 <= c <= 0x7A) || (0x30 <= c <= 0x39)
}

/// Space, tab, carriage return and newline.
pub open spec fn is_space_byte(b: u8) -> bool {
    b == 32 || b == 9 || b == 13 || b == 10
}

/// The bytes a simple selector is made of.
pub open spec fn is_selector_byte(b: u8) -> bool {
    ascii_alphanumeric(b) || b == 95 || b == 46 || b == 35
}

/// `nom::is_alphanumeric` holds exactly for the ASCII letters and digits.
pub assume_specification[ nom::is_alphanumeric ](chr: u8) -> (r: bool)
    ensures
        r == ascii_alphanumeric(chr),
;

fn is_selector_char(chr: u8) -> (r: bool)
    ensures
        r == is_selector_byte(chr),
{
    nom::is_alphanumeric(chr) || chr == 95 || chr == 46 || chr == 35
}

/// The first position at or after `k` that holds a newline, or the end.
pub open spec fn line_end(s: Seq<u8>, k: int) -> int
    decreases s.len() - k,
{
    if k < 0 || k >= s.len() || s[k] == 10 {
        k
    } else {
        line_end(s, k + 1)
    }
}

/// The position after the first `*/` at or after `k`, if there is one.
pub open spec fn block_end(s: Seq<u8>, k: int) -> Option<int>
    decreases s.len() - k,
{
    if k < 0 || k + 1 >= s.len() {
        None
    } else if s[k] == 42 && s[k + 1] == 47 {
        Some(k + 2)
    } else {
        block_end(s, k + 1)
    }
}

/// A line comment ends at or after its start and within the input.
pub proof fn lemma_line_end(s: Seq<u8>, k: int)
    requires
        0 <= k <= s.len(),
    ensures
        k <= line_end(s, k) <= s.len(),
    decreases s.len() - k,
{
    if k < s.len() && s[k] != 10 {
        lemma_line_end(s, k + 1);
    }
}

/// A closed block comment ends after its opening and within the input.
pub proof fn lemma_block_end(s: Seq<u8>, k: int)
    requires
        0 <= k,
    ensures
        block_end(s, k) matches Some(e) ==> k + 2 <= e <= s.len(),
    decreases s.len() - k,
{
    if k + 1 < s.len() && !(s[k] == 42 && s[k + 1] == 47) {
        lemma_block_end(s, k + 1);
    }
}

/// The end of the whitespace and comments that start at `i` (`i` itself
/// where there are none).
pub open spec fn space_end(s: Seq<u8>, i: int) -> int
    decreases s.len() - i,
{
    if i < 0 || i >= s.len() {
        i
    } else if is_space_byte(s[i]) {
        space_end(s, i + 1)
    } else if i + 1 < s.len() && s[i] == 47 && s[i + 1] == 47 {
        proof {
            lemma_line_end(s, i + 2);
        }
        space_end(s, line_end(s, i + 2))
    } else if i + 1 < s.len() && s[i] == 47 && s[i + 1] == 42 && block_end(s, i + 2) is Some {
        proof {
            lemma_block_end(s, i + 2);
        }
        space_end(s, block_end(s, i + 2)->0)
    } else {
        i
    }
}

/// The end of the selector characters that start at `i`.
pub open spec fn selector_end(s: Seq<u8>, i: int) -> int
    decreases s.len() - i,
{
    if i < 0 || i >= s.len() || !is_selector_byte(s[i]) {
        i
    } else {
        selector_end(s, i + 1)
    }
}

/// The first position at or after `i` that holds `q`, or the end.
pub open spec fn byte_end(s: Seq<u8>, i: int, q: u8) -> int
    decreases s.len() - i,
{
    if i < 0 || i >= s.len() || s[i] == q {
        i
    } else {
        byte_end(s, i + 1, q)
    }
}

/// Optional whitespace inside a sequence: where it can be read, the
/// position after it; `None` at the end of the input, where reading it
/// is incomplete.
pub open spec fn opt_space(s: Seq<u8>, i: int) -> Option<int> {
    if i >= s.len() {
        None
    } else {
        Some(space_end(s, i))
    }
}

/// A quoted attribute value at `p`, quoted by `q`; the value keeps its quotes.
pub open spec fn spec_quoted(s: Seq<u8>, p: int, q: u8) -> SpecScan<Seq<u8>> {
    if p < 0 || p >= s.len() || s[p] != q {
        SpecScan::Error
    } else {
        let e = byte_end(s, p + 1, q);
        if e >= s.len() || e == p + 1 {
            SpecScan::Error
        } else if !valid_utf8(s.subrange(p + 1, e)) {
            SpecScan::Abort
        } else {
            SpecScan::Done(e + 1, seq![q] + s.subrange(p + 1, e) + seq![q])
        }
    }
}

/// A value in double quotes, else one in single quotes.
pub open spec fn spec_value(s: Seq<u8>, p: int) -> SpecScan<Seq<u8>> {
    match spec_quoted(s, p, 34) {
        SpecScan::Done(e, v) => SpecScan::Done(e, v),
        SpecScan::Abort => SpecScan::Abort,
        _ => spec_quoted(s, p, 39),
    }
}

/// The comparison of an attribute test: `*=` or `=`.
pub open spec fn spec_op(s: Seq<u8>, p: int) -> Option<(int, Seq<u8>)> {
    if 0 <= p && p + 1 < s.len() && s[p] == 42 && s[p + 1] == 61 {
        Some((p + 2, seq![42u8, 61u8]))
    } else if 0 <= p < s.len() && s[p] == 61 {
        Some((p + 1, seq![61u8]))
    } else {
        None
    }
}

/// An attribute test at `i`; any failure, complete or not, is an error.
pub open spec fn spec_attribute(s: Seq<u8>, i: int) -> SpecScan<PartView> {
    if !(0 <= i < s.len() && s[i] == 91) {
        SpecScan::Error
    } else {
        match opt_space(s, i + 1) {
            None => SpecScan::Error,
            Some(p1) => {
                let e = selector_end(s, p1);
                if p1 >= s.len() || e == p1 {
                    SpecScan::Error
                } else {
                    match opt_space(s, e) {
                        None => SpecScan::Error,
                        Some(p2) => match spec_op(s, p2) {
                            None => SpecScan::Error,
                            Some((p3, op)) => match opt_space(s, p3) {
                                None => SpecScan::Error,
                                Some(p4) => match spec_value(s, p4) {
                                    SpecScan::Abort => SpecScan::Abort,
                                    SpecScan::Done(p5, val) => match opt_space(s, p5) {
                                        None => SpecScan::Error,
                                        Some(p6) => if p6 < s.len() && s[p6] == 93 {
                                            SpecScan::Done(
                                                p6 + 1,
                                                PartView::Attribute {
                                                    name: s.subrange(p1, e),
                                                    op,
                                                    val,
                                                },
                                            )
                                        } else {
                                            SpecScan::Error
                                        },
                                    },
                                    _ => SpecScan::Error,
                                },
                            },
                        },
                    }
                }
            },
        }
    }
}

/// A relational operator `c` at `i`, with optional whitespace around it.
pub open spec fn spec_relop(s: Seq<u8>, i: int, c: u8) -> Option<int> {
    if i >= s.len() {
        None
    } else {
        let p = space_end(s, i);
        if p < s.len() && s[p] == c {
            opt_space(s, p + 1)
        } else {
            None
        }
    }
}

/// One part of a selector at `i`.
pub open spec fn spec_part(s: Seq<u8>, i: int) -> SpecScan<PartView> {
    if 0 <= i < s.len() && is_selector_byte(s[i]) {
        SpecScan::Done(selector_end(s, i), PartView::Simple(s.subrange(i, selector_end(s, i))))
    } else {
        match spec_attribute(s, i) {
            SpecScan::Done(e, p) => SpecScan::Done(e, p),
            SpecScan::Abort => SpecScan::Abort,
            _ => if 0 <= i < s.len() && s[i] == 38 {
                SpecScan::Done(i + 1, PartView::BackRef)
            } else if spec_relop(s, i, 62) is Some {
                SpecScan::Done(spec_relop(s, i, 62)->0, PartView::RelOp(62))
            } else if spec_relop(s, i, 43) is Some {
                SpecScan::Done(spec_relop(s, i, 43)->0, PartView::RelOp(43))
            } else if spec_relop(s, i, 126) is Some {
                SpecScan::Done(spec_relop(s, i, 126)->0, PartView::RelOp(126))
            } else if i >= s.len() {
                SpecScan::Incomplete
            } else if space_end(s, i) == i {
                SpecScan::Error
            } else {
                SpecScan::Done(space_end(s, i), PartView::Descendant)
            },
        }
    }
}

/// Further parts from `i`, after the parts `acc`: the repetition stops at
/// the end of the input, at a part that does not match, or at one that
/// consumes nothing; an incomplete or refused part ends it with that outcome.
pub open spec fn spec_more_parts(s: Seq<u8>, i: int, acc: Seq<PartView>) -> SpecScan<
    Seq<PartView>,
>
    decreases s.len() - i,
{
    if i >= s.len() {
        SpecScan::Done(i, acc)
    } else {
        match spec_part(s, i) {
            SpecScan::Error => SpecScan::Done(i, acc),
            SpecScan::Incomplete => SpecScan::Incomplete,
            SpecScan::Abort => SpecScan::Abort,
            SpecScan::Done(j, p) => if j <= i || j > s.len() {
                SpecScan::Done(i, acc)
            } else {
                spec_more_parts(s, j, acc.push(p))
            },
        }
    }
}

/// One or more parts from the start of `s`.
pub open spec fn spec_parts(s: Seq<u8>) -> SpecScan<Seq<PartView>> {
    match spec_part(s, 0) {
        SpecScan::Error => SpecScan::Error,
        SpecScan::Incomplete => SpecScan::Incomplete,
        SpecScan::Abort => SpecScan::Abort,
        SpecScan::Done(j, p) => spec_more_parts(s, j, seq![p]),
    }
}

/// The parts without a descendant combinator at their end.
pub open spec fn drop_trailing_descendant(v: Seq<PartView>) -> Seq<PartView> {
    if v.len() > 0 && v.last() is Descendant {
        v.drop_last()
    } else {
        v
    }
}

/// A selector at the start of `s`.
pub open spec fn spec_selector(s: Seq<u8>) -> SpecScan<Seq<PartView>> {
    match spec_parts(s) {
        SpecScan::Done(k, v) => SpecScan::Done(k, drop_trailing_descendant(v)),
        SpecScan::Error => SpecScan::Error,
        SpecScan::Incomplete => SpecScan::Incomplete,
        SpecScan::Abort => SpecScan::Abort,
    }
}


/// Whitespace and comments end where no more of them start.
pub proof fn lemma_space_end_idempotent(s: Seq<u8>, i: int)
    ensures
        space_end(s, space_end(s, i)) == space_end(s, i),
    decreases s.len() - i,
{
    if 0 <= i < s.len() {
        if is_space_byte(s[i]) {
            lemma_space_end_idempotent(s, i + 1);
        } else if i + 1 < s.len() && s[i] == 47 && s[i + 1] == 47 {
            lemma_line_end(s, i + 2);
            lemma_space_end_idempotent(s, line_end(s, i + 2));
        } else if i + 1 < s.len() && s[i] == 47 && s[i + 1] == 42 && block_end(s, i + 2) is Some {
            lemma_block_end(s, i + 2);
            lemma_space_end_idempotent(s, block_end(s, i + 2)->0);
        }
    }
}

/// No two descendant combinators follow each other.
pub open spec fn no_double_descendant(v: Seq<PartView>) -> bool {
    forall|k: int| 0 <= k < v.len() - 1 ==> !(#[trigger] v[k] is Descendant && v[k + 1] is Descendant)
}

/// A descendant combinator takes all the whitespace: the part after it
/// is never another one.
proof fn lemma_more_parts_no_double(s: Seq<u8>, i: int, acc: Seq<PartView>)
    requires
        no_double_descendant(acc),
        acc.len() > 0 && acc.last() is Descendant ==> space_end(s, i) == i,
    ensures
        spec_more_parts(s, i, acc) matches SpecScan::Done(_, v) ==> no_double_descendant(v),
    decreases s.len() - i,
{
    if i < s.len() {
        if let SpecScan::Done(j, p) = spec_part(s, i) {
            if j > i && j <= s.len() {
                if p is Descendant {
                    lemma_space_end_idempotent(s, i);
                }
                let acc2 = acc.push(p);
                assert forall|k: int| 0 <= k < acc2.len() - 1 implies !(#[trigger] acc2[k] is Descendant
                    && acc2[k + 1] is Descendant) by {
                    if k < acc.len() - 1 {
                        assert(acc2[k] == acc[k] && acc2[k + 1] == acc[k + 1]);
                    }
                }
                lemma_more_parts_no_double(s, j, acc2);
            }
        }
    }
}

/// A selector that is read never ends with a descendant combinator.
pub proof fn lemma_selector_no_trailing_descendant(s: Seq<u8>)
    ensures
        spec_selector(s) matches SpecScan::Done(_, v) ==> (v.len() == 0 || !(v.last() is Descendant)),
{
    if let SpecScan::Done(j, p) = spec_part(s, 0) {
        if p is Descendant {
            lemma_space_end_idempotent(s, 0);
        }
        lemma_more_parts_no_double(s, j, seq![p]);
        if let SpecScan::Done(_, v) = spec_parts(s) {
            if v.len() >= 2 && v.last() is Descendant {
                assert(v.drop_last().last() == v[v.len() - 2]);
            }
        }
    }
}

fn scan_line_end(s: &[u8], k: usize) -> (r: usize)
    requires
        k <= s.len(),
    ensures
        r == line_end(s@, k as int),
        k <= r <= s.len(),
{
    let mut j = k;
    while j < s.len() && s[j] != 10
        invariant
            k <= j <= s.len(),
            line_end(s@, k as int) == line_end(s@, j as int),
        decreases s.len() - j,
    {
        j = j + 1;
    }
    j
}

fn scan_block_end(s: &[u8], k: usize) -> (r: Option<usize>)
    requires
        k <= s.len(),
    ensures
        match r {
            Some(e) => block_end(s@, k as int) == Some(e as int) && k + 2 <= e <= s.len(),
            None => block_end(s@, k as int) is None,
        },
{
    let mut j = k;
    while j < s.len() && j + 1 < s.len() && !(s[j] == 42 && s[j + 1] == 47)
        invariant
            k <= j <= s.len(),
            block_end(s@, k as int) == block_end(s@, j as int),
        decreases s.len() - j,
    {
        j = j + 1;
    }
    if j < s.len() && j + 1 < s.len() {
        Some(j + 2)
    } else {
        None
    }
}

fn scan_space_end(s: &[u8], i: usize) -> (r: usize)
    requires
        i <= s.len(),
    ensures
        r == space_end(s@, i as int),
        i <= r <= s.len(),
{
    let mut j = i;
    loop
        invariant
            i <= j <= s.len(),
            space_end(s@, i as int) == space_end(s@, j as int),
        ensures
            i <= j <= s.len(),
            space_end(s@, i as int) == j,
        decreases s.len() - j,
    {
        if j >= s.len() {
            break ;
        }
        let b = s[j];
        if b == 32 || b == 9 || b == 13 || b == 10 {
            j = j + 1;
        } else if j + 1 < s.len() && b == 47 && s[j + 1] == 47 {
            proof {
                lemma_line_end(s@, j + 2);
            }
            j = scan_line_end(s, j + 2);
        } else if j + 1 < s.len() && b == 47 && s[j + 1] == 42 {
            match scan_block_end(s, j + 2) {
                Some(e) => {
                    j = e;
                },
                None => {
                    break ;
                },
            }
        } else {
            break ;
        }
    }
    j
}

fn scan_selector_end(s: &[u8], i: usize) -> (r: usize)
    requires
        i <= s.len(),
    ensures
        r == selector_end(s@, i as int),
        i <= r <= s.len(),
{
    let mut j = i;
    while j < s.len() && is_selector_char(s[j])
        invariant
            i <= j <= s.len(),
            selector_end(s@, i as int) == selector_end(s@, j as int),
        decreases s.len() - j,
    {
        j = j + 1;
    }
    j
}

fn scan_byte_end(s: &[u8], i: usize, q: u8) -> (r: usize)
    requires
        i <= s.len(),
    ensures
        r == byte_end(s@, i as int, q),
        i <= r <= s.len(),
{
    let mut j = i;
    while j < s.len() && s[j] != q
        invariant
            i <= j <= s.len(),
            byte_end(s@, i as int, q) == byte_end(s@, j as int, q),
        decreases s.len() - j,
    {
        j = j + 1;
    }
    j
}

fn scan_opt_space(s: &[u8], i: usize) -> (r: Option<usize>)
    requires
        i <= s.len(),
    ensures
        match r {
            Some(e) => opt_space(s@, i as int) == Some(e as int) && i <= e <= s.len(),
            None => opt_space(s@, i as int) is None,
        },
{
    if i >= s.len() {
        None
    } else {
        Some(scan_space_end(s, i))
    }
}

fn copy_bytes(s: &[u8], a: usize, b: usize) -> (r: Vec<u8>)
    requires
        a <= b <= s.len(),
    ensures
        r@ == s@.subrange(a as int, b as int),
{
    vstd::slice::slice_to_vec(vstd::slice::slice_subrange(s, a, b))
}

fn scan_quoted(s: &[u8], p: usize, q: u8) -> (r: Scan<Vec<u8>>)
    requires
        p <= s.len(),
    ensures
        r@ == spec_quoted(s@, p as int, q),
        r matches Scan::Done(e, _) ==> p < e <= s.len(),
{
    if p >= s.len() || s[p] != q {
        return Scan::Error;
    }
    let e = scan_byte_end(s, p + 1, q);
    if e >= s.len() || e == p + 1 {
        return Scan::Error;
    }
    let inner = vstd::slice::slice_subrange(s, p + 1, e);
    if str_from_utf8(inner).is_none() {
        return Scan::Abort;
    }
    let mut v: Vec<u8> = Vec::new();
    v.push(q);
    let mut k = p + 1;
    while k < e
        invariant
            p + 1 <= k <= e,
            e < s.len(),
            v@ == seq![q] + s@.subrange(p + 1, k as int),
        decreases e - k,
    {
        v.push(s[k]);
        k = k + 1;
        assert(v@ =~= seq![q] + s@.subrange(p + 1, k as int));
    }
    v.push(q);
    assert(v@ =~= seq![q] + s@.subrange(p + 1, e as int) + seq![q]);
    Scan::Done(e + 1, v)
}

fn scan_value(s: &[u8], p: usize) -> (r: Scan<Vec<u8>>)
    requires
        p <= s.len(),
    ensures
        r@ == spec_value(s@, p as int),
        r matches Scan::Done(e, _) ==> p < e <= s.len(),
{
    match scan_quoted(s, p, 34) {
        Scan::Done(e, v) => Scan::Done(e, v),
        Scan::Abort => Scan::Abort,
        _ => scan_quoted(s, p, 39),
    }
}

fn scan_op(s: &[u8], p: usize) -> (r: Option<(usize, Vec<u8>)>)
    requires
        p <= s.len(),
    ensures
        match r {
            Some((e, op)) => spec_op(s@, p as int) == Some((e as int, op@)) && p < e <= s.len(),
            None => spec_op(s@, p as int) is None,
        },
{
    if p < s.len() && p + 1 < s.len() && s[p] == 42 && s[p + 1] == 61 {
        let mut op: Vec<u8> = Vec::new();
        op.push(42);
        op.push(61);
        assert(op@ =~= seq![42u8, 61u8]);
        Some((p + 2, op))
    } else if p < s.len() && s[p] == 61 {
        let mut op: Vec<u8> = Vec::new();
        op.push(61);
        assert(op@ =~= seq![61u8]);
        Some((p + 1, op))
    } else {
        None
    }
}

fn scan_attribute(s: &[u8], i: usize) -> (r: Scan<SelectorPart>)
    requires
        i <= s.len(),
    ensures
        r@ == spec_attribute(s@, i as int),
        r matches Scan::Done(e, _) ==> i < e <= s.len(),
{
    if !(i < s.len() && s[i] == 91) {
        return Scan::Error;
    }
    let p1 = match scan_opt_space(s, i + 1) {
        Some(p) => p,
        None => {
            return Scan::Error;
        },
    };
    let e = scan_selector_end(s, p1);
    if p1 >= s.len() || e == p1 {
        return Scan::Error;
    }
    let p2 = match scan_opt_space(s, e) {
        Some(p) => p,
        None => {
            return Scan::Error;
        },
    };
    let (p3, op) = match scan_op(s, p2) {
        Some(x) => x,
        None => {
            return Scan::Error;
        },
    };
    let p4 = match scan_opt_space(s, p3) {
        Some(p) => p,
        None => {
            return Scan::Error;
        },
    };
    let (p5, val) = match scan_value(s, p4) {
        Scan::Done(p, v) => (p, v),
        Scan::Abort => {
            return Scan::Abort;
        },
        _ => {
            return Scan::Error;
        },
    };
    let p6 = match scan_opt_space(s, p5) {
        Some(p) => p,
        None => {
            return Scan::Error;
        },
    };
    if p6 < s.len() && s[p6] == 93 {
        let name = copy_bytes(s, p1, e);
        Scan::Done(p6 + 1, SelectorPart::Attribute { name, op, val })
    } else {
        Scan::Error
    }
}

fn scan_relop(s: &[u8], i: usize, c: u8) -> (r: Option<usize>)
    requires
        i <= s.len(),
    ensures
        match r {
            Some(e) => spec_relop(s@, i as int, c) == Some(e as int) && i < e <= s.len(),
            None => spec_relop(s@, i as int, c) is None,
        },
{
    if i >= s.len() {
        return None;
    }
    let p = scan_space_end(s, i);
    if p < s.len() && s[p] == c {
        scan_opt_space(s, p + 1)
    } else {
        None
    }
}

fn scan_part(s: &[u8], i: usize) -> (r: Scan<SelectorPart>)
    requires
        i <= s.len(),
    ensures
        r@ == spec_part(s@, i as int),
        r matches Scan::Done(e, _) ==> i < e <= s.len(),
{
    if i < s.len() && is_selector_char(s[i]) {
        let e = scan_selector_end(s, i + 1);
        assert(selector_end(s@, i as int) == selector_end(s@, i + 1));
        return Scan::Done(e, SelectorPart::Simple(copy_bytes(s, i, e)));
    }
    match scan_attribute(s, i) {
        Scan::Done(e, p) => {
            return Scan::Done(e, p);
        },
        Scan::Abort => {
            return Scan::Abort;
        },
        _ => {},
    }
    if i < s.len() && s[i] == 38 {
        return Scan::Done(i + 1, SelectorPart::BackRef);
    }
    if let Some(e) = scan_relop(s, i, 62) {
        return Scan::Done(e, SelectorPart::RelOp(62));
    }
    if let Some(e) = scan_relop(s, i, 43) {
        return Scan::Done(e, SelectorPart::RelOp(43));
    }
    if let Some(e) = scan_relop(s, i, 126) {
        return Scan::Done(e, SelectorPart::RelOp(126));
    }
    if i >= s.len() {
        return Scan::Incomplete;
    }
    let e = scan_space_end(s, i);
    if e == i {
        Scan::Error
    } else {
        Scan::Done(e, SelectorPart::Descendant)
    }
}

fn scan_parts(s: &[u8]) -> (r: Scan<Vec<SelectorPart>>)
    ensures
        match (r, spec_parts(s@)) {
            (Scan::Done(k, v), SpecScan::Done(k2, v2)) => k == k2 && parts_view(v@) == v2
                && k <= s.len(),
            (Scan::Error, SpecScan::Error) => true,
            (Scan::Incomplete, SpecScan::Incomplete) => true,
            (Scan::Abort, SpecScan::Abort) => true,
            _ => false,
        },
{
    let (first_end, first) = match scan_part(s, 0) {
        Scan::Done(e, p) => (e, p),
        Scan::Error => {
            return Scan::Error;
        },
        Scan::Incomplete => {
            return Scan::Incomplete;
        },
        Scan::Abort => {
            return Scan::Abort;
        },
    };
    let mut acc: Vec<SelectorPart> = Vec::new();
    acc.push(first);
    assert(parts_view(acc@) =~= seq![first@]);
    let mut i = first_end;
    loop
        invariant
            i <= s.len(),
            spec_parts(s@) == spec_more_parts(s@, i as int, parts_view(acc@)),
        decreases s.len() - i,
    {
        if i >= s.len() {
            return Scan::Done(i, acc);
        }
        match scan_part(s, i) {
            Scan::Done(j, p) => {
                let ghost before = acc@;
                acc.push(p);
                assert(parts_view(acc@) =~= parts_view(before).push(p@));
                i = j;
            },
            Scan::Error => {
                return Scan::Done(i, acc);
            },
            Scan::Incomplete => {
                return Scan::Incomplete;
            },
            Scan::Abort => {
                return Scan::Abort;
            },
        }
    }
}

/// The outcome of reading a selector: the rest of the input and the
/// selector, a mismatch, or an input that ended too early.
#[derive(Debug, PartialEq, Eq)]
pub enum ParseResult<'a, T> {
    Done(&'a [u8], T),
    Error,
    Incomplete,
}

/// `r` is what reading `s` gives where the grammar's outcome is `o`.
pub open spec fn selector_result_is(r: ParseResult<Selector>, s: Seq<u8>, o: SpecScan<Seq<PartView>>) -> bool {
    match o {
        SpecScan::Done(k, v) => r matches ParseResult::Done(rest, sel) && rest@ == s.skip(k) && sel@ == v,
        SpecScan::Error => r is Error,
        SpecScan::Incomplete => r is Incomplete,
        SpecScan::Abort => false,
    }
}

fn read_selector(input: &[u8]) -> (r: Option<ParseResult<Selector>>)
    ensures
        r is None <==> spec_selector(input@) is Abort,
        r matches Some(x) ==> selector_result_is(x, input@, spec_selector(input@)),
{
    match scan_parts(input) {
        Scan::Done(k, v) => {
            let mut v = v;
            let n = v.len();
            if n > 0 && matches!(v[n - 1], SelectorPart::Descendant) {
                let ghost before = v@;
                v.pop();
                assert(parts_view(v@) =~= parts_view(before).drop_last());
            }
            let rest = vstd::slice::slice_subrange(input, k, input.len());
            Some(ParseResult::Done(rest, Selector(v)))
        },
        Scan::Error => Some(ParseResult::Error),
        Scan::Incomplete => Some(ParseResult::Incomplete),
        Scan::Abort => None,
    }
}

/// Reads a selector from the start of `input`, as the grammar of this
/// module states. Reading is refused where a quoted attribute value is not
/// UTF-8, so such an input is left out.
pub fn selector(input: &[u8]) -> (r: ParseResult<Selector>)
    requires
        !(spec_selector(input@) is Abort),
    ensures
        selector_result_is(r, input@, spec_selector(input@)),
{
    match read_selector(input) {
        Some(r) => r,
        None => ParseResult::Error,
    }
}

/// Reads a selector as [`selector`] does; `None` exactly where a quoted
/// attribute value is not UTF-8.
pub fn checked_selector(input: &[u8]) -> (r: Option<ParseResult<Selector>>)
    ensures
        r is None <==> spec_selector(input@) is Abort,
        r matches Some(x) ==> selector_result_is(x, input@, spec_selector(input@)),
{
    read_selector(input)
}

/// The bytes of a simple selector are exactly the ASCII letters, the
/// digits, `_`, `.` and `#`.
pub proof fn lemma_selector_bytes(b: u8)
    ensures
        is_selector_byte(b) <==> ((48 <= b <= 57) || (65 <= b <= 90) || (97 <= b <= 122) || b == 95
            || b == 46 || b == 35),
{
}

/// A byte that can be part of a simple selector word.
pub open spec fn is_word_byte(b: u8) -> bool {
    (48 <= b <= 57) || (65 <= b <= 90) || (97 <= b <= 122) || b == 95 || b == 46 || b == 35
}

/// A run of word bytes from `i` to `e` ends at `e` where `e` holds no word
/// byte or is the end.
proof fn lemma_selector_end_of_word(s: Seq<u8>, i: int, e: int)
    requires
        0 <= i <= e <= s.len(),
        forall|t: int| i <= t < e ==> is_word_byte(#[trigger] s[t]),
        e == s.len() || !is_word_byte(s[e]),
    ensures
        selector_end(s, i) == e,
    decreases e - i,
{
    lemma_selector_bytes(if i < s.len() { s[i] } else { 0 });
    if i < e {
        lemma_selector_end_of_word(s, i + 1, e);
    }
}

/// A word of letters, digits, `_`, `.` and `#`, at the end of the input or
/// before `{`, is read as one simple selector part, and reading stops at
/// its end.
pub proof fn lemma_word_is_one_simple_part(w: Seq<u8>, tail: Seq<u8>)
    requires
        w.len() > 0,
        forall|t: int| 0 <= t < w.len() ==> is_word_byte(#[trigger] w[t]),
        tail.len() == 0 || tail[0] == 123,
    ensures
        spec_selector(w + tail) == SpecScan::Done(w.len() as int, seq![PartView::Simple(w)]),
{
    let s = w + tail;
    let n = w.len() as int;
    assert forall|t: int| 0 <= t < n implies is_word_byte(#[trigger] s[t]) by {
        assert(s[t] == w[t]);
    }
    lemma_selector_end_of_word(s, 0, n);
    lemma_selector_bytes(s[0]);
    assert(s.subrange(0, n) =~= w);
    if tail.len() > 0 {
        assert(s[n] == 123);
        lemma_selector_bytes(s[n]);
        assert(space_end(s, n) == n);
        assert(spec_relop(s, n, 62) is None);
        assert(spec_relop(s, n, 43) is None);
        assert(spec_relop(s, n, 126) is None);
        assert(spec_part(s, n) is Error);
    }
    assert(spec_parts(s) == SpecScan::Done(n, seq![PartView::Simple(w)]));
}

/// Two words with one space between them, at the end of the input or
/// before `{`, are read as a descendant selector: the first word, the
/// descendant combinator, the second word.
pub proof fn lemma_space_is_descendant(w1: Seq<u8>, w2: Seq<u8>, tail: Seq<u8>)
    requires
        w1.len() > 0,
        w2.len() > 0,
        forall|t: int| 0 <= t < w1.len() ==> is_word_byte(#[trigger] w1[t]),
        forall|t: int| 0 <= t < w2.len() ==> is_word_byte(#[trigger] w2[t]),
        tail.len() == 0 || tail[0] == 123,
    ensures
        spec_selector(w1 + seq![32u8] + w2 + tail) == SpecScan::Done(
            (w1.len() + 1 + w2.len()) as int,
            seq![PartView::Simple(w1), PartView::Descendant, PartView::Simple(w2)],
        ),
{
    let s = w1 + seq![32u8] + w2 + tail;
    let n1 = w1.len() as int;
    let m = n1 + 1;
    let n = m + w2.len();
    assert forall|t: int| 0 <= t < n1 implies is_word_byte(#[trigger] s[t]) by {
        assert(s[t] == w1[t]);
    }
    assert forall|t: int| m <= t < n implies is_word_byte(#[trigger] s[t]) by {
        assert(s[t] == w2[t - m]);
    }
    assert(s[n1] == 32u8);
    lemma_selector_end_of_word(s, 0, n1);
    lemma_selector_bytes(s[0]);
    assert(s.subrange(0, n1) =~= w1);
    // the space
    lemma_selector_bytes(s[n1]);
    lemma_selector_bytes(s[m]);
    assert(space_end(s, m) == m);
    assert(space_end(s, n1) == m);
    assert(spec_relop(s, n1, 62) is None);
    assert(spec_relop(s, n1, 43) is None);
    assert(spec_relop(s, n1, 126) is None);
    assert(spec_part(s, n1) == SpecScan::Done(m, PartView::Descendant));
    // the second word
    if tail.len() > 0 {
        assert(s[n] == tail[0]);
    }
    lemma_selector_end_of_word(s, m, n);
    assert(s.subrange(m, n) =~= w2);
    assert(spec_part(s, m) == SpecScan::Done(n, PartView::Simple(w2)));
    if tail.len() > 0 {
        assert(s[n] == 123);
        lemma_selector_bytes(s[n]);
        assert(space_end(s, n) == n);
        assert(spec_relop(s, n, 62) is None);
        assert(spec_relop(s, n, 43) is None);
        assert(spec_relop(s, n, 126) is None);
        assert(spec_part(s, n) is Error);
    }
    assert(spec_more_parts(s, n, seq![PartView::Simple(w1), PartView::Descendant, PartView::Simple(w2)])
        == SpecScan::Done(n, seq![PartView::Simple(w1), PartView::Descendant, PartView::Simple(w2)]));
    assert(seq![PartView::Simple(w1)].push(PartView::Descendant).push(PartView::Simple(w2)) =~= seq![
        PartView::Simple(w1),
        PartView::Descendant,
        PartView::Simple(w2),
    ]);
    let a1 = seq![PartView::Simple(w1)];
    let a2 = a1.push(PartView::Descendant);
    let a3 = a2.push(PartView::Simple(w2));
    assert(spec_more_parts(s, m, a2) == spec_more_parts(s, n, a3));
    assert(spec_more_parts(s, n1, a1) == spec_more_parts(s, m, a2));
    assert(spec_part(s, 0) == SpecScan::Done(n1, PartView::Simple(w1)));
    assert(spec_parts(s) == spec_more_parts(s, n1, a1));
}

} // verus!
