//! CSS selectors: their parts, the parser that reads them from bytes,
//! joining a nested selector onto its parent, and rendering.

use vstd::prelude::*;
use vstd::utf8::{decode_utf8, valid_utf8};

use crate::text::{push_char, str_from_utf8};

pub mod parse;

verus! {

/// One part of a selector.
#[derive(Debug, PartialEq, Eq)]
pub enum SelectorPart {
    /// A run of selector characters, such as `foo`, `.bar` or `#baz`.
    Simple(Vec<u8>),
    /// Whitespace between two compound selectors.
    Descendant,
    /// A relational operator: `>`, `+` or `~`.
    RelOp(u8),
    /// An attribute test, such as `[href*="x"]`.
    Attribute { name: Vec<u8>, op: Vec<u8>, val: Vec<u8> },
    /// The parent reference `&`.
    BackRef,
}

/// The mathematical value of a [`SelectorPart`]: the same shape, with
/// byte strings as sequences.
pub enum PartView {
    Simple(Seq<u8>),
    Descendant,
    RelOp(u8),
    Attribute { name: Seq<u8>, op: Seq<u8>, val: Seq<u8> },
    BackRef,
}

impl PartView {
    /// Descendant and relational combinators are operators; the rest are not.
    pub open spec fn is_operator(self) -> bool {
        self is Descendant || self is RelOp
    }
}

impl View for SelectorPart {
    type V = PartView;

    open spec fn view(&self) -> PartView {
        match self {
            SelectorPart::Simple(s) => PartView::Simple(s@),
            SelectorPart::Descendant => PartView::Descendant,
            SelectorPart::RelOp(c) => PartView::RelOp(*c),
            SelectorPart::Attribute { name, op, val } => PartView::Attribute {
                name: name@,
                op: op@,
                val: val@,
            },
            SelectorPart::BackRef => PartView::BackRef,
        }
    }
}

fn clone_bytes(v: &Vec<u8>) -> (r: Vec<u8>)
    ensures
        r@ == v@,
{
    let mut r: Vec<u8> = Vec::new();
    let mut i: usize = 0;
    while i < v.len()
        invariant
            i <= v.len(),
            r@ == v@.take(i as int),
        decreases v.len() - i,
    {
        r.push(v[i]);
        i = i + 1;
        assert(r@ =~= v@.take(i as int));
    }
    assert(v@.take(v.len() as int) =~= v@);
    r
}

impl Clone for SelectorPart {
    fn clone(&self) -> (r: Self)
        ensures
            r@ == self@,
    {
        match self {
            SelectorPart::Simple(s) => SelectorPart::Simple(clone_bytes(s)),
            SelectorPart::Descendant => SelectorPart::Descendant,
            SelectorPart::RelOp(c) => SelectorPart::RelOp(*c),
            SelectorPart::Attribute { name, op, val } => SelectorPart::Attribute {
                name: clone_bytes(name),
                op: clone_bytes(op),
                val: clone_bytes(val),
            },
            SelectorPart::BackRef => SelectorPart::BackRef,
        }
    }
}

impl SelectorPart {
    /// True for the combinators: descendant whitespace and `>`, `+`, `~`.
    pub fn is_operator(&self) -> (r: bool)
        ensures
            r == self@.is_operator(),
    {
        match self {
            SelectorPart::Simple(_) => false,
            SelectorPart::Descendant => true,
            SelectorPart::RelOp(_) => true,
            SelectorPart::Attribute { .. } => false,
            SelectorPart::BackRef => false,
        }
    }

    fn is_backref(&self) -> (r: bool)
        ensures
            r == (self@ is BackRef),
    {
        match self {
            SelectorPart::BackRef => true,
            _ => false,
        }
    }
}

/// A selector: a sequence of parts.
#[derive(Clone, Debug, PartialEq, Eq)]
pub struct Selector(pub Vec<SelectorPart>);

/// The views of a sequence of parts.
pub open spec fn parts_view(v: Seq<SelectorPart>) -> Seq<PartView> {
    v.map_values(|p: SelectorPart| p@)
}

impl View for Selector {
    type V = Seq<PartView>;

    open spec fn view(&self) -> Seq<PartView> {
        parts_view(self.0@)
    }
}

/// `k` is the position of the first parent reference `&` in `s`.
pub open spec fn first_backref_at(s: Seq<PartView>, k: int) -> bool {
    &&& 0 <= k < s.len()
    &&& s[k] is BackRef
    &&& forall|j: int| 0 <= j < k ==> !(#[trigger] s[j] is BackRef)
}

/// `s` holds no parent reference `&`.
pub open spec fn no_backref(s: Seq<PartView>) -> bool {
    forall|j: int| 0 <= j < s.len() ==> !(#[trigger] s[j] is BackRef)
}

/// The parts of `child` nested in `parent`: the first `&` of the child is
/// replaced by the parent; a child without `&` follows the parent, after
/// a descendant combinator unless the child starts with an operator.
pub open spec fn spec_join(parent: Seq<PartView>, child: Seq<PartView>) -> Seq<PartView> {
    if exists|k: int| first_backref_at(child, k) {
        let k = choose|k: int| first_backref_at(child, k);
        child.take(k) + parent + child.skip(k + 1)
    } else if child.len() > 0 && child[0].is_operator() {
        parent + child
    } else {
        parent + seq![PartView::Descendant] + child
    }
}

fn extend_parts(result: &mut Vec<SelectorPart>, src: &Vec<SelectorPart>, from: usize)
    requires
        from <= src.len(),
    ensures
        parts_view(final(result)@) == parts_view(old(result)@) + parts_view(src@).skip(from as int),
{
    let ghost start = parts_view(result@);
    let mut i: usize = from;
    while i < src.len()
        invariant
            from <= i <= src.len(),
            parts_view(result@) == start + parts_view(src@).subrange(from as int, i as int),
        decreases src.len() - i,
    {
        let p = src[i].clone();
        let ghost before = result@;
        result.push(p);
        assert(parts_view(result@) =~= parts_view(before) + seq![p@]);
        i = i + 1;
        assert(parts_view(src@).subrange(from as int, i as int) =~= parts_view(src@).subrange(
            from as int,
            (i - 1) as int,
        ) + seq![src@[i - 1]@]);
    }
    assert(parts_view(src@).subrange(from as int, src.len() as int) =~= parts_view(src@).skip(
        from as int,
    ));
}

impl Selector {
    /// Nests `other` in `self`, as [`spec_join`] states.
    pub fn join(&self, other: &Selector) -> (r: Selector)
        ensures
            r@ == spec_join(self@, other@),
    {
        let ghost ov = other@;
        let n = other.0.len();
        let mut k: usize = 0;
        while k < n && !other.0[k].is_backref()
            invariant
                k <= n,
                n == other.0.len(),
                ov == other@,
                forall|j: int| 0 <= j < k ==> !(#[trigger] ov[j] is BackRef),
            decreases n - k,
        {
            k = k + 1;
        }
        if k < n {
            assert(first_backref_at(ov, k as int));
            assert forall|k2: int| first_backref_at(ov, k2) implies k2 == k by {
                if k2 < k {
                    assert(!(ov[k2] is BackRef));
                } else if k2 > k {
                    assert(!(ov[k as int] is BackRef));
                }
            }
            let mut result: Vec<SelectorPart> = Vec::new();
            let mut i: usize = 0;
            while i < k
                invariant
                    i <= k < n,
                    n == other.0.len(),
                    parts_view(result@) == parts_view(other.0@).take(i as int),
                decreases k - i,
            {
                let p = other.0[i].clone();
                let ghost before = result@;
                result.push(p);
                assert(parts_view(result@) =~= parts_view(before) + seq![p@]);
                i = i + 1;
                assert(parts_view(other.0@).take(i as int) =~= parts_view(other.0@).take(
                    (i - 1) as int,
                ) + seq![other.0@[i - 1]@]);
            }
            extend_parts(&mut result, &self.0, 0);
            extend_parts(&mut result, &other.0, k + 1);
            assert(parts_view(self.0@).skip(0) =~= parts_view(self.0@));
            Selector(result)
        } else {
            assert(!exists|k2: int| first_backref_at(ov, k2));
            let mut result: Vec<SelectorPart> = Vec::new();
            extend_parts(&mut result, &self.0, 0);
            assert(parts_view(self.0@).skip(0) =~= parts_view(self.0@));
            assert(parts_view(result@) =~= self@);
            let starts_with_operator = if n > 0 {
                other.0[0].is_operator()
            } else {
                false
            };
            if !starts_with_operator {
                result.push(SelectorPart::Descendant);
                assert(parts_view(result@) =~= self@ + seq![PartView::Descendant]);
            }
            extend_parts(&mut result, &other.0, 0);
            assert(parts_view(other.0@).skip(0) =~= parts_view(other.0@));
            Selector(result)
        }
    }
}


/// The byte strings of a part are UTF-8, so that it can be written as text.
pub open spec fn part_is_utf8(p: PartView) -> bool {
    match p {
        PartView::Simple(s) => valid_utf8(s),
        PartView::Attribute { name, op, val } => valid_utf8(name) && valid_utf8(op) && valid_utf8(
            val,
        ),
        _ => true,
    }
}

/// The CSS text of a part.
pub open spec fn part_text(p: PartView) -> Seq<char> {
    match p {
        PartView::Simple(s) => decode_utf8(s),
        PartView::Descendant => seq![' '],
        PartView::RelOp(c) => seq![' ', c as char, ' '],
        PartView::Attribute { name, op, val } => seq!['['] + decode_utf8(name) + decode_utf8(op)
            + decode_utf8(val) + seq![']'],
        PartView::BackRef => seq!['&'],
    }
}

/// The CSS text of a selector: the texts of its parts, one after another.
pub open spec fn selector_text(v: Seq<PartView>) -> Seq<char>
    decreases v.len(),
{
    if v.len() == 0 {
        seq![]
    } else {
        selector_text(v.drop_last()) + part_text(v.last())
    }
}

fn append_utf8(out: &mut String, bytes: &Vec<u8>)
    requires
        valid_utf8(bytes@),
    ensures
        final(out)@ == old(out)@ + decode_utf8(bytes@),
{
    match str_from_utf8(bytes.as_slice()) {
        Some(s) => out.append(s),
        None => {},
    }
}

impl SelectorPart {
    /// Appends the CSS text of this part to `out`.
    pub fn write_to(&self, out: &mut String)
        requires
            part_is_utf8(self@),
        ensures
            final(out)@ == old(out)@ + part_text(self@),
    {
        match self {
            SelectorPart::Simple(s) => {
                append_utf8(out, s);
            },
            SelectorPart::Descendant => {
                push_char(out, ' ');
                assert(out@ =~= old(out)@ + seq![' ']);
            },
            SelectorPart::RelOp(c) => {
                push_char(out, ' ');
                push_char(out, *c as char);
                push_char(out, ' ');
                assert(out@ =~= old(out)@ + seq![' ', *c as char, ' ']);
            },
            SelectorPart::Attribute { name, op, val } => {
                push_char(out, '[');
                append_utf8(out, name);
                append_utf8(out, op);
                append_utf8(out, val);
                push_char(out, ']');
                assert(out@ =~= old(out)@ + (seq!['['] + decode_utf8(name@) + decode_utf8(op@)
                    + decode_utf8(val@) + seq![']']));
            },
            SelectorPart::BackRef => {
                push_char(out, '&');
                assert(out@ =~= old(out)@ + seq!['&']);
            },
        }
    }

    /// The CSS text of this part.
    pub fn to_string(&self) -> (r: String)
        requires
            part_is_utf8(self@),
        ensures
            r@ == part_text(self@),
    {
        let mut out = String::new();
        self.write_to(&mut out);
        assert(out@ =~= part_text(self@));
        out
    }
}

impl Selector {
    /// The CSS text of this selector.
    pub fn to_string(&self) -> (r: String)
        requires
            forall|i: int| 0 <= i < self@.len() ==> part_is_utf8(#[trigger] self@[i]),
        ensures
            r@ == selector_text(self@),
    {
        let mut out = String::new();
        let mut i: usize = 0;
        while i < self.0.len()
            invariant
                i <= self.0.len(),
                forall|j: int| 0 <= j < self@.len() ==> part_is_utf8(#[trigger] self@[j]),
                out@ == selector_text(self@.take(i as int)),
            decreases self.0.len() - i,
        {
            assert(self@[i as int] == self.0@[i as int]@);
            self.0[i].write_to(&mut out);
            assert(self@.take(i + 1).drop_last() =~= self@.take(i as int));
            i = i + 1;
        }
        assert(self@.take(self.0.len() as int) =~= self@);
        out
    }
}

/// Nesting puts the parent exactly in the place of the first `&` of the
/// child, and inserts nothing: a child `a & b`, where `a` has no `&`,
/// nested in `parent` gives `a parent b`.
pub proof fn lemma_join_replaces_first_backref(
    parent: Seq<PartView>,
    a: Seq<PartView>,
    b: Seq<PartView>,
)
    requires
        no_backref(a),
    ensures
        spec_join(parent, a + seq![PartView::BackRef] + b) == a + parent + b,
{
    let child = a + seq![PartView::BackRef] + b;
    let k = a.len() as int;
    assert(child[k] is BackRef);
    assert forall|j: int| 0 <= j < k implies !(#[trigger] child[j] is BackRef) by {
        assert(child[j] == a[j]);
    }
    assert(first_backref_at(child, k));
    let k2 = choose|k2: int| first_backref_at(child, k2);
    if k2 < k {
        assert(child[k2] == a[k2]);
    } else if k2 > k {
        assert(!(child[k] is BackRef));
    }
    assert(child.take(k) =~= a);
    assert(child.skip(k + 1) =~= b);
}

/// A child without `&` follows the parent: directly where it starts with a
/// combinator, else after a descendant combinator.
pub proof fn lemma_join_without_backref(parent: Seq<PartView>, child: Seq<PartView>)
    requires
        no_backref(child),
    ensures
        spec_join(parent, child) == if child.len() > 0 && (child[0] is Descendant
            || child[0] is RelOp) {
            parent + child
        } else {
            parent + seq![PartView::Descendant] + child
        },
{
    assert(!exists|k: int| first_backref_at(child, k));
}

} // verus!
