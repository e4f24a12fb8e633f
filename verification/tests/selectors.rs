use rsass::selectors::parse::{checked_selector, selector, ParseResult};
use rsass::selectors::{Selector, SelectorPart};

#[test]
fn simple_selector() {
    assert_eq!(
        selector(b"foo "),
        ParseResult::Done(&b""[..], Selector(vec![SelectorPart::Simple(b"foo"[..].into())]))
    )
}

#[test]
fn selector2() {
    assert_eq!(
        selector(b"foo bar "),
        ParseResult::Done(
            &b""[..],
            Selector(vec![
                SelectorPart::Simple(b"foo"[..].into()),
                SelectorPart::Descendant,
                SelectorPart::Simple(b"bar"[..].into())
            ])
        )
    )
}

#[test]
fn child_selector() {
    assert_eq!(
        selector(b"foo > bar "),
        ParseResult::Done(
            &b""[..],
            Selector(vec![
                SelectorPart::Simple(b"foo"[..].into()),
                SelectorPart::RelOp(b'>'),
                SelectorPart::Simple(b"bar"[..].into())
            ])
        )
    )
}

fn simple(s: &str) -> SelectorPart {
    SelectorPart::Simple(s.as_bytes().to_vec())
}

#[test]
fn selector_on_empty_input_is_incomplete() {
    assert_eq!(selector(b""), ParseResult::Incomplete);
    assert_eq!(
        selector(b"foo"),
        ParseResult::Done(&b""[..], Selector(vec![simple("foo")]))
    );
}

#[test]
fn selector_mismatch_is_error() {
    assert_eq!(selector(b"{ x"), ParseResult::Error);
    assert_eq!(selector(b"[a"), ParseResult::Error);
}

#[test]
fn selector_stops_at_brace() {
    assert_eq!(
        selector(b"a.b#c {"),
        ParseResult::Done(&b"{"[..], Selector(vec![simple("a.b#c")]))
    );
}

#[test]
fn selector_attribute_and_backref() {
    assert_eq!(
        selector(b"&[href *= \"x y\"]+ p {"),
        ParseResult::Done(
            &b"{"[..],
            Selector(vec![
                SelectorPart::BackRef,
                SelectorPart::Attribute {
                    name: b"href".to_vec(),
                    op: b"*=".to_vec(),
                    val: b"\"x y\"".to_vec(),
                },
                SelectorPart::RelOp(b'+'),
                simple("p"),
            ])
        )
    );
    assert_eq!(
        selector(b"[a='b'] "),
        ParseResult::Done(
            &b""[..],
            Selector(vec![SelectorPart::Attribute {
                name: b"a".to_vec(),
                op: b"=".to_vec(),
                val: b"'b'".to_vec(),
            }])
        )
    );
}

#[test]
fn selector_comments_are_space() {
    assert_eq!(
        selector(b"a /* c */ b ~ c // x\n{"),
        ParseResult::Done(
            &b"{"[..],
            Selector(vec![
                simple("a"),
                SelectorPart::Descendant,
                simple("b"),
                SelectorPart::RelOp(b'~'),
                simple("c"),
            ])
        )
    );
}

#[test]
fn selector_invalid_utf8_value_is_refused() {
    assert_eq!(checked_selector(b"[a=\"\xff\"] "), None);
    assert_eq!(
        checked_selector(b"x "),
        Some(ParseResult::Done(&b""[..], Selector(vec![simple("x")])))
    );
}

#[test]
fn join_without_backref() {
    let parent = Selector(vec![simple("a")]);
    let child = Selector(vec![simple("b")]);
    assert_eq!(
        parent.join(&child),
        Selector(vec![simple("a"), SelectorPart::Descendant, simple("b")])
    );
    let child = Selector(vec![SelectorPart::RelOp(b'>'), simple("b")]);
    assert_eq!(
        parent.join(&child),
        Selector(vec![simple("a"), SelectorPart::RelOp(b'>'), simple("b")])
    );
    assert_eq!(
        parent.join(&Selector(vec![])),
        Selector(vec![simple("a"), SelectorPart::Descendant])
    );
}

#[test]
fn join_replaces_first_backref() {
    let parent = Selector(vec![simple("a"), SelectorPart::Descendant, simple("b")]);
    let child = Selector(vec![
        simple("x"),
        SelectorPart::Descendant,
        SelectorPart::BackRef,
        simple(":hover"),
        SelectorPart::BackRef,
    ]);
    assert_eq!(
        parent.join(&child),
        Selector(vec![
            simple("x"),
            SelectorPart::Descendant,
            simple("a"),
            SelectorPart::Descendant,
            simple("b"),
            simple(":hover"),
            SelectorPart::BackRef,
        ])
    );
}

#[test]
fn is_operator_of_parts() {
    assert!(SelectorPart::Descendant.is_operator());
    assert!(SelectorPart::RelOp(b'~').is_operator());
    assert!(!SelectorPart::BackRef.is_operator());
    assert!(!simple("a").is_operator());
}

#[test]
fn selector_text() {
    let sel = Selector(vec![
        simple("a"),
        SelectorPart::RelOp(b'>'),
        SelectorPart::Attribute { name: b"n".to_vec(), op: b"=".to_vec(), val: b"'v'".to_vec() },
        SelectorPart::Descendant,
        SelectorPart::BackRef,
    ]);
    assert_eq!(sel.to_string(), "a > [n='v'] &");
}

#[test]
fn selector_drops_one_trailing_space() {
    assert_eq!(
        selector(b"a   /* c */  "),
        ParseResult::Done(&b""[..], Selector(vec![simple("a")]))
    );
    assert_eq!(
        selector(b"a >"),
        ParseResult::Done(&b">"[..], Selector(vec![simple("a")]))
    );
}
