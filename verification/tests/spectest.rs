use rsass::spectest::{
    case_source, entry_action, fn_name, fn_name_of_lowered, is_ignored, load_options,
    options_precision, sub_ignored, test_source, EntryAction,
};

#[test]
fn test_function_names() {
    assert_eq!(fn_name("14_imports"), "t14_imports");
    assert_eq!(fn_name("if"), "test_if");
    assert_eq!(fn_name("while"), "test_while");
    assert_eq!(fn_name("a.b-c"), "a_b_c");
    assert_eq!(fn_name("Sa\u{301}ss-UT\u{327}F8"), "sass_utf8");
    assert_eq!(fn_name("Colors"), "colors");
    assert_eq!(fn_name(""), "t");
}

#[test]
fn ignored_cases() {
    let ignored = vec![
        "at-root/ampersand".to_string(),
        "at-root/extend".to_string(),
        "bourbon".to_string(),
        "at-rootx/y".to_string(),
    ];
    assert!(is_ignored(&ignored, "bourbon"));
    assert!(!is_ignored(&ignored, "at-root"));
    assert_eq!(
        sub_ignored(&ignored, "at-root"),
        vec!["ampersand".to_string(), "extend".to_string()]
    );
    assert_eq!(sub_ignored(&ignored, "calc"), Vec::<String>::new());
}

#[test]
fn short_test_source() {
    assert_eq!(
        test_source("\"d\"", "t1", None, "\"a\"", "\"b\""),
        "\n/// From \"d\"\n#[test]\nfn t1() {\n    assert_eq!(rsass(\"a\").unwrap(), \"b\");\n}\n"
    );
}

#[test]
fn test_source_with_precision_and_longer_input() {
    let input = format!("\"{}\"", "x".repeat(50));
    let expected = "\"y\"";
    assert_eq!(
        test_source("p", "t2", Some(-12), &input, expected),
        format!(
            "\n/// From p\n#[test]\nfn t2() {{\n    set_precision(-12);\n    assert_eq!(\n        rsass({}).unwrap(),\n        {}\n    );\n}}\n",
            input, expected
        )
    );
    let input = format!("\"{}\"", "x".repeat(56));
    assert_eq!(
        test_source("p", "t3", None, &input, expected),
        format!(
            "\n/// From p\n#[test]\nfn t3() {{\n    assert_eq!(\n        rsass({})\n            .unwrap(),\n        {}\n    );\n}}\n",
            input, expected
        )
    );
    let input = format!("\"{}\"", "x".repeat(70));
    assert_eq!(
        test_source("p", "t4", None, &input, expected),
        format!(
            "\n/// From p\n#[test]\nfn t4() {{\n    assert_eq!(\n        rsass(\n            {}\n        ).unwrap(),\n        {}\n    );\n}}\n",
            input, expected
        )
    );
}

#[test]
fn names_from_lowered_text() {
    assert_eq!(fn_name_of_lowered("foo-bar.baz"), "foo_bar_baz");
    assert_eq!(fn_name_of_lowered("2x"), "t2x");
    assert_eq!(fn_name_of_lowered("for"), "test_for");
    assert_eq!(fn_name("foo-bar"), "foo_bar");
}

#[test]
fn options_give_the_precision_of_the_first_document() {
    assert_eq!(load_options(":precision: 3\n"), Some(3));
    assert_eq!(load_options("other: 1\n"), None);
    assert_eq!(load_options("[unclosed"), None);
    assert_eq!(load_options(""), None);
    assert_eq!(options_precision(Some(vec![Some(7), Some(2)])), Some(7));
    assert_eq!(options_precision(None), None);
}

#[test]
fn case_source_quotes_its_texts() {
    let text = case_source("spec/basic/t1", "t1", None, "a{b:c}", "a {\n  b: c;\n}\n");
    assert_eq!(
        text,
        "\n/// From \"spec/basic/t1\"\n#[test]\nfn t1() {\n    assert_eq!(rsass(\"a{b:c}\").unwrap(), \"a {\\n  b: c;\\n}\\n\");\n}\n"
    );
}

#[test]
fn entry_actions() {
    let ignored = vec!["skip-me".to_string()];
    assert_eq!(entry_action("a", false, false, true, &ignored), EntryAction::Skip);
    assert_eq!(entry_action("skip-me", true, true, true, &ignored), EntryAction::ExpectsError);
    assert_eq!(entry_action("skip-me", true, false, true, &ignored), EntryAction::Ignored);
    assert_eq!(entry_action("case", true, false, true, &ignored), EntryAction::Test);
    assert_eq!(entry_action("dir", true, false, false, &ignored), EntryAction::Module);
}

#[test]
fn test_names_are_plain_identifiers() {
    for name in ["a\u{7f}", "Ünïcödé-Name", "9lives", "static", "x.y"] {
        let f = fn_name(name);
        assert!(!f.is_empty());
        assert!(f.chars().all(|c| c.is_ascii() && c != '-' && c != '.' && !c.is_ascii_uppercase()));
        assert!(!f.starts_with(|c: char| c.is_ascii_digit()));
    }
    assert_eq!(fn_name("a\u{7f}"), "a");
}
