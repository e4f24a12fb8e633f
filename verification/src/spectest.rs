//! The logic of the converter from sass-spec test cases to Rust tests:
//! test names, the test cases to leave out, and the text of a test.

use vstd::prelude::*;

use crate::functions::strings::{lowercase, to_lowercase};
use crate::text::{decimal_text, push_char, push_decimal};
use vstd::utf8::encode_utf8;

verus! {

/// What `deunicode::deunicode` makes of a string.
pub uninterp spec fn deunicoded(s: Seq<char>) -> Seq<char>;

/// What `char::is_numeric` says of a character.
pub uninterp spec fn numeric_char(c: char) -> bool;

/// Every character of `s` is ASCII.
pub open spec fn all_ascii(s: Seq<char>) -> bool {
    forall|i: int| 0 <= i < s.len() ==> (#[trigger] s[i] as u32) < 128
}

/// Every character of `s` is below DEL (0x7F).
pub open spec fn below_del(s: Seq<char>) -> bool {
    forall|i: int| 0 <= i < s.len() ==> (#[trigger] s[i] as u32) < 127
}

/// `deunicode::deunicode`: an ASCII transliteration, named by
/// [`deunicoded`]. Every character of the result is ASCII; text whose
/// characters are all below DEL is returned as it is (the function's
/// first step keeps the longest such prefix, and here that is all).
#[verifier::external_body]
fn ascii_transliteration(s: &str) -> (r: String)
    ensures
        r@ == deunicoded(s@),
        all_ascii(r@),
        below_del(s@) ==> r@ == s@,
{
    deunicode::deunicode(s)
}

/// `char::is_numeric`, named by [`numeric_char`]; among ASCII characters
/// only the digits are numeric.
#[verifier::external_body]
fn is_numeric(c: char) -> (r: bool)
    ensures
        r == numeric_char(c),
        (c as u32) < 128 ==> (r <==> '0' <= c <= '9'),
{
    c.is_numeric()
}

/// What `yaml_rust::YamlLoader::load_from_str` finds in a text, each
/// document taken by the integer under the key `key`: `None` where the
/// text is not YAML.
pub uninterp spec fn yaml_int_values(text: Seq<char>, key: Seq<char>) -> Option<Seq<Option<i64>>>;

/// `yaml_rust::YamlLoader::load_from_str`, then `doc[key].as_i64()` of each
/// document, in order; named by [`yaml_int_values`].
#[verifier::external_body]
fn yaml_int_values_of(text: &str, key: &str) -> (r: Option<Vec<Option<i64>>>)
    ensures
        r is None <==> yaml_int_values(text@, key@) is None,
        r matches Some(v) ==> yaml_int_values(text@, key@) == Some(v@),
{
    match yaml_rust::YamlLoader::load_from_str(text) {
        Ok(docs) => Some(docs.iter().map(|d| d[key].as_i64()).collect()),
        Err(_) => None,
    }
}

/// The key of the precision among the options of a test case.
pub open spec fn precision_key() -> Seq<char> {
    ":precision"@
}

/// The precision that the options of a test case set: that of the first
/// document, where the options parsed. There must be a document.
pub fn options_precision(docs: Option<Vec<Option<i64>>>) -> (r: Option<i64>)
    requires
        docs matches Some(v) ==> v@.len() > 0,
    ensures
        r == match docs {
            Some(v) => v@[0],
            None => None,
        },
{
    match docs {
        Some(v) => v[0],
        None => None,
    }
}

/// The precision that the options text `text` (an `options.yml`) sets, as
/// [`options_precision`] gives it; `None` also where the text holds no
/// document at all.
pub fn load_options(text: &str) -> (r: Option<i64>)
    ensures
        r == match yaml_int_values(text@, precision_key()) {
            Some(v) => if v.len() > 0 {
                v[0]
            } else {
                None
            },
            None => None,
        },
{
    let key = ":precision";
    proof {
        reveal_strlit(":precision");
    }
    let docs = yaml_int_values_of(text, key);
    match &docs {
        Some(v) => {
            if v.len() == 0 {
                return None;
            }
        },
        None => {},
    }
    options_precision(docs)
}

/// `-` and `.` become `_`.
pub open spec fn underscored(s: Seq<char>) -> Seq<char> {
    s.map_values(|c: char| if c == '-' || c == '.' { '_' } else { c })
}

/// The name of the test function for a test case: transliterated to
/// ASCII, in lower case, with `-` and `.` as `_`; prefixed with `t` where
/// it starts with a numeric character (or is empty), and with `test_`
/// where it is a Rust keyword of the cases that occur.
pub open spec fn spec_fn_name(name: Seq<char>) -> Seq<char> {
    name_of_lowered(lowercase(deunicoded(name)))
}

/// The Rust keywords among the names of test cases.
pub open spec fn is_keyword(t: Seq<char>) -> bool {
    t == "else"@ || t == "for"@ || t == "if"@ || t == "static"@ || t == "while"@
}

/// ASCII text without upper-case letters.
pub open spec fn plain_lower(s: Seq<char>) -> bool {
    &&& all_ascii(s)
    &&& forall|i: int| 0 <= i < s.len() ==> !('A' <= #[trigger] s[i] <= 'Z')
}

/// A name that a test function can have: non-empty ASCII without `-`,
/// `.` or upper-case letters, not starting with a digit, and none of the
/// keywords.
pub open spec fn is_test_name(s: Seq<char>) -> bool {
    &&& s.len() > 0
    &&& plain_lower(s)
    &&& forall|i: int| 0 <= i < s.len() ==> #[trigger] s[i] != '-' && s[i] != '.'
    &&& !('0' <= s[0] <= '9')
    &&& !is_keyword(s)
}

/// The name of a test function from the transliterated, lowered name.
pub open spec fn name_of_lowered(lower: Seq<char>) -> Seq<char> {
    let t = underscored(lower);
    if numeric_char(if t.len() > 0 { t[0] } else { '0' }) {
        seq!['t'] + t
    } else if is_keyword(t) {
        "test_"@ + t
    } else {
        t
    }
}

fn text_eq(a: &String, b: &str) -> (r: bool)
    ensures
        r == (a@ == b@),
{
    crate::text::str_eq(a.as_str(), b)
}

/// The name of the test function for a test case, as [`spec_fn_name`] states.
pub fn fn_name(name: &str) -> (r: String)
    ensures
        r@ == spec_fn_name(name@),
        is_test_name(r@),
{
    let ascii = ascii_transliteration(name);
    let lower = to_lowercase(ascii.as_str());
    proof {
        assert forall|i: int| 0 <= i < lower@.len() implies (#[trigger] lower@[i] as u32) < 128
            && !('A' <= lower@[i] <= 'Z') by {
            let c = ascii@[i];
            assert((c as u32) < 128);
            if 'A' <= c <= 'Z' {
                assert(lower@[i] == ((c as u32) + 32) as char);
            }
        }
    }
    fn_name_of_lowered(lower.as_str())
}

/// The name of a test function from the case name as transliterated and
/// lowered: `-` and `.` as `_`, then the prefix that [`spec_fn_name`]
/// states.
pub fn fn_name_of_lowered(lower: &str) -> (r: String)
    ensures
        r@ == name_of_lowered(lower@),
        plain_lower(lower@) ==> is_test_name(r@),
{
    let n = lower.unicode_len();
    let mut t = String::new();
    let mut i: usize = 0;
    while i < n
        invariant
            i <= n,
            n == lower@.len(),
            t@ == underscored(lower@).take(i as int),
        decreases n - i,
    {
        let c = lower.get_char(i);
        let d = if c == '-' || c == '.' {
            '_'
        } else {
            c
        };
        push_char(&mut t, d);
        assert(t@ =~= underscored(lower@).take(i + 1));
        i = i + 1;
    }
    assert(underscored(lower@).take(n as int) =~= underscored(lower@));
    let first = if n > 0 {
        t.as_str().get_char(0)
    } else {
        '0'
    };
    proof {
        reveal_strlit("else");
        reveal_strlit("for");
        reveal_strlit("if");
        reveal_strlit("static");
        reveal_strlit("while");
        reveal_strlit("test_");
    }
    if is_numeric(first) {
        let mut r = String::new();
        push_char(&mut r, 't');
        r.append(t.as_str());
        assert(r@ =~= seq!['t'] + t@);
        proof {
            if plain_lower(lower@) {
                assert(r@[0] == 't');
                assert forall|i: int| 0 <= i < r@.len() implies (#[trigger] r@[i] as u32) < 128
                    && !('A' <= r@[i] <= 'Z') && r@[i] != '-' && r@[i] != '.' by {
                    if i > 0 {
                        assert(r@[i] == t@[i - 1]);
                        assert(t@[i - 1] == underscored(lower@)[i - 1]);
                    }
                }
                assert(r@ != "else"@ && r@ != "for"@ && r@ != "if"@ && r@ != "static"@ && r@
                    != "while"@) by {
                    assert(r@[0] != "else"@[0]);
                    assert(r@[0] != "for"@[0]);
                    assert(r@[0] != "if"@[0]);
                    assert(r@[0] != "static"@[0]);
                    assert(r@[0] != "while"@[0]);
                }
            }
        }
        r
    } else if text_eq(&t, "else") || text_eq(&t, "for") || text_eq(&t, "if") || text_eq(
        &t,
        "static",
    ) || text_eq(&t, "while") {
        let mut r = String::from_str("test_");
        r.append(t.as_str());
        proof {
            if plain_lower(lower@) {
                assert(r@ =~= "test_"@ + t@);
                assert forall|i: int| 0 <= i < r@.len() implies (#[trigger] r@[i] as u32) < 128
                    && !('A' <= r@[i] <= 'Z') && r@[i] != '-' && r@[i] != '.' by {
                    if i >= 5 {
                        assert(r@[i] == t@[i - 5]);
                        assert(t@[i - 5] == underscored(lower@)[i - 5]);
                    }
                }
                assert(r@ != "else"@ && r@ != "for"@ && r@ != "if"@ && r@ != "static"@ && r@
                    != "while"@) by {
                    assert(r@[0] != "else"@[0]);
                    assert(r@[0] != "for"@[0]);
                    assert(r@[0] != "if"@[0]);
                    assert(r@[0] != "static"@[0]);
                    assert(r@[0] != "while"@[0]);
                }
            }
        }
        r
    } else {
        proof {
            if plain_lower(lower@) {
                assert(n > 0);
                assert(t@[0] == underscored(lower@)[0]);
                assert forall|i: int| 0 <= i < t@.len() implies (#[trigger] t@[i] as u32) < 128
                    && !('A' <= t@[i] <= 'Z') && t@[i] != '-' && t@[i] != '.' by {
                    assert(t@[i] == underscored(lower@)[i]);
                }
            }
        }
        t
    }
}

/// Whether `name` is among the test cases to leave out.
pub fn is_ignored(ignored: &Vec<String>, name: &str) -> (r: bool)
    ensures
        r == exists|k: int| 0 <= k < ignored@.len() && (#[trigger] ignored@[k])@ == name@,
{
    let mut k: usize = 0;
    while k < ignored.len()
        invariant
            k <= ignored.len(),
            forall|j: int| 0 <= j < k ==> (#[trigger] ignored@[j])@ != name@,
        decreases ignored.len() - k,
    {
        if crate::text::str_eq(ignored[k].as_str(), name) {
            return true;
        }
        k = k + 1;
    }
    false
}

/// What the converter does with an entry of a test directory.
#[derive(Clone, Copy, Debug, PartialEq, Eq, Structural)]
pub enum EntryAction {
    /// Not a directory: nothing.
    Skip,
    /// A case that expects an error: noted as left out.
    ExpectsError,
    /// A case among those to leave out: noted as left out.
    Ignored,
    /// A case with an input: converted to a test.
    Test,
    /// A directory of further cases: converted to a module.
    Module,
}

/// The action for an entry named `name`: only directories count; a case
/// that expects an error is left out first, then one among `ignored`; a
/// case with an input becomes a test, any other directory a module.
pub open spec fn spec_entry_action(
    name: Seq<char>,
    is_dir: bool,
    has_error: bool,
    has_input: bool,
    ignored: Seq<String>,
) -> EntryAction {
    if !is_dir {
        EntryAction::Skip
    } else if has_error {
        EntryAction::ExpectsError
    } else if exists|k: int| 0 <= k < ignored.len() && (#[trigger] ignored[k])@ == name {
        EntryAction::Ignored
    } else if has_input {
        EntryAction::Test
    } else {
        EntryAction::Module
    }
}

/// The action for an entry of a test directory, as [`spec_entry_action`]
/// states.
pub fn entry_action(
    name: &str,
    is_dir: bool,
    has_error: bool,
    has_input: bool,
    ignored: &Vec<String>,
) -> (r: EntryAction)
    ensures
        r == spec_entry_action(name@, is_dir, has_error, has_input, ignored@),
{
    if !is_dir {
        EntryAction::Skip
    } else if has_error {
        EntryAction::ExpectsError
    } else if is_ignored(ignored, name) {
        EntryAction::Ignored
    } else if has_input {
        EntryAction::Test
    } else {
        EntryAction::Module
    }
}

/// The test cases to leave out inside the directory `dir`: those that
/// start with `dir` and a slash, without that prefix, in order.
pub open spec fn spec_sub_ignored(ignored: Seq<Seq<char>>, dir: Seq<char>) -> Seq<Seq<char>>
    decreases ignored.len(),
{
    if ignored.len() == 0 {
        seq![]
    } else {
        let rest = spec_sub_ignored(ignored.drop_last(), dir);
        let p = ignored.last();
        let tt = dir.push('/');
        if tt.len() <= p.len() && p.take(tt.len() as int) == tt {
            rest.push(p.skip(tt.len() as int))
        } else {
            rest
        }
    }
}

fn starts_with(p: &str, tt: &str) -> (r: bool)
    ensures
        r == (tt@.len() <= p@.len() && p@.take(tt@.len() as int) == tt@),
{
    let n = tt.unicode_len();
    if n > p.unicode_len() {
        return false;
    }
    let mut j: usize = 0;
    while j < n
        invariant
            j <= n,
            n == tt@.len(),
            n <= p@.len(),
            forall|t: int| 0 <= t < j ==> p@[t] == tt@[t],
        decreases n - j,
    {
        if p.get_char(j) != tt.get_char(j) {
            assert(p@.take(n as int)[j as int] != tt@[j as int]);
            return false;
        }
        j = j + 1;
    }
    assert(p@.take(n as int) =~= tt@);
    true
}

/// The test cases to leave out inside `dir`, as [`spec_sub_ignored`] states.
pub fn sub_ignored(ignored: &Vec<String>, dir: &str) -> (r: Vec<String>)
    ensures
        r@.map_values(|s: String| s@) == spec_sub_ignored(
            ignored@.map_values(|s: String| s@),
            dir@,
        ),
{
    let mut tt = String::from_str(dir);
    push_char(&mut tt, '/');
    let ghost iv = ignored@.map_values(|s: String| s@);
    let mut out: Vec<String> = Vec::new();
    let mut k: usize = 0;
    while k < ignored.len()
        invariant
            k <= ignored.len(),
            iv == ignored@.map_values(|s: String| s@),
            tt@ == dir@.push('/'),
            out@.map_values(|s: String| s@) == spec_sub_ignored(iv.take(k as int), dir@),
        decreases ignored.len() - k,
    {
        assert(iv.take(k + 1).drop_last() =~= iv.take(k as int));
        assert(iv.take(k + 1).last() == ignored@[k as int]@);
        let p = ignored[k].as_str();
        if starts_with(p, tt.as_str()) {
            let len = p.unicode_len();
            let m = tt.as_str().unicode_len();
            let rest = String::from_str(p.substring_char(m, len));
            assert(rest@ =~= p@.skip(m as int));
            let ghost before = out@;
            out.push(rest);
            assert(out@.map_values(|s: String| s@) =~= before.map_values(|s: String| s@).push(
                rest@,
            ));
        }
        k = k + 1;
    }
    assert(iv.take(ignored.len() as int) =~= iv);
    out
}

/// How the assertion of a test is laid out, by the lengths in bytes of
/// the quoted input and expected output.
pub open spec fn assertion_text(input: Seq<char>, input_len: nat, expected: Seq<char>, expected_len: nat) -> Seq<char> {
    if input_len + expected_len < 48 {
        "    assert_eq!(rsass("@ + input + ").unwrap(), "@ + expected + ");\n"@
    } else if input_len < 55 {
        "    assert_eq!(\n        rsass("@ + input + ").unwrap(),\n        "@ + expected + "\n    );\n"@
    } else if input_len < 62 {
        "    assert_eq!(\n        rsass("@ + input + ")\n            .unwrap(),\n        "@ + expected
            + "\n    );\n"@
    } else {
        "    assert_eq!(\n        rsass(\n            "@ + input + "\n        ).unwrap(),\n        "@
            + expected + "\n    );\n"@
    }
}

/// The text of a test function: a comment naming where the case is from,
/// the function `name`, the precision where one is set, and the
/// assertion that compiling `input` gives `expected` (both written as
/// Rust string literals).
pub open spec fn spec_test_source(
    from: Seq<char>,
    name: Seq<char>,
    precision: Option<i64>,
    input: Seq<char>,
    input_len: nat,
    expected: Seq<char>,
    expected_len: nat,
) -> Seq<char> {
    "\n/// From "@ + from + "\n#[test]\nfn "@ + name + "() {\n"@ + (match precision {
        Some(p) => "    set_precision("@ + decimal_text(p as int) + ");\n"@,
        None => seq![],
    }) + assertion_text(input, input_len, expected, expected_len) + "}\n"@
}

/// The text of a test function, as [`spec_test_source`] states, with the
/// lengths of `input` and `expected` in bytes (`str::len`).
pub fn test_source(
    from: &str,
    name: &str,
    precision: Option<i64>,
    input: &str,
    expected: &str,
) -> (r: String)
    ensures
        r@ == spec_test_source(
            from@,
            name@,
            precision,
            input@,
            input.len() as nat,
            expected@,
            expected.len() as nat,
        ),
{
    let mut out = String::from_str("\n/// From ");
    out.append(from);
    out.append("\n#[test]\nfn ");
    out.append(name);
    out.append("() {\n");
    let ghost head = out@;
    assert(head =~= "\n/// From "@ + from@ + "\n#[test]\nfn "@ + name@ + "() {\n"@);
    match precision {
        Some(p) => {
            out.append("    set_precision(");
            push_decimal(&mut out, p);
            out.append(");\n");
        },
        None => {},
    }
    let ghost mid = out@;
    assert(mid =~= head + (match precision {
        Some(p) => "    set_precision("@ + decimal_text(p as int) + ");\n"@,
        None => seq![],
    }));
    let ghost il_spec = input.len() as nat;
    let ghost el_spec = expected.len() as nat;
    let il = input.len();
    let el = expected.len();
    if il < 48 && el < 48 - il {
        out.append("    assert_eq!(rsass(");
        out.append(input);
        out.append(").unwrap(), ");
        out.append(expected);
        out.append(");\n");
        assert(out@ =~= mid + ("    assert_eq!(rsass("@ + input@ + ").unwrap(), "@ + expected@
            + ");\n"@));
    } else if il < 55 {
        out.append("    assert_eq!(\n        rsass(");
        out.append(input);
        out.append(").unwrap(),\n        ");
        out.append(expected);
        out.append("\n    );\n");
        assert(out@ =~= mid + ("    assert_eq!(\n        rsass("@ + input@ + ").unwrap(),\n        "@
            + expected@ + "\n    );\n"@));
    } else if il < 62 {
        out.append("    assert_eq!(\n        rsass(");
        out.append(input);
        out.append(")\n            .unwrap(),\n        ");
        out.append(expected);
        out.append("\n    );\n");
        assert(out@ =~= mid + ("    assert_eq!(\n        rsass("@ + input@
            + ")\n            .unwrap(),\n        "@ + expected@ + "\n    );\n"@));
    } else {
        out.append("    assert_eq!(\n        rsass(\n            ");
        out.append(input);
        out.append("\n        ).unwrap(),\n        ");
        out.append(expected);
        out.append("\n    );\n");
        assert(out@ =~= mid + ("    assert_eq!(\n        rsass(\n            "@ + input@
            + "\n        ).unwrap(),\n        "@ + expected@ + "\n    );\n"@));
    }
    assert(out@ =~= mid + assertion_text(input@, il_spec, expected@, el_spec));
    out.append("}\n");
    assert(out@ =~= spec_test_source(
        from@,
        name@,
        precision,
        input@,
        input.len() as nat,
        expected@,
        expected.len() as nat,
    ));
    out
}

/// What `format!("{:?}", s)` writes of a string: a Rust string literal
/// that holds it.
pub uninterp spec fn debug_quoted(s: Seq<char>) -> Seq<char>;

/// `format!("{:?}", s)` of a string, named by [`debug_quoted`].
#[verifier::external_body]
fn debug_text(s: &str) -> (r: String)
    ensures
        r@ == debug_quoted(s@),
{
    format!("{:?}", s)
}

/// The text of the test function for the test case `name` in the
/// directory `dir`, whose input is `input` and whose expected output is
/// `expected`: the directory, the input and the output written as Rust
/// string literals, the name as [`spec_fn_name`] makes it.
pub open spec fn spec_case_source(
    dir: Seq<char>,
    name: Seq<char>,
    precision: Option<i64>,
    input: Seq<char>,
    expected: Seq<char>,
) -> Seq<char> {
    let qi = debug_quoted(input);
    let qe = debug_quoted(expected);
    spec_test_source(
        debug_quoted(dir),
        spec_fn_name(name),
        precision,
        qi,
        encode_utf8(qi).len(),
        qe,
        encode_utf8(qe).len(),
    )
}

/// The text of the test function for a test case, as [`spec_case_source`]
/// states.
pub fn case_source(
    dir: &str,
    name: &str,
    precision: Option<i64>,
    input: &str,
    expected: &str,
) -> (r: String)
    ensures
        r@ == spec_case_source(dir@, name@, precision, input@, expected@),
{
    let from = debug_text(dir);
    let qi = debug_text(input);
    let qe = debug_text(expected);
    let f = fn_name(name);
    let bi = qi.as_str().as_bytes();
    let be = qe.as_str().as_bytes();
    assert(bi@.len() == bi.len() && be@.len() == be.len());
    test_source(from.as_str(), f.as_str(), precision, qi.as_str(), qe.as_str())
}

} // verus!
