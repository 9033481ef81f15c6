use qop::conflict::{find_conflict, in_conflict};
use qop::entries::Entry;
use qop::text::{
    clone_pairs, clone_strings, join_strings, length, split_first, starts_with, trim_end_matches,
    trim_start_matches,
};

fn s(text: &str) -> String {
    text.to_string()
}

fn entry(key: &str) -> Entry {
    Entry {
        key: s(key),
        name: s(key),
        breadcrumbs: vec![(s(key), s(key))],
        executable: s("x"),
        path: s(""),
        args: vec![],
        argstr: s(""),
        env: vec![],
        envstr: s(""),
    }
}

#[test]
fn starts_with_agrees_with_the_standard_library() {
    let words = ["", "a", "ab", "abc", "b", "ba", "é", "éa", "aé"];
    for text in words {
        for prefix in words {
            assert_eq!(starts_with(text, prefix), text.starts_with(prefix), "{text} {prefix}");
        }
    }
}

#[test]
fn join_agrees_with_the_standard_library() {
    let lists: Vec<Vec<String>> = vec![
        vec![],
        vec![s("a")],
        vec![s("a"), s("b")],
        vec![s(""), s("b"), s("")],
        vec![s("-n"), s("--long"), s("x y")],
    ];
    for list in lists {
        for sep in [" ", ",", "", " > "] {
            assert_eq!(join_strings(&list, sep), list.join(sep));
        }
    }
}

#[test]
fn trims_agree_with_the_standard_library() {
    for text in ["", "/", "//", "a", "a/", "a//", "/a/", "+/+a+/", "++", "/x/", "é/"] {
        assert_eq!(trim_end_matches(text, '/'), text.trim_end_matches('/'), "{text}");
        assert_eq!(
            trim_start_matches(text, '/', '+'),
            text.trim_start_matches(['/', '+']),
            "{text}"
        );
    }
}

#[test]
fn split_first_cuts_at_the_first_separator() {
    assert_eq!(split_first("a=b", '='), (s("a"), s("b")));
    assert_eq!(split_first("a=b=c", '='), (s("a"), s("b=c")));
    assert_eq!(split_first("abc", '='), (s("abc"), s("")));
    assert_eq!(split_first("=", '='), (s(""), s("")));
    assert_eq!(split_first("", '='), (s(""), s("")));
    assert_eq!(split_first("é=ü", '='), (s("é"), s("ü")));
}

#[test]
fn length_counts_bytes() {
    assert_eq!(length(&s("")), 0);
    assert_eq!(length(&s("abc")), 3);
    assert_eq!(length(&s("é")), 2);
}

#[test]
fn clones_are_equal() {
    let strings = vec![s("a"), s(""), s("bc")];
    assert_eq!(clone_strings(&strings), strings);
    let pairs = vec![(s("a"), s("1")), (s(""), s(""))];
    assert_eq!(clone_pairs(&pairs), pairs);
}

#[test]
fn conflict_is_symmetric_and_holds_of_equal_keys() {
    assert!(in_conflict(&s("ab"), &s("abc")));
    assert!(in_conflict(&s("abc"), &s("ab")));
    assert!(in_conflict(&s("ab"), &s("ab")));
    assert!(in_conflict(&s(""), &s("a")));
    assert!(!in_conflict(&s("ab"), &s("ac")));
}

#[test]
fn find_conflict_reports_the_first_pair() {
    assert_eq!(find_conflict(&vec![]), None);
    assert_eq!(find_conflict(&vec![entry("a")]), None);
    assert_eq!(find_conflict(&vec![entry("ab"), entry("ac"), entry("ba")]), None);
    assert_eq!(find_conflict(&vec![entry("ab"), entry("abc")]), Some((0, 1)));
    assert_eq!(find_conflict(&vec![entry("x"), entry("abc"), entry("y"), entry("ab")]), Some((1, 3)));
    assert_eq!(find_conflict(&vec![entry("ab"), entry("a"), entry("abc")]), Some((0, 1)));
    assert_eq!(find_conflict(&vec![entry("q"), entry("ab"), entry("abc"), entry("q")]), Some((0, 3)));
}
