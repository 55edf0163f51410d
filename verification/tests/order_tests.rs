use multi_search::order::{str_eq, str_lt};

#[test]
fn lexicographic_order_on_identifiers() {
    assert!(str_lt("alpha", "beta"));
    assert!(!str_lt("beta", "alpha"));
    assert!(str_lt("doc-1", "doc-2"));
    assert!(!str_lt("doc-2", "doc-1"));
    assert!(str_lt("doc", "doc-1"));
    assert!(!str_lt("doc-1", "doc"));
    assert!(!str_lt("same", "same"));
    assert!(str_lt("", "a"));
    assert!(!str_lt("a", ""));
}

#[test]
fn identifier_equality() {
    assert!(str_eq("shock-101", "shock-101"));
    assert!(!str_eq("shock-101", "shock-102"));
    assert!(!str_eq("shock", "shock-101"));
    assert!(str_eq("", ""));
}

#[test]
fn order_handles_multibyte_characters() {
    assert!(str_lt("caf\u{e9}", "caf\u{fa}"));
    assert!(str_eq("na\u{ef}ve", "na\u{ef}ve"));
    assert!(str_lt("a", "\u{e9}"));
}
