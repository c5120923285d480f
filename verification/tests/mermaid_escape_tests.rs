//! Escaping of leading underscores for Mermaid output.

use pymermaider::mermaid_escape::MermaidEscape;

#[test]
fn test_no_underscores() {
    assert_eq!("hello".escape_underscores(), "hello");
}

#[test]
fn test_single_leading_underscore() {
    assert_eq!("_private".escape_underscores(), r"\_private");
}

#[test]
fn test_double_leading_underscore() {
    assert_eq!("__init__".escape_underscores(), r"\_\_init__");
}

#[test]
fn test_triple_leading_underscore() {
    assert_eq!("___triple".escape_underscores(), r"\_\_\_triple");
}

#[test]
fn test_trailing_underscores_not_escaped() {
    assert_eq!("_method_".escape_underscores(), r"\_method_");
}

#[test]
fn test_method_with_leading_and_trailing_underscore() {
    assert_eq!("_method_".escape_underscores(), "\\_method_");
    assert_eq!("__init__".escape_underscores(), "\\_\\_init__");
}
