use sysx::types::{is_list_like, simplify_nonlist_type, simplify_type};
use sysx::Error;

// is_list_like tests

#[test]
fn test_is_list_like_for_generic() {
    assert!(is_list_like("Vec<i32>"));
}

#[test]
fn test_is_list_like_for_array() {
    assert!(is_list_like("[i32; 5]"));
}

#[test]
fn test_is_list_like_for_simple_type() {
    assert!(!is_list_like("std::string::String"));
}

#[test]
fn test_is_list_like_edge_case() {
    assert!(!is_list_like("MyType"));
}

// simplify_nonlist_type tests

#[test]
pub fn test_simplify_nonlist_type_success() {
    let input = "std::string::String";
    let simplified = simplify_nonlist_type(input).unwrap();
    assert_eq!(simplified, "String");
}

#[test]
fn test_simplify_nonlist_type_error_for_generic() {
    let input = "Vec<i32>";
    let err = simplify_nonlist_type(input).unwrap_err();
    if let Error::ValidationError { expected, actual, .. } = err {
        assert_eq!(expected, "non-generic type");
        assert_eq!(actual, input);
    } else {
        panic!("expected a validation error");
    }
}

// simplify_type tests

#[test]
fn test_simplify_type_for_non_generic() {
    let input = "std::path::PathBuf";
    let simplified = simplify_type(input).unwrap();
    assert_eq!(simplified, "PathBuf");
}

#[test]
fn test_simplify_type_with_generic_single() {
    let input = "std::vec::Vec<my::custom::Type>";
    let simplified = simplify_type(input).unwrap();
    assert_eq!(simplified, "Vec<Type>");
}

#[test]
fn test_simplify_type_with_generic_multiple() {
    let input = "std::collections::HashMap<my::key::Key, my::value::Value>";
    let simplified = simplify_type(input).unwrap();
    assert_eq!(simplified, "HashMap<Key, Value>");
}

#[test]
fn test_simplify_type_with_nested_generics() {
    let input = "std::option::Option<std::vec::Vec<my::custom::Type>>";
    let simplified = simplify_type(input).unwrap();
    assert_eq!(simplified, "Option<Vec<Type>>");
}

#[test]
fn test_simplify_type_top_level_commas() {
    let input = "my::a::Foo<X>,my::b::Bar<Y>";
    let simplified = simplify_type(input).unwrap();
    assert_eq!(simplified, "Foo<X>, Bar<Y>");
}
