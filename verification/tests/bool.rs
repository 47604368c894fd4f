use gorilla::builtin_types::bool::{gorilla_false, gorilla_true};

#[test]
fn bool_test() {
    assert_eq!(gorilla_true().to_string(), "true");
    assert_eq!(gorilla_false().to_string(), "false");
}
