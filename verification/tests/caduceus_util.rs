use snek::caduceus::util::{is_reserved_keyword, is_valid_identifier};

#[test]
fn test_valid_identifiers() {
    assert!(is_valid_identifier("hello"));
    assert!(is_valid_identifier("TEST"));
    assert!(is_valid_identifier("someVariableName"));
    assert!(is_valid_identifier("something5Times"));
    assert!(is_valid_identifier("cse131"));
}

#[test]
fn test_invalid_identifiers() {
    assert!(!is_valid_identifier("8ball"));
    assert!(!is_valid_identifier("hello world"));
    assert!(!is_valid_identifier(""));
    assert!(!is_valid_identifier("hello!"));
}

#[test]
fn reserved_keywords() {
    for k in ["let", "add1", "sub1", "true", "false", "input", "set!", "if", "block", "loop", "break", "isnum", "isbool"] {
        assert!(is_reserved_keyword(k));
    }
    assert!(!is_reserved_keyword("x"));
    assert!(!is_reserved_keyword("lets"));
}

#[test]
fn identifiers_may_start_with_any_character_from_upper_a_to_lower_z() {
    assert!(is_valid_identifier("_x"));
    assert!(is_valid_identifier("^carrot"));
    assert!(is_valid_identifier("`q1"));
    assert!(!is_valid_identifier("@x"));
    assert!(!is_valid_identifier("x_"));
    assert!(!is_valid_identifier("{x"));
}
