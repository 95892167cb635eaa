use turing::is_lexical_normal_form;

#[test]
fn accepts_the_two_rule_example() {
    assert!(is_lexical_normal_form("1Rb 0Ra"));
}

#[test]
fn accepts_single_symbol_single_state_right_only() {
    assert!(is_lexical_normal_form("0Ra"));
    assert!(is_lexical_normal_form("0Ra 0Ra 0Ra"));
    assert!(is_lexical_normal_form("a0R"));
}

#[test]
fn accepts_the_empty_encoding() {
    assert!(is_lexical_normal_form(""));
    assert!(is_lexical_normal_form(" \t\n"));
}

#[test]
fn rejects_symbol_two_before_any_one() {
    assert!(!is_lexical_normal_form("2Ra"));
    assert!(!is_lexical_normal_form("0Ra 2Rb 1Ra"));
    assert!(!is_lexical_normal_form("0Rb 2Ra"));
}

#[test]
fn accepts_symbol_two_after_one() {
    assert!(is_lexical_normal_form("1Rb 2Ra"));
    assert!(is_lexical_normal_form("1Rb 2Ra 0Rb 1Ra"));
}

#[test]
fn rejects_state_c_before_any_b() {
    assert!(!is_lexical_normal_form("0Rc"));
    assert!(!is_lexical_normal_form("0Ra 0Rc 0Rb"));
}

#[test]
fn accepts_state_c_after_b() {
    assert!(is_lexical_normal_form("0Rb 0Ra 0Rc"));
    assert!(is_lexical_normal_form("1Rb 1Lb 1La 1Rc"));
}

#[test]
fn rejects_left_before_any_right() {
    assert!(!is_lexical_normal_form("0La"));
    assert!(!is_lexical_normal_form("1Lb 0Ra"));
    assert!(!is_lexical_normal_form("L R"));
}

#[test]
fn accepts_left_after_right() {
    assert!(is_lexical_normal_form("1Rb 1La"));
    assert!(is_lexical_normal_form("R L"));
}

#[test]
fn rejects_another_capital_before_any_right() {
    assert!(!is_lexical_normal_form("0Xa"));
    assert!(!is_lexical_normal_form("A"));
    assert!(!is_lexical_normal_form("Z R"));
}

#[test]
fn does_not_check_capitals_after_the_first_right() {
    assert!(is_lexical_normal_form("0Ra 0Xa"));
    assert!(is_lexical_normal_form("RQ"));
}

#[test]
fn rejects_a_skipped_symbol_later_on() {
    assert!(!is_lexical_normal_form("1Rb 3Ra"));
    assert!(is_lexical_normal_form("1Rb 2Ra 3Rb"));
    assert!(!is_lexical_normal_form("1 2 3 4 5 6 7 9"));
    assert!(is_lexical_normal_form("1 2 3 4 5 6 7 8 9"));
}

#[test]
fn rejects_a_skipped_state_later_on() {
    assert!(!is_lexical_normal_form("b d"));
    assert!(is_lexical_normal_form("b c d"));
    assert!(is_lexical_normal_form("abcdefghijklmnopqrstuvwxyz"));
    assert!(!is_lexical_normal_form("abcdefghijklmnopqrstuvwxz"));
}

#[test]
fn a_repeated_or_lower_value_is_in_order() {
    assert!(is_lexical_normal_form("1 1 0 2 1 0"));
    assert!(is_lexical_normal_form("b b a c a"));
}

#[test]
fn ignores_bytes_that_name_nothing() {
    assert!(is_lexical_normal_form("!? -- {}"));
    assert!(is_lexical_normal_form("\u{e9}1Rb\u{fc}"));
    assert!(!is_lexical_normal_form("\u{e9}2Rb"));
}
