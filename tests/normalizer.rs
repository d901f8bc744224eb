use patrol::normalize::Normalizer;

fn norm(s: &str) -> String {
    Normalizer::new().unwrap().format_answer(s)
}

#[test]
fn collapses_spacing_case_and_order() {
    assert_eq!(norm("Foo  =bar  baz"), "baz foo=bar");
    assert_eq!(norm("baz FOO=BAR"), "baz foo=bar");
}

#[test]
fn ssh_option_with_spaced_equals() {
    assert_eq!(norm("PermitRootLogin   =  no"), "permitrootlogin=no");
}

#[test]
fn empty_and_blank_lines() {
    assert_eq!(norm(""), "");
    assert_eq!(norm(" \t "), "");
}

#[test]
fn trims_and_sorts_bytewise() {
    assert_eq!(norm("  b  a  C "), "a b c");
    assert_eq!(norm("b B a"), "a b b");
    assert_eq!(norm("zeta Alpha =x"), "alpha=x zeta");
}

#[test]
fn only_ascii_letters_are_lowered() {
    assert_eq!(norm("ÄB"), "Äb");
}

#[test]
fn normalizing_twice_changes_nothing() {
    for s in ["Foo  =bar  baz", "  x y   z ", "PermitRootLogin   =  no", "a=b=c d", ""] {
        let once = norm(s);
        assert_eq!(norm(&once), once);
    }
}

#[test]
fn token_order_does_not_matter() {
    assert_eq!(norm("one two three"), norm("three one two"));
    assert_eq!(norm("x=1 y=2"), norm("y=2 x=1"));
}

#[test]
fn trailing_equals_token_is_not_stable() {
    assert_eq!(norm("b a="), "a= b");
    assert_eq!(norm("a= b"), "a=b");
}
