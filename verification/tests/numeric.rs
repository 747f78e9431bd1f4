use tessera::numeric::is_numeric;

fn numeric(s: &str) -> bool {
    is_numeric(&s.chars().collect())
}

#[test]
fn accepts_plain_and_signed_integers() {
    assert!(numeric("0"));
    assert!(numeric("42"));
    assert!(numeric("+7"));
    assert!(numeric("-13"));
}

#[test]
fn accepts_fractions_and_exponents() {
    assert!(numeric("1.5"));
    assert!(numeric(".5"));
    assert!(numeric("5."));
    assert!(numeric("1e5"));
    assert!(numeric("1E5"));
    assert!(numeric("-2.5e-3"));
    assert!(numeric("+1.e+2"));
}

#[test]
fn rejects_malformed_tokens() {
    assert!(!numeric(""));
    assert!(!numeric("."));
    assert!(!numeric("+"));
    assert!(!numeric("--5"));
    assert!(!numeric("1.2.3"));
    assert!(!numeric("e5"));
    assert!(!numeric("1e"));
    assert!(!numeric("1e+"));
    assert!(!numeric("1x2"));
    assert!(!numeric("abc"));
}

#[test]
fn rejects_non_decimal_spellings() {
    assert!(!numeric("inf"));
    assert!(!numeric("nan"));
    assert!(!numeric("0x10"));
}

#[test]
fn grammar_is_a_subset_of_float_parsing() {
    for s in ["0", "42", "+7", "-13", "1.5", ".5", "5.", "1e5", "-2.5e-3", "+1.e+2"] {
        assert!(s.parse::<f64>().is_ok(), "{s} should parse as a float");
    }
}
