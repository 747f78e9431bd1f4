use tessera::parser::{parse_formula, ParseError};

#[test]
fn test_parse_formula() {
    let parsed = parse_formula("=SUM(ColumnA)").unwrap();
    assert_eq!(parsed.function_name, "SUM");
    assert_eq!(parsed.argument, "ColumnA");
}

#[test]
fn parse_trims_and_uppercases_name() {
    let parsed = parse_formula("   = sum ( ColumnA )  ").unwrap();
    assert_eq!(parsed.function_name, "SUM");
    assert_eq!(parsed.argument, "ColumnA");
}

#[test]
fn parse_mixed_case_name() {
    let parsed = parse_formula("=MiXeD(x)").unwrap();
    assert_eq!(parsed.function_name, "MIXED");
    assert_eq!(parsed.argument, "x");
}

#[test]
fn parse_missing_leading_equals() {
    assert_eq!(
        parse_formula("SUM(ColumnA)").unwrap_err(),
        ParseError::MissingLeadingEquals
    );
}

#[test]
fn parse_empty_input() {
    assert_eq!(parse_formula("").unwrap_err(), ParseError::MissingLeadingEquals);
}

#[test]
fn parse_missing_open_paren() {
    assert_eq!(
        parse_formula("=SUM ColumnA)").unwrap_err(),
        ParseError::MissingOpenParen
    );
}

#[test]
fn parse_missing_close_paren() {
    assert_eq!(
        parse_formula("=SUM(ColumnA").unwrap_err(),
        ParseError::MissingCloseParen
    );
}

#[test]
fn parse_trailing_text_after_paren() {
    assert_eq!(
        parse_formula("=SUM(A)x").unwrap_err(),
        ParseError::MissingCloseParen
    );
}

#[test]
fn parse_empty_argument_is_legal() {
    let parsed = parse_formula("=COUNT()").unwrap();
    assert_eq!(parsed.function_name, "COUNT");
    assert_eq!(parsed.argument, "");
}

#[test]
fn parse_nested_parens_kept_in_argument() {
    let parsed = parse_formula("=F((a,b))").unwrap();
    assert_eq!(parsed.function_name, "F");
    assert_eq!(parsed.argument, "(a,b)");
}

#[test]
fn parse_unrecognized_name_succeeds() {
    let parsed = parse_formula("=median(ColumnB)").unwrap();
    assert_eq!(parsed.function_name, "MEDIAN");
    assert_eq!(parsed.argument, "ColumnB");
}
