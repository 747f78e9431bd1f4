use tessera::engine::{
    count_present, numeric_entries, prepare_aggregate, AggregateError, AggregateKind,
    AggregatePlan,
};

fn column(cells: &[Option<&str>]) -> Vec<Option<String>> {
    cells.iter().map(|c| c.map(|s| s.to_string())).collect()
}

fn reduce_tokens(kind: AggregateKind, values: &Vec<Option<String>>) -> Result<f64, AggregateError> {
    match prepare_aggregate(kind, values)? {
        AggregatePlan::Tally(c) => Ok(c as f64),
        AggregatePlan::Reduce(tokens) => {
            let nums: Vec<f64> = tokens.iter().map(|t| t.parse::<f64>().unwrap()).collect();
            let mut acc = nums[0];
            for n in &nums[1..] {
                acc = match kind {
                    AggregateKind::Sum | AggregateKind::Avg => acc + n,
                    AggregateKind::Min => acc.min(*n),
                    AggregateKind::Max => acc.max(*n),
                    AggregateKind::Count => unreachable!(),
                };
            }
            if matches!(kind, AggregateKind::Avg) {
                acc /= nums.len() as f64;
            }
            Ok(acc)
        }
    }
}

#[test]
fn test_sum_basic() {
    let values = column(&[Some("10"), Some("20"), Some("30")]);
    assert_eq!(reduce_tokens(AggregateKind::Sum, &values).unwrap(), 60.0);
}

#[test]
fn test_avg_basic() {
    let values = column(&[Some("10"), Some("20"), Some("30")]);
    assert_eq!(reduce_tokens(AggregateKind::Avg, &values).unwrap(), 20.0);
}

#[test]
fn test_min_basic() {
    let values = column(&[Some("10"), Some("20"), Some("5")]);
    assert_eq!(reduce_tokens(AggregateKind::Min, &values).unwrap(), 5.0);
}

#[test]
fn test_max_basic() {
    let values = column(&[Some("10"), Some("20"), Some("5")]);
    assert_eq!(reduce_tokens(AggregateKind::Max, &values).unwrap(), 20.0);
}

#[test]
fn test_count_basic() {
    let values = column(&[Some("10"), Some(""), Some("30"), Some("40")]);
    assert_eq!(reduce_tokens(AggregateKind::Count, &values).unwrap(), 3.0);
}

#[test]
fn sum_fails_without_numeric_values() {
    let values = column(&[Some(""), Some("abc"), None]);
    assert_eq!(
        reduce_tokens(AggregateKind::Sum, &values).unwrap_err(),
        AggregateError::NoNumericValues
    );
}

#[test]
fn count_never_fails_on_mixed_column() {
    // "abc" has content, so COUNT sees one countable cell and still succeeds.
    let values = column(&[Some(""), Some("abc"), None]);
    assert_eq!(reduce_tokens(AggregateKind::Count, &values).unwrap(), 1.0);
}

#[test]
fn count_of_all_blank_column_is_zero() {
    let values = column(&[Some(""), Some("   "), None]);
    assert_eq!(reduce_tokens(AggregateKind::Count, &values).unwrap(), 0.0);
}

#[test]
fn min_and_max_fail_without_numeric_values() {
    let values = column(&[None, Some("  ")]);
    assert_eq!(
        reduce_tokens(AggregateKind::Min, &values).unwrap_err(),
        AggregateError::NoNumericValues
    );
    assert_eq!(
        reduce_tokens(AggregateKind::Max, &values).unwrap_err(),
        AggregateError::NoNumericValues
    );
}

#[test]
fn avg_divides_by_parsed_count_only() {
    // "x" is skipped from both the sum and the denominator: (10 + 30) / 2.
    let values = column(&[Some("10"), Some("x"), Some("30")]);
    assert_eq!(reduce_tokens(AggregateKind::Avg, &values).unwrap(), 20.0);
}

#[test]
fn entries_keep_input_order_and_skip_bad_cells() {
    let values = column(&[Some(" 10 "), None, Some("abc"), Some(""), Some("-2.5e1")]);
    let entries = numeric_entries(&values);
    assert_eq!(entries, vec!["10".to_string(), "-2.5e1".to_string()]);
}

#[test]
fn sum_is_applied_left_to_right() {
    // 1e16 has a spacing of 2 between neighbouring representable values, so
    // each + 1.0 rounds back down: a left-to-right sum stays exactly 1e16,
    // while summing the small values first would end two higher.
    let values = column(&[Some("10000000000000000"), Some("1"), Some("1")]);
    assert_eq!(reduce_tokens(AggregateKind::Sum, &values).unwrap(), 1.0e16);
    assert_ne!(1.0e16 + (1.0 + 1.0), 1.0e16);
}

#[test]
fn aggregation_is_idempotent() {
    let values = column(&[Some("1.5"), Some("x"), Some("2.5")]);
    for kind in [
        AggregateKind::Sum,
        AggregateKind::Avg,
        AggregateKind::Min,
        AggregateKind::Max,
        AggregateKind::Count,
    ] {
        assert_eq!(reduce_tokens(kind, &values), reduce_tokens(kind, &values));
    }
}

#[test]
fn count_present_counts_content_not_numbers() {
    let values = column(&[Some("abc"), Some("1"), Some(" "), None]);
    assert_eq!(count_present(&values), 2);
}
