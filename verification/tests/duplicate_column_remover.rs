use featrs::frame::{DType, Frame, Series, Value};
use featrs::preprocessing::duplicate_column_remover::DuplicateColumnRemover;
use featrs::traits::{Error, Fit, Transform};

fn f64_col(name: &str, vals: &[Option<f64>]) -> Series {
    let cells = vals.iter().map(|v| v.map(|x| Value::from_f64_bits(x.to_bits()))).collect();
    Series::new(name, DType::Float64, cells)
}

fn f(vals: &[f64]) -> Vec<Option<f64>> {
    vals.iter().map(|v| Some(*v)).collect()
}

fn str_col(name: &str, vals: &[&str]) -> Series {
    let cells = vals.iter().map(|v| Some(Value::Str(v.to_string()))).collect();
    Series::new(name, DType::Utf8, cells)
}

fn frame(cols: Vec<Series>) -> Frame {
    let h = cols.first().map(|c| c.len()).unwrap_or(0);
    Frame::new(h, cols).unwrap()
}

fn fit_transform(mut remover: DuplicateColumnRemover, df: Frame) -> Frame {
    remover.fit(df.copy()).unwrap();
    remover.transform(df).unwrap()
}

fn make_df() -> Frame {
    frame(vec![
        f64_col("a", &f(&[1.0, 2.0, 3.0])),
        f64_col("a_dup", &f(&[1.0, 2.0, 3.0])),
        f64_col("b", &f(&[4.0, 5.0, 6.0])),
    ])
}

#[test]
fn test_removes_duplicate_float64_columns() {
    let result = fit_transform(DuplicateColumnRemover::new(), make_df());
    assert_eq!(result.width(), 2);
    assert_eq!(result.get_column_names()[0].as_str(), "a");
    assert_eq!(result.get_column_names()[1].as_str(), "b");
}

#[test]
fn test_removes_duplicate_string_columns() {
    let df = frame(vec![str_col("s", &["x", "y", "z"]), str_col("s_dup", &["x", "y", "z"])]);
    let result = fit_transform(DuplicateColumnRemover::new(), df);
    assert_eq!(result.width(), 1);
    assert_eq!(result.get_column_names()[0].as_str(), "s");
}

#[test]
fn test_columns_differing_at_one_row_are_kept() {
    let df = frame(vec![f64_col("a", &f(&[1.0, 2.0, 3.0])), f64_col("b", &f(&[1.0, 9.0, 3.0]))]);
    let result = fit_transform(DuplicateColumnRemover::new(), df);
    assert_eq!(result.width(), 2);
}

#[test]
fn test_keeps_first_occurrence_of_duplicate_group() {
    let df = frame(vec![
        f64_col("a", &f(&[1.0, 2.0, 3.0])),
        f64_col("b", &f(&[4.0, 5.0, 6.0])),
        f64_col("a2", &f(&[1.0, 2.0, 3.0])),
        f64_col("c", &f(&[7.0, 8.0, 9.0])),
        f64_col("a3", &f(&[1.0, 2.0, 3.0])),
    ]);
    let result = fit_transform(DuplicateColumnRemover::new(), df);
    assert_eq!(result.get_column_names(), vec!["a".to_string(), "b".to_string(), "c".to_string()]);
}

#[test]
fn test_all_unique_columns_pass_through() {
    let df = frame(vec![
        f64_col("a", &f(&[1.0, 2.0, 3.0])),
        f64_col("b", &f(&[4.0, 5.0, 6.0])),
        str_col("c", &["x", "y", "z"]),
    ]);
    let result = fit_transform(DuplicateColumnRemover::new(), df);
    assert_eq!(result.width(), 3);
}

#[test]
fn test_single_column_survives() {
    let df = frame(vec![f64_col("a", &f(&[1.0, 2.0, 3.0]))]);
    let result = fit_transform(DuplicateColumnRemover::new(), df);
    assert_eq!(result.width(), 1);
    assert_eq!(result.get_column_names()[0].as_str(), "a");
}

#[test]
fn test_null_only_columns_are_duplicates() {
    let df = frame(vec![
        f64_col("n1", &[None, None, None]),
        f64_col("n2", &[None, None, None]),
        f64_col("b", &f(&[1.0, 2.0, 3.0])),
    ]);
    let result = fit_transform(DuplicateColumnRemover::new(), df);
    assert_eq!(result.width(), 2);
    assert_eq!(result.get_column_names()[0].as_str(), "n1");
    assert_eq!(result.get_column_names()[1].as_str(), "b");
}

#[test]
fn test_strict_mode_requires_matching_null_positions() {
    let df = frame(vec![f64_col("a", &[Some(1.0), None]), f64_col("b", &[Some(1.0), Some(5.0)])]);
    let result = fit_transform(DuplicateColumnRemover::new(), df);
    assert_eq!(result.width(), 2);
}

#[test]
fn test_strict_mode_null_positions_identical_is_duplicate() {
    let df = frame(vec![f64_col("a", &[Some(1.0), None]), f64_col("b", &[Some(1.0), None])]);
    let result = fit_transform(DuplicateColumnRemover::new(), df);
    assert_eq!(result.width(), 1);
}

#[test]
fn test_permissive_mode_null_equals_any_value() {
    let df = frame(vec![f64_col("a", &[Some(1.0), None]), f64_col("b", &[Some(1.0), Some(5.0)])]);
    let result = fit_transform(DuplicateColumnRemover::new().consider_nulls(true), df);
    assert_eq!(result.width(), 1);
    assert_eq!(result.get_column_names()[0].as_str(), "a");
}

#[test]
fn test_permissive_mode_null_only_column_duplicates_value_column() {
    let df = frame(vec![f64_col("n", &[None, None, None]), f64_col("v", &f(&[1.0, 2.0, 3.0]))]);
    let result = fit_transform(DuplicateColumnRemover::new().consider_nulls(true), df);
    assert_eq!(result.width(), 1);
}

#[test]
fn test_permissive_mode_still_detects_value_mismatches() {
    let df = frame(vec![f64_col("a", &f(&[1.0, 2.0])), f64_col("b", &f(&[1.0, 5.0]))]);
    let result = fit_transform(DuplicateColumnRemover::new().consider_nulls(true), df);
    assert_eq!(result.width(), 2);
}

#[test]
fn test_strict_mode_shifted_null_positions_not_duplicates() {
    let df = frame(vec![f64_col("a", &[Some(1.0), None]), f64_col("b", &[None, Some(1.0)])]);
    let result = fit_transform(DuplicateColumnRemover::new(), df);
    assert_eq!(result.width(), 2);
}

#[test]
fn test_permissive_mode_nan_equals_null() {
    let df = frame(vec![f64_col("nan", &[Some(f64::NAN)]), f64_col("null", &[None])]);
    let result = fit_transform(DuplicateColumnRemover::new().consider_nulls(true), df.copy());
    assert_eq!(result.width(), 1);
    let result = fit_transform(DuplicateColumnRemover::new(), df);
    assert_eq!(result.width(), 2);
}

#[test]
fn test_different_dtypes_not_duplicates() {
    let i = Series::new("i", DType::Int32, vec![Some(Value::Int(1)), Some(Value::Int(2)), Some(Value::Int(3))]);
    let df = frame(vec![i, f64_col("f", &f(&[1.0, 2.0, 3.0]))]);
    let result = fit_transform(DuplicateColumnRemover::new(), df);
    assert_eq!(result.width(), 2);
}

#[test]
fn test_nan_equal_to_nan() {
    let df = frame(vec![f64_col("a", &f(&[f64::NAN, 1.0])), f64_col("b", &f(&[f64::NAN, 1.0]))]);
    let result = fit_transform(DuplicateColumnRemover::new(), df);
    assert_eq!(result.width(), 1);
}

#[test]
fn duplicate_column_remover_test_transform_before_fit_errors() {
    let remover = DuplicateColumnRemover::new();
    assert!(matches!(remover.transform(make_df()), Err(Error::NotFitted(_))));
}

#[test]
fn duplicate_column_remover_test_empty_dataframe_errors() {
    let mut remover = DuplicateColumnRemover::new();
    assert!(matches!(remover.fit(Frame::empty()), Err(Error::InvalidInput(_))));
}

#[test]
fn duplicate_column_remover_test_transform_missing_column_errors() {
    let df = frame(vec![f64_col("a", &f(&[1.0, 2.0, 3.0])), f64_col("a_dup", &f(&[1.0, 2.0, 3.0]))]);
    let mut remover = DuplicateColumnRemover::new();
    remover.fit(df.copy()).unwrap();
    let only_dup = df.select(&vec!["a_dup".to_string()]).unwrap();
    assert!(matches!(remover.transform(only_dup), Err(Error::Computation(_))));
}

#[test]
fn duplicate_column_remover_test_refit_resets_state() {
    let df = frame(vec![f64_col("a", &f(&[1.0, 2.0, 3.0])), f64_col("a_dup", &f(&[1.0, 2.0, 3.0]))]);
    let mut remover = DuplicateColumnRemover::new();
    remover.fit(df.copy()).unwrap();
    assert!(remover.fit(Frame::empty()).is_err());
    assert!(matches!(remover.transform(df), Err(Error::NotFitted(_))));
}

#[test]
fn negative_zero_equals_zero() {
    let df = frame(vec![f64_col("a", &f(&[0.0, 1.0])), f64_col("b", &f(&[-0.0, 1.0]))]);
    let result = fit_transform(DuplicateColumnRemover::new(), df);
    assert_eq!(result.width(), 1);
}

#[test]
fn default_duplicate_remover_matches_new() {
    let mut a = DuplicateColumnRemover::default();
    let mut b = DuplicateColumnRemover::new();
    a.fit(make_df()).unwrap();
    b.fit(make_df()).unwrap();
    assert_eq!(format!("{:?}", a.transform(make_df()).unwrap()), format!("{:?}", b.transform(make_df()).unwrap()));
}
