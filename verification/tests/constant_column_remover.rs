use featrs::frame::{DType, Frame, Series, Value};
use featrs::preprocessing::constant_column_remover::ConstantColumnRemover;
use featrs::traits::{Error, Fit, Transform};

fn f64_col(name: &str, vals: &[Option<f64>]) -> Series {
    let cells = vals.iter().map(|v| v.map(|x| Value::from_f64_bits(x.to_bits()))).collect();
    Series::new(name, DType::Float64, cells)
}

fn str_col(name: &str, vals: &[&str]) -> Series {
    let cells = vals.iter().map(|v| Some(Value::Str(v.to_string()))).collect();
    Series::new(name, DType::Utf8, cells)
}

fn frame(cols: Vec<Series>) -> Frame {
    let h = cols.first().map(|c| c.len()).unwrap_or(0);
    Frame::new(h, cols).unwrap()
}

fn names(f: &Frame) -> Vec<String> {
    f.get_column_names()
}

fn make_df() -> Frame {
    frame(vec![
        f64_col("const", &[Some(1.0), Some(1.0), Some(1.0)]),
        f64_col("varying", &[Some(1.0), Some(2.0), Some(3.0)]),
    ])
}

#[test]
fn test_removes_constant_column() {
    let mut remover = ConstantColumnRemover::new();
    let df = make_df();
    remover.fit(df.copy()).unwrap();
    let result = remover.transform(df).unwrap();
    assert_eq!(result.width(), 1);
    assert_eq!(names(&result)[0].as_str(), "varying");
}

#[test]
fn test_no_constant_columns_pass_through() {
    let df = frame(vec![f64_col("a", &[Some(1.0), Some(2.0), Some(3.0)]), str_col("b", &["x", "y", "z"])]);
    let mut remover = ConstantColumnRemover::new();
    remover.fit(df.copy()).unwrap();
    let result = remover.transform(df).unwrap();
    assert_eq!(result.width(), 2);
}

#[test]
fn test_all_constant_errors() {
    let df = frame(vec![f64_col("a", &[Some(1.0), Some(1.0), Some(1.0)]), str_col("b", &["x", "x", "x"])]);
    let mut remover = ConstantColumnRemover::new();
    assert!(matches!(remover.fit(df), Err(Error::InvalidInput(_))));
}

#[test]
fn test_null_only_column_removed_by_default() {
    let df = frame(vec![f64_col("nulls", &[None, None, None]), f64_col("varying", &[Some(1.0), Some(2.0), Some(3.0)])]);
    let mut remover = ConstantColumnRemover::new();
    remover.fit(df.copy()).unwrap();
    let result = remover.transform(df).unwrap();
    assert_eq!(result.width(), 1);
    assert_eq!(names(&result)[0].as_str(), "varying");
}

#[test]
fn test_null_only_column_preserved_with_ignore_nulls_false() {
    let df = frame(vec![f64_col("nulls", &[None, None, None]), f64_col("varying", &[Some(1.0), Some(2.0), Some(3.0)])]);
    let mut remover = ConstantColumnRemover::new().ignore_nulls(false);
    remover.fit(df.copy()).unwrap();
    let result = remover.transform(df).unwrap();
    assert_eq!(result.width(), 2);
}

#[test]
fn test_single_distinct_non_null_with_nulls_removed_by_default() {
    let df = frame(vec![
        f64_col("a", &[Some(1.0), None, Some(1.0)]),
        f64_col("b", &[Some(2.0), None, Some(3.0)]),
    ]);
    let mut remover = ConstantColumnRemover::new();
    remover.fit(df.copy()).unwrap();
    let result = remover.transform(df).unwrap();
    assert_eq!(result.width(), 1);
    assert_eq!(names(&result)[0].as_str(), "b");
}

#[test]
fn test_null_preserved_with_ignore_nulls_false() {
    let df = frame(vec![f64_col("a", &[Some(1.0), None, Some(1.0)])]);
    let mut remover = ConstantColumnRemover::new().ignore_nulls(false);
    remover.fit(df.copy()).unwrap();
    let result = remover.transform(df).unwrap();
    assert_eq!(result.width(), 1);
}

#[test]
fn test_null_free_constant_removed_with_ignore_nulls_false() {
    let df = frame(vec![
        f64_col("const", &[Some(7.0), Some(7.0), Some(7.0)]),
        f64_col("varying", &[Some(1.0), Some(2.0), Some(3.0)]),
    ]);
    let mut remover = ConstantColumnRemover::new().ignore_nulls(false);
    remover.fit(df.copy()).unwrap();
    let result = remover.transform(df).unwrap();
    assert_eq!(result.width(), 1);
    assert_eq!(names(&result)[0].as_str(), "varying");
}

#[test]
fn constant_column_remover_test_transform_missing_column_errors() {
    let df = frame(vec![
        f64_col("a", &[Some(1.0), Some(1.0), Some(1.0)]),
        f64_col("b", &[Some(1.0), Some(2.0), Some(3.0)]),
    ]);
    let mut remover = ConstantColumnRemover::new();
    remover.fit(df.copy()).unwrap();
    let only_a = df.select(&vec!["a".to_string()]).unwrap();
    assert!(matches!(remover.transform(only_a), Err(Error::Computation(_))));
}

#[test]
fn test_string_constant_removed() {
    let df = frame(vec![str_col("s", &["x", "x", "x"]), str_col("varying", &["a", "b", "c"])]);
    let mut remover = ConstantColumnRemover::new();
    remover.fit(df.copy()).unwrap();
    let result = remover.transform(df).unwrap();
    assert_eq!(result.width(), 1);
    assert_eq!(names(&result)[0].as_str(), "varying");
}

#[test]
fn test_bool_constant_removed() {
    let b = Series::new("b", DType::Boolean, vec![Some(Value::Bool(true)); 3]);
    let df = frame(vec![b, f64_col("varying", &[Some(1.0), Some(2.0), Some(3.0)])]);
    let mut remover = ConstantColumnRemover::new();
    remover.fit(df.copy()).unwrap();
    let result = remover.transform(df).unwrap();
    assert_eq!(result.width(), 1);
}

#[test]
fn test_int_non_constant_kept() {
    let a = Series::new("a", DType::Int32, vec![Some(Value::Int(1)), Some(Value::Int(1)), Some(Value::Int(2))]);
    let df = frame(vec![a]);
    let mut remover = ConstantColumnRemover::new();
    remover.fit(df.copy()).unwrap();
    let result = remover.transform(df).unwrap();
    assert_eq!(result.width(), 1);
}

#[test]
fn test_single_row_all_constant_errors() {
    let df = frame(vec![f64_col("a", &[Some(1.0)]), str_col("b", &["x"])]);
    let mut remover = ConstantColumnRemover::new();
    assert!(matches!(remover.fit(df), Err(Error::InvalidInput(_))));
}

#[test]
fn constant_column_remover_test_transform_before_fit_errors() {
    let remover = ConstantColumnRemover::new();
    let df = make_df();
    assert!(matches!(remover.transform(df), Err(Error::NotFitted(_))));
}

#[test]
fn constant_column_remover_test_empty_dataframe_errors() {
    let df = Frame::empty();
    let mut remover = ConstantColumnRemover::new();
    assert!(matches!(remover.fit(df), Err(Error::InvalidInput(_))));
}

#[test]
fn nan_values_group_together() {
    let df = frame(vec![
        f64_col("nan", &[Some(f64::NAN), Some(f64::NAN), Some(f64::NAN)]),
        f64_col("mixed", &[Some(f64::NAN), Some(1.0), Some(f64::NAN)]),
    ]);
    let mut remover = ConstantColumnRemover::new();
    remover.fit(df.copy()).unwrap();
    let result = remover.transform(df).unwrap();
    assert_eq!(names(&result), vec!["mixed".to_string()]);
}

#[test]
fn default_remover_matches_new() {
    let mut a = ConstantColumnRemover::default();
    let mut b = ConstantColumnRemover::new();
    a.fit(make_df()).unwrap();
    b.fit(make_df()).unwrap();
    assert_eq!(format!("{:?}", a.transform(make_df()).unwrap()), format!("{:?}", b.transform(make_df()).unwrap()));
}
