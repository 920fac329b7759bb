use featrs::frame::{DType, Frame, Series, Value};
use featrs::preprocessing::log_transformer::{LogMethod, LogTransformer};
use featrs::traits::{Error, Fit};

fn f64_col(name: &str, vals: &[Option<f64>]) -> Series {
    let cells = vals.iter().map(|v| v.map(|x| Value::from_f64_bits(x.to_bits()))).collect();
    Series::new(name, DType::Float64, cells)
}

fn frame(cols: Vec<Series>) -> Frame {
    let h = cols.first().map(|c| c.len()).unwrap_or(0);
    Frame::new(h, cols).unwrap()
}

fn one(v: f64) -> Frame {
    frame(vec![f64_col("a", &[Some(v)])])
}

fn base(b: f64) -> LogMethod {
    LogMethod::LogBase(b.to_bits())
}

#[test]
fn test_check_positive_errors_on_violations() {
    let df = frame(vec![
        f64_col("x", &[Some(1.0), Some(0.0), Some(-2.0)]),
        f64_col("y", &[Some(-1.0), Some(5.0), Some(3.0)]),
    ]);
    let mut transformer = LogTransformer::new().method(LogMethod::Ln);
    let result = transformer.fit(df);
    assert!(result.is_err(), "check_positive must reject non-positive values");
    let err = result.unwrap_err().message();
    assert!(err.contains("x"), "error must mention column 'x'");
    assert!(err.contains("y"), "error must mention column 'y'");
}

#[test]
fn test_log1p_exactly_negative_one_with_check_positive() {
    let df = frame(vec![f64_col("x", &[Some(-1.0)])]);
    let mut transformer = LogTransformer::new().method(LogMethod::Log1p);
    assert!(transformer.fit(df).is_err(), "Log1p with x = -1 must error when check_positive=true");
}

#[test]
fn check_positive_false_fits_negative_values() {
    let df = frame(vec![f64_col("x", &[Some(-1.0)])]);
    let mut transformer = LogTransformer::new().method(LogMethod::Log1p).check_positive(false);
    transformer.fit(df).unwrap();
    assert_eq!(transformer.fitted_columns().unwrap(), &vec!["x".to_string()]);
}

#[test]
fn test_user_column_not_found() {
    let df = frame(vec![f64_col("a", &[Some(1.0), Some(2.0)])]);
    let mut transformer = LogTransformer::new().columns(&["nonexistent"]);
    let result = transformer.fit(df);
    assert!(result.is_err());
    assert!(result.unwrap_err().message().contains("nonexistent"));
}

#[test]
fn test_user_column_wrong_dtype() {
    let ints = Series::new("a", DType::Int64, vec![Some(Value::Int(1)), Some(Value::Int(2)), Some(Value::Int(3))]);
    let df = frame(vec![ints]);
    let mut transformer = LogTransformer::new().columns(&["a"]);
    let result = transformer.fit(df);
    assert!(result.is_err());
    let err = result.unwrap_err().message();
    assert!(err.contains("expected Float64"), "error must mention expected dtype Float64, got: {err}");
}

#[test]
fn log_transformer_test_all_null_column_error() {
    let df = frame(vec![f64_col("x", &[None, None, None])]);
    let mut transformer = LogTransformer::new();
    let result = transformer.fit(df);
    assert!(result.is_err(), "fitting an all-null column must error");
    assert!(matches!(result, Err(Error::Computation(_))));
}

#[test]
fn test_all_nan_column_error() {
    let df = frame(vec![f64_col("x", &[Some(f64::NAN), Some(f64::NAN), Some(f64::NAN)])]);
    let mut transformer = LogTransformer::new();
    assert!(transformer.fit(df).is_err(), "fitting an all-NaN column must error");
}

#[test]
fn log_transformer_test_empty_dataframe_error() {
    let mut transformer = LogTransformer::new();
    assert!(transformer.fit(Frame::empty()).is_err());
}

#[test]
fn test_empty_columns_list_error() {
    let df = frame(vec![f64_col("a", &[Some(1.0), Some(2.0)])]);
    let mut transformer = LogTransformer::new().columns(&[]);
    assert!(transformer.fit(df).is_err());
}

#[test]
fn test_invalid_log_base_zero() {
    let mut transformer = LogTransformer::new().method(base(0.0));
    assert!(transformer.fit(one(1.0)).is_err());
}

#[test]
fn test_invalid_log_base_one() {
    let mut transformer = LogTransformer::new().method(base(1.0));
    assert!(transformer.fit(one(1.0)).is_err());
}

#[test]
fn test_invalid_log_base_negative() {
    let mut transformer = LogTransformer::new().method(base(-2.0));
    assert!(transformer.fit(one(1.0)).is_err());
}

#[test]
fn test_invalid_log_base_nan() {
    let mut transformer = LogTransformer::new().method(base(f64::NAN));
    assert!(transformer.fit(one(1.0)).is_err());
}

#[test]
fn test_invalid_log_base_infinite() {
    let mut transformer = LogTransformer::new().method(base(f64::INFINITY));
    assert!(transformer.fit(one(1.0)).is_err());
}

#[test]
fn test_default_is_log1p() {
    let mut t = LogTransformer::default();
    assert!(t.fit(frame(vec![f64_col("x", &[Some(0.0)])])).is_ok(), "default LogTransformer must be Log1p (safe at zero)");
    assert_eq!(t.log_method(), LogMethod::Log1p);
}

#[test]
fn log_transformer_test_no_float64_columns_error() {
    let a = Series::new("a", DType::Int64, vec![Some(Value::Int(1)), Some(Value::Int(2)), Some(Value::Int(3))]);
    let b = Series::new("b", DType::Utf8, ["x", "y", "z"].iter().map(|s| Some(Value::Str(s.to_string()))).collect());
    let mut transformer = LogTransformer::new();
    assert!(transformer.fit(frame(vec![a, b])).is_err());
}

#[test]
fn fit_resolves_columns_and_keeps_state_on_failure() {
    let df = frame(vec![
        f64_col("a", &[Some(1.0), Some(f64::NAN)]),
        Series::new("s", DType::Utf8, vec![None, None]),
        f64_col("b", &[Some(2.0), None]),
    ]);
    let mut t = LogTransformer::new().method(base(3.0));
    assert!(t.fitted_columns().is_none());
    t.fit(df.copy()).unwrap();
    assert_eq!(t.fitted_columns().unwrap(), &vec!["a".to_string(), "b".to_string()]);
    // a failed refit leaves the earlier fit in place
    let bad = frame(vec![f64_col("a", &[Some(-5.0)])]);
    assert!(matches!(t.fit(bad), Err(Error::InvalidInput(_))));
    assert_eq!(t.fitted_columns().unwrap(), &vec!["a".to_string(), "b".to_string()]);
    // the smallest positive float and -0.0: only the former is in the domain of Ln
    let mut ln = LogTransformer::new().method(LogMethod::Ln);
    assert!(ln.fit(frame(vec![f64_col("t", &[Some(f64::from_bits(1))])])).is_ok());
    assert!(ln.fit(frame(vec![f64_col("t", &[Some(-0.0)])])).is_err());
}

#[test]
fn fit_auto_discovery_takes_only_float64_columns() {
    let df = frame(vec![
        f64_col("f64_col", &[Some(1.0), Some(2.0), Some(3.0)]),
        Series::new("i64_col", DType::Int64, vec![Some(Value::Int(1)), Some(Value::Int(2)), Some(Value::Int(3))]),
        Series::new("str_col", DType::Utf8, ["a", "b", "c"].iter().map(|s| Some(Value::Str(s.to_string()))).collect()),
    ]);
    let mut t = LogTransformer::new();
    t.fit(df).unwrap();
    assert_eq!(t.fitted_columns().unwrap(), &vec!["f64_col".to_string()]);
}

#[test]
fn fit_accepts_constant_column() {
    let mut t = LogTransformer::new().method(LogMethod::Log10);
    t.fit(frame(vec![f64_col("x", &[Some(5.0), Some(5.0), Some(5.0)])])).unwrap();
    assert_eq!(t.fitted_columns().unwrap(), &vec!["x".to_string()]);
}

#[test]
fn fit_accepts_tiny_positive_values_for_ln() {
    let mut t = LogTransformer::new().method(LogMethod::Ln);
    assert!(t.fit(frame(vec![f64_col("x", &[Some(1e-300)])])).is_ok());
}

#[test]
fn fit_accepts_partial_nan_for_ln() {
    let mut t = LogTransformer::new().method(LogMethod::Ln);
    assert!(t.fit(frame(vec![f64_col("x", &[Some(1.0), Some(f64::NAN), Some(5.0)])])).is_ok());
}

#[test]
fn fit_accepts_partial_null_for_ln() {
    let mut t = LogTransformer::new().method(LogMethod::Ln);
    assert!(t.fit(frame(vec![f64_col("x", &[Some(1.0), None, Some(std::f64::consts::E)])])).is_ok());
}

#[test]
fn positivity_message_counts_and_states_the_requirement() {
    let mut t = LogTransformer::new().method(LogMethod::Ln);
    let err = t.fit(frame(vec![f64_col("x", &[Some(1.0), Some(0.0), Some(-2.0)])])).unwrap_err();
    assert_eq!(
        err.message(),
        "invalid input: LogTransformer.fit: 1 column(s) violate the positivity requirement:\n  column 'x' contains 2 value(s) ≤ 0 (requires x > 0)"
    );
}
