use featrs::frame::{DType, Frame, Series, Value};
use featrs::preprocessing::max_abs_scaler::MaxAbsScaler;
use featrs::traits::{Error, Fit};

fn f64_col(name: &str, vals: &[Option<f64>]) -> Series {
    let cells = vals.iter().map(|v| v.map(|x| Value::from_f64_bits(x.to_bits()))).collect();
    Series::new(name, DType::Float64, cells)
}

fn frame(cols: Vec<Series>) -> Frame {
    let h = cols.first().map(|c| c.len()).unwrap_or(0);
    Frame::new(h, cols).unwrap()
}

fn maxima(s: &MaxAbsScaler) -> Vec<(String, f64)> {
    let (names, bits) = s.scales().unwrap();
    names.iter().cloned().zip(bits.iter().map(|b| f64::from_bits(*b))).collect()
}

#[test]
fn maxima_of_absolute_finite_values() {
    let df = frame(vec![
        f64_col("a", &[Some(-3.0), Some(2.0), None, Some(f64::INFINITY), Some(f64::NAN)]),
        Series::new("s", DType::Utf8, vec![None; 5]),
        f64_col("b", &[Some(0.0), Some(-0.0), Some(0.0), Some(0.0), Some(0.0)]),
    ]);
    let mut s = MaxAbsScaler::new();
    assert!(s.scales().is_none());
    s.fit(df).unwrap();
    assert_eq!(maxima(&s), vec![("a".to_string(), 3.0), ("b".to_string(), 0.0)]);
}

#[test]
fn max_abs_fit_errors() {
    let mut s = MaxAbsScaler::default();
    assert!(matches!(s.fit(Frame::empty()), Err(Error::InvalidInput(_))));
    let strings = frame(vec![Series::new("s", DType::Utf8, vec![Some(Value::Str("x".into()))])]);
    assert!(matches!(s.fit(strings), Err(Error::InvalidInput(_))));
    let nan_only = frame(vec![f64_col("a", &[Some(f64::NAN), None, Some(f64::NEG_INFINITY)])]);
    assert!(matches!(s.fit(nan_only), Err(Error::Computation(_))));
    // a failed refit leaves the scaler unfitted
    s.fit(frame(vec![f64_col("a", &[Some(1.0)])])).unwrap();
    assert!(s.fit(Frame::empty()).is_err());
    assert!(s.scales().is_none());
}

#[test]
fn test_fit_empty_dataframe_errors() {
    let mut scaler = MaxAbsScaler::new();
    assert!(scaler.fit(Frame::empty()).is_err());
}

#[test]
fn test_fit_zero_columns_errors() {
    let df = Frame::new(5, Vec::new()).unwrap();
    let mut scaler = MaxAbsScaler::new();
    assert!(scaler.fit(df).is_err());
}

#[test]
fn test_all_null_column_errors_at_fit() {
    let mut scaler = MaxAbsScaler::new();
    assert!(scaler.fit(frame(vec![f64_col("x", &[None, None, None])])).is_err());
}

#[test]
fn test_all_nan_column_errors_at_fit() {
    let mut scaler = MaxAbsScaler::new();
    assert!(scaler.fit(frame(vec![f64_col("x", &[Some(f64::NAN); 3])])).is_err());
}

#[test]
fn test_all_inf_column_errors_at_fit() {
    let mut scaler = MaxAbsScaler::new();
    assert!(scaler.fit(frame(vec![f64_col("x", &[Some(f64::INFINITY); 3])])).is_err());
}

#[test]
fn max_abs_scaler_test_failed_refit_resets_state() {
    let mut scaler = MaxAbsScaler::new();
    scaler.fit(frame(vec![f64_col("x", &[Some(1.0), Some(-2.0)])])).unwrap();
    assert!(scaler.scales().is_some());
    assert!(scaler.fit(Frame::empty()).is_err());
    assert!(scaler.scales().is_none(), "a failed refit must leave the scaler unfitted");
}

fn fitted(cols: Vec<Series>) -> Vec<(String, f64)> {
    let mut s = MaxAbsScaler::new();
    s.fit(frame(cols)).unwrap();
    maxima(&s)
}

#[test]
fn fit_learns_maximum_absolute_value_per_column() {
    let m = fitted(vec![f64_col("a", &[Some(1.0), Some(-2.0)]), f64_col("b", &[Some(0.5), Some(1.0)])]);
    assert_eq!(m, vec![("a".to_string(), 2.0), ("b".to_string(), 1.0)]);
}

#[test]
fn fit_negative_values_give_their_magnitude() {
    assert_eq!(fitted(vec![f64_col("x", &[Some(-5.0), Some(3.0)])]), vec![("x".to_string(), 5.0)]);
}

#[test]
fn fit_with_zeros_learns_largest_magnitude() {
    let m = fitted(vec![f64_col("x", &[Some(0.0), Some(2.0), Some(-4.0), Some(0.0)])]);
    assert_eq!(m, vec![("x".to_string(), 4.0)]);
}

#[test]
fn fit_all_zero_column_learns_zero() {
    let m = fitted(vec![f64_col("zero", &[Some(0.0), Some(0.0), Some(0.0)]), f64_col("x", &[Some(2.0), Some(4.0), Some(8.0)])]);
    assert_eq!(m, vec![("zero".to_string(), 0.0), ("x".to_string(), 8.0)]);
}

#[test]
fn fit_ignores_nan() {
    assert_eq!(fitted(vec![f64_col("x", &[Some(1.0), Some(f64::NAN), Some(-4.0)])]), vec![("x".to_string(), 4.0)]);
}

#[test]
fn fit_skips_non_float64_columns() {
    let label = Series::new("label", DType::Utf8, vec![Some(Value::Str("a".into())), Some(Value::Str("b".into()))]);
    let m = fitted(vec![f64_col("x", &[Some(1.0), Some(2.0)]), label]);
    assert_eq!(m, vec![("x".to_string(), 2.0)]);
}

#[test]
fn fit_single_column() {
    assert_eq!(fitted(vec![f64_col("x", &[Some(3.0), Some(-6.0)])]), vec![("x".to_string(), 6.0)]);
}
