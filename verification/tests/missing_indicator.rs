use featrs::frame::{DType, Frame, Series, Value};
use featrs::preprocessing::missing_indicator::MissingIndicator;
use featrs::traits::missing_indicator::MissingIndicator as SupervisedIndicator;
use featrs::traits::{Error, Fit, FitSupervised, Transform};

fn f64_col(name: &str, vals: &[Option<f64>]) -> Series {
    let cells = vals.iter().map(|v| v.map(|x| Value::from_f64_bits(x.to_bits()))).collect();
    Series::new(name, DType::Float64, cells)
}

fn frame(cols: Vec<Series>) -> Frame {
    let h = cols.first().map(|c| c.len()).unwrap_or(0);
    Frame::new(h, cols).unwrap()
}

fn f64_values(f: &Frame, name: &str) -> Vec<f64> {
    f.column(name)
        .unwrap()
        .values
        .iter()
        .map(|v| match v {
            Some(Value::Float(b)) => f64::from_bits(*b),
            _ => panic!("expected a float"),
        })
        .collect()
}

#[test]
fn test_missing_indicator_schema_stability() {
    let df_nulls = frame(vec![f64_col("x", &[Some(1.0), None, Some(3.0)])]);
    let df_no_nulls = frame(vec![f64_col("x", &[Some(4.0), Some(5.0), Some(6.0)])]);
    let mut ind = MissingIndicator::new(&["x"]);
    ind.fit(df_nulls).unwrap();
    let result = ind.transform(df_no_nulls).unwrap();
    assert_eq!(result.width(), 2);
    assert_eq!(f64_values(&result, "x_missing"), vec![0.0, 0.0, 0.0]);
}

#[test]
fn missing_indicator_test_missing_indicator() {
    let df = frame(vec![f64_col("x", &[Some(1.0), None, Some(3.0)])]);
    let mut ind = MissingIndicator::new(&["x"]);
    ind.fit(df.copy()).unwrap();
    let result = ind.transform(df).unwrap();
    assert_eq!(result.width(), 2);
    assert_eq!(f64_values(&result, "x_missing"), vec![0.0, 1.0, 0.0]);
}

#[test]
fn test_missing_indicator() {
    let df = frame(vec![f64_col("x", &[Some(1.0), None, Some(3.0)])]);
    let mut ind = SupervisedIndicator::new(&["x"]);
    let y = df.copy();
    ind.fit(df.copy(), y).unwrap();
    let result = ind.transform(df).unwrap();
    assert_eq!(result.width(), 2);
    assert_eq!(f64_values(&result, "x_missing"), vec![0.0, 1.0, 0.0]);
}

#[test]
fn supervised_indicator_always_adds_indicators() {
    let fit_df = frame(vec![f64_col("x", &[Some(1.0), None, Some(3.0)])]);
    let mut ind = SupervisedIndicator::new(&["x"]);
    ind.fit(fit_df.copy(), fit_df).unwrap();
    let df = frame(vec![f64_col("x", &[Some(4.0), Some(5.0), Some(6.0)])]);
    let out = ind.transform(df).unwrap();
    assert_eq!(out.get_column_names(), vec!["x".to_string(), "x_missing".to_string()]);
    assert_eq!(f64_values(&out, "x_missing"), vec![0.0, 0.0, 0.0]);
}

#[test]
fn indicator_all_and_errors() {
    let df = frame(vec![f64_col("a", &[None, Some(1.0)]), f64_col("b", &[Some(2.0), Some(3.0)])]);
    let mut ind = MissingIndicator::all();
    ind.fit(df.copy()).unwrap();
    let out = ind.transform(df.copy()).unwrap();
    assert_eq!(
        out.get_column_names(),
        vec!["a".to_string(), "b".to_string(), "a_missing".to_string(), "b_missing".to_string()]
    );
    assert!(matches!(MissingIndicator::new(&["x"]).transform(df.copy()), Err(Error::NotFitted(_))));
    let mut missing = MissingIndicator::new(&["zzz"]);
    assert!(matches!(missing.fit(df), Err(Error::InvalidInput(_))));
}
