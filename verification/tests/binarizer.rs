use featrs::frame::{DType, Frame, Series, Value};
use featrs::preprocessing::binarizer::{greater_than, Binarizer};
use featrs::traits::{Error, Fit, Transform};

fn f64_col(name: &str, vals: &[Option<f64>]) -> Series {
    let cells = vals.iter().map(|v| v.map(|x| Value::from_f64_bits(x.to_bits()))).collect();
    Series::new(name, DType::Float64, cells)
}

fn floats(df: &Frame, name: &str) -> Vec<Option<f64>> {
    df.column(name)
        .unwrap()
        .values
        .iter()
        .map(|c| match c {
            Some(Value::Float(b)) => Some(f64::from_bits(*b)),
            None => None,
            other => panic!("unexpected cell {other:?}"),
        })
        .collect()
}

fn assert_close(a: f64, b: f64) {
    assert!((a - b).abs() <= 1e-6, "{a} != {b}");
}

#[test]
fn test_binarizer_default() {
    let mut b = Binarizer::default();
    let df = Frame::new(3, vec![f64_col("x", &[Some(-1.0), Some(0.0), Some(2.0)])]).unwrap();
    b.fit(df.copy()).unwrap();
    let result = b.transform(df).unwrap();
    let vals: Vec<f64> = floats(&result, "x").into_iter().flatten().collect();
    assert_close(vals[0], 0.0);
    assert_close(vals[1], 0.0);
    assert_close(vals[2], 1.0);
}

#[test]
fn test_binarizer_custom_threshold() {
    let mut b = Binarizer::new(5.0_f64.to_bits());
    let df = Frame::new(3, vec![f64_col("x", &[Some(1.0), Some(5.0), Some(10.0)])]).unwrap();
    b.fit(df.copy()).unwrap();
    let result = b.transform(df).unwrap();
    let vals: Vec<f64> = floats(&result, "x").into_iter().flatten().collect();
    assert_close(vals[0], 0.0);
    assert_close(vals[1], 0.0);
    assert_close(vals[2], 1.0);
}

#[test]
fn test_binarizer_empty_rows_rejected() {
    let df = Frame::new(0, vec![f64_col("x", &[])]).unwrap();
    let mut b = Binarizer::new(0.5_f64.to_bits());
    let result = b.fit(df);
    assert!(result.is_err(), "a 0-row DataFrame should be rejected at fit time");
    let err = result.unwrap_err();
    assert!(err.message().contains("empty DataFrame"), "error message should mention the empty DataFrame");
}

#[test]
fn nulls_and_nans_pass_through_and_other_columns_stay() {
    let ints = Series::new("i", DType::Int64, vec![Some(Value::Int(7)), Some(Value::Int(-7)), None]);
    let df = Frame::new(3, vec![f64_col("x", &[Some(f64::NAN), None, Some(0.5)]), ints]).unwrap();
    let mut b = Binarizer::new(0.5_f64.to_bits());
    b.fit(df.copy()).unwrap();
    let out = b.transform(df).unwrap();
    let x = floats(&out, "x");
    assert!(x[0].unwrap().is_nan());
    assert_eq!(x[1], None);
    assert_eq!(x[2], Some(0.0));
    assert!(matches!(out.column("i").unwrap().values[0], Some(Value::Int(7))));
    assert!(matches!(Binarizer::default().transform(out), Err(Error::NotFitted(_))));
}

#[test]
fn greater_than_orders_floats() {
    let cases = [(1.0, 0.5, true), (-0.0, 0.0, false), (0.0, -0.0, false), (-1.0, -2.0, true), (-3.0, -2.0, false)];
    for (a, t, want) in cases {
        assert_eq!(greater_than(f64::to_bits(a), f64::to_bits(t)), want, "{a} > {t}");
    }
    assert!(!greater_than(f64::NAN.to_bits(), 0.0_f64.to_bits()));
    assert!(greater_than(f64::INFINITY.to_bits(), f64::MAX.to_bits()));
}
