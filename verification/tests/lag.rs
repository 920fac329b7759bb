use featrs::frame::{DType, Frame, Series, Value};
use featrs::time_series::lag::Lagger;
use featrs::traits::{Error, Fit, Transform};

fn f64_col(name: &str, vals: &[f64]) -> Series {
    let cells = vals.iter().map(|x| Some(Value::from_f64_bits(x.to_bits()))).collect();
    Series::new(name, DType::Float64, cells)
}

fn frame(cols: Vec<Series>) -> Frame {
    let h = cols.first().map(|c| c.len()).unwrap_or(0);
    Frame::new(h, cols).unwrap()
}

#[test]
fn test_lagger() {
    let df = frame(vec![f64_col("x", &[1.0, 2.0, 3.0, 4.0, 5.0])]);
    let mut lagger = Lagger::new(&["x"], &[1, 2]);
    lagger.fit(df.copy()).unwrap();
    let result = lagger.transform(df).unwrap();
    assert_eq!(result.width(), 3);
    assert_eq!(result.height(), 5);
}

#[test]
fn test_lagger_duplicate_periods_rejected() {
    let df = frame(vec![f64_col("x", &[1.0, 2.0, 3.0, 4.0, 5.0])]);
    let mut lagger = Lagger::new(&["x"], &[1, 1]);
    let result = lagger.fit(df);
    assert!(result.is_err(), "duplicate periods should be rejected at fit");
    let payload = match result.unwrap_err() {
        Error::InvalidInput(msg) => msg,
        other => panic!("expected Error::InvalidInput, got {other:?}"),
    };
    assert!(payload.contains("duplicate period"), "error message should mention 'duplicate period', got: {payload}");
    assert!(
        payload.contains(" 1 ") || payload.contains(" 1,"),
        "error message should contain the duplicate value '1', got: {payload}"
    );
    assert!(payload.contains("[1, 1]"), "error message should contain the full periods list '[1, 1]', got: {payload}");
}

#[test]
fn test_lagger_integration() {
    let df = frame(vec![f64_col("sales", &[1.0, 2.0, 3.0, 4.0, 5.0])]);
    let mut lagger = Lagger::new(&["sales"], &[1]);
    lagger.fit(df.copy()).unwrap();
    let result = lagger.transform(df).unwrap();
    let names = result.get_column_names();
    assert!(names.iter().any(|n| n.contains("lag")), "expected a lag column, got {names:?}");
    assert_eq!(result.height(), 5);
}

#[test]
fn lag_values_shift_down_with_nulls_on_top() {
    let df = frame(vec![f64_col("x", &[1.0, 2.0, 3.0])]);
    let mut lagger = Lagger::new(&["x"], &[2, -1]);
    lagger.fit(df.copy()).unwrap();
    let out = lagger.transform(df).unwrap();
    let lag2 = &out.column("x_lag_2").unwrap().values;
    assert!(lag2[0].is_none() && lag2[1].is_none());
    assert!(matches!(lag2[2], Some(Value::Float(b)) if f64::from_bits(b) == 1.0));
    let lead = &out.column("x_lag_-1").unwrap().values;
    assert!(matches!(lead[0], Some(Value::Float(b)) if f64::from_bits(b) == 2.0));
    assert!(lead[2].is_none());
}

#[test]
fn duplicate_period_message_lists_every_period() {
    let df = frame(vec![f64_col("x", &[1.0, 2.0, 3.0, 4.0, 5.0])]);
    let mut lagger = Lagger::new(&["x"], &[-2, 3, -2]);
    match lagger.fit(df) {
        Err(Error::InvalidInput(msg)) => assert!(msg.contains("[-2, 3, -2]"), "got: {msg}"),
        other => panic!("expected InvalidInput, got {other:?}"),
    }
}
