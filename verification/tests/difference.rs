use featrs::frame::{DType, Frame, Series, Value};
use featrs::time_series::diff::check_difference_columns;
use featrs::traits::Error;

fn frame() -> Frame {
    let v = Series::new("value", DType::Float64, vec![Some(Value::from_f64_bits(1.5f64.to_bits())), None]);
    let t = Series::new("tag", DType::Utf8, vec![None, Some(Value::Str("x".into()))]);
    Frame::new(2, vec![v, t]).unwrap()
}

#[test]
fn difference_columns_present() {
    let cols = vec!["value".to_string(), "tag".to_string()];
    assert!(check_difference_columns(&frame(), &cols).is_ok());
}

#[test]
fn difference_columns_errors() {
    assert!(matches!(check_difference_columns(&frame(), &vec![]), Err(Error::InvalidInput(_))));
    let cols = vec!["value".to_string(), "missing".to_string()];
    match check_difference_columns(&frame(), &cols) {
        Err(Error::InvalidInput(m)) => assert!(m.contains("'missing'")),
        other => panic!("unexpected {other:?}"),
    }
}
