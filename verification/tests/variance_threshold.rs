use featrs::feature_selection::variance_threshold::variance_candidates;
use featrs::frame::{DType, Frame, Series, Value};
use featrs::traits::Error;

fn f64_col(name: &str, vals: &[Option<f64>]) -> Series {
    let cells = vals.iter().map(|v| v.map(|x| Value::from_f64_bits(x.to_bits()))).collect();
    Series::new(name, DType::Float64, cells)
}

#[test]
fn candidates_keep_non_nan_values_of_float_columns() {
    let df = Frame::new(
        3,
        vec![
            f64_col("a", &[Some(1.0), Some(f64::NAN), Some(f64::INFINITY)]),
            Series::new("s", DType::Utf8, vec![None, None, None]),
            f64_col("nan", &[Some(f64::NAN), None, None]),
            f64_col("b", &[None, Some(-2.5), Some(4.0)]),
        ],
    )
    .unwrap();
    let out = variance_candidates(&df).unwrap();
    let got: Vec<(String, Vec<f64>)> =
        out.iter().map(|(n, b)| (n.clone(), b.iter().map(|x| f64::from_bits(*x)).collect())).collect();
    assert_eq!(
        got,
        vec![("a".to_string(), vec![1.0, f64::INFINITY]), ("b".to_string(), vec![-2.5, 4.0])]
    );
}

#[test]
fn candidates_reject_empty_frames() {
    assert!(matches!(variance_candidates(&Frame::empty()), Err(Error::InvalidInput(_))));
    let no_rows = Frame::new(0, vec![f64_col("a", &[])]).unwrap();
    assert!(matches!(variance_candidates(&no_rows), Err(Error::InvalidInput(_))));
    let strings = Frame::new(1, vec![Series::new("s", DType::Utf8, vec![None])]).unwrap();
    assert_eq!(variance_candidates(&strings).unwrap().len(), 0);
}
