use featrs::frame::{DType, Frame, Series, Value};
use featrs::preprocessing::sorted_values::sorted_finite_columns;
use featrs::traits::Error;

fn f64_col(name: &str, vals: &[Option<f64>]) -> Series {
    let cells = vals.iter().map(|v| v.map(|x| Value::from_f64_bits(x.to_bits()))).collect();
    Series::new(name, DType::Float64, cells)
}

fn frame(cols: Vec<Series>) -> Frame {
    let h = cols.first().map(|c| c.len()).unwrap_or(0);
    Frame::new(h, cols).unwrap()
}

fn floats(out: &[(String, Vec<u64>)]) -> Vec<(String, Vec<f64>)> {
    out.iter().map(|(n, b)| (n.clone(), b.iter().map(|x| f64::from_bits(*x)).collect())).collect()
}

#[test]
fn discovered_columns_are_sorted_without_non_finite_values() {
    let df = frame(vec![
        f64_col("a", &[Some(3.0), None, Some(-1.5), Some(f64::NAN), Some(2.0), Some(f64::INFINITY)]),
        Series::new("s", DType::Utf8, vec![None; 6]),
        f64_col("b", &[Some(0.0), Some(-7.0), Some(-7.0), Some(1e300), Some(-0.25), Some(f64::NEG_INFINITY)]),
    ]);
    let out = sorted_finite_columns(&df, &None, "Winsorizer").unwrap();
    assert_eq!(
        floats(&out),
        vec![
            ("a".to_string(), vec![-1.5, 2.0, 3.0]),
            ("b".to_string(), vec![-7.0, -7.0, -0.25, 0.0, 1e300]),
        ]
    );
}

#[test]
fn configured_columns_keep_their_order() {
    let df = frame(vec![f64_col("a", &[Some(1.0), Some(0.5)]), f64_col("b", &[Some(-2.0), Some(4.0)])]);
    let cols = Some(vec!["b".to_string(), "a".to_string()]);
    let out = sorted_finite_columns(&df, &cols, "OutlierClipper").unwrap();
    assert_eq!(floats(&out), vec![("b".to_string(), vec![-2.0, 4.0]), ("a".to_string(), vec![0.5, 1.0])]);
}

#[test]
fn sorted_columns_errors() {
    let df = frame(vec![
        f64_col("a", &[Some(1.0), Some(2.0)]),
        f64_col("nan", &[Some(f64::NAN), None]),
        Series::new("s", DType::Utf8, vec![Some(Value::Str("x".into())), None]),
    ]);
    let empty: Option<Vec<String>> = Some(vec![]);
    assert!(matches!(sorted_finite_columns(&df, &empty, "W"), Err(Error::InvalidInput(_))));
    let missing = Some(vec!["a".to_string(), "zz".to_string()]);
    assert!(matches!(sorted_finite_columns(&df, &missing, "W"), Err(Error::InvalidInput(_))));
    let text = Some(vec!["s".to_string()]);
    assert!(matches!(sorted_finite_columns(&df, &text, "W"), Err(Error::InvalidInput(_))));
    assert!(matches!(sorted_finite_columns(&df, &None, "W"), Err(Error::Computation(_))));
    // The first failing column in order decides the error.
    let nan_then_missing = Some(vec!["nan".to_string(), "zz".to_string()]);
    assert!(matches!(sorted_finite_columns(&df, &nan_then_missing, "W"), Err(Error::Computation(_))));
    let strings_only = frame(vec![Series::new("s", DType::Utf8, vec![None])]);
    assert!(matches!(sorted_finite_columns(&strings_only, &None, "W"), Err(Error::InvalidInput(_))));
}
