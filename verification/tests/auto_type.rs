use featrs::frame::{DType, Frame, Series, Value};
use featrs::preprocessing::auto_type::{AutoTypeDetector, ColumnType};
use featrs::traits::{Error, Fit, Transform};

fn str_col(name: &str, vals: &[&str]) -> Series {
    let cells = vals.iter().map(|s| Some(Value::Str(s.to_string()))).collect();
    Series::new(name, DType::Utf8, cells)
}

fn f64_col(name: &str, vals: &[f64]) -> Series {
    let cells = vals.iter().map(|x| Some(Value::from_f64_bits(x.to_bits()))).collect();
    Series::new(name, DType::Float64, cells)
}

fn make_test_df() -> Frame {
    Frame::new(
        3,
        vec![f64_col("num", &[1.0, 2.0, 3.0]), str_col("cat", &["a", "b", "a"]), str_col("high", &["x1", "x2", "x3"])],
    )
    .unwrap()
}

fn type_of(atd: &AutoTypeDetector, name: &str) -> Option<ColumnType> {
    atd.column_types().unwrap().iter().find(|(n, _)| n == name).map(|(_, t)| *t)
}

#[test]
fn test_auto_type_detect_and_transform() {
    let mut atd = AutoTypeDetector::new().cat_threshold(5).hash_buckets(8);
    let df = make_test_df();
    atd.fit(df.copy()).unwrap();
    assert_eq!(type_of(&atd, "num"), Some(ColumnType::Numeric));
    assert_eq!(type_of(&atd, "cat"), Some(ColumnType::Categorical));
    let out = atd.transform(df).unwrap();
    assert!(out.width() >= 1);
    assert_eq!(out.height(), 3);
}

#[test]
fn test_auto_type_transform_is_idempotent() {
    let mut atd = AutoTypeDetector::new().cat_threshold(5).hash_buckets(8);
    let df = make_test_df();
    atd.fit(df.copy()).unwrap();
    let out1 = atd.transform(df.copy()).unwrap();
    let out2 = atd.transform(df).unwrap();
    assert_eq!(out1.get_column_names(), out2.get_column_names(), "transform schema must be stable across calls");
    assert_eq!(out1.height(), out2.height());
}

#[test]
fn test_auto_type_not_fitted() {
    let atd = AutoTypeDetector::new();
    let df = make_test_df();
    assert!(atd.transform(df).is_err());
    assert!(atd.column_types().is_none());
}

#[test]
fn high_cardinality_columns_are_hashed() {
    let mut atd = AutoTypeDetector::new().cat_threshold(3).hash_buckets(4);
    let df = make_test_df();
    atd.fit(df.copy()).unwrap();
    assert_eq!(type_of(&atd, "cat"), Some(ColumnType::Categorical));
    assert_eq!(type_of(&atd, "high"), Some(ColumnType::HighCardinality));
    let out = atd.transform(df).unwrap();
    // cat becomes two indicator columns, high four buckets; num comes last
    assert_eq!(out.width(), 2 + 4 + 1);
    assert_eq!(out.get_column_names()[6], "num");
    assert_eq!(out.get_column_names()[2], "hashed_0");
}

#[test]
fn auto_type_errors() {
    let mut atd = AutoTypeDetector::default();
    assert!(matches!(atd.transform(make_test_df()), Err(Error::NotFitted(_))));
    atd.fit(Frame::empty()).unwrap();
    assert_eq!(atd.column_types().unwrap().len(), 0);
}
