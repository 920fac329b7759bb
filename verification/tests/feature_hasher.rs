use featrs::frame::{DType, Frame, Series, Value};
use featrs::preprocessing::feature_hasher::FeatureHasher;
use featrs::traits::{Error, Fit, Transform};

fn str_col(name: &str, vals: &[&str]) -> Series {
    let cells = vals.iter().map(|s| Some(Value::Str(s.to_string()))).collect();
    Series::new(name, DType::Utf8, cells)
}

fn floats(col: &Series) -> Vec<f64> {
    col.values
        .iter()
        .map(|c| match c {
            Some(Value::Float(b)) => f64::from_bits(*b),
            other => panic!("unexpected cell {other:?}"),
        })
        .collect()
}

#[test]
fn test_feature_hasher() {
    let df = Frame::new(3, vec![str_col("color", &["red", "blue", "red"])]).unwrap();
    let mut fh = FeatureHasher::new(&["color"], 10);
    fh.fit(df.copy()).unwrap();
    let result = fh.transform(df).unwrap();
    assert_eq!(result.width(), 10);
    assert_eq!(result.height(), 3);
}

#[test]
fn test_hash_to_bucket_signed_and_deterministic() {
    for s in &["red", "blue", "green", "x", "y", "a very long category"] {
        let (idx, sign) = FeatureHasher::hash_to_bucket(s, 64);
        assert!(idx < 64, "index out of range for '{s}'");
        assert!(sign == 1 || sign == -1, "sign must be ±1 for '{s}'");
        let (idx2, sign2) = FeatureHasher::hash_to_bucket(s, 64);
        assert_eq!((idx, sign), (idx2, sign2));
    }
}

#[test]
fn test_feature_hasher_signed_values() {
    let df = Frame::new(5, vec![str_col("color", &["red", "blue", "red", "green", "blue"])]).unwrap();
    let mut fh = FeatureHasher::new(&["color"], 32);
    fh.fit(df.copy()).unwrap();
    let result = fh.transform(df).unwrap();
    for col in result.columns() {
        for v in floats(col) {
            assert!(v.fract() == 0.0, "bucket value {v} must be integral");
        }
    }
}

#[test]
fn buckets_hold_the_signed_counts() {
    let df = Frame::new(3, vec![str_col("color", &["red", "blue", "red"])]).unwrap();
    let mut fh = FeatureHasher::new(&["color"], 7);
    fh.fit(df.copy()).unwrap();
    let result = fh.transform(df).unwrap();
    let names = result.get_column_names();
    assert_eq!(names[0], "hashed_0");
    assert_eq!(names[6], "hashed_6");
    let (red, red_sign) = FeatureHasher::hash_to_bucket("red", 7);
    let (blue, blue_sign) = FeatureHasher::hash_to_bucket("blue", 7);
    for (k, col) in result.columns().iter().enumerate() {
        let vals = floats(col);
        let expect_red = if k == red { red_sign as f64 } else { 0.0 };
        let expect_blue = if k == blue { blue_sign as f64 } else { 0.0 };
        assert_eq!(vals[0], expect_red);
        assert_eq!(vals[1], expect_blue);
        assert_eq!(vals[2], expect_red);
    }
}

#[test]
fn null_cells_add_nothing() {
    let cells = vec![None, Some(Value::Str("a".into()))];
    let df = Frame::new(2, vec![Series::new("c", DType::Utf8, cells)]).unwrap();
    let mut fh = FeatureHasher::new(&["c"], 3);
    fh.fit(df.copy()).unwrap();
    let result = fh.transform(df).unwrap();
    let total: f64 = result.columns().iter().map(|c| floats(c)[0].abs()).sum();
    assert_eq!(total, 0.0);
}

#[test]
fn hasher_errors() {
    let df = Frame::new(1, vec![str_col("c", &["a"])]).unwrap();
    assert!(matches!(FeatureHasher::new(&["c"], 0).fit(df.copy()), Err(Error::InvalidInput(_))));
    assert!(matches!(FeatureHasher::new(&["zz"], 4).fit(df.copy()), Err(Error::InvalidInput(_))));
    assert!(matches!(FeatureHasher::new(&["c"], 4).transform(df.copy()), Err(Error::NotFitted(_))));
    let nums = Frame::new(1, vec![Series::new("c", DType::Int64, vec![Some(Value::Int(1))])]).unwrap();
    assert!(matches!(FeatureHasher::new(&["c"], 4).fit(nums), Err(Error::InvalidInput(_))));
}
