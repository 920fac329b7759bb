use featrs::frame::{DType, Frame, Series, Value};
use featrs::preprocessing::encoder::{LabelEncoder, OneHotEncoder, OrdinalEncoder};
use featrs::traits::{Error, Fit, Transform};

fn str_col(name: &str, vals: &[&str]) -> Series {
    let cells = vals.iter().map(|v| Some(Value::Str(v.to_string()))).collect();
    Series::new(name, DType::Utf8, cells)
}

fn frame(cols: Vec<Series>) -> Frame {
    let h = cols.first().map(|c| c.len()).unwrap_or(0);
    Frame::new(h, cols).unwrap()
}

fn u32_values(f: &Frame, name: &str) -> Vec<u32> {
    f.column(name)
        .unwrap()
        .values
        .iter()
        .filter_map(|v| match v {
            Some(Value::UInt(u)) => Some(*u as u32),
            _ => None,
        })
        .collect()
}

fn f64_values(f: &Frame, name: &str) -> Vec<f64> {
    f.column(name)
        .unwrap()
        .values
        .iter()
        .map(|v| match v {
            Some(Value::Float(b)) => f64::from_bits(*b),
            _ => panic!("expected a float"),
        })
        .collect()
}

fn make_categorical_df() -> Frame {
    frame(vec![str_col("color", &["red", "blue", "red", "green"]), str_col("size", &["S", "M", "L", "M"])])
}

#[test]
fn test_one_hot_encoder() {
    let mut enc = OneHotEncoder::new();
    let df = make_categorical_df();
    enc.fit(df.copy()).unwrap();
    let result = enc.transform(df).unwrap();
    assert_eq!(result.width(), 6);
    assert_eq!(result.height(), 4);
}

#[test]
fn test_one_hot_encoder_drop_first() {
    let mut enc = OneHotEncoder::new().drop_first(true);
    let df = make_categorical_df();
    enc.fit(df.copy()).unwrap();
    let result = enc.transform(df).unwrap();
    assert_eq!(result.width(), 4);
}

#[test]
fn test_label_encoder() {
    let mut enc = LabelEncoder::new();
    let df = frame(vec![str_col("color", &["red", "blue", "red", "green"])]);
    enc.fit(df.copy()).unwrap();
    let result = enc.transform(df).unwrap();
    assert_eq!(u32_values(&result, "color"), vec![2, 0, 2, 1]);
}

#[test]
fn test_ordinal_encoder() {
    let mut enc = OrdinalEncoder::new();
    let df = make_categorical_df();
    enc.fit(df.copy()).unwrap();
    let result = enc.transform(df).unwrap();
    assert_eq!(u32_values(&result, "color"), vec![2, 0, 2, 1]);
    assert_eq!(u32_values(&result, "size"), vec![2, 1, 0, 1]);
}

#[test]
fn test_end_to_end_encoders() {
    let df = frame(vec![str_col("color", &["red", "blue", "red", "green"]), str_col("size", &["S", "M", "L", "S"])]);

    let mut ohe = OneHotEncoder::new();
    ohe.fit(df.copy()).unwrap();
    let encoded = ohe.transform(df.copy()).unwrap();
    assert_eq!(encoded.width(), 6);

    let colors = df.select(&vec!["color".to_string()]).unwrap();
    let mut le = LabelEncoder::new();
    le.fit(colors.copy()).unwrap();
    let labeled = le.transform(colors).unwrap();
    assert_eq!(labeled.width(), 1);

    let mut oe = OrdinalEncoder::new();
    oe.fit(df.copy()).unwrap();
    let ordinal = oe.transform(df).unwrap();
    assert_eq!(ordinal.width(), 2);
}

#[test]
fn one_hot_columns_are_named_and_single_hot() {
    let mut enc = OneHotEncoder::new();
    let df = frame(vec![str_col("color", &["red", "blue", "red"])]);
    enc.fit(df.copy()).unwrap();
    let result = enc.transform(df).unwrap();
    assert_eq!(result.get_column_names(), vec!["color_blue".to_string(), "color_red".to_string()]);
    assert_eq!(f64_values(&result, "color_blue"), vec![0.0, 1.0, 0.0]);
    assert_eq!(f64_values(&result, "color_red"), vec![1.0, 0.0, 1.0]);
}

#[test]
fn label_encoder_classes_are_sorted_and_unknown_is_null() {
    let mut enc = LabelEncoder::new();
    enc.fit(frame(vec![str_col("c", &["b", "a", "b"])])).unwrap();
    assert_eq!(enc.learned_classes().unwrap(), &vec!["a".to_string(), "b".to_string()]);
    let out = enc.transform(frame(vec![str_col("c", &["a", "z"])])).unwrap();
    let cells = &out.column("c").unwrap().values;
    assert!(matches!(cells[0], Some(Value::UInt(0))));
    assert!(cells[1].is_none());
}

#[test]
fn encoders_before_fit_error() {
    let df = make_categorical_df();
    assert!(matches!(LabelEncoder::new().transform(df.copy()), Err(Error::NotFitted(_))));
    assert!(matches!(OrdinalEncoder::new().transform(df.copy()), Err(Error::NotFitted(_))));
    assert!(matches!(OneHotEncoder::new().transform(df), Err(Error::NotFitted(_))));
}

#[test]
fn one_hot_rejects_non_string_column() {
    let n = Series::new("n", DType::Int64, vec![Some(Value::Int(1))]);
    let mut enc = OneHotEncoder::new();
    assert!(matches!(enc.fit(frame(vec![n])), Err(Error::InvalidInput(_))));
}

#[test]
fn default_encoders_match_new() {
    let df = make_categorical_df();
    let one = frame(vec![str_col("color", &["red", "blue", "red"])]);
    let mut l = LabelEncoder::default();
    l.fit(one.copy()).unwrap();
    let mut l2 = LabelEncoder::new();
    l2.fit(one.copy()).unwrap();
    assert_eq!(format!("{:?}", l.transform(one.copy()).unwrap()), format!("{:?}", l2.transform(one).unwrap()));
    let mut o = OrdinalEncoder::default();
    o.fit(df.copy()).unwrap();
    let mut o2 = OrdinalEncoder::new();
    o2.fit(df.copy()).unwrap();
    assert_eq!(format!("{:?}", o.transform(df.copy()).unwrap()), format!("{:?}", o2.transform(df.copy()).unwrap()));
    let mut h = OneHotEncoder::default();
    h.fit(df.copy()).unwrap();
    let mut h2 = OneHotEncoder::new();
    h2.fit(df.copy()).unwrap();
    assert_eq!(format!("{:?}", h.transform(df.copy()).unwrap()), format!("{:?}", h2.transform(df).unwrap()));
}

#[test]
fn onehot_ignores_non_string_columns() {
    let n = Series::new("n", DType::Float64, (1..=3).map(|i| Some(Value::from_f64_bits((i as f64).to_bits()))).collect());
    let x = frame(vec![str_col("color", &["red", "blue", "red"]), n]);
    let mut enc = OneHotEncoder::new();
    enc.fit(x.copy()).unwrap();
    let out = enc.transform(x).unwrap();
    assert_eq!(out.get_column_names(), vec!["color_blue".to_string(), "color_red".to_string()]);
}

#[test]
fn label_encoder_reports_not_fitted_first() {
    assert!(matches!(LabelEncoder::new().transform(Frame::empty()), Err(Error::NotFitted(_))));
}
