use featrs::frame::{DType, Frame, Series, Value};
use featrs::preprocessing::ratio_features::{fitted_ratio_columns, RatioFeatures};
use featrs::traits::{Error, Fit};

fn f64_col(name: &str, vals: &[f64]) -> Series {
    let cells = vals.iter().map(|x| Some(Value::from_f64_bits(x.to_bits()))).collect();
    Series::new(name, DType::Float64, cells)
}

fn str_col(name: &str, vals: &[&str]) -> Series {
    Series::new(name, DType::Utf8, vals.iter().map(|s| Some(Value::Str(s.to_string()))).collect())
}

fn frame(cols: Vec<Series>) -> Frame {
    let h = cols.first().map(|c| c.len()).unwrap_or(0);
    Frame::new(h, cols).unwrap()
}

fn make_two_col_df() -> Frame {
    frame(vec![f64_col("a", &[6.0, 12.0, 18.0]), f64_col("b", &[2.0, 3.0, 6.0])])
}

fn make_three_col_df() -> Frame {
    frame(vec![f64_col("a", &[6.0, 12.0, 18.0]), f64_col("b", &[2.0, 3.0, 6.0]), f64_col("c", &[3.0, 4.0, 2.0])])
}

/// The names of the columns a transform of `df` appends.
fn planned(rf: &RatioFeatures, df: &Frame) -> Vec<String> {
    rf.plan(df).unwrap().into_iter().map(|t| t.name).collect()
}

fn plan_error(rf: &RatioFeatures, df: &Frame) -> Error {
    match rf.plan(df) {
        Ok(_) => panic!("expected an error"),
        Err(e) => e,
    }
}

#[test]
fn test_ratio_three_columns_three_pairs() {
    let df = make_three_col_df();
    let mut rf = RatioFeatures::new();
    rf.fit(df.copy()).unwrap();
    assert_eq!(planned(&rf, &df), vec!["a_div_b", "a_div_c", "b_div_c"]);
}

#[test]
fn test_ratio_lexicographic_pair_order() {
    let df = make_two_col_df();
    let mut rf = RatioFeatures::new().columns(&["b", "a"]);
    rf.fit(df.copy()).unwrap();
    assert_eq!(planned(&rf, &df), vec!["a_div_b"]);
}

#[test]
fn test_ratio_explicit_columns() {
    let df = make_three_col_df();
    let mut rf = RatioFeatures::new().columns(&["a", "c"]);
    rf.fit(df.copy()).unwrap();
    assert_eq!(planned(&rf, &df), vec!["a_div_c"]);
}

#[test]
fn test_ratio_explicit_missing_column_errors() {
    let mut rf = RatioFeatures::new().columns(&["a", "missing"]);
    assert!(matches!(rf.fit(make_two_col_df()), Err(Error::InvalidInput(_))));
}

#[test]
fn test_ratio_explicit_non_f64_column_errors() {
    let df = frame(vec![f64_col("a", &[1.0, 2.0, 3.0]), str_col("cat", &["x", "y", "z"])]);
    let mut rf = RatioFeatures::new().columns(&["a", "cat"]);
    assert!(matches!(rf.fit(df), Err(Error::InvalidInput(_))));
}

#[test]
fn test_ratio_auto_discovery_skips_non_f64() {
    let df = frame(vec![
        f64_col("a", &[1.0, 2.0, 3.0]),
        str_col("cat", &["x", "y", "z"]),
        f64_col("b", &[4.0, 5.0, 6.0]),
    ]);
    let mut rf = RatioFeatures::new();
    rf.fit(df.copy()).unwrap();
    assert_eq!(planned(&rf, &df), vec!["a_div_b"]);
    assert_eq!(df.width() + planned(&rf, &df).len(), 4);
}

#[test]
fn test_ratio_auto_discovery_no_f64_errors() {
    let mut rf = RatioFeatures::new();
    assert!(matches!(rf.fit(frame(vec![str_col("cat", &["x", "y", "z"])])), Err(Error::InvalidInput(_))));
}

#[test]
fn test_ratio_single_column_no_new_cols() {
    let df = frame(vec![f64_col("a", &[1.0, 2.0, 3.0])]);
    let mut rf = RatioFeatures::new();
    rf.fit(df.copy()).unwrap();
    assert!(planned(&rf, &df).is_empty());
}

#[test]
fn test_ratio_empty_dataframe_rejected() {
    let mut rf = RatioFeatures::new();
    assert!(matches!(rf.fit(Frame::empty()), Err(Error::InvalidInput(_))));
}

#[test]
fn test_ratio_not_fitted_error() {
    let rf = RatioFeatures::new();
    assert!(matches!(plan_error(&rf, &make_two_col_df()), Error::NotFitted(_)));
}

#[test]
fn test_ratio_name_collision_errors() {
    let df = frame(vec![f64_col("a", &[1.0, 2.0, 3.0]), f64_col("b", &[4.0, 5.0, 6.0]), f64_col("a_div_b", &[7.0, 8.0, 9.0])]);
    let mut rf = RatioFeatures::new().columns(&["a", "b"]);
    rf.fit(df.copy()).unwrap();
    let err = plan_error(&rf, &df);
    assert!(matches!(err, Error::InvalidInput(_)), "collision with an existing column must error, not overwrite");
    assert!(err.message().contains("a_div_b"));
}

#[test]
fn test_ratio_separator_in_names_still_generates() {
    let df = frame(vec![f64_col("p", &[1.0, 2.0, 3.0]), f64_col("q_div_r", &[4.0, 5.0, 6.0]), f64_col("r", &[7.0, 8.0, 9.0])]);
    let mut rf = RatioFeatures::new();
    rf.fit(df.copy()).unwrap();
    assert_eq!(planned(&rf, &df), vec!["p_div_q_div_r", "p_div_r", "q_div_r_div_r"]);
}

#[test]
fn test_ratio_generated_name_collision_errors() {
    let df = frame(vec![
        f64_col("a", &[1.0, 2.0, 3.0]),
        f64_col("a_div_b", &[4.0, 5.0, 6.0]),
        f64_col("b_div_c", &[7.0, 8.0, 9.0]),
        f64_col("c", &[10.0, 11.0, 12.0]),
    ]);
    let mut rf = RatioFeatures::new().columns(&["a", "a_div_b", "b_div_c", "c"]);
    rf.fit(df.copy()).unwrap();
    let err = plan_error(&rf, &df);
    assert!(matches!(err, Error::InvalidInput(_)), "generated-vs-generated name collision must error");
    assert!(err.message().contains("a_div_b_div_c"));
}

#[test]
fn test_ratio_duplicate_config_columns_deduped() {
    let df = make_two_col_df();
    let mut rf = RatioFeatures::new().columns(&["a", "a", "b"]);
    rf.fit(df.copy()).unwrap();
    assert_eq!(planned(&rf, &df), vec!["a_div_b"]);
    let mut rf = RatioFeatures::new().columns(&["a", "a", "b"]).include_reciprocal(true);
    rf.fit(df.copy()).unwrap();
    assert_eq!(planned(&rf, &df), vec!["a_div_b", "b_div_a"]);
}

#[test]
fn test_ratio_reciprocal_output_order() {
    let df = make_two_col_df();
    let mut rf = RatioFeatures::new().include_reciprocal(true);
    rf.fit(df.copy()).unwrap();
    let mut names = df.get_column_names();
    names.extend(planned(&rf, &df));
    assert_eq!(names, vec!["a", "b", "a_div_b", "b_div_a"]);
}

#[test]
fn reciprocal_pairs_follow_each_forward_pair() {
    let df = make_three_col_df();
    let mut rf = RatioFeatures::new().include_reciprocal(true);
    rf.fit(df.copy()).unwrap();
    let plan = rf.plan(&df).unwrap();
    let names: Vec<&str> = plan.iter().map(|t| t.name.as_str()).collect();
    assert_eq!(names, vec!["a_div_b", "b_div_a", "a_div_c", "c_div_a", "b_div_c", "c_div_b"]);
    assert_eq!((plan[1].numerator, plan[1].denominator), (1, 0));
}

#[test]
fn test_ratio_transform_missing_fitted_column_errors() {
    let df = make_two_col_df();
    let mut rf = RatioFeatures::new();
    rf.fit(df.copy()).unwrap();
    let only_a = frame(vec![f64_col("a", &[6.0, 12.0, 18.0])]);
    assert!(matches!(plan_error(&rf, &only_a), Error::InvalidInput(_)));
}

#[test]
fn test_ratio_single_column_transform_missing_errors() {
    let mut rf = RatioFeatures::new().columns(&["a"]);
    rf.fit(frame(vec![f64_col("a", &[1.0, 2.0, 3.0])])).unwrap();
    let other = frame(vec![f64_col("b", &[4.0, 5.0, 6.0])]);
    assert!(matches!(plan_error(&rf, &other), Error::InvalidInput(_)));
}

#[test]
fn test_ratio_refit_resets_state() {
    let df = make_two_col_df();
    let mut rf = RatioFeatures::new();
    rf.fit(df.copy()).unwrap();
    assert!(rf.plan(&df).is_ok());
    assert!(rf.fit(Frame::empty()).is_err());
    assert!(matches!(plan_error(&rf, &df), Error::NotFitted(_)));
    assert!(rf.fitted_columns().is_none());
}

#[test]
fn test_ratio_epsilon_invalid_rejected() {
    let df = make_two_col_df();
    for e in [f64::NAN, f64::INFINITY, -1.0] {
        let mut rf = RatioFeatures::new().epsilon(e.to_bits());
        assert!(matches!(rf.fit(df.copy()), Err(Error::InvalidInput(_))), "epsilon {e}");
    }
    let mut zero = RatioFeatures::new().epsilon(0.0_f64.to_bits());
    assert!(zero.fit(df.copy()).is_ok());
    let mut negative_zero = RatioFeatures::new().epsilon((-0.0_f64).to_bits());
    assert!(negative_zero.fit(df).is_ok());
    assert_eq!(f64::from_bits(RatioFeatures::new().epsilon_bits()), 1e-12);
}

#[test]
fn fitted_columns_are_sorted_without_repeats() {
    let v: Vec<String> = ["c", "a", "c", "b", "a"].iter().map(|s| s.to_string()).collect();
    assert_eq!(fitted_ratio_columns(&v), vec!["a".to_string(), "b".to_string(), "c".to_string()]);
    let mut rf = RatioFeatures::new().columns(&["b", "a", "b"]);
    rf.fit(make_two_col_df()).unwrap();
    assert_eq!(rf.fitted_columns().unwrap(), &vec!["a".to_string(), "b".to_string()]);
}
