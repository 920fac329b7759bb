use featrs::frame::{DType, Frame, Series, Value};
use featrs::preprocessing::rare_category_grouper::{category_counts, RareCategoryGrouper, Threshold};
use featrs::traits::{Fit, Transform};

fn str_col(name: &str, vals: &[Option<&str>]) -> Series {
    let cells = vals.iter().map(|v| v.map(|s| Value::Str(s.to_string()))).collect();
    Series::new(name, DType::Utf8, cells)
}

fn i64_col(name: &str, vals: &[i64]) -> Series {
    Series::new(name, DType::Int64, vals.iter().map(|v| Some(Value::Int(*v))).collect())
}

fn frame(city: &[Option<&str>]) -> Frame {
    Frame::new(city.len(), vec![str_col("city", city)]).unwrap()
}

fn strings(df: &Frame, name: &str) -> Vec<Option<String>> {
    df.column(name)
        .unwrap()
        .values
        .iter()
        .map(|v| match v {
            Some(Value::Str(s)) => Some(s.clone()),
            None => None,
            _ => panic!("expected a string"),
        })
        .collect()
}

fn values(df: &Frame) -> Vec<Option<String>> {
    strings(df, "city")
}

/// The categories of `col` whose relative frequency among the non-null
/// values is at least `p`.
fn kept_by_frequency(df: &Frame, col: &str, p: f64) -> Vec<String> {
    let (cats, counts) = category_counts(df.column(col).unwrap());
    let total: u64 = counts.iter().sum();
    cats.items()
        .iter()
        .zip(counts.iter())
        .filter(|(_, c)| **c as f64 / total as f64 >= p)
        .map(|(s, _)| s.clone())
        .collect()
}

fn fit_by_frequency(grouper: &mut RareCategoryGrouper, df: &Frame, p: f64) {
    let kept = vec![kept_by_frequency(df, "city", p)];
    grouper.fit_with_kept(df, kept).unwrap();
}

#[test]
fn test_min_count_groups_rare_categories() {
    let df = frame(&[Some("Delhi"), Some("Mumbai"), Some("Delhi"), Some("Pune")]);
    let mut grouper = RareCategoryGrouper::new().columns(&["city"]).threshold(Threshold::MinCount(2));
    grouper.fit(df.copy()).unwrap();
    let out = values(&grouper.transform(df).unwrap());
    assert_eq!(out[0].as_deref(), Some("Delhi"));
    assert_eq!(out[1].as_deref(), Some("Other"));
    assert_eq!(out[2].as_deref(), Some("Delhi"));
    assert_eq!(out[3].as_deref(), Some("Other"));
}

#[test]
fn test_min_frequency_all_categories_rare() {
    let vals: Vec<Option<&str>> = (0..50).map(|_| Some("a")).chain((0..50).map(|_| Some("b"))).collect();
    let df = frame(&vals);
    let mut grouper = RareCategoryGrouper::new().columns(&["city"]);
    fit_by_frequency(&mut grouper, &df, 0.6);
    let out = values(&grouper.transform(df).unwrap());
    assert_eq!(out.len(), 100);
    assert!(out.iter().all(|v| v.as_deref() == Some("Other")));
}

#[test]
fn test_min_frequency_keeps_frequent_category() {
    let df = frame(&[Some("a"), Some("a"), Some("a"), Some("b")]);
    let mut grouper = RareCategoryGrouper::new().columns(&["city"]);
    fit_by_frequency(&mut grouper, &df, 0.5);
    let out = values(&grouper.transform(df).unwrap());
    assert_eq!(out[0].as_deref(), Some("a"));
    assert_eq!(out[3].as_deref(), Some("Other"));
}

#[test]
fn test_custom_other_label() {
    let df = frame(&[Some("Delhi"), Some("Mumbai"), Some("Delhi"), Some("Pune")]);
    let mut grouper =
        RareCategoryGrouper::new().columns(&["city"]).threshold(Threshold::MinCount(2)).other_label("ZZZ");
    grouper.fit(df.copy()).unwrap();
    let out = values(&grouper.transform(df).unwrap());
    assert_eq!(out[1].as_deref(), Some("ZZZ"));
    assert_eq!(out[3].as_deref(), Some("ZZZ"));
}

#[test]
fn test_unseen_category_at_transform_becomes_other() {
    let fit_df = frame(&[Some("Delhi"), Some("Mumbai"), Some("Delhi"), Some("Pune")]);
    let mut grouper = RareCategoryGrouper::new().columns(&["city"]).threshold(Threshold::MinCount(2));
    grouper.fit(fit_df).unwrap();
    let out = values(&grouper.transform(frame(&[Some("Delhi"), Some("Tokyo")])).unwrap());
    assert_eq!(out[0].as_deref(), Some("Delhi"));
    assert_eq!(out[1].as_deref(), Some("Other"));
}

#[test]
fn test_nulls_preserved_by_default() {
    let df = frame(&[Some("a"), None, Some("a"), Some("b")]);
    let mut grouper = RareCategoryGrouper::new().columns(&["city"]).threshold(Threshold::MinCount(2));
    grouper.fit(df.copy()).unwrap();
    let out = values(&grouper.transform(df).unwrap());
    assert_eq!(out[0].as_deref(), Some("a"));
    assert!(out[1].is_none(), "null must stay null by default");
    assert_eq!(out[2].as_deref(), Some("a"));
    assert_eq!(out[3].as_deref(), Some("Other"));
}

#[test]
fn test_treat_null_as_rare() {
    let df = frame(&[Some("a"), None, Some("a"), Some("b")]);
    let mut grouper =
        RareCategoryGrouper::new().columns(&["city"]).threshold(Threshold::MinCount(2)).treat_null_as_rare(true);
    grouper.fit(df.copy()).unwrap();
    let out = values(&grouper.transform(df).unwrap());
    assert_eq!(out[1].as_deref(), Some("Other"));
}

#[test]
fn rare_category_grouper_test_transform_before_fit_errors() {
    let grouper = RareCategoryGrouper::new().columns(&["city"]);
    let err = grouper.transform(frame(&[Some("a"), Some("b")])).unwrap_err();
    assert!(err.message().contains("not been fitted"), "unexpected error: {}", err.message());
}

#[test]
fn rare_category_grouper_test_empty_input_errors() {
    let mut grouper = RareCategoryGrouper::new().columns(&["city"]);
    let err = grouper.fit(Frame::empty()).unwrap_err();
    assert!(err.message().contains("empty DataFrame"), "unexpected error: {}", err.message());
}

#[test]
fn test_all_categories_rare_produces_single_category() {
    let df = frame(&[Some("a"), Some("b"), Some("c")]);
    let mut grouper = RareCategoryGrouper::new().columns(&["city"]).threshold(Threshold::MinCount(2));
    grouper.fit(df.copy()).unwrap();
    let out = values(&grouper.transform(df).unwrap());
    assert!(out.iter().all(|v| v.as_deref() == Some("Other")));
}

#[test]
fn test_zero_threshold_is_pass_through() {
    let df = frame(&[Some("a"), Some("b"), Some("a")]);
    let mut grouper = RareCategoryGrouper::new().columns(&["city"]).threshold(Threshold::MinCount(0));
    grouper.fit(df.copy()).unwrap();
    let out = values(&grouper.transform(df).unwrap());
    assert_eq!(out[0].as_deref(), Some("a"));
    assert_eq!(out[1].as_deref(), Some("b"));
    assert_eq!(out[2].as_deref(), Some("a"));
}

#[test]
fn test_min_count_one_is_pass_through() {
    let df = frame(&[Some("a"), Some("b"), Some("a")]);
    let mut grouper = RareCategoryGrouper::new().columns(&["city"]).threshold(Threshold::MinCount(1));
    grouper.fit(df.copy()).unwrap();
    let out = values(&grouper.transform(df).unwrap());
    assert_eq!(out[0].as_deref(), Some("a"));
    assert_eq!(out[1].as_deref(), Some("b"));
    assert_eq!(out[2].as_deref(), Some("a"));
}

#[test]
fn test_zero_frequency_threshold_is_pass_through() {
    let df = frame(&[Some("a"), Some("b"), Some("a")]);
    let mut grouper = RareCategoryGrouper::new().columns(&["city"]);
    fit_by_frequency(&mut grouper, &df, 0.0);
    let out = values(&grouper.transform(df).unwrap());
    assert_eq!(out[0].as_deref(), Some("a"));
    assert_eq!(out[1].as_deref(), Some("b"));
    assert_eq!(out[2].as_deref(), Some("a"));
}

#[test]
fn test_non_string_column_errors() {
    let df = Frame::new(3, vec![i64_col("num", &[1, 2, 3])]).unwrap();
    let mut grouper = RareCategoryGrouper::new().columns(&["num"]);
    let err = grouper.fit(df).unwrap_err();
    assert!(err.message().contains("expected String"), "unexpected error: {}", err.message());
}

#[test]
fn rare_category_grouper_test_missing_column_errors() {
    let mut grouper = RareCategoryGrouper::new().columns(&["nope"]);
    let err = grouper.fit(frame(&[Some("a"), Some("b")])).unwrap_err();
    assert!(err.message().contains("was not found"), "unexpected error: {}", err.message());
}

#[test]
fn test_empty_columns_list_errors() {
    let mut grouper = RareCategoryGrouper::new().columns(&[]);
    let err = grouper.fit(frame(&[Some("a"), Some("b")])).unwrap_err();
    assert!(err.message().contains("no selected columns"), "unexpected error: {}", err.message());
}

#[test]
fn test_other_label_conflict_merges() {
    let df = frame(&[Some("Other"), Some("Other"), Some("x")]);
    let mut grouper = RareCategoryGrouper::new().columns(&["city"]).threshold(Threshold::MinCount(2));
    grouper.fit(df.copy()).unwrap();
    let out = values(&grouper.transform(df).unwrap());
    assert!(out.iter().all(|v| v.as_deref() == Some("Other")));
}

#[test]
fn rare_category_grouper_test_refit_resets_state() {
    let df = frame(&[Some("a"), Some("a"), Some("b"), Some("b")]);
    let mut grouper = RareCategoryGrouper::new().columns(&["city"]).threshold(Threshold::MinCount(3));
    grouper.fit(df.copy()).unwrap();
    let out = values(&grouper.transform(df.copy()).unwrap());
    assert!(out.iter().all(|v| v.as_deref() == Some("Other")));
    let mut grouper = grouper.threshold(Threshold::MinCount(1));
    grouper.fit(df.copy()).unwrap();
    let out = values(&grouper.transform(df).unwrap());
    assert_eq!(out[0].as_deref(), Some("a"));
    assert_eq!(out[2].as_deref(), Some("b"));
}

#[test]
fn test_empty_string_is_distinct_category() {
    let df = frame(&[Some(""), Some(""), Some("x")]);
    let mut grouper = RareCategoryGrouper::new().columns(&["city"]).threshold(Threshold::MinCount(2));
    grouper.fit(df.copy()).unwrap();
    let out = values(&grouper.transform(df).unwrap());
    assert_eq!(out[0].as_deref(), Some(""));
    assert_eq!(out[1].as_deref(), Some(""));
    assert_eq!(out[2].as_deref(), Some("Other"));
}

#[test]
fn test_multiple_columns_grouped_independently() {
    let df = Frame::new(
        3,
        vec![
            str_col("city", &[Some("Delhi"), Some("Delhi"), Some("Pune")]),
            str_col("region", &[Some("north"), Some("south"), Some("south")]),
        ],
    )
    .unwrap();
    let mut grouper = RareCategoryGrouper::new().columns(&["city", "region"]).threshold(Threshold::MinCount(2));
    grouper.fit(df.copy()).unwrap();
    let result = grouper.transform(df).unwrap();
    let cities = strings(&result, "city");
    assert_eq!(cities[0].as_deref(), Some("Delhi"));
    assert_eq!(cities[2].as_deref(), Some("Other"));
    let regions = strings(&result, "region");
    assert_eq!(regions[0].as_deref(), Some("Other"));
    assert_eq!(regions[1].as_deref(), Some("south"));
    assert_eq!(regions[2].as_deref(), Some("south"));
}

#[test]
fn test_default_threshold_is_min_count_five() {
    let vals: Vec<Option<&str>> = (0..5).map(|_| Some("a")).chain(std::iter::once(Some("b"))).collect();
    let df = frame(&vals);
    let mut grouper = RareCategoryGrouper::new().columns(&["city"]);
    grouper.fit(df.copy()).unwrap();
    let out = values(&grouper.transform(df).unwrap());
    assert_eq!(out[0].as_deref(), Some("a"));
    assert_eq!(out[5].as_deref(), Some("Other"));
}

#[test]
fn test_setters_invalidate_fit() {
    let df = frame(&[Some("a"), Some("a"), Some("b")]);
    let mut grouper = RareCategoryGrouper::new().columns(&["city"]).threshold(Threshold::MinCount(2));
    grouper.fit(df).unwrap();
    let grouper = grouper.threshold(Threshold::MinCount(1));
    let err = grouper.transform(frame(&[Some("a"), Some("a"), Some("b")])).unwrap_err();
    assert!(err.message().contains("not been fitted"), "unexpected error: {}", err.message());
}

#[test]
fn rare_category_grouper_test_transform_missing_column_errors() {
    let mut grouper = RareCategoryGrouper::new().columns(&["city"]).threshold(Threshold::MinCount(2));
    grouper.fit(frame(&[Some("a"), Some("a"), Some("b")])).unwrap();
    let df = Frame::new(3, vec![i64_col("other", &[1, 2, 3])]).unwrap();
    let err = grouper.transform(df).unwrap_err();
    assert!(err.message().contains("was not found"), "unexpected error: {}", err.message());
}

#[test]
fn test_transform_non_string_column_errors() {
    let mut grouper = RareCategoryGrouper::new().columns(&["city"]).threshold(Threshold::MinCount(2));
    grouper.fit(frame(&[Some("a"), Some("a"), Some("b")])).unwrap();
    let df = Frame::new(3, vec![i64_col("city", &[1, 2, 3])]).unwrap();
    let err = grouper.transform(df).unwrap_err();
    assert!(err.message().contains("expected String"), "unexpected error: {}", err.message());
}

#[test]
fn test_unselected_columns_pass_through() {
    let df = Frame::new(
        3,
        vec![str_col("city", &[Some("Delhi"), Some("Delhi"), Some("Pune")]), i64_col("num", &[1, 2, 3])],
    )
    .unwrap();
    let mut grouper = RareCategoryGrouper::new().columns(&["city"]).threshold(Threshold::MinCount(2));
    grouper.fit(df.copy()).unwrap();
    let result = grouper.transform(df).unwrap();
    let num_out: Vec<i64> = result
        .column("num")
        .unwrap()
        .values
        .iter()
        .filter_map(|v| match v {
            Some(Value::Int(i)) => Some(*i),
            _ => None,
        })
        .collect();
    assert_eq!(num_out, vec![1, 2, 3]);
    assert_eq!(values(&result)[2].as_deref(), Some("Other"));
}

#[test]
fn test_duplicate_columns_are_deduped() {
    let df = frame(&[Some("Delhi"), Some("Mumbai"), Some("Delhi"), Some("Pune")]);
    let mut grouper = RareCategoryGrouper::new().columns(&["city", "city"]).threshold(Threshold::MinCount(2));
    grouper.fit(df.copy()).unwrap();
    let out = values(&grouper.transform(df).unwrap());
    assert_eq!(out[0].as_deref(), Some("Delhi"));
    assert_eq!(out[1].as_deref(), Some("Other"));
}

#[test]
fn test_all_null_column() {
    let df = frame(&[None, None, None]);
    let mut grouper = RareCategoryGrouper::new().columns(&["city"]);
    fit_by_frequency(&mut grouper, &df, 0.5);
    let out = values(&grouper.transform(df).unwrap());
    assert!(out.iter().all(|v| v.is_none()));
}

#[test]
fn category_counts_are_sorted_with_counts() {
    let df = frame(&[Some("b"), Some("a"), None, Some("b")]);
    let (cats, counts) = category_counts(df.column("city").unwrap());
    assert_eq!(cats.items(), &vec!["a".to_string(), "b".to_string()]);
    assert_eq!(counts, vec![1, 2]);
}

#[test]
fn fit_with_kept_requires_one_list_per_column() {
    let df = frame(&[Some("a")]);
    let mut grouper = RareCategoryGrouper::new().columns(&["city"]);
    assert!(grouper.fit_with_kept(&df, vec![]).is_err());
}

#[test]
fn default_grouper_matches_new() {
    let df = frame(&[Some("a"), Some("b"), Some("a"), Some("a"), Some("a"), Some("a")]);
    let mut a = RareCategoryGrouper::default().columns(&["city"]);
    let mut b = RareCategoryGrouper::new().columns(&["city"]);
    a.fit(df.copy()).unwrap();
    b.fit(df.copy()).unwrap();
    let out = values(&a.transform(df.copy()).unwrap());
    assert_eq!(out, values(&b.transform(df).unwrap()));
    assert_eq!(out[1].as_deref(), Some("Other"));
    assert_eq!(out[0].as_deref(), Some("a"));
}
