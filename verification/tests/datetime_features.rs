use featrs::frame::{DType, Frame, Series, TimeUnit, Value};
use featrs::preprocessing::datetime_features::{DatetimeComponent, DatetimeFeatures};
use featrs::traits::{Error, Fit, Transform};

/// Epoch microseconds of 2024-01-01T00:00:00Z (a Monday).
const T0: i64 = 1_704_067_200_000_000;
const DAY_US: i64 = 86_400_000_000;
/// Days since epoch of 2024-01-01 (a Monday).
const D0: i32 = 19_723;

fn datetime_col(name: &str, vals: &[Option<i64>]) -> Series {
    let cells = vals.iter().map(|v| v.map(Value::Int)).collect();
    Series::new(name, DType::Datetime(TimeUnit::Microseconds), cells)
}

fn date_col(name: &str, vals: &[Option<i32>]) -> Series {
    let cells = vals.iter().map(|v| v.map(|d| Value::Int(d as i64))).collect();
    Series::new(name, DType::Date, cells)
}

fn f64_col(name: &str, vals: &[f64]) -> Series {
    let cells = vals.iter().map(|x| Some(Value::from_f64_bits(x.to_bits()))).collect();
    Series::new(name, DType::Float64, cells)
}

fn frame(cols: Vec<Series>) -> Frame {
    let h = cols.first().map(|c| c.len()).unwrap_or(0);
    Frame::new(h, cols).unwrap()
}

fn ints(out: &Frame, name: &str) -> Vec<Option<i64>> {
    let col = out.column(name).unwrap();
    assert_eq!(col.dtype, DType::Int32);
    col.values
        .iter()
        .map(|c| match c {
            Some(Value::Int(v)) => Some(*v),
            None => None,
            other => panic!("unexpected cell {other:?}"),
        })
        .collect()
}

fn floats(out: &Frame, name: &str) -> Vec<Option<f64>> {
    let col = out.column(name).unwrap();
    assert_eq!(col.dtype, DType::Float64);
    col.values
        .iter()
        .map(|c| match c {
            Some(Value::Float(b)) => Some(f64::from_bits(*b)),
            None => None,
            other => panic!("unexpected cell {other:?}"),
        })
        .collect()
}

fn fit_transform(xf: &mut DatetimeFeatures, df: &Frame) -> Frame {
    xf.fit(df.copy()).unwrap();
    xf.transform(df.copy()).unwrap()
}

#[test]
fn test_year_month_day_from_datetime() {
    let df = frame(vec![datetime_col("t", &[Some(T0), Some(T0 + 31 * DAY_US), Some(T0 + 91 * DAY_US)])]);
    let mut xf = DatetimeFeatures::new().columns(&["t"]).components(&[
        DatetimeComponent::Year,
        DatetimeComponent::Month,
        DatetimeComponent::Day,
    ]);
    let out = fit_transform(&mut xf, &df);
    assert_eq!(out.width(), 4);
    assert_eq!(ints(&out, "t_year"), vec![Some(2024), Some(2024), Some(2024)]);
    assert_eq!(ints(&out, "t_month"), vec![Some(1), Some(2), Some(4)]);
    assert_eq!(ints(&out, "t_day"), vec![Some(1), Some(1), Some(1)]);
}

#[test]
fn test_weekday_zero_based() {
    let df = frame(vec![datetime_col(
        "t",
        &[Some(T0), Some(T0 + 4 * DAY_US), Some(T0 + 5 * DAY_US), Some(T0 + 6 * DAY_US)],
    )]);
    let mut xf = DatetimeFeatures::new().columns(&["t"]).components(&[DatetimeComponent::Weekday]);
    let out = fit_transform(&mut xf, &df);
    assert_eq!(ints(&out, "t_weekday"), vec![Some(0), Some(4), Some(5), Some(6)]);
}

#[test]
fn test_is_weekend() {
    let df = frame(vec![datetime_col(
        "t",
        &[Some(T0), Some(T0 + 4 * DAY_US), Some(T0 + 5 * DAY_US), Some(T0 + 6 * DAY_US)],
    )]);
    let mut xf = DatetimeFeatures::new().columns(&["t"]).components(&[DatetimeComponent::IsWeekend]);
    let out = fit_transform(&mut xf, &df);
    assert_eq!(floats(&out, "t_is_weekend"), vec![Some(0.0), Some(0.0), Some(1.0), Some(1.0)]);
}

#[test]
fn test_quarter() {
    let df = frame(vec![datetime_col(
        "t",
        &[Some(T0), Some(T0 + 60 * DAY_US), Some(T0 + 91 * DAY_US), Some(T0 + 274 * DAY_US)],
    )]);
    let mut xf = DatetimeFeatures::new().columns(&["t"]).components(&[DatetimeComponent::Quarter]);
    let out = fit_transform(&mut xf, &df);
    assert_eq!(ints(&out, "t_quarter"), vec![Some(1), Some(1), Some(2), Some(4)]);
}

#[test]
fn test_day_of_year_and_week() {
    let df = frame(vec![datetime_col("t", &[Some(T0), Some(T0 + 59 * DAY_US), Some(T0 + 63 * DAY_US)])]);
    let mut xf = DatetimeFeatures::new()
        .columns(&["t"])
        .components(&[DatetimeComponent::DayOfYear, DatetimeComponent::WeekOfYear]);
    let out = fit_transform(&mut xf, &df);
    assert_eq!(ints(&out, "t_day_of_year"), vec![Some(1), Some(60), Some(64)]);
    assert_eq!(ints(&out, "t_week_of_year"), vec![Some(1), Some(9), Some(10)]);
}

#[test]
fn test_hour_minute_second_on_datetime() {
    let df = frame(vec![datetime_col("t", &[Some(T0), Some(T0 + 13 * 3_600 * 1_000_000)])]);
    let mut xf = DatetimeFeatures::new().columns(&["t"]).components(&[
        DatetimeComponent::Hour,
        DatetimeComponent::Minute,
        DatetimeComponent::Second,
    ]);
    let out = fit_transform(&mut xf, &df);
    assert_eq!(ints(&out, "t_hour"), vec![Some(0), Some(13)]);
    assert_eq!(ints(&out, "t_minute"), vec![Some(0), Some(0)]);
    assert_eq!(ints(&out, "t_second"), vec![Some(0), Some(0)]);
}

#[test]
fn test_date_column_components() {
    let df = frame(vec![date_col("d", &[Some(D0), Some(D0 + 31), Some(D0 + 60)])]);
    let mut xf = DatetimeFeatures::new()
        .columns(&["d"])
        .components(&[DatetimeComponent::Year, DatetimeComponent::Month]);
    let out = fit_transform(&mut xf, &df);
    assert_eq!(ints(&out, "d_year")[0], Some(2024));
    assert_eq!(ints(&out, "d_month"), vec![Some(1), Some(2), Some(3)]);
}

#[test]
fn test_date_column_hour_zero_fill_with_nulls() {
    let df = frame(vec![date_col("d", &[Some(D0), None, Some(D0 + 1)])]);
    let mut xf = DatetimeFeatures::new().columns(&["d"]).components(&[DatetimeComponent::Hour]);
    let out = fit_transform(&mut xf, &df);
    assert_eq!(ints(&out, "d_hour"), vec![Some(0), None, Some(0)]);
}

#[test]
fn datetime_features_test_null_preservation() {
    let df = frame(vec![datetime_col("t", &[Some(T0), None, Some(T0 + 31 * DAY_US)])]);
    let mut xf = DatetimeFeatures::new()
        .columns(&["t"])
        .components(&[DatetimeComponent::Month, DatetimeComponent::IsWeekend]);
    let out = fit_transform(&mut xf, &df);
    assert_eq!(ints(&out, "t_month"), vec![Some(1), None, Some(2)]);
    assert!(floats(&out, "t_is_weekend")[1].is_none());
}

#[test]
fn test_auto_discovery_only_datetime_columns() {
    let df = frame(vec![
        datetime_col("t", &[Some(T0), Some(T0 + DAY_US)]),
        f64_col("x", &[1.0, 2.0]),
        date_col("d", &[Some(D0), Some(D0 + 1)]),
    ]);
    let mut xf = DatetimeFeatures::new().components(&[DatetimeComponent::Month]);
    let out = fit_transform(&mut xf, &df);
    assert_eq!(out.width(), 5);
    assert!(out.column("t_month").is_some());
    assert!(out.column("d_month").is_some());
    assert!(out.column("x_month").is_none());
    let x = &out.column("x").unwrap().values[1];
    assert!(matches!(x, Some(Value::Float(b)) if f64::from_bits(*b) == 2.0));
}

#[test]
fn test_default_components() {
    let df = frame(vec![datetime_col("t", &[Some(T0), Some(T0 + DAY_US)])]);
    let mut xf = DatetimeFeatures::new().columns(&["t"]);
    let out = fit_transform(&mut xf, &df);
    assert_eq!(out.width(), 4);
    assert!(out.column("t_year").is_some());
    assert!(out.column("t_month").is_some());
    assert!(out.column("t_day").is_some());
    assert!(out.column("t_hour").is_none());
}

#[test]
fn test_duplicate_config_deduped() {
    let df = frame(vec![datetime_col("t", &[Some(T0), Some(T0 + DAY_US)])]);
    let mut xf = DatetimeFeatures::new()
        .columns(&["t", "t"])
        .components(&[DatetimeComponent::Month, DatetimeComponent::Month]);
    let out = fit_transform(&mut xf, &df);
    assert_eq!(out.width(), 2);
    assert!(out.column("t_month").is_some());
}

#[test]
fn datetime_features_test_not_fitted_error() {
    let df = frame(vec![datetime_col("t", &[Some(T0), Some(T0 + DAY_US)])]);
    let xf = DatetimeFeatures::new().columns(&["t"]);
    let err = xf.transform(df).unwrap_err();
    assert!(matches!(err, Error::NotFitted(_)));
}

#[test]
fn test_empty_dataframe_rejected() {
    let mut xf = DatetimeFeatures::new();
    let err = xf.fit(Frame::empty()).unwrap_err();
    assert!(matches!(err, Error::InvalidInput(_)));
}

#[test]
fn datetime_features_test_missing_column_errors() {
    let df = frame(vec![f64_col("x", &[1.0, 2.0])]);
    let mut xf = DatetimeFeatures::new().columns(&["nope"]);
    let err = xf.fit(df).unwrap_err();
    assert!(matches!(err, Error::InvalidInput(_)));
}

#[test]
fn test_non_datetime_column_errors() {
    let df = frame(vec![f64_col("x", &[1.0, 2.0])]);
    let mut xf = DatetimeFeatures::new().columns(&["x"]);
    let err = xf.fit(df).unwrap_err();
    assert!(matches!(err, Error::InvalidInput(_)));
}

#[test]
fn test_component_name_collision_at_fit() {
    let df = frame(vec![
        date_col("d", &[Some(D0), Some(D0 + 1)]),
        date_col("d_day", &[Some(D0), Some(D0 + 1)]),
    ]);
    let mut xf = DatetimeFeatures::new().columns(&["d"]).components(&[DatetimeComponent::Day]);
    let err = xf.fit(df).unwrap_err();
    match err {
        Error::InvalidInput(msg) => assert!(msg.contains("d_day"), "got: {msg}"),
        other => panic!("expected Error::InvalidInput, got {other:?}"),
    }
}

#[test]
fn test_transform_input_collision_rejected() {
    let fit_df = frame(vec![date_col("d", &[Some(D0), Some(D0 + 1)])]);
    let transform_df = frame(vec![
        date_col("d", &[Some(D0), Some(D0 + 1)]),
        date_col("d_day", &[Some(D0 + 5), Some(D0 + 6)]),
    ]);
    let mut xf = DatetimeFeatures::new().columns(&["d"]).components(&[DatetimeComponent::Day]);
    xf.fit(fit_df).unwrap();
    let err = xf.transform(transform_df).unwrap_err();
    assert!(matches!(err, Error::InvalidInput(_)));
}

#[test]
fn test_generated_vs_input_collision_at_fit() {
    let df = frame(vec![
        datetime_col("a", &[Some(T0), Some(T0 + DAY_US)]),
        datetime_col("a_month", &[Some(T0), Some(T0 + DAY_US)]),
    ]);
    let mut xf = DatetimeFeatures::new()
        .columns(&["a"])
        .components(&[DatetimeComponent::Month, DatetimeComponent::Year]);
    let err = xf.fit(df).unwrap_err();
    assert!(matches!(err, Error::InvalidInput(_)));
}

#[test]
fn test_nanosecond_timeunit() {
    let t0_ns = T0 * 1_000;
    let cells = vec![Some(Value::Int(t0_ns)), Some(Value::Int(t0_ns + 31 * DAY_US * 1_000))];
    let df = frame(vec![Series::new("t", DType::Datetime(TimeUnit::Nanoseconds), cells)]);
    let mut xf = DatetimeFeatures::new()
        .columns(&["t"])
        .components(&[DatetimeComponent::Year, DatetimeComponent::Month]);
    let out = fit_transform(&mut xf, &df);
    assert_eq!(ints(&out, "t_year")[0], Some(2024));
    assert_eq!(ints(&out, "t_month")[1], Some(2));
}

#[test]
fn test_date_column_calendar_components() {
    let df = frame(vec![date_col("d", &[Some(D0), Some(D0 + 5), Some(D0 + 6), Some(D0 + 91)])]);
    let mut xf = DatetimeFeatures::new().columns(&["d"]).components(&[
        DatetimeComponent::Weekday,
        DatetimeComponent::IsWeekend,
        DatetimeComponent::Quarter,
        DatetimeComponent::DayOfYear,
    ]);
    let out = fit_transform(&mut xf, &df);
    assert_eq!(ints(&out, "d_weekday"), vec![Some(0), Some(5), Some(6), Some(0)]);
    assert_eq!(floats(&out, "d_is_weekend"), vec![Some(0.0), Some(1.0), Some(1.0), Some(0.0)]);
    let q = ints(&out, "d_quarter");
    assert_eq!(q[0], Some(1));
    assert_eq!(q[3], Some(2));
    assert_eq!(ints(&out, "d_day_of_year"), vec![Some(1), Some(6), Some(7), Some(92)]);
}

#[test]
fn test_integer_components_emit_int32() {
    let df = frame(vec![datetime_col("t", &[Some(T0), Some(T0 + 31 * DAY_US)])]);
    let mut xf = DatetimeFeatures::new().columns(&["t"]).components(&[
        DatetimeComponent::Year,
        DatetimeComponent::Month,
        DatetimeComponent::Hour,
        DatetimeComponent::DayOfYear,
    ]);
    let out = fit_transform(&mut xf, &df);
    for name in ["t_year", "t_month", "t_hour", "t_day_of_year"] {
        assert_eq!(out.column(name).unwrap().dtype, DType::Int32);
    }
}

#[test]
fn test_refit_rediscovery_on_changed_schema() {
    let df1 = frame(vec![datetime_col("t", &[Some(T0), Some(T0 + DAY_US)])]);
    let df2 = frame(vec![datetime_col("u", &[Some(T0), Some(T0 + DAY_US)])]);
    let mut xf = DatetimeFeatures::new().components(&[DatetimeComponent::Month]);
    let out1 = fit_transform(&mut xf, &df1);
    assert!(out1.column("t_month").is_some());
    let out2 = fit_transform(&mut xf, &df2);
    assert!(out2.column("u_month").is_some());
    assert!(out2.column("t_month").is_none());
}

#[test]
fn datetime_features_test_failed_refit_resets_fitted_state() {
    let df1 = frame(vec![datetime_col("t", &[Some(T0), Some(T0 + DAY_US)])]);
    let df2 = frame(vec![f64_col("x", &[1.0, 2.0])]);
    let mut xf = DatetimeFeatures::new().columns(&["t"]);
    xf.fit(df1).unwrap();
    assert!(xf.fit(df2).is_err());
    let err = xf.transform(Frame::empty()).unwrap_err();
    assert!(matches!(err, Error::NotFitted(_)));
}

#[test]
fn millisecond_and_pre_epoch_instants() {
    // 1969-12-31T23:59:59.999 is still 1969, December 31st, a Wednesday.
    let cells = vec![Some(Value::Int(-1))];
    let df = frame(vec![Series::new("t", DType::Datetime(TimeUnit::Milliseconds), cells)]);
    let mut xf = DatetimeFeatures::new().columns(&["t"]).components(&[
        DatetimeComponent::Year,
        DatetimeComponent::Month,
        DatetimeComponent::Day,
        DatetimeComponent::Weekday,
        DatetimeComponent::Second,
    ]);
    let out = fit_transform(&mut xf, &df);
    assert_eq!(ints(&out, "t_year"), vec![Some(1969)]);
    assert_eq!(ints(&out, "t_month"), vec![Some(12)]);
    assert_eq!(ints(&out, "t_day"), vec![Some(31)]);
    assert_eq!(ints(&out, "t_weekday"), vec![Some(2)]);
    assert_eq!(ints(&out, "t_second"), vec![Some(59)]);
}

#[test]
fn component_suffixes() {
    assert_eq!(DatetimeComponent::DayOfYear.suffix(), "day_of_year");
    assert_eq!(DatetimeComponent::IsWeekend.suffix(), "is_weekend");
    assert_eq!(DatetimeComponent::WeekOfYear.suffix(), "week_of_year");
}

#[test]
fn components_before_the_epoch_count_back_from_midnight() {
    // One millisecond before 1970-01-01T00:00:00 is Wednesday 1969-12-31T23:59:59.999.
    let df = frame(vec![datetime_col("t", &[Some(-1_000)])]);
    let mut xf = DatetimeFeatures::new().columns(&["t"]).components(&[
        DatetimeComponent::Hour,
        DatetimeComponent::Minute,
        DatetimeComponent::Second,
        DatetimeComponent::Weekday,
        DatetimeComponent::Quarter,
    ]);
    let out = fit_transform(&mut xf, &df);
    assert_eq!(ints(&out, "t_hour"), vec![Some(23)]);
    assert_eq!(ints(&out, "t_minute"), vec![Some(59)]);
    assert_eq!(ints(&out, "t_second"), vec![Some(59)]);
    assert_eq!(ints(&out, "t_weekday"), vec![Some(2)]);
    assert_eq!(ints(&out, "t_quarter"), vec![Some(4)]);
}

#[test]
fn auto_discovery_failure_lists_available_columns() {
    let df = frame(vec![
        f64_col("v", &[1.0, 2.0]),
        Series::new("s", DType::Utf8, vec![Some(Value::Str("a".into())), None]),
    ]);
    let mut xf = DatetimeFeatures::new();
    match xf.fit(df) {
        Err(Error::InvalidInput(msg)) => assert_eq!(
            msg,
            "DatetimeFeatures: no Date or Datetime columns found. This transformer only operates on Date/Datetime columns. Available columns: ['v' (f64), 's' (str)]. Cast non-date columns before fitting."
        ),
        other => panic!("expected InvalidInput, got {other:?}"),
    }
}

#[test]
fn transform_missing_column_lists_fitted_columns() {
    let df = frame(vec![datetime_col("t", &[Some(T0)]), datetime_col("u", &[Some(T0)])]);
    let mut xf = DatetimeFeatures::new().components(&[DatetimeComponent::Year]);
    xf.fit(df).unwrap();
    let other = frame(vec![datetime_col("t", &[Some(T0)])]);
    match xf.transform(other) {
        Err(Error::InvalidInput(msg)) => assert_eq!(
            msg,
            "DatetimeFeatures.transform: column 'u' not found. The transformer was fitted on columns: [\"t\", \"u\"]."
        ),
        other => panic!("expected InvalidInput, got {other:?}"),
    }
}
