use featrs::frame::{DType, Frame, Series, Value};
use featrs::preprocessing::imputer::{columns_to_impute, fill_nulls, most_frequent_bits};
use featrs::traits::Error;

fn f64_col(name: &str, vals: &[Option<f64>]) -> Series {
    let cells = vals.iter().map(|v| v.map(|x| Value::from_f64_bits(x.to_bits()))).collect();
    Series::new(name, DType::Float64, cells)
}

fn floats(df: &Frame, name: &str) -> Vec<Option<f64>> {
    df.column(name)
        .unwrap()
        .values
        .iter()
        .map(|c| match c {
            Some(Value::Float(b)) => Some(f64::from_bits(*b)),
            None => None,
            other => panic!("unexpected cell {other:?}"),
        })
        .collect()
}

fn sample() -> Frame {
    let ints = Series::new("i", DType::Int64, vec![None, Some(Value::Int(1)), Some(Value::Int(2))]);
    Frame::new(
        3,
        vec![
            f64_col("a", &[Some(1.0), None, Some(3.0)]),
            f64_col("b", &[Some(4.0), Some(5.0), Some(6.0)]),
            ints,
            f64_col("c", &[None, None, None]),
        ],
    )
    .unwrap()
}

#[test]
fn only_float_columns_with_nulls_are_imputed() {
    assert_eq!(columns_to_impute(&sample()), vec!["a".to_string(), "c".to_string()]);
}

#[test]
fn most_frequent_prefers_count_then_smallest_value() {
    let col = f64_col("x", &[Some(2.0), Some(1.0), None, Some(2.0), Some(1.0), Some(3.0)]);
    assert_eq!(most_frequent_bits(&col), Some(1.0_f64.to_bits()));
    let col = f64_col("x", &[Some(5.0), Some(2.0), Some(5.0)]);
    assert_eq!(most_frequent_bits(&col), Some(5.0_f64.to_bits()));
    let col = f64_col("x", &[None, None]);
    assert_eq!(most_frequent_bits(&col), None);
    // ties go to the smallest value, negative values included
    let col = f64_col("x", &[Some(4.0), Some(-1.0)]);
    assert_eq!(most_frequent_bits(&col), Some((-1.0_f64).to_bits()));
    // the example of the imputer's tie test: 1.0 and 2.0 twice each
    let col = f64_col("x", &[Some(1.0), Some(1.0), Some(2.0), Some(2.0), None, None]);
    assert_eq!(most_frequent_bits(&col), Some(1.0_f64.to_bits()));
}

#[test]
fn fill_nulls_replaces_only_nulls_of_named_columns() {
    let fills = vec![("a".to_string(), 2.0_f64.to_bits()), ("c".to_string(), 0.5_f64.to_bits())];
    let out = fill_nulls(sample(), &fills).unwrap();
    assert_eq!(floats(&out, "a"), vec![Some(1.0), Some(2.0), Some(3.0)]);
    assert_eq!(floats(&out, "b"), vec![Some(4.0), Some(5.0), Some(6.0)]);
    assert_eq!(floats(&out, "c"), vec![Some(0.5), Some(0.5), Some(0.5)]);
    assert!(out.column("i").unwrap().values[0].is_none());
    assert_eq!(out.get_column_names(), sample().get_column_names());
}

#[test]
fn later_fill_wins_and_nan_fill_is_canonical() {
    let fills = vec![("a".to_string(), 7.0_f64.to_bits()), ("a".to_string(), f64::NAN.to_bits() | 1)];
    let out = fill_nulls(sample(), &fills).unwrap();
    let a = floats(&out, "a");
    assert!(a[1].unwrap().is_nan());
    assert!(matches!(out.column("a").unwrap().values[1], Some(Value::Float(b)) if b == 0x7ff8_0000_0000_0000));
}

#[test]
fn fill_nulls_rejects_missing_or_non_float_columns() {
    let missing = vec![("zz".to_string(), 0)];
    assert!(matches!(fill_nulls(sample(), &missing), Err(Error::InvalidInput(_))));
    let ints = vec![("i".to_string(), 0)];
    assert!(matches!(fill_nulls(sample(), &ints), Err(Error::InvalidInput(_))));
}
