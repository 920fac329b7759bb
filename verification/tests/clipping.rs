use featrs::frame::{DType, Frame, Series, Value};
use featrs::preprocessing::clipping::clip_columns;
use featrs::traits::Error;

fn f64_col(name: &str, vals: &[Option<f64>]) -> Series {
    let cells = vals.iter().map(|v| v.map(|x| Value::from_f64_bits(x.to_bits()))).collect();
    Series::new(name, DType::Float64, cells)
}

fn floats(df: &Frame, name: &str) -> Vec<Option<f64>> {
    df.column(name)
        .unwrap()
        .values
        .iter()
        .map(|c| match c {
            Some(Value::Float(b)) => Some(f64::from_bits(*b)),
            None => None,
            other => panic!("unexpected cell {other:?}"),
        })
        .collect()
}

fn sample() -> Frame {
    Frame::new(
        5,
        vec![
            f64_col("a", &[Some(-10.0), Some(0.5), None, Some(f64::NAN), Some(42.0)]),
            f64_col("b", &[Some(1.0), Some(2.0), Some(3.0), Some(4.0), Some(5.0)]),
        ],
    )
    .unwrap()
}

fn bound(name: &str, lo: f64, hi: f64) -> (String, u64, u64) {
    (name.to_string(), lo.to_bits(), hi.to_bits())
}

#[test]
fn values_are_clamped_and_nulls_and_nans_stay() {
    let out = clip_columns(sample(), &vec![bound("a", -1.0, 1.0)]).unwrap();
    let a = floats(&out, "a");
    assert_eq!(a[0], Some(-1.0));
    assert_eq!(a[1], Some(0.5));
    assert_eq!(a[2], None);
    assert!(a[3].unwrap().is_nan());
    assert_eq!(a[4], Some(1.0));
    assert_eq!(floats(&out, "b"), vec![Some(1.0), Some(2.0), Some(3.0), Some(4.0), Some(5.0)]);
}

#[test]
fn bounds_are_put_in_order_and_a_nan_bound_gives_way() {
    let swapped = clip_columns(sample(), &vec![bound("b", 4.0, 2.0)]).unwrap();
    assert_eq!(floats(&swapped, "b"), vec![Some(2.0), Some(2.0), Some(3.0), Some(4.0), Some(4.0)]);
    let half_nan = clip_columns(sample(), &vec![bound("b", f64::NAN, 3.0)]).unwrap();
    assert_eq!(floats(&half_nan, "b"), vec![Some(3.0); 5]);
}

#[test]
fn clipping_is_sequential_and_idempotent() {
    let twice = clip_columns(sample(), &vec![bound("b", 2.0, 4.0), bound("b", 2.0, 4.0)]).unwrap();
    let once = clip_columns(sample(), &vec![bound("b", 2.0, 4.0)]).unwrap();
    assert_eq!(floats(&twice, "b"), floats(&once, "b"));
    let narrowed = clip_columns(sample(), &vec![bound("b", 2.0, 4.0), bound("b", 3.0, 3.5)]).unwrap();
    assert_eq!(floats(&narrowed, "b"), vec![Some(3.0), Some(3.0), Some(3.0), Some(3.5), Some(3.5)]);
}

#[test]
fn clipping_rejects_missing_or_non_float_columns() {
    assert!(matches!(clip_columns(sample(), &vec![bound("zz", 0.0, 1.0)]), Err(Error::InvalidInput(_))));
    let ints = Frame::new(1, vec![Series::new("i", DType::Int64, vec![Some(Value::Int(3))])]).unwrap();
    assert!(matches!(clip_columns(ints, &vec![bound("i", 0.0, 1.0)]), Err(Error::InvalidInput(_))));
}
