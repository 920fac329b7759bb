use featrs::frame::{DType, Frame, Series, Value};
use featrs::preprocessing::target_encoding::{apply_target_encoding, target_groups};
use featrs::traits::Error;

fn str_col(name: &str, vals: &[Option<&str>]) -> Series {
    Series::new(name, DType::Utf8, vals.iter().map(|v| v.map(|s| Value::Str(s.to_string()))).collect())
}

fn floats(df: &Frame, name: &str) -> Vec<Option<f64>> {
    let col = df.column(name).unwrap();
    assert_eq!(col.dtype, DType::Float64);
    col.values
        .iter()
        .map(|c| match c {
            Some(Value::Float(b)) => Some(f64::from_bits(*b)),
            None => None,
            other => panic!("unexpected cell {other:?}"),
        })
        .collect()
}

fn sample() -> Frame {
    Frame::new(
        4,
        vec![
            str_col("city", &[Some("a"), Some("b"), None, Some("z")]),
            Series::new("n", DType::Int64, (1..=4).map(|i| Some(Value::Int(i))).collect()),
        ],
    )
    .unwrap()
}

fn table(name: &str, pairs: &[(&str, f64)]) -> (String, Vec<(String, u64)>) {
    (name.to_string(), pairs.iter().map(|(c, v)| (c.to_string(), v.to_bits())).collect())
}

#[test]
fn categories_take_their_encoding_unseen_take_the_global_mean() {
    let out = apply_target_encoding(sample(), &vec![table("city", &[("a", 0.25), ("b", 0.75)])], 0.5_f64.to_bits()).unwrap();
    assert_eq!(floats(&out, "city"), vec![Some(0.25), Some(0.75), None, Some(0.5)]);
    assert_eq!(out.get_column_names(), vec!["city".to_string(), "n".to_string()]);
    assert!(matches!(out.column("n").unwrap().values[3], Some(Value::Int(4))));
}

#[test]
fn encoding_errors() {
    let g = 0.0_f64.to_bits();
    assert!(matches!(apply_target_encoding(sample(), &vec![table("nope", &[])], g), Err(Error::InvalidInput(_))));
    assert!(matches!(apply_target_encoding(sample(), &vec![table("n", &[])], g), Err(Error::InvalidInput(_))));
    let twice = vec![table("city", &[]), table("city", &[])];
    assert!(matches!(apply_target_encoding(sample(), &twice, g), Err(Error::InvalidInput(_))));
}

fn target(vals: &[Option<f64>]) -> Frame {
    let cells = vals.iter().map(|v| v.map(|x| Value::from_f64_bits(x.to_bits()))).collect();
    Frame::new(vals.len(), vec![Series::new("y", DType::Float64, cells)]).unwrap()
}

fn as_floats(bits: &[u64]) -> Vec<f64> {
    bits.iter().map(|b| f64::from_bits(*b)).collect()
}

#[test]
fn targets_grouped_by_category_in_first_seen_order() {
    let x = Frame::new(
        6,
        vec![
            str_col("city", &[Some("b"), Some("a"), Some("b"), None, Some("c"), Some("a")]),
            Series::new("n", DType::Int64, (1..=6).map(|i| Some(Value::Int(i))).collect()),
            str_col("empty", &[None, None, None, None, Some("q"), None]),
        ],
    )
    .unwrap();
    let y = target(&[Some(1.0), Some(2.0), Some(3.0), Some(4.0), Some(f64::NAN), None]);
    let (targets, groups) = target_groups(&x, &y).unwrap();
    assert_eq!(as_floats(&targets), vec![1.0, 2.0, 3.0, 4.0]);
    // "c" and "q" only stand beside a NaN target, so "empty" is not encodable.
    assert_eq!(groups.len(), 1);
    assert_eq!(groups[0].0, "city");
    let cats: Vec<(String, Vec<f64>)> = groups[0].1.iter().map(|(c, v)| (c.clone(), as_floats(v))).collect();
    assert_eq!(cats, vec![("b".to_string(), vec![1.0, 3.0]), ("a".to_string(), vec![2.0])]);
}

#[test]
fn target_groups_errors() {
    let x = Frame::new(2, vec![str_col("c", &[Some("a"), Some("b")])]).unwrap();
    let y = target(&[Some(1.0), Some(2.0)]);
    assert!(matches!(target_groups(&Frame::empty(), &y), Err(Error::InvalidInput(_))));
    let two = Frame::new(
        2,
        vec![
            Series::new("y", DType::Float64, vec![None, None]),
            Series::new("z", DType::Float64, vec![None, None]),
        ],
    )
    .unwrap();
    assert!(matches!(target_groups(&x, &two), Err(Error::InvalidInput(_))));
    assert!(matches!(target_groups(&x, &target(&[Some(1.0)])), Err(Error::InvalidInput(_))));
    let ints = Frame::new(2, vec![Series::new("y", DType::Int64, vec![Some(Value::Int(1)), None])]).unwrap();
    assert!(matches!(target_groups(&x, &ints), Err(Error::InvalidInput(_))));
    assert!(matches!(target_groups(&x, &target(&[Some(f64::INFINITY), None])), Err(Error::InvalidInput(_))));
    let numbers = Frame::new(2, vec![Series::new("n", DType::Int64, vec![Some(Value::Int(1)), None])]).unwrap();
    assert!(matches!(target_groups(&numbers, &y), Err(Error::InvalidInput(_))));
    assert!(target_groups(&x, &y).is_ok());
}
