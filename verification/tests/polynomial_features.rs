use featrs::frame::{DType, Frame, Series, Value};
use featrs::preprocessing::polynomial_features::PolynomialFeatures;
use featrs::traits::{Error, FitSupervised};

fn f64_col(name: &str, vals: &[f64]) -> Series {
    let cells = vals.iter().map(|x| Some(Value::from_f64_bits(x.to_bits()))).collect();
    Series::new(name, DType::Float64, cells)
}

fn make_test_df() -> Frame {
    Frame::new(3, vec![f64_col("a", &[1.0, 2.0, 3.0]), f64_col("b", &[4.0, 5.0, 6.0])]).unwrap()
}

/// The number of output columns a transform of `df` produces.
fn output_width(pf: &PolynomialFeatures, df: &Frame) -> usize {
    let plan = pf.plan(df).unwrap();
    usize::from(plan.bias) + plan.terms.len()
}

#[test]
fn test_generate_powers_degree2_2features() {
    let powers = PolynomialFeatures::generate_powers(2, 2, false);
    assert_eq!(powers.len(), 5);
    assert_eq!(powers[0].iter().sum::<usize>(), 1);
    assert_eq!(powers[1].iter().sum::<usize>(), 1);
    assert_eq!(powers[2].iter().sum::<usize>(), 2);
    assert_eq!(powers[3].iter().sum::<usize>(), 2);
    assert_eq!(powers[4].iter().sum::<usize>(), 2);
}

#[test]
fn test_polynomial_features_fit_transform() {
    let mut pf = PolynomialFeatures::new(2).include_bias(true);
    let df = make_test_df();
    let y = df.copy();
    pf.fit(df.copy(), y).unwrap();
    assert_eq!(output_width(&pf, &df), 6);
    assert_eq!(df.height(), 3);
}

#[test]
fn test_polynomial_features_no_bias() {
    let mut pf = PolynomialFeatures::new(2).include_bias(false);
    let df = make_test_df();
    let y = df.copy();
    pf.fit(df.copy(), y).unwrap();
    assert_eq!(output_width(&pf, &df), 5);
}

#[test]
fn test_polynomial_features_interaction_only() {
    let mut pf = PolynomialFeatures::new(2).include_bias(false).interaction_only(true);
    let df = make_test_df();
    let y = df.copy();
    pf.fit(df.copy(), y).unwrap();
    assert_eq!(output_width(&pf, &df), 1);
}

#[test]
fn powers_are_listed_by_degree_then_lexicographically() {
    let powers = PolynomialFeatures::generate_powers(2, 2, false);
    assert_eq!(powers, vec![vec![0, 1], vec![1, 0], vec![0, 2], vec![1, 1], vec![2, 0]]);
    let inter = PolynomialFeatures::generate_powers(3, 3, true);
    assert_eq!(
        inter,
        vec![vec![1, 1, 0], vec![1, 0, 1], vec![0, 1, 1], vec![1, 1, 1]]
    );
}

#[test]
fn plan_names_and_factors() {
    let mut pf = PolynomialFeatures::new(2);
    let df = make_test_df();
    pf.fit(df.copy(), df.copy()).unwrap();
    let plan = pf.plan(&df).unwrap();
    assert!(plan.bias);
    assert_eq!(plan.inputs, vec!["a".to_string(), "b".to_string()]);
    let names: Vec<&str> = plan.terms.iter().map(|t| t.name.as_str()).collect();
    assert_eq!(names, vec!["b", "a", "b^", "a_b_inter", "a^"]);
    assert_eq!(plan.terms[3].factors, vec![(0, 1), (1, 1)]);
    assert_eq!(plan.terms[4].factors, vec![(0, 2)]);
}

#[test]
fn plan_errors() {
    let pf = PolynomialFeatures::new(2);
    let df = make_test_df();
    assert!(matches!(pf.plan(&df), Err(Error::NotFitted(_))));

    let mut pf = PolynomialFeatures::new(2);
    pf.fit(df.copy(), df.copy()).unwrap();
    let other = Frame::new(3, vec![f64_col("a", &[1.0, 2.0, 3.0])]).unwrap();
    assert!(matches!(pf.plan(&other), Err(Error::InvalidInput(_))));

    let strings = Frame::new(1, vec![Series::new("s", DType::Utf8, vec![Some(Value::Str("x".into()))])]).unwrap();
    assert!(matches!(pf.fit(strings.copy(), strings), Err(Error::InvalidInput(_))));
    assert!(matches!(pf.fit(Frame::empty(), Frame::empty()), Err(Error::InvalidInput(_))));
}

#[test]
fn input_named_bias_is_rejected_when_a_bias_column_is_asked_for() {
    let df = Frame::new(2, vec![f64_col("bias", &[1.0, 2.0]), f64_col("a", &[3.0, 4.0])]).unwrap();
    let mut pf = PolynomialFeatures::new(1);
    match pf.fit(df.copy(), df.copy()) {
        Err(Error::InvalidInput(msg)) => assert!(msg.contains("'bias'"), "got: {msg}"),
        other => panic!("expected InvalidInput, got {other:?}"),
    }
    let mut no_bias = PolynomialFeatures::new(1).include_bias(false);
    assert!(no_bias.fit(df.copy(), df.copy()).is_ok());
}

#[test]
fn default_is_degree_two_with_bias() {
    let df = make_test_df();
    let mut pf = PolynomialFeatures::default();
    pf.fit(df.copy(), df.copy()).unwrap();
    let plan = pf.plan(&df).unwrap();
    assert!(plan.bias);
    assert_eq!(plan.terms.len(), 5);
}
