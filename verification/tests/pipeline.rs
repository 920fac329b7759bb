use featrs::frame::{DType, Frame, Series, Value};
use featrs::pipeline::column_transformer::{ColumnTransformer, Remainder};
use featrs::pipeline::{DataFrameTransformer, Pipeline};
use featrs::preprocessing::binarizer::Binarizer;
use featrs::traits::{Error, Fit, Transform};

/// Centers and scales every `Float64` column by its mean and standard deviation.
struct Standardize {
    stats: Option<Vec<(String, f64, f64)>>,
}

impl Standardize {
    fn new() -> Self {
        Standardize { stats: None }
    }
}

fn floats(col: &Series) -> Vec<Option<f64>> {
    col.values
        .iter()
        .map(|c| match c {
            Some(Value::Float(b)) => Some(f64::from_bits(*b)),
            _ => None,
        })
        .collect()
}

impl Fit<Frame> for Standardize {
    type Output = ();

    fn fit(&mut self, x: Frame) -> Result<(), Error> {
        self.stats = None;
        let mut stats = Vec::new();
        for col in x.columns() {
            if col.dtype != DType::Float64 {
                continue;
            }
            let v: Vec<f64> = floats(col).into_iter().flatten().collect();
            let n = v.len() as f64;
            let mean = v.iter().sum::<f64>() / n;
            let var = v.iter().map(|x| (x - mean) * (x - mean)).sum::<f64>() / n;
            stats.push((col.name.clone(), mean, var.sqrt()));
        }
        if stats.is_empty() {
            return Err(Error::InvalidInput("no Float64 columns".to_string()));
        }
        self.stats = Some(stats);
        Ok(())
    }
}

impl Transform<Frame> for Standardize {
    type Output = Frame;

    fn transform(&self, x: Frame) -> Result<Frame, Error> {
        let stats = self.stats.as_ref().ok_or_else(|| Error::NotFitted("Standardize".to_string()))?;
        let mut cols = x.copy_columns();
        for (name, mean, std) in stats {
            let col = cols
                .iter_mut()
                .find(|c| &c.name == name)
                .ok_or_else(|| Error::InvalidInput(format!("missing column {name}")))?;
            let scaled = floats(col)
                .into_iter()
                .map(|v| v.map(|v| Value::from_f64_bits(((v - mean) / std).to_bits())))
                .collect();
            col.values = scaled;
        }
        Frame::new(x.height(), cols).map_err(|e| Error::Computation(format!("{e:?}")))
    }
}

fn f64_col(name: &str, vals: &[f64]) -> Series {
    let cells = vals.iter().map(|x| Some(Value::from_f64_bits(x.to_bits()))).collect();
    Series::new(name, DType::Float64, cells)
}

fn int_col(name: &str, vals: &[i64]) -> Series {
    Series::new(name, DType::Int64, vals.iter().map(|v| Some(Value::Int(*v))).collect())
}

fn make_test_df() -> Frame {
    Frame::new(3, vec![f64_col("a", &[1.0, 3.0, 5.0]), f64_col("b", &[2.0, 4.0, 6.0])]).unwrap()
}

fn make_three_column_df() -> Frame {
    Frame::new(
        3,
        vec![f64_col("a", &[1.0, 3.0, 5.0]), f64_col("b", &[2.0, 4.0, 6.0]), f64_col("c", &[10.0, 20.0, 30.0])],
    )
    .unwrap()
}

fn step(name: &str, t: impl DataFrameTransformer + 'static) -> (String, Box<dyn DataFrameTransformer>) {
    (name.to_string(), Box::new(t))
}

fn routed(name: &str, t: impl DataFrameTransformer + 'static, cols: &[&str]) -> (String, Box<dyn DataFrameTransformer>, Vec<String>) {
    (name.to_string(), Box::new(t), cols.iter().map(|c| c.to_string()).collect())
}

#[test]
fn test_pipeline_single_step() {
    let mut pipeline = Pipeline::new(vec![step("scaler", Standardize::new())]).unwrap();
    let df = make_test_df();
    pipeline.fit(df.copy()).unwrap();
    let result = pipeline.transform(df).unwrap();
    assert_eq!(result.width(), 2);
    assert_eq!(result.height(), 3);
}

#[test]
fn test_pipeline_multi_step() {
    let mut pipeline = Pipeline::new(vec![
        step("scaler", Standardize::new()),
        step("binarizer", Binarizer::new(0.0_f64.to_bits())),
    ])
    .unwrap();
    let df = make_test_df();
    pipeline.fit(df.copy()).unwrap();
    let result = pipeline.transform(df).unwrap();
    assert_eq!(result.width(), 2);
    assert_eq!(result.height(), 3);
    assert_eq!(floats(result.column("a").unwrap()), vec![Some(0.0), Some(0.0), Some(1.0)]);
}

#[test]
fn test_pipeline_empty_steps_error() {
    let result = Pipeline::new(vec![]);
    assert!(result.is_err(), "Pipeline::new must reject empty steps");
}

#[test]
fn test_pipeline_not_fitted() {
    let pipeline = Pipeline::new(vec![step("scaler", Standardize::new())]).unwrap();
    let err = pipeline.transform(make_test_df()).unwrap_err();
    assert!(matches!(err, Error::NotFitted(_)), "expected NotFitted, got {err:?}");
}

#[test]
fn test_pipeline_fit_preserves_invalid_input() {
    let mut pipeline = Pipeline::new(vec![step("scaler", Standardize::new())]).unwrap();
    let df_no_f64 = Frame::new(3, vec![int_col("x", &[1, 2, 3])]).unwrap();
    let err = pipeline.fit(df_no_f64).unwrap_err();
    assert!(matches!(err, Error::InvalidInput(_)), "expected InvalidInput, got {err:?}");
}

#[test]
fn test_pipeline_transform_preserves_invalid_input() {
    let mut pipeline = Pipeline::new(vec![step("scaler", Standardize::new())]).unwrap();
    let df = make_test_df();
    pipeline.fit(df.copy()).unwrap();
    let df_missing_a = Frame::new(3, vec![f64_col("b", &[2.0, 4.0, 6.0])]).unwrap();
    let err = pipeline.transform(df_missing_a).unwrap_err();
    assert!(matches!(err, Error::InvalidInput(_)), "expected InvalidInput, got {err:?}");
}

#[test]
fn test_pipeline_failed_refit_resets_fitted() {
    let mut pipeline = Pipeline::new(vec![step("scaler", Standardize::new())]).unwrap();
    let df = make_test_df();
    pipeline.fit(df.copy()).unwrap();
    assert!(pipeline.transform(df.copy()).is_ok());
    let df_no_f64 = Frame::new(3, vec![int_col("x", &[1, 2, 3])]).unwrap();
    assert!(pipeline.fit(df_no_f64).is_err());
    let err = pipeline.transform(df).unwrap_err();
    assert!(matches!(err, Error::NotFitted(_)), "expected NotFitted after failed refit, got {err:?}");
}

#[test]
fn pipeline_empty_frame_and_step_names() {
    let mut pipeline = Pipeline::new(vec![step("scaler", Standardize::new())]).unwrap();
    assert!(matches!(pipeline.fit(Frame::empty()), Err(Error::InvalidInput(_))));
    assert_eq!(pipeline.steps().len(), 1);
    assert_eq!(pipeline.steps()[0].0, "scaler");
}

#[test]
fn test_column_transformer_selective() {
    let mut ct = ColumnTransformer::new(vec![routed("scale_a", Standardize::new(), &["a"])], Remainder::Passthrough);
    let df = make_three_column_df();
    ct.fit(df.copy()).unwrap();
    let result = ct.transform(df).unwrap();
    assert_eq!(result.width(), 3);
    assert_eq!(result.get_column_names(), vec!["a".to_string(), "b".to_string(), "c".to_string()]);
    assert_eq!(floats(result.column("c").unwrap()), vec![Some(10.0), Some(20.0), Some(30.0)]);
}

#[test]
fn test_column_transformer_drop_remainder() {
    let mut ct = ColumnTransformer::new(vec![routed("scale_a", Standardize::new(), &["a"])], Remainder::Drop);
    let df = make_three_column_df();
    ct.fit(df.copy()).unwrap();
    let result = ct.transform(df).unwrap();
    assert_eq!(result.width(), 1);
    assert_eq!(result.height(), 3);
}

#[test]
fn test_column_transformer_multiple() {
    let mut ct = ColumnTransformer::new(
        vec![routed("scale_a", Standardize::new(), &["a"]), routed("scale_b", Standardize::new(), &["b"])],
        Remainder::Passthrough,
    );
    let df = make_three_column_df();
    ct.fit(df.copy()).unwrap();
    let result = ct.transform(df).unwrap();
    assert_eq!(result.width(), 3);
}

#[test]
fn test_column_transformer_not_fitted() {
    let ct = ColumnTransformer::new(vec![routed("scale_a", Standardize::new(), &["a"])], Remainder::Passthrough);
    assert!(ct.transform(make_three_column_df()).is_err());
}

#[test]
fn column_transformer_errors() {
    let mut ct = ColumnTransformer::new(vec![routed("scale_z", Standardize::new(), &["z"])], Remainder::Drop);
    assert!(matches!(ct.fit(make_three_column_df()), Err(Error::InvalidInput(_))));
    assert!(matches!(ct.fit(Frame::empty()), Err(Error::InvalidInput(_))));
    let mut none = ColumnTransformer::new(vec![], Remainder::Drop);
    none.fit(make_three_column_df()).unwrap();
    assert!(matches!(none.transform(make_three_column_df()), Err(Error::InvalidInput(_))));
    let mut ints = ColumnTransformer::new(vec![routed("scale_i", Standardize::new(), &["i"])], Remainder::Drop);
    let idf = Frame::new(3, vec![int_col("i", &[1, 2, 3])]).unwrap();
    assert!(matches!(ints.fit(idf), Err(Error::Computation(_))));
}

#[test]
fn overlapping_column_specs_are_rejected_at_fit() {
    let mut ct = ColumnTransformer::new(
        vec![routed("first", Standardize::new(), &["a", "b"]), routed("second", Standardize::new(), &["b"])],
        Remainder::Passthrough,
    );
    let err = ct.fit(make_three_column_df()).unwrap_err();
    assert!(matches!(err, Error::InvalidInput(_)));
    let msg = err.message();
    assert!(msg.contains("'b'") && msg.contains("first") && msg.contains("second"), "got: {msg}");
}

#[test]
fn column_transformer_transform_before_fit_is_not_fitted() {
    let ct = ColumnTransformer::new(vec![routed("scale_a", Standardize::new(), &["a"])], Remainder::Passthrough);
    let err = ct.transform(make_three_column_df()).unwrap_err();
    assert!(matches!(err, Error::NotFitted(_)), "got {err:?}");
}

#[test]
fn column_transformer_overlap_message_names_column_and_both_transformers() {
    let mut ct = ColumnTransformer::new(
        vec![routed("s1", Standardize::new(), &["a"]), routed("s2", Standardize::new(), &["a", "b"])],
        Remainder::Drop,
    );
    let df = Frame::new(3, vec![f64_col("a", &[1.0, 3.0, 5.0]), f64_col("b", &[2.0, 4.0, 6.0])]).unwrap();
    match ct.fit(df) {
        Err(Error::InvalidInput(msg)) => {
            assert!(msg.contains("'a'") && msg.contains("'s1'") && msg.contains("'s2'"), "got: {msg}");
        },
        other => panic!("expected InvalidInput, got {other:?}"),
    }
}

#[test]
fn column_transformer_failing_transformer_is_named() {
    let mut ints = ColumnTransformer::new(vec![routed("scale_i", Standardize::new(), &["i"])], Remainder::Drop);
    let idf = Frame::new(3, vec![int_col("i", &[1, 2, 3])]).unwrap();
    match ints.fit(idf) {
        Err(Error::Computation(msg)) => {
            assert_eq!(msg, "ColumnTransformer: transformer 'scale_i' failed during fit: invalid input: no Float64 columns");
        },
        other => panic!("expected Computation, got {other:?}"),
    }
}

#[test]
fn column_transformer_without_transformers_passes_everything_through() {
    let mut ct = ColumnTransformer::new(vec![], Remainder::Passthrough);
    let df = make_three_column_df();
    ct.fit(df.copy()).unwrap();
    let out = ct.transform(df).unwrap();
    assert_eq!(out.get_column_names(), vec!["a".to_string(), "b".to_string(), "c".to_string()]);
    assert_eq!(floats(out.column("b").unwrap()), vec![Some(2.0), Some(4.0), Some(6.0)]);
}

#[test]
fn column_transformer_stacks_outputs_in_transformer_order_then_remainder() {
    let mut ct = ColumnTransformer::new(
        vec![routed("scale_c", Standardize::new(), &["c"]), routed("scale_a", Standardize::new(), &["a"])],
        Remainder::Passthrough,
    );
    let df = make_three_column_df();
    ct.fit(df.copy()).unwrap();
    let out = ct.transform(df).unwrap();
    assert_eq!(out.get_column_names(), vec!["c".to_string(), "a".to_string(), "b".to_string()]);
}

#[test]
fn pipeline_step_error_keeps_kind_and_names_step() {
    let mut pipeline = Pipeline::new(vec![
        step("binarizer", Binarizer::new(0.0_f64.to_bits())),
        step("scaler", Standardize::new()),
    ])
    .unwrap();
    let idf = Frame::new(3, vec![int_col("x", &[1, 2, 3])]).unwrap();
    let err = pipeline.fit(idf).unwrap_err();
    match &err {
        Error::InvalidInput(msg) => assert!(msg.starts_with("Pipeline: step 1 ('scaler') failed during fit: "), "got: {msg}"),
        other => panic!("expected InvalidInput, got {other:?}"),
    }
    let not_fitted = pipeline.transform(make_test_df()).unwrap_err();
    assert!(matches!(not_fitted, Error::NotFitted(_)));
}

#[test]
fn pipeline_fits_each_step_on_the_previous_output() {
    let mut pipeline = Pipeline::new(vec![
        step("first", Standardize::new()),
        step("second", Standardize::new()),
    ])
    .unwrap();
    let df = Frame::new(3, vec![f64_col("a", &[1.0, 2.0, 3.0])]).unwrap();
    pipeline.fit(df.copy()).unwrap();
    let out = pipeline.transform(df).unwrap();
    let v = floats(out.column("a").unwrap());
    let s = 1.5_f64.sqrt();
    let expected = [-s, 0.0, s];
    for (got, want) in v.iter().zip(expected.iter()) {
        assert!((got.unwrap() - want).abs() < 1e-12, "got {v:?}");
    }
}
