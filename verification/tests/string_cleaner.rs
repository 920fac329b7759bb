use featrs::frame::{DType, Frame, Series, Value};
use featrs::preprocessing::string_cleaner::{trim_ws, CaseStyle, StringCleaner};
use featrs::traits::{Error, Fit, Transform};

fn str_col(name: &str, values: &[Option<&str>]) -> Series {
    let cells = values.iter().map(|v| v.map(|s| Value::Str(s.to_string()))).collect();
    Series::new(name, DType::Utf8, cells)
}

fn i64_col(name: &str, values: &[i64]) -> Series {
    let cells = values.iter().map(|v| Some(Value::Int(*v))).collect();
    Series::new(name, DType::Int64, cells)
}

fn frame(values: &[Option<&str>]) -> Frame {
    let numbers = vec![0_i64; values.len()];
    Frame::new(values.len(), vec![str_col("text", values), i64_col("number", &numbers)]).unwrap()
}

fn strings(frame: &Frame, name: &str) -> Vec<Option<String>> {
    frame
        .column(name)
        .unwrap()
        .values
        .iter()
        .map(|c| match c {
            Some(Value::Str(s)) => Some(s.clone()),
            None => None,
            other => panic!("unexpected cell {other:?}"),
        })
        .collect()
}

fn values(frame: &Frame) -> Vec<Option<String>> {
    strings(frame, "text")
}

fn owned(v: &[Option<&str>]) -> Vec<Option<String>> {
    v.iter().map(|s| s.map(str::to_owned)).collect()
}

fn clean(cleaner: &mut StringCleaner, df: &Frame) -> Frame {
    cleaner.fit(df.copy()).unwrap();
    cleaner.transform(df.copy()).unwrap()
}

#[test]
fn test_trim() {
    let df = frame(&[Some(" hello "), Some("\tworld\n"), Some("")]);
    let mut cleaner = StringCleaner::new().columns(&["text"]).trim();
    assert_eq!(values(&clean(&mut cleaner, &df)), owned(&[Some("hello"), Some("world"), Some("")]));
}

#[test]
fn test_collapse_internal_whitespace() {
    let df = frame(&[Some("a  b   c"), Some("a\tb\nc"), Some("")]);
    let mut cleaner = StringCleaner::new().columns(&["text"]).collapse_internal_ws();
    assert_eq!(values(&clean(&mut cleaner, &df)), owned(&[Some("a b c"), Some("a b c"), Some("")]));
}

#[test]
fn test_lower_and_upper_case_are_unicode_aware() {
    let df = frame(&[Some("Äpfel"), Some("Straße"), Some("ÉLAN")]);
    let mut lower = StringCleaner::new().columns(&["text"]).case_style(CaseStyle::Lower);
    assert_eq!(values(&clean(&mut lower, &df)), owned(&[Some("äpfel"), Some("straße"), Some("élan")]));

    let mut upper = StringCleaner::new().columns(&["text"]).case_style(CaseStyle::Upper);
    assert_eq!(values(&clean(&mut upper, &df)), owned(&[Some("ÄPFEL"), Some("STRASSE"), Some("ÉLAN")]));
}

#[test]
fn test_title_case() {
    let df = frame(&[Some("hello world"), Some("mIXED   cASE"), Some("élan VITAL")]);
    let mut cleaner = StringCleaner::new().columns(&["text"]).case_style(CaseStyle::Title);
    assert_eq!(
        values(&clean(&mut cleaner, &df)),
        owned(&[Some("Hello World"), Some("Mixed Case"), Some("Élan Vital")])
    );
}

#[test]
fn test_camel_case() {
    let df = frame(&[Some("hello world"), Some("mIXED case"), Some("")]);
    let mut cleaner = StringCleaner::new().columns(&["text"]).case_style(CaseStyle::Camel);
    assert_eq!(values(&clean(&mut cleaner, &df)), owned(&[Some("HelloWorld"), Some("MixedCase"), Some("")]));
}

#[test]
fn test_regex_replacement_and_capture_groups() {
    let df = frame(&[Some("abc123"), Some("2026-08"), Some("none")]);
    let mut cleaner = StringCleaner::new()
        .columns(&["text"])
        .replace(r"[0-9]+", "#")
        .replace(r"([a-z]+)(#)", "${2}-${1}");
    assert_eq!(values(&clean(&mut cleaner, &df)), owned(&[Some("#-abc"), Some("#-#"), Some("none")]));
}

#[test]
fn test_multiple_replacements_run_in_order() {
    let df = frame(&[Some("a"), Some("b"), Some("c")]);
    let mut cleaner = StringCleaner::new().columns(&["text"]).replace("a", "b").replace("b", "c");
    assert_eq!(values(&clean(&mut cleaner, &df)), owned(&[Some("c"), Some("c"), Some("c")]));
}

#[test]
fn test_operations_run_in_documented_order() {
    let df = frame(&[Some("  HELLO   WORLD  "), Some(" X "), Some("")]);
    let mut cleaner = StringCleaner::new()
        .columns(&["text"])
        .trim()
        .collapse_internal_ws()
        .case_style(CaseStyle::Lower)
        .replace("hello world", "done");
    assert_eq!(values(&clean(&mut cleaner, &df)), owned(&[Some("done"), Some("x"), Some("")]));
}

#[test]
fn test_null_and_empty_strings_are_preserved() {
    let df = frame(&[Some(" "), None, Some("")]);
    let mut cleaner = StringCleaner::new().columns(&["text"]).trim();
    assert_eq!(values(&clean(&mut cleaner, &df)), owned(&[Some(""), None, Some("")]));
}

#[test]
fn test_noop_preserves_schema_and_values() {
    let df = frame(&[Some(" A "), None, Some("b")]);
    let mut cleaner = StringCleaner::new().columns(&["text"]);
    let result = clean(&mut cleaner, &df);
    assert_eq!(values(&result), values(&df));
    assert_eq!(result.get_column_names(), df.get_column_names());
    assert_eq!(result.column("number").unwrap().dtype, DType::Int64);
    assert_eq!(result.column("text").unwrap().dtype, DType::Utf8);
}

#[test]
fn test_only_selected_columns_are_cleaned() {
    let df = Frame::new(
        2,
        vec![str_col("first", &[Some(" a "), Some(" b ")]), str_col("second", &[Some(" x "), Some(" y ")])],
    )
    .unwrap();
    let mut cleaner = StringCleaner::new().columns(&["first"]).trim();
    let result = clean(&mut cleaner, &df);
    assert_eq!(strings(&result, "first")[0], Some("a".to_string()));
    assert_eq!(strings(&result, "second")[0], Some(" x ".to_string()));
    assert_eq!(result.get_column_names()[0].as_str(), "first");
    assert_eq!(result.get_column_names()[1].as_str(), "second");
}

#[test]
fn test_duplicate_column_names_are_cleaned_once() {
    let df = frame(&[Some("a"), Some("b"), Some("c")]);
    let mut cleaner = StringCleaner::new().columns(&["text", "text"]).replace("a", "aa");
    assert_eq!(values(&clean(&mut cleaner, &df)), owned(&[Some("aa"), Some("b"), Some("c")]));
}

#[test]
fn test_invalid_regex_errors_at_fit_with_actionable_message() {
    let df = frame(&[Some("a"), Some("b"), Some("c")]);
    let mut cleaner = StringCleaner::new().columns(&["text"]).replace("(", "x");
    let error = cleaner.fit(df).unwrap_err();
    assert!(matches!(error, Error::InvalidInput(_)));
    assert!(error.message().contains("Remove this pattern"));
}

#[test]
fn test_not_fitted_errors() {
    let cleaner = StringCleaner::new().columns(&["text"]);
    let error = cleaner.transform(frame(&[Some("a"), Some("b"), Some("c")])).unwrap_err();
    assert!(matches!(error, Error::NotFitted(_)));
}

#[test]
fn string_cleaner_test_empty_input_errors() {
    let mut cleaner = StringCleaner::new().columns(&["text"]);
    let empty = Frame::new(0, Vec::new()).unwrap();
    assert!(matches!(cleaner.fit(empty), Err(Error::InvalidInput(_))));
}

#[test]
fn test_empty_columns_errors() {
    let mut cleaner = StringCleaner::new();
    let error = cleaner.fit(frame(&[Some("a"), Some("b"), Some("c")])).unwrap_err();
    assert!(matches!(error, Error::InvalidInput(_)));
}

#[test]
fn test_missing_and_non_string_fit_columns_error() {
    let df = frame(&[Some("a"), Some("b"), Some("c")]);
    let mut missing = StringCleaner::new().columns(&["missing"]);
    assert!(matches!(missing.fit(df.copy()), Err(Error::InvalidInput(_))));
    let mut numeric = StringCleaner::new().columns(&["number"]);
    assert!(matches!(numeric.fit(df), Err(Error::InvalidInput(_))));
}

#[test]
fn test_transform_schema_drift_errors() {
    let train = frame(&[Some("a"), Some("b"), Some("c")]);
    let mut cleaner = StringCleaner::new().columns(&["text"]).trim();
    cleaner.fit(train).unwrap();

    let missing = Frame::new(3, vec![i64_col("number", &[1, 2, 3])]).unwrap();
    assert!(matches!(cleaner.transform(missing), Err(Error::InvalidInput(_))));

    let wrong_type = Frame::new(3, vec![i64_col("text", &[1, 2, 3])]).unwrap();
    assert!(matches!(cleaner.transform(wrong_type), Err(Error::InvalidInput(_))));
}

#[test]
fn test_failed_refit_clears_fitted_state() {
    let df = frame(&[Some("a"), Some("b"), Some("c")]);
    let mut cleaner = StringCleaner::new().columns(&["text"]).trim();
    cleaner.fit(df.copy()).unwrap();
    let invalid = Frame::new(3, vec![i64_col("text", &[1, 2, 3])]).unwrap();
    assert!(matches!(cleaner.fit(invalid), Err(Error::InvalidInput(_))));
    assert!(matches!(cleaner.transform(df), Err(Error::NotFitted(_))));
}

#[test]
fn trim_ws_strips_unicode_whitespace_only_at_the_ends() {
    assert_eq!(trim_ws("\u{3000} a b \u{00a0}"), "a b");
    assert_eq!(trim_ws("   "), "");
    assert_eq!(trim_ws("x"), "x");
}

#[test]
fn title_case_collapses_whitespace_and_camel_joins() {
    let df = frame(&[Some("  ab\tcD  "), Some("ß x"), None]);
    let mut title = StringCleaner::new().columns(&["text"]).case_style(CaseStyle::Title);
    assert_eq!(values(&clean(&mut title, &df)), owned(&[Some("Ab Cd"), Some("SS X"), None]));
    let mut camel = StringCleaner::new().columns(&["text"]).case_style(CaseStyle::Camel);
    assert_eq!(values(&clean(&mut camel, &df)), owned(&[Some("AbCd"), Some("SSX"), None]));
}

#[test]
fn default_cleaner_matches_new() {
    let df = frame(&[Some(" a ")]);
    let mut cleaner = StringCleaner::default();
    assert!(matches!(cleaner.fit(df), Err(Error::InvalidInput(_))));
    assert_eq!(CaseStyle::default(), CaseStyle::Original);
}

#[test]
fn white_space_matches_std_on_every_listed_and_neighbouring_code_point() {
    for u in 0u32..0x3100 {
        if let Some(c) = char::from_u32(u) {
            let s = format!("{c}x{c}");
            let expected = if c.is_whitespace() { "x".to_string() } else { s.clone() };
            assert_eq!(trim_ws(&s), expected, "code point {u:#x}");
        }
    }
}
