//! Data preprocessing transformations.

pub mod auto_type;
pub mod binarizer;
pub mod clipping;
pub mod constant_column_remover;
pub mod datetime_features;
pub mod duplicate_column_remover;
pub mod encoder;
pub mod feature_hasher;
pub mod imputer;
pub mod log_transformer;
pub mod max_abs_scaler;
pub mod missing_indicator;
pub mod polynomial_features;
pub mod ratio_features;
pub mod rare_category_grouper;
pub mod sorted_values;
pub mod string_cleaner;
pub mod target_encoding;
