//! Feature engineering on columnar tables, with its behaviour stated as
//! contracts and proved: encoders, column removers, string cleaning,
//! calendar features, feature hashing, lag features, pipelines, and the
//! float-free parts of the numeric transformers (column resolution, domain
//! checks, clipping, null filling, selection and ranking). Floats are held
//! as their IEEE-754 bit patterns; arithmetic on them lives outside this
//! crate's verified core.

pub mod feature_selection;
pub mod frame;
pub mod numbers;
pub mod order;
pub mod params;
pub mod text;
pub mod total_order;
pub mod traits;
pub mod pipeline;
pub mod preprocessing;
pub mod time_series;
pub mod util;
