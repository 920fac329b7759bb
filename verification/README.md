# featrs

Feature engineering for tabular data: encoders, scalers, imputers, column
filters, calendar and lag features, string cleaning, feature hashing and
pipelines.

## Layout

- `src/` — the verified library. Its functions are proved by Verus against
  their contracts, except the small wrappers (`#[verifier::external_body]`)
  whose bodies call polars, `regex` or std and whose contracts are trusted;
  most public functions state their results exactly, and a few helpers state
  only what their callers need. Tables are the library's own
  `frame::Frame` (named, typed, equal-length columns); floating-point cells are
  held as their IEEE-754 bit patterns, so everything here is exact. The
  library makes the decisions of the transformers that need no arithmetic on
  floats — which columns they act on, the checks of their fit that look at no
  float parameter, the names and order of the columns they produce — and the
  transforms that need no arithmetic on floats (encoding, hashing,
  binarizing, clipping, filling nulls, lagging, cleaning strings, calendar
  components through polars, regular expressions through `regex`), along
  with the float-free groundwork of the others: sorting values in the
  IEEE-754 total order (a verified merge sort), the finite values that
  quantiles are taken from, the target values grouped by category, the
  values a variance is taken over, and average ranks for rank correlation.
  The ranges of floating-point parameters (a smoothing `alpha`, a fence
  factor, quantile bounds, a correlation or frequency threshold) are decided
  by `params` on their bit patterns; the checks that the float-computing
  transformers make on their data (such as Box-Cox positivity) stay with
  them in `app/`.
  Laws of the library are public proof functions named `law_*`.
- `app/` — ordinary Rust around the library: conversion between polars
  `DataFrame`s and `Frame`s, adapters (`OnDataFrame`, `OnFrame`, lazy
  frames), and the transformers whose fit or transform computes with floating
  point (scalers, normalizer, power and quantile transforms, the averages of
  the imputer and the target encoder, variances and correlations), which use
  the library for every float-free step.
- `tests/` — tests of the library.
