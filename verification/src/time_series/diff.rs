//! Checking a differencing configuration.
//!
//! A differencer computes, for each configured column, `x[t] - x[t - period]`
//! or the percentage change; that arithmetic is floating point and happens
//! outside this crate's verified core. What a fit decides is whether the
//! configuration fits the frame, which this module checks.

use vstd::prelude::*;
use crate::frame::{Frame, strings_view};
use crate::preprocessing::missing_indicator::{all_named, first_missing};
use crate::text::{join3, owned};
use crate::traits::Error;

verus! {

/// Check the columns of a differencer against `x`: at least one column, and
/// every one of them a column of `x`.
///
/// Fails with `InvalidInput` when the list is empty or, naming the first
/// missing one, when a column is missing.
pub fn check_difference_columns(x: &Frame, columns: &Vec<String>) -> (r: Result<(), Error>)
    ensures
        r is Ok <==> (columns.len() > 0 && all_named(x@, strings_view(columns@))),
        r matches Err(e) ==> e is InvalidInput,
{
    if columns.len() == 0 {
        return Err(Error::InvalidInput(owned("Difference: at least one column is required.")));
    }
    match first_missing(x, columns) {
        Some(i) => Err(Error::InvalidInput(join3("Difference: column '", columns[i].as_str(), "' not found."))),
        None => Ok(()),
    }
}

} // verus!
