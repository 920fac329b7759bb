//! Core traits and the error type.
//!
//! - [`Fit`] learns parameters from unsupervised data (`fit(X)`).
//! - [`FitSupervised`] learns parameters from data plus a target (`fit(X, y)`).
//! - [`Transform`] applies a learned transformation (`transform(X)`).
//! - [`FitTransform`] fits then transforms the same data.

use vstd::prelude::*;

pub mod missing_indicator;

verus! {

/// Errors that can occur during feature engineering operations.
#[derive(Debug)]
pub enum Error {
    /// Input data has invalid shape, type, or is empty.
    InvalidInput(String),
    /// `transform` was called before `fit`.
    NotFitted(String),
    /// A computation failed (e.g. a column could not be selected or stacked).
    Computation(String),
}

impl Error {
    /// The text shown for this error: a prefix naming the kind, then the detail.
    pub open spec fn text(&self) -> Seq<char> {
        match self {
            Error::InvalidInput(m) => "invalid input: "@ + m@,
            Error::NotFitted(m) => "not fitted: "@ + m@,
            Error::Computation(m) => "computation error: "@ + m@,
        }
    }

    /// The text shown for this error, e.g. `"not fitted: ..."`.
    pub fn message(&self) -> (r: String)
        ensures
            r@ == self.text(),
    {
        match self {
            Error::InvalidInput(m) => crate::text::concat("invalid input: ", m.as_str()),
            Error::NotFitted(m) => crate::text::concat("not fitted: ", m.as_str()),
            Error::Computation(m) => crate::text::concat("computation error: ", m.as_str()),
        }
    }
}

/// Learn parameters from unsupervised data.
pub trait Fit<X>: Sized {
    /// The type returned by `fit`. Usually `()`.
    type Output;

    /// Whether fitting this transformer on `x` may leave it as `after`, with
    /// the outcome `r`: each transformer states here what its fit does, and
    /// one that states nothing admits every outcome.
    open spec fn fits_to(&self, x: X, after: Self, r: Result<Self::Output, Error>) -> bool {
        true
    }

    /// Fit the transformer to the data.
    fn fit(&mut self, x: X) -> (r: Result<Self::Output, Error>)
        ensures
            old(self).fits_to(x, *final(self), r),
    ;
}

/// Learn parameters from data plus a supervised target.
pub trait FitSupervised<X, Y> {
    /// The type returned by `fit`. Usually `()`.
    type Output;

    /// Fit the transformer to the data and target.
    fn fit(&mut self, x: X, y: Y) -> Result<Self::Output, Error>;
}

/// Apply a learned transformation to data.
pub trait Transform<X> {
    /// The type of the transformed output.
    type Output;

    /// Transform the data using the fitted parameters.
    fn transform(&self, x: X) -> Result<Self::Output, Error>;
}

/// Fit to the data, then transform the same data.
pub trait FitTransform<X>: Fit<X> + Transform<X> {
    /// Fit to `x`, then transform `x`, returning the transformed output.
    fn fit_transform(&mut self, x: X) -> (r: Result<<Self as Transform<X>>::Output, Error>) where
        X: Clone,
        ensures
            r is Ok ==> call_ensures(Self::transform, (&*final(self), x), r),
    {
        match self.fit(x.clone()) {
            Ok(_) => self.transform(x),
            Err(e) => Err(e),
        }
    }
}

impl<T, X> FitTransform<X> for T where T: Fit<X> + Transform<X> {

}

} // verus!
