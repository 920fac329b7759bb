//! Missing-value indicators, fitted together with a (unused) target.
//!
//! This [`MissingIndicator`] takes its fit data together with a target that
//! it does not use, and appends `{name}_missing` for every selected column,
//! whether or not the column contains a null, so the output schema does not
//! depend on the data.

use vstd::prelude::*;
use crate::frame::{Frame, strings_view};
use crate::preprocessing::missing_indicator::{add_indicators, add_one, all_named, first_missing, lemma_add_indicators_none};
use crate::text::{owned, join3};
use crate::traits::{Error, FitSupervised, Transform};

verus! {

/// Create indicator columns (`1.0` where the value is null, `0.0`
/// otherwise) for the selected columns.
pub struct MissingIndicator {
    fitted: bool,
    columns: Vec<String>,
    all_columns: bool,
}

impl MissingIndicator {
    /// Whether a fit has succeeded.
    pub closed spec fn is_fitted(&self) -> bool {
        self.fitted
    }

    /// The columns that are checked.
    pub closed spec fn selected(&self) -> Seq<Seq<char>> {
        strings_view(self.columns@)
    }

    /// Whether every column of the fitted frame is checked.
    pub closed spec fn uses_all(&self) -> bool {
        self.all_columns
    }

    /// Indicators for the named columns.
    pub fn new(columns: &[&str]) -> (r: Self)
        ensures
            !r.is_fitted(),
            !r.uses_all(),
            r.selected() == columns@.map_values(|s: &str| s@),
    {
        let mut cols: Vec<String> = Vec::new();
        for i in 0..columns.len()
            invariant
                cols.len() == i,
                forall|k: int| 0 <= k < i ==> (#[trigger] cols@[k])@ == columns@[k]@,
        {
            cols.push(owned(columns[i]));
        }
        let r = Self { fitted: false, columns: cols, all_columns: false };
        assert(r.selected() =~= columns@.map_values(|s: &str| s@));
        r
    }

    /// Indicators for every column of the fitted frame.
    pub fn all() -> (r: Self)
        ensures
            !r.is_fitted(),
            r.uses_all(),
            r.selected() == Seq::<Seq<char>>::empty(),
    {
        let r = Self { fitted: false, columns: Vec::new(), all_columns: true };
        assert(r.selected() =~= Seq::<Seq<char>>::empty());
        r
    }
}

impl FitSupervised<Frame, Frame> for MissingIndicator {
    type Output = ();

    /// Fix the columns to check (every column of `x` with `all`); the target
    /// is not used.
    ///
    /// Fails with `InvalidInput` when there is no column to check or a column
    /// is missing from `x`; the fitted flag is then unchanged.
    fn fit(&mut self, x: Frame, _y: Frame) -> (r: Result<(), Error>)
        ensures
            final(self).uses_all() == old(self).uses_all(),
            final(self).selected() == (if old(self).uses_all() { x@.names() } else { old(self).selected() }),
            r is Ok <==> (final(self).selected().len() > 0 && all_named(x@, final(self).selected())),
            r matches Err(e) ==> e is InvalidInput,
            r is Ok ==> final(self).is_fitted(),
            r is Err ==> final(self).is_fitted() == old(self).is_fitted(),
    {
        if self.all_columns {
            self.columns = x.get_column_names();
        }
        if self.columns.len() == 0 {
            return Err(Error::InvalidInput(owned("MissingIndicator: no columns to check. Provide column names or use .all().")));
        }
        match first_missing(&x, &self.columns) {
            Some(i) => {
                return Err(Error::InvalidInput(join3("MissingIndicator: column '", self.columns[i].as_str(), "' not found.")));
            },
            None => {},
        }
        self.fitted = true;
        Ok(())
    }
}

impl Transform<Frame> for MissingIndicator {
    type Output = Frame;

    /// Append `{name}_missing` for every selected column, in order: `1.0`
    /// where the column is null, `0.0` elsewhere.
    ///
    /// Fails with `NotFitted` before a fit, and with `InvalidInput` when a
    /// selected column is missing.
    fn transform(&self, x: Frame) -> (r: Result<Frame, Error>)
        ensures
            !self.is_fitted() ==> r matches Err(Error::NotFitted(_)),
            self.is_fitted() ==> (r is Ok <==> add_indicators(x@, self.selected()) is Some),
            self.is_fitted() ==> (r matches Err(e) ==> e is InvalidInput),
            self.is_fitted() ==> (r matches Ok(f) ==> add_indicators(x@, self.selected()) == Some(f@)),
    {
        if !self.fitted {
            return Err(Error::NotFitted(owned("MissingIndicator")));
        }
        let ghost cols = strings_view(self.columns@);
        let mut out = x.copy();
        for i in 0..self.columns.len()
            invariant
                cols == strings_view(self.columns@),
                self.fitted,
                add_indicators(x@, cols.take(i as int)) == Some(out@),
        {
            proof {
                assert(cols.take(i + 1).drop_last() =~= cols.take(i as int));
                assert(cols.take(i + 1).last() == cols[i as int]);
            }
            if !add_one(&mut out, &self.columns[i]) {
                proof {
                    lemma_add_indicators_none(x@, cols, i as int + 1);
                }
                return Err(Error::InvalidInput(join3("MissingIndicator.transform: column '", self.columns[i].as_str(), "' not found.")));
            }
        }
        proof {
            assert(cols.take(self.columns.len() as int) =~= cols);
        }
        Ok(out)
    }
}

} // verus!
