//! Missing-value indicators.
//!
//! [`MissingIndicator`] appends, for each selected column, a `Float64` column
//! `{name}_missing` holding `1.0` where the value is null and `0.0` elsewhere.
//! The indicator is always added, so the output schema does not depend on
//! whether the transformed data happens to contain nulls.

use vstd::prelude::*;
use crate::frame::{
    CellView, DType, Frame, FrameView, Series, SeriesView, Value, ONE_BITS, ZERO_BITS,
    with_column_spec, strings_view, lemma_position_of,
};
use crate::text::{owned, concat, join3};
use crate::traits::{Error, Fit, Transform};

verus! {

/// The indicator of column `c` (selected as `name`): `{name}_missing`, `1.0`
/// where `c` is null, else `0.0`.
pub open spec fn null_indicator(c: SeriesView, name: Seq<char>) -> SeriesView {
    SeriesView {
        name: name + "_missing"@,
        dtype: DType::Float64,
        cells: c.cells.map_values(
            |x: Option<CellView>| Some(CellView::Float(if x is None { ONE_BITS } else { ZERO_BITS })),
        ),
    }
}

/// The frame after adding the indicators of `cols` one by one, each column
/// looked up in the frame built so far; `None` when a column is missing.
pub open spec fn add_indicators(f: FrameView, cols: Seq<Seq<char>>) -> Option<FrameView>
    decreases cols.len(),
{
    if cols.len() == 0 {
        Some(f)
    } else {
        match add_indicators(f, cols.drop_last()) {
            None => None,
            Some(g) => if g.has(cols.last()) {
                Some(with_column_spec(g, null_indicator(g.col(cols.last()), cols.last())))
            } else {
                None
            },
        }
    }
}

/// The indicator of the column named `name` of `f`.
pub fn indicator_series(col: &Series, name: &String) -> (r: Series)
    ensures
        r@ == null_indicator(col@, name@),
{
    let mut cells: Vec<Option<Value>> = Vec::new();
    for i in 0..col.values.len()
        invariant
            cells.len() == i,
            forall|k: int| 0 <= k < i ==> crate::frame::opt_view(#[trigger] cells@[k]) == Some(
                CellView::Float(if col@.cells[k] is None { ONE_BITS } else { ZERO_BITS }),
            ),
    {
        let bits = if col.values[i].is_none() { ONE_BITS } else { ZERO_BITS };
        cells.push(Some(Value::Float(bits)));
    }
    let r = Series { name: concat(name.as_str(), "_missing"), dtype: DType::Float64, values: cells };
    assert(r@.cells =~= null_indicator(col@, name@).cells);
    r
}

/// Whether all names of `cols` are columns of `f`.
pub open spec fn all_named(f: FrameView, cols: Seq<Seq<char>>) -> bool {
    forall|k: int| 0 <= k < cols.len() ==> f.has(#[trigger] cols[k])
}

/// Checks that every name of `cols` is a column of `x`; else names the first
/// missing one.
pub fn first_missing(x: &Frame, cols: &Vec<String>) -> (r: Option<usize>)
    ensures
        r is None <==> all_named(x@, strings_view(cols@)),
        r matches Some(i) ==> i < cols.len() && !x@.has(cols@[i as int]@),
{
    for i in 0..cols.len()
        invariant
            forall|k: int| 0 <= k < i ==> x@.has(#[trigger] strings_view(cols@)[k]),
    {
        if x.column(cols[i].as_str()).is_none() {
            assert(!x@.has(strings_view(cols@)[i as int]));
            return Some(i);
        }
    }
    None
}

/// Adds the indicator of the column named `name` to `out`.
pub(crate) fn add_one(out: &mut Frame, name: &String) -> (r: bool)
    ensures
        r == old(out)@.has(name@),
        r ==> final(out)@ == with_column_spec(old(out)@, null_indicator(old(out)@.col(name@), name@)),
        !r ==> final(out)@ == old(out)@,
{
    let ind = match out.column(name.as_str()) {
        Some(c) => indicator_series(c, name),
        None => {
            return false;
        },
    };
    proof {
        lemma_position_of(out@.columns, name@);
    }
    let res = out.with_column(ind);
    true
}

/// Create boolean indicator columns (`1.0` / `0.0`) for missing values.
pub struct MissingIndicator {
    fitted: bool,
    columns: Vec<String>,
    all_columns: bool,
}

impl MissingIndicator {
    /// Whether a fit has succeeded.
    pub closed spec fn is_fitted(&self) -> bool {
        self.fitted
    }

    /// The columns that get an indicator.
    pub closed spec fn selected(&self) -> Seq<Seq<char>> {
        strings_view(self.columns@)
    }

    /// Whether every column of the fitted frame gets an indicator.
    pub closed spec fn uses_all(&self) -> bool {
        self.all_columns
    }

    /// Indicators for the named columns.
    pub fn new(columns: &[&str]) -> (r: Self)
        ensures
            !r.is_fitted(),
            !r.uses_all(),
            r.selected() == columns@.map_values(|s: &str| s@),
    {
        let mut cols: Vec<String> = Vec::new();
        for i in 0..columns.len()
            invariant
                cols.len() == i,
                forall|k: int| 0 <= k < i ==> (#[trigger] cols@[k])@ == columns@[k]@,
        {
            cols.push(owned(columns[i]));
        }
        let r = Self { fitted: false, columns: cols, all_columns: false };
        assert(r.selected() =~= columns@.map_values(|s: &str| s@));
        r
    }

    /// Indicators for every column of the fitted frame.
    pub fn all() -> (r: Self)
        ensures
            !r.is_fitted(),
            r.uses_all(),
            r.selected() == Seq::<Seq<char>>::empty(),
    {
        let r = Self { fitted: false, columns: Vec::new(), all_columns: true };
        assert(r.selected() =~= Seq::<Seq<char>>::empty());
        r
    }
}

impl Fit<Frame> for MissingIndicator {
    type Output = ();

    open spec fn fits_to(&self, x: Frame, after: Self, r: Result<(), Error>) -> bool {
        &&& after.uses_all() == self.uses_all()
        &&& after.selected() == (if self.uses_all() { x@.names() } else { self.selected() })
        &&& r is Ok <==> (after.selected().len() > 0 && all_named(x@, after.selected()))
        &&& r matches Err(e) ==> e is InvalidInput
        &&& r is Ok ==> after.is_fitted()
        &&& r is Err ==> after.is_fitted() == self.is_fitted()
    }

    /// Fix the columns to check (every column of `x` with [`all`](MissingIndicator::all)).
    ///
    /// Fails with `InvalidInput` when there is no column to check or a column
    /// is missing from `x`; the fitted flag is then unchanged.
    fn fit(&mut self, x: Frame) -> (r: Result<(), Error>) {
        if self.all_columns {
            self.columns = x.get_column_names();
        }
        if self.columns.len() == 0 {
            return Err(Error::InvalidInput(owned("MissingIndicator: no columns to check. Provide column names or use .all().")));
        }
        match first_missing(&x, &self.columns) {
            Some(i) => {
                return Err(Error::InvalidInput(join3("MissingIndicator: column '", self.columns[i].as_str(), "' not found.")));
            },
            None => {},
        }
        self.fitted = true;
        Ok(())
    }
}

impl Transform<Frame> for MissingIndicator {
    type Output = Frame;

    /// Append `{name}_missing` for every selected column, in order.
    ///
    /// Fails with `NotFitted` before a fit, and with `InvalidInput` when a
    /// selected column is missing.
    fn transform(&self, x: Frame) -> (r: Result<Frame, Error>)
        ensures
            !self.is_fitted() ==> r matches Err(Error::NotFitted(_)),
            self.is_fitted() ==> (r is Ok <==> add_indicators(x@, self.selected()) is Some),
            self.is_fitted() ==> (r matches Err(e) ==> e is InvalidInput),
            self.is_fitted() ==> (r matches Ok(f) ==> add_indicators(x@, self.selected()) == Some(f@)),
    {
        if !self.fitted {
            return Err(Error::NotFitted(owned("MissingIndicator")));
        }
        let ghost cols = strings_view(self.columns@);
        let mut out = x.copy();
        for i in 0..self.columns.len()
            invariant
                cols == strings_view(self.columns@),
                self.fitted,
                add_indicators(x@, cols.take(i as int)) == Some(out@),
        {
            proof {
                assert(cols.take(i + 1).drop_last() =~= cols.take(i as int));
                assert(cols.take(i + 1).last() == cols[i as int]);
            }
            if !add_one(&mut out, &self.columns[i]) {
                proof {
                    lemma_add_indicators_none(x@, cols, i as int + 1);
                }
                return Err(Error::InvalidInput(join3("MissingIndicator.transform: column '", self.columns[i].as_str(), "' not found.")));
            }
        }
        proof {
            assert(cols.take(self.columns.len() as int) =~= cols);
        }
        Ok(out)
    }
}

/// Once a prefix fails, every longer prefix fails.
pub proof fn lemma_add_indicators_none(f: FrameView, cols: Seq<Seq<char>>, n: int)
    requires
        0 <= n <= cols.len(),
        add_indicators(f, cols.take(n)) is None,
    ensures
        add_indicators(f, cols) is None,
    decreases cols.len() - n,
{
    if n < cols.len() {
        assert(cols.take(n + 1).drop_last() =~= cols.take(n));
        lemma_add_indicators_none(f, cols, n + 1);
    } else {
        assert(cols.take(n) =~= cols);
    }
}

/// The indicator of a column is named `{name}_missing`, has one `Float64`
/// cell per row, and holds `1.0` exactly in the rows where the column is
/// null (`0.0` elsewhere).
pub proof fn law_indicator_marks_nulls(c: SeriesView, name: Seq<char>, i: int)
    requires
        0 <= i < c.cells.len(),
    ensures
        null_indicator(c, name).name == name + "_missing"@,
        null_indicator(c, name).dtype == DType::Float64,
        null_indicator(c, name).cells.len() == c.cells.len(),
        c.cells[i] is None ==> null_indicator(c, name).cells[i] == Some(CellView::Float(ONE_BITS)),
        c.cells[i] is Some ==> null_indicator(c, name).cells[i] == Some(CellView::Float(ZERO_BITS)),
{
}

} // verus!
