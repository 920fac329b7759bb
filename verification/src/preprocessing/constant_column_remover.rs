//! Constant-column removal.
//!
//! [`ConstantColumnRemover`] removes columns that contain only a single
//! unique value (no variance), as they carry no information for modeling.
//! It operates on columns of every dtype.

use vstd::prelude::*;
use crate::frame::{Frame, FrameError, Series, SeriesView, Value, distinct_names, distinct_seq, strings_view, all_present, select_spec};
use crate::text::{owned, concat, usize_text};
use crate::traits::{Error, Fit, Transform};

verus! {

/// Whether a column is constant.
///
/// With `ignore_nulls`, a column is constant when it has at most one distinct
/// non-null value (a null-only column is constant). Without it, a column is
/// constant when it has no null and at most one distinct value.
pub open spec fn is_constant(c: SeriesView, ignore_nulls: bool) -> bool {
    if ignore_nulls {
        forall|i: int, j: int|
            0 <= i < c.cells.len() && 0 <= j < c.cells.len() && c.cells[i] is Some
                && c.cells[j] is Some ==> #[trigger] c.cells[i] == #[trigger] c.cells[j]
    } else {
        &&& forall|i: int| 0 <= i < c.cells.len() ==> (#[trigger] c.cells[i]) is Some
        &&& forall|i: int, j: int|
            0 <= i < c.cells.len() && 0 <= j < c.cells.len() ==> #[trigger] c.cells[i]
                == #[trigger] c.cells[j]
    }
}

/// The names of the non-constant columns of `cols`, in order.
pub open spec fn non_constant_names(cols: Seq<SeriesView>, ignore_nulls: bool) -> Seq<Seq<char>>
    decreases cols.len(),
{
    if cols.len() == 0 {
        Seq::empty()
    } else {
        let rest = non_constant_names(cols.drop_last(), ignore_nulls);
        if is_constant(cols.last(), ignore_nulls) {
            rest
        } else {
            rest.push(cols.last().name)
        }
    }
}

/// Every kept name is the name of a column, and kept names keep frame order.
pub proof fn lemma_non_constant_names_sub(cols: Seq<SeriesView>, ignore_nulls: bool)
    ensures
        forall|k: int|
            0 <= k < non_constant_names(cols, ignore_nulls).len() ==> exists|i: int|
                0 <= i < cols.len() && (#[trigger] cols[i]).name == #[trigger] non_constant_names(
                    cols,
                    ignore_nulls,
                )[k] && !is_constant(cols[i], ignore_nulls),
    decreases cols.len(),
{
    if cols.len() > 0 {
        let pre = cols.drop_last();
        lemma_non_constant_names_sub(pre, ignore_nulls);
        let out = non_constant_names(cols, ignore_nulls);
        assert forall|k: int| 0 <= k < out.len() implies exists|i: int|
            0 <= i < cols.len() && (#[trigger] cols[i]).name == #[trigger] out[k] && !is_constant(
                cols[i],
                ignore_nulls,
            ) by {
            let rest = non_constant_names(pre, ignore_nulls);
            if k < rest.len() {
                let i = choose|i: int|
                    0 <= i < pre.len() && (#[trigger] pre[i]).name == #[trigger] rest[k]
                        && !is_constant(pre[i], ignore_nulls);
                assert(cols[i] == pre[i]);
            } else {
                assert(cols[cols.len() - 1] == cols.last());
            }
        }
    }
}

/// Kept names are pairwise distinct when the column names are.
pub proof fn lemma_non_constant_names_distinct(cols: Seq<SeriesView>, ignore_nulls: bool)
    requires
        distinct_names(cols),
    ensures
        distinct_seq(non_constant_names(cols, ignore_nulls)),
    decreases cols.len(),
{
    if cols.len() > 0 {
        let pre = cols.drop_last();
        assert(distinct_names(pre)) by {
            assert forall|i: int, j: int|
                0 <= i < pre.len() && 0 <= j < pre.len() && i != j implies #[trigger] pre[i].name
                    != #[trigger] pre[j].name by {
                assert(pre[i] == cols[i] && pre[j] == cols[j]);
            }
        }
        lemma_non_constant_names_distinct(pre, ignore_nulls);
        lemma_non_constant_names_sub(pre, ignore_nulls);
        let rest = non_constant_names(pre, ignore_nulls);
        if !is_constant(cols.last(), ignore_nulls) {
            let out = rest.push(cols.last().name);
            assert forall|a: int, b: int|
                0 <= a < out.len() && 0 <= b < out.len() && a != b implies #[trigger] out[a]
                    != #[trigger] out[b] by {
                if a < rest.len() && b < rest.len() {
                } else if a < rest.len() {
                    let i = choose|i: int|
                        0 <= i < pre.len() && (#[trigger] pre[i]).name == #[trigger] rest[a]
                            && !is_constant(pre[i], ignore_nulls);
                    assert(cols[i].name != cols[cols.len() - 1].name);
                } else {
                    let i = choose|i: int|
                        0 <= i < pre.len() && (#[trigger] pre[i]).name == #[trigger] rest[b]
                            && !is_constant(pre[i], ignore_nulls);
                    assert(cols[i].name != cols[cols.len() - 1].name);
                }
            }
        }
    }
}

/// Remove columns that contain only a single unique value.
///
/// With `ignore_nulls = true` (default), a column is considered constant when
/// it has at most one distinct non-null value; null-only columns are removed.
/// With `ignore_nulls = false`, any column containing a null is preserved.
/// `NaN` counts as one value: `[NaN, NaN]` is constant, `[NaN, 1.0]` is not.
pub struct ConstantColumnRemover {
    fitted: bool,
    selected_columns: Option<Vec<String>>,
    ignore_nulls: bool,
}

impl ConstantColumnRemover {
    #[verifier::type_invariant]
    spec fn inv(&self) -> bool {
        self.fitted ==> (self.selected_columns matches Some(s) && distinct_seq(strings_view(s@)))
    }

    /// Whether a fit has succeeded since the last configuration change.
    pub closed spec fn is_fitted(&self) -> bool {
        self.fitted
    }

    /// The names kept by the last successful fit.
    pub closed spec fn selected(&self) -> Seq<Seq<char>> {
        match self.selected_columns {
            Some(s) => strings_view(s@),
            None => Seq::empty(),
        }
    }

    /// Whether nulls are ignored when judging constancy.
    pub closed spec fn ignores_nulls(&self) -> bool {
        self.ignore_nulls
    }

    /// Create a new `ConstantColumnRemover` with nulls ignored.
    pub fn new() -> (r: Self)
        ensures
            !r.is_fitted(),
            r.ignores_nulls(),
    {
        Self { fitted: false, selected_columns: None, ignore_nulls: true }
    }

    /// Set whether null-containing columns are checked for constancy.
    pub fn ignore_nulls(self, b: bool) -> (r: Self)
        ensures
            r.ignores_nulls() == b,
            r.is_fitted() == self.is_fitted(),
            r.selected() == self.selected(),
    {
        proof {
            use_type_invariant(&self);
        }
        Self { fitted: self.fitted, selected_columns: self.selected_columns, ignore_nulls: b }
    }
}

/// Whether the column is constant, by one pass over its cells.
fn column_is_constant(c: &Series, ignore_nulls: bool) -> (r: bool)
    ensures
        r == is_constant(c@, ignore_nulls),
{
    let ghost cells = c@.cells;
    let mut first: Option<&Value> = None;
    let mut first_at: usize = 0;
    for i in 0..c.values.len()
        invariant
            cells == c@.cells,
            cells.len() == c.values.len(),
            first is None ==> forall|k: int| 0 <= k < i ==> (#[trigger] cells[k]) is None,
            first matches Some(v) ==> first_at < i && cells[first_at as int] == Some(v@),
            first matches Some(v) ==> forall|k: int|
                0 <= k < i && (#[trigger] cells[k]) is Some ==> cells[k] == Some(v@),
            !ignore_nulls ==> forall|k: int| 0 <= k < i ==> (#[trigger] cells[k]) is Some,
    {
        match &c.values[i] {
            None => {
                if !ignore_nulls {
                    assert(cells[i as int] is None);
                    return false;
                }
            },
            Some(v) => {
                match first {
                    None => {
                        first = Some(v);
                        first_at = i;
                    },
                    Some(f) => {
                        if !f.same(v) {
                            assert(cells[i as int] != cells[first_at as int]);
                            return false;
                        }
                    },
                }
            },
        }
    }
    true
}

impl Default for ConstantColumnRemover {
    fn default() -> (r: Self)
        ensures
            !r.is_fitted(),
            r.ignores_nulls(),
    {
        Self::new()
    }
}

impl Fit<Frame> for ConstantColumnRemover {
    type Output = ();

    open spec fn fits_to(&self, x: Frame, after: Self, r: Result<(), Error>) -> bool {
        &&& after.ignores_nulls() == self.ignores_nulls()
        &&& r is Ok <==> (x@.columns.len() > 0 && x@.height > 0 && non_constant_names(
            x@.columns,
            self.ignores_nulls(),
        ).len() > 0)
        &&& r matches Err(e) ==> e is InvalidInput
        &&& r is Ok ==> after.is_fitted() && after.selected() == non_constant_names(
            x@.columns,
            self.ignores_nulls(),
        )
        &&& r is Err ==> !after.is_fitted()
    }

    /// Learn which columns are not constant.
    ///
    /// Fails with `InvalidInput` on a frame with no columns or no rows, or
    /// when every column is constant; a failed fit leaves the remover unfitted.
    fn fit(&mut self, x: Frame) -> (r: Result<(), Error>) {
        self.fitted = false;
        self.selected_columns = None;
        let width = x.width();
        if width == 0 {
            return Err(
                Error::InvalidInput(
                    owned(
                        "ConstantColumnRemover.fit received a DataFrame with 0 columns. Provide at least one column.",
                    ),
                ),
            );
        }
        if x.height() == 0 {
            return Err(
                Error::InvalidInput(
                    owned(
                        "ConstantColumnRemover.fit received a DataFrame with 0 rows. Provide at least one row.",
                    ),
                ),
            );
        }
        let cols = x.columns();
        let ghost views = x@.columns;
        let mut selected: Vec<String> = Vec::new();
        for i in 0..cols.len()
            invariant
                views == x@.columns,
                cols.len() == views.len(),
                forall|k: int| 0 <= k < cols.len() ==> (#[trigger] cols@[k])@ == views[k],
                strings_view(selected@) == non_constant_names(views.take(i as int), self.ignore_nulls),
        {
            let constant = column_is_constant(&cols[i], self.ignore_nulls);
            proof {
                assert(views.take(i + 1).drop_last() =~= views.take(i as int));
                assert(views.take(i + 1).last() == views[i as int]);
            }
            if !constant {
                selected.push(cols[i].name.clone());
                proof {
                    assert(strings_view(selected@) =~= non_constant_names(
                        views.take(i as int),
                        self.ignore_nulls,
                    ).push(views[i as int].name));
                }
            }
        }
        proof {
            assert(views.take(cols.len() as int) =~= views);
        }
        if selected.len() == 0 {
            let mut msg = owned("ConstantColumnRemover.fit: all ");
            let n = usize_text(width);
            crate::text::push_str(&mut msg, n.as_str());
            if self.ignore_nulls {
                crate::text::push_str(
                    &mut msg,
                    " column(s) are constant (single unique value). No columns survive. Check your data or set ignore_nulls(false) to preserve columns containing nulls.",
                );
            } else {
                crate::text::push_str(
                    &mut msg,
                    " column(s) are constant (single unique value). No columns survive. Check your data.",
                );
            }
            return Err(Error::InvalidInput(msg));
        }
        proof {
            lemma_non_constant_names_distinct(views, self.ignore_nulls);
        }
        self.selected_columns = Some(selected);
        self.fitted = true;
        Ok(())
    }
}

impl Transform<Frame> for ConstantColumnRemover {
    type Output = Frame;

    /// Keep only the columns selected by `fit`, in fit order.
    ///
    /// Fails with `NotFitted` before a successful fit, and with `Computation`
    /// when a selected column is missing from `x`.
    fn transform(&self, x: Frame) -> (r: Result<Frame, Error>)
        ensures
            !self.is_fitted() ==> r matches Err(Error::NotFitted(_)),
            self.is_fitted() ==> (r is Ok <==> all_present(x@, self.selected())),
            self.is_fitted() ==> (r matches Err(e) ==> e is Computation),
            self.is_fitted() ==> (r matches Ok(f) ==> f@ == select_spec(x@, self.selected())),
    {
        proof {
            use_type_invariant(self);
        }
        if !self.fitted {
            return Err(
                Error::NotFitted(
                    owned(
                        "ConstantColumnRemover has not been fitted. Call .fit(dataframe) before .transform().",
                    ),
                ),
            );
        }
        match &self.selected_columns {
            None => Err(
                Error::NotFitted(
                    owned(
                        "ConstantColumnRemover has not been fitted. Call .fit(dataframe) before .transform().",
                    ),
                ),
            ),
            Some(cols) => match x.select(cols) {
                Ok(f) => Ok(f),
                Err(FrameError::ColumnNotFound(name)) => Err(
                    Error::Computation(concat("column not found: ", name.as_str())),
                ),
                Err(_) => Err(Error::Computation(owned("could not select the fitted columns"))),
            },
        }
    }
}


/// With `ignore_nulls` off, a column holding a null is never constant, so it
/// is always kept; with it on, a null-only column is constant and removed.
pub proof fn law_null_handling(c: SeriesView, i: int)
    requires
        0 <= i < c.cells.len(),
    ensures
        c.cells[i] is None ==> !is_constant(c, false),
        (forall|k: int| 0 <= k < c.cells.len() ==> (#[trigger] c.cells[k]) is None) ==> is_constant(c, true),
{
}

/// The kept columns are exactly the columns that are not constant, each
/// once, in column order.
pub proof fn law_non_constant_names_filter(s: Seq<SeriesView>, ignore_nulls: bool)
    ensures
        non_constant_names(s, ignore_nulls) == s.filter_map(|c: SeriesView| if is_constant(c, ignore_nulls) { None } else { Some(c.name) }),
    decreases s.len(),
{
    if s.len() > 0 {
        law_non_constant_names_filter(s.drop_last(), ignore_nulls);
        let rest = non_constant_names(s.drop_last(), ignore_nulls);
        assert forall|v: Seq<char>| #[trigger] rest.push(v) == rest + seq![v] by {
            assert(rest.push(v) =~= rest + seq![v]);
        }
    }
}

} // verus!
