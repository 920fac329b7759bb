//! Duplicate-column removal.
//!
//! [`DuplicateColumnRemover`] detects columns that are perfect duplicates of an
//! earlier column (same values at every position) and keeps only the first
//! occurrence, in frame order. Columns of different dtypes are never
//! duplicates; `NaN` equals `NaN`.

use vstd::prelude::*;
use crate::frame::{Frame, FrameError, Series, SeriesView, distinct_names, distinct_seq, strings_view, all_present, select_spec, same_cell};
use crate::text::{owned, concat};
use crate::traits::{Error, Fit, Transform};

verus! {

/// Whether cells `x` and `y` match: equal, or (with `consider_nulls`) one is null.
pub open spec fn cells_match(x: Option<crate::frame::CellView>, y: Option<crate::frame::CellView>, consider_nulls: bool) -> bool {
    if consider_nulls {
        x is None || y is None || x == y
    } else {
        x == y
    }
}

/// Whether `b` duplicates `a`: same dtype, same length, matching cells.
pub open spec fn are_duplicates(a: SeriesView, b: SeriesView, consider_nulls: bool) -> bool {
    &&& a.dtype == b.dtype
    &&& a.cells.len() == b.cells.len()
    &&& forall|i: int|
        0 <= i < a.cells.len() ==> cells_match(#[trigger] a.cells[i], b.cells[i], consider_nulls)
}

/// The positions of the columns that survive: a column survives when it
/// duplicates no earlier survivor.
pub open spec fn survivors(cols: Seq<SeriesView>, consider_nulls: bool) -> Seq<int>
    decreases cols.len(),
{
    if cols.len() == 0 {
        Seq::empty()
    } else {
        let prev = survivors(cols.drop_last(), consider_nulls);
        if exists|k: int|
            0 <= k < prev.len() && are_duplicates(
                cols[#[trigger] prev[k]],
                cols.last(),
                consider_nulls,
            ) {
            prev
        } else {
            prev.push(cols.len() - 1)
        }
    }
}

/// The names of the surviving columns, in frame order.
pub open spec fn survivor_names(cols: Seq<SeriesView>, consider_nulls: bool) -> Seq<Seq<char>> {
    survivors(cols, consider_nulls).map_values(|i: int| cols[i].name)
}

/// Survivor positions are strictly increasing positions of `cols`, the first
/// column always survives, and a column survives exactly when it duplicates no
/// earlier survivor.
pub proof fn lemma_survivors(cols: Seq<SeriesView>, consider_nulls: bool)
    ensures
        ({
            let s = survivors(cols, consider_nulls);
            &&& forall|k: int| 0 <= k < s.len() ==> 0 <= #[trigger] s[k] < cols.len()
            &&& forall|a: int, b: int| 0 <= a < b < s.len() ==> #[trigger] s[a] < #[trigger] s[b]
            &&& cols.len() > 0 ==> s.len() > 0 && s[0] == 0
        }),
    decreases cols.len(),
{
    if cols.len() > 0 {
        let pre = cols.drop_last();
        lemma_survivors(pre, consider_nulls);
        let prev = survivors(pre, consider_nulls);
        let s = survivors(cols, consider_nulls);
        if s.len() == prev.len() + 1 {
            assert(s == prev.push(cols.len() - 1));
            assert forall|a: int, b: int| 0 <= a < b < s.len() implies #[trigger] s[a] < #[trigger] s[b] by {
                if b == s.len() - 1 {
                    assert(s[a] == prev[a]);
                }
            }
        } else {
            assert(s == prev);
        }
        if cols.len() == 1 {
            assert(prev.len() == 0);
        }
    }
}

/// Law: no surviving column duplicates an earlier survivor, and every removed
/// column duplicates an earlier survivor.
pub proof fn lemma_survivors_first_occurrence(cols: Seq<SeriesView>, consider_nulls: bool)
    ensures
        ({
            let s = survivors(cols, consider_nulls);
            &&& forall|a: int, b: int|
                0 <= a < b < s.len() ==> !are_duplicates(
                    cols[#[trigger] s[a]],
                    cols[#[trigger] s[b]],
                    consider_nulls,
                )
            &&& forall|j: int|
                0 <= j < cols.len() && !s.contains(j) ==> exists|k: int|
                    0 <= k < s.len() && s[k] < j && are_duplicates(
                        cols[#[trigger] s[k]],
                        #[trigger] cols[j],
                        consider_nulls,
                    )
        }),
    decreases cols.len(),
{
    if cols.len() > 0 {
        let pre = cols.drop_last();
        lemma_survivors_first_occurrence(pre, consider_nulls);
        lemma_survivors(pre, consider_nulls);
        lemma_survivors(cols, consider_nulls);
        let prev = survivors(pre, consider_nulls);
        let s = survivors(cols, consider_nulls);
        let last = cols.len() - 1;
        assert forall|k: int| 0 <= k < prev.len() implies cols[#[trigger] prev[k]] == pre[prev[k]] by {
        }
        assert forall|a: int, b: int|
            0 <= a < b < s.len() implies !are_duplicates(
                cols[#[trigger] s[a]],
                cols[#[trigger] s[b]],
                consider_nulls,
            ) by {
            if b < prev.len() {
                assert(s[a] == prev[a] && s[b] == prev[b]);
                assert(cols[prev[a]] == pre[prev[a]]);
                assert(cols[prev[b]] == pre[prev[b]]);
            } else {
                assert(s[b] == last);
                assert(s[a] == prev[a]);
                assert(cols.last() == cols[last]);
            }
        }
        assert forall|j: int| 0 <= j < cols.len() && !s.contains(j) implies exists|k: int|
            0 <= k < s.len() && s[k] < j && are_duplicates(
                cols[#[trigger] s[k]],
                #[trigger] cols[j],
                consider_nulls,
            ) by {
            if j < last {
                if prev.contains(j) {
                    let m = choose|m: int| 0 <= m < prev.len() && prev[m] == j;
                    assert(s[m] == j);
                }
                let k = choose|k: int|
                    0 <= k < prev.len() && prev[k] < j && are_duplicates(
                        pre[#[trigger] prev[k]],
                        #[trigger] pre[j],
                        consider_nulls,
                    );
                assert(s[k] == prev[k]);
                assert(cols[prev[k]] == pre[prev[k]]);
                assert(cols[j] == pre[j]);
            } else {
                if !(exists|k: int|
                    0 <= k < prev.len() && are_duplicates(
                        cols[#[trigger] prev[k]],
                        cols.last(),
                        consider_nulls,
                    )) {
                    assert(s[s.len() - 1] == last);
                }
                let k = choose|k: int|
                    0 <= k < prev.len() && are_duplicates(
                        cols[#[trigger] prev[k]],
                        cols.last(),
                        consider_nulls,
                    );
                assert(s[k] == prev[k]);
                assert(cols.last() == cols[j]);
            }
        }
    }
}

/// Survivor names are pairwise distinct when the column names are.
proof fn lemma_survivor_names_distinct(cols: Seq<SeriesView>, consider_nulls: bool)
    requires
        distinct_names(cols),
    ensures
        distinct_seq(survivor_names(cols, consider_nulls)),
{
    lemma_survivors(cols, consider_nulls);
    let s = survivors(cols, consider_nulls);
    let n = survivor_names(cols, consider_nulls);
    assert forall|a: int, b: int| 0 <= a < n.len() && 0 <= b < n.len() && a != b implies #[trigger] n[a]
        != #[trigger] n[b] by {
        if a < b {
            assert(s[a] < s[b]);
        } else {
            assert(s[b] < s[a]);
        }
        assert(n[a] == cols[s[a]].name);
        assert(n[b] == cols[s[b]].name);
    }
}

/// Remove columns that duplicate an earlier column's content.
///
/// Two columns are duplicates when they share the same dtype and every value
/// (including null positions) is identical. Only the leftmost column of each
/// duplicate group is kept; output order matches the input frame order.
/// With `consider_nulls = true`, a null in either column is treated as equal
/// to any value.
pub struct DuplicateColumnRemover {
    fitted: bool,
    selected_columns: Option<Vec<String>>,
    consider_nulls: bool,
}

impl DuplicateColumnRemover {
    #[verifier::type_invariant]
    spec fn inv(&self) -> bool {
        self.fitted ==> (self.selected_columns matches Some(s) && distinct_seq(strings_view(s@)))
    }

    /// Whether a fit has succeeded since the last configuration change.
    pub closed spec fn is_fitted(&self) -> bool {
        self.fitted
    }

    /// The names kept by the last successful fit.
    pub closed spec fn selected(&self) -> Seq<Seq<char>> {
        match self.selected_columns {
            Some(s) => strings_view(s@),
            None => Seq::empty(),
        }
    }

    /// Whether a null matches any value.
    pub closed spec fn considers_nulls(&self) -> bool {
        self.consider_nulls
    }

    /// Create a new `DuplicateColumnRemover` with strict null handling.
    pub fn new() -> (r: Self)
        ensures
            !r.is_fitted(),
            !r.considers_nulls(),
    {
        Self { fitted: false, selected_columns: None, consider_nulls: false }
    }

    /// Set whether nulls are ignored when comparing columns.
    pub fn consider_nulls(self, b: bool) -> (r: Self)
        ensures
            r.considers_nulls() == b,
            r.is_fitted() == self.is_fitted(),
            r.selected() == self.selected(),
    {
        proof {
            use_type_invariant(&self);
        }
        Self { fitted: self.fitted, selected_columns: self.selected_columns, consider_nulls: b }
    }
}

/// Whether `b` duplicates `a`.
fn columns_are_duplicates(a: &Series, b: &Series, consider_nulls: bool) -> (r: bool)
    ensures
        r == are_duplicates(a@, b@, consider_nulls),
{
    if a.dtype != b.dtype {
        return false;
    }
    if a.values.len() != b.values.len() {
        return false;
    }
    for i in 0..a.values.len()
        invariant
            a.values.len() == b.values.len(),
            forall|k: int|
                0 <= k < i ==> cells_match(#[trigger] a@.cells[k], b@.cells[k], consider_nulls),
    {
        let ok = if consider_nulls {
            a.values[i].is_none() || b.values[i].is_none() || same_cell(&a.values[i], &b.values[i])
        } else {
            same_cell(&a.values[i], &b.values[i])
        };
        if !ok {
            assert(!cells_match(a@.cells[i as int], b@.cells[i as int], consider_nulls));
            return false;
        }
    }
    true
}

impl Default for DuplicateColumnRemover {
    fn default() -> (r: Self)
        ensures
            !r.is_fitted(),
            !r.considers_nulls(),
    {
        Self::new()
    }
}

impl Fit<Frame> for DuplicateColumnRemover {
    type Output = ();

    open spec fn fits_to(&self, x: Frame, after: Self, r: Result<(), Error>) -> bool {
        &&& after.considers_nulls() == self.considers_nulls()
        &&& r is Ok <==> (x@.columns.len() > 0 && x@.height > 0)
        &&& r matches Err(e) ==> e is InvalidInput
        &&& r is Ok ==> after.is_fitted() && after.selected() == survivor_names(
            x@.columns,
            self.considers_nulls(),
        )
        &&& r is Err ==> !after.is_fitted()
    }

    /// Learn which columns survive.
    ///
    /// Fails with `InvalidInput` on a frame with no columns or no rows; a
    /// failed fit leaves the remover unfitted.
    fn fit(&mut self, x: Frame) -> (r: Result<(), Error>) {
        self.fitted = false;
        self.selected_columns = None;
        if x.width() == 0 {
            return Err(
                Error::InvalidInput(
                    owned(
                        "DuplicateColumnRemover.fit received a DataFrame with 0 columns. Provide at least one column.",
                    ),
                ),
            );
        }
        if x.height() == 0 {
            return Err(
                Error::InvalidInput(
                    owned(
                        "DuplicateColumnRemover.fit received a DataFrame with 0 rows. Provide at least one row.",
                    ),
                ),
            );
        }
        let cols = x.columns();
        let ghost views = x@.columns;
        let cn = self.consider_nulls;
        let mut kept: Vec<usize> = Vec::new();
        for i in 0..cols.len()
            invariant
                views == x@.columns,
                cols.len() == views.len(),
                forall|k: int| 0 <= k < cols.len() ==> (#[trigger] cols@[k])@ == views[k],
                kept@.map_values(|u: usize| u as int) == survivors(views.take(i as int), cn),
                forall|k: int| 0 <= k < kept.len() ==> kept@[k] < i,
        {
            let ghost pre = views.take(i as int);
            let ghost prev = survivors(pre, cn);
            let ghost cur = views.take(i + 1);
            proof {
                assert(cur.drop_last() =~= pre);
                assert(cur.last() == views[i as int]);
                assert forall|k: int| 0 <= k < prev.len() implies cur[#[trigger] prev[k]] == views[prev[k]] by {
                    assert(prev[k] == kept@[k] as int);
                }
            }
            let mut dup = false;
            let mut j: usize = 0;
            while j < kept.len()
                invariant
                    views == x@.columns,
                    cols.len() == views.len(),
                    forall|k: int| 0 <= k < cols.len() ==> (#[trigger] cols@[k])@ == views[k],
                    kept@.map_values(|u: usize| u as int) == prev,
                    forall|k: int| 0 <= k < kept.len() ==> kept@[k] < i,
                    i < cols.len(),
                    cur == views.take(i + 1),
                    forall|k: int| 0 <= k < prev.len() ==> cur[#[trigger] prev[k]] == views[prev[k]],
                    j <= kept.len(),
                    dup <==> exists|k: int|
                        0 <= k < j && are_duplicates(cur[#[trigger] prev[k]], cur.last(), cn),
                decreases kept.len() - j,
            {
                if !dup && columns_are_duplicates(&cols[kept[j]], &cols[i], cn) {
                    assert(prev[j as int] == kept@[j as int] as int);
                    dup = true;
                }
                proof {
                    if dup && !(exists|k: int|
                        0 <= k < j && are_duplicates(cur[#[trigger] prev[k]], cur.last(), cn)) {
                        assert(prev[j as int] == kept@[j as int] as int);
                        assert(are_duplicates(cur[prev[j as int]], cur.last(), cn));
                    }
                    if !dup {
                        assert(prev[j as int] == kept@[j as int] as int);
                        assert(!are_duplicates(cur[prev[j as int]], cur.last(), cn));
                    }
                }
                j += 1;
            }
            if !dup {
                kept.push(i);
                proof {
                    assert(kept@.map_values(|u: usize| u as int) =~= prev.push(i as int));
                }
            }
        }
        proof {
            assert(views.take(cols.len() as int) =~= views);
            lemma_survivors(views, cn);
        }
        let mut selected: Vec<String> = Vec::new();
        let ghost s = survivors(views, cn);
        for k in 0..kept.len()
            invariant
                views == x@.columns,
                cols.len() == views.len(),
                forall|m: int| 0 <= m < cols.len() ==> (#[trigger] cols@[m])@ == views[m],
                kept@.map_values(|u: usize| u as int) == s,
                s == survivors(views, cn),
                forall|m: int| 0 <= m < s.len() ==> 0 <= #[trigger] s[m] < cols.len(),
                selected.len() == k,
                forall|m: int| 0 <= m < k ==> (#[trigger] selected@[m])@ == views[s[m]].name,
        {
            assert(s[k as int] == kept@[k as int] as int);
            selected.push(cols[kept[k]].name.clone());
        }
        proof {
            assert(strings_view(selected@) =~= survivor_names(views, cn));
            lemma_survivor_names_distinct(views, cn);
        }
        self.selected_columns = Some(selected);
        self.fitted = true;
        Ok(())
    }
}

impl Transform<Frame> for DuplicateColumnRemover {
    type Output = Frame;

    /// Keep only the columns selected by `fit`, in fit order.
    ///
    /// Fails with `NotFitted` before a successful fit, and with `Computation`
    /// when a selected column is missing from `x`.
    fn transform(&self, x: Frame) -> (r: Result<Frame, Error>)
        ensures
            !self.is_fitted() ==> r matches Err(Error::NotFitted(_)),
            self.is_fitted() ==> (r is Ok <==> all_present(x@, self.selected())),
            self.is_fitted() ==> (r matches Err(e) ==> e is Computation),
            self.is_fitted() ==> (r matches Ok(f) ==> f@ == select_spec(x@, self.selected())),
    {
        proof {
            use_type_invariant(self);
        }
        if !self.fitted {
            return Err(
                Error::NotFitted(
                    owned(
                        "DuplicateColumnRemover has not been fitted. Call .fit(dataframe) before .transform().",
                    ),
                ),
            );
        }
        match &self.selected_columns {
            None => Err(Error::NotFitted(owned("DuplicateColumnRemover has not been fitted."))),
            Some(cols) => match x.select(cols) {
                Ok(f) => Ok(f),
                Err(FrameError::ColumnNotFound(name)) => Err(
                    Error::Computation(concat("column not found: ", name.as_str())),
                ),
                Err(_) => Err(Error::Computation(owned("could not select the fitted columns"))),
            },
        }
    }
}


/// Columns of different dtypes are never duplicates, whatever their values.
pub proof fn law_duplicates_share_dtype(a: SeriesView, b: SeriesView, consider_nulls: bool)
    ensures
        are_duplicates(a, b, consider_nulls) ==> a.dtype == b.dtype,
        !consider_nulls && are_duplicates(a, b, consider_nulls) ==> a.cells == b.cells,
{
    if !consider_nulls && are_duplicates(a, b, consider_nulls) {
        assert(a.cells =~= b.cells);
    }
}

/// Treating nulls as matching never makes two columns stop being duplicates.
pub proof fn law_consider_nulls_widens(a: SeriesView, b: SeriesView)
    ensures
        are_duplicates(a, b, false) ==> are_duplicates(a, b, true),
{
}

} // verus!
