//! Rare-category grouping for string columns.
//!
//! [`RareCategoryGrouper`] relabels infrequently-appearing categories in
//! selected `String` columns to a configurable `"Other"` label, which improves
//! the resilience of downstream encoders to high-cardinality categoricals.

use vstd::prelude::*;
use crate::frame::{
    CellView, DType, Frame, FrameView, Series, SeriesView, Value, with_column_spec, strings_view,
    opt_view, lemma_position_of,
};
use crate::order::SortedStrings;
use crate::preprocessing::encoder::{string_values, lists_sorted};
use crate::text::{owned, join3, chars_of, dedup_first, dedup_strings, owned_all};
use crate::traits::{Error, Fit, Transform};

verus! {

/// How many cells of `cells` hold the string `c`.
pub open spec fn count_in(cells: Seq<Option<CellView>>, c: Seq<char>) -> nat
    decreases cells.len(),
{
    if cells.len() == 0 {
        0
    } else {
        count_in(cells.drop_last(), c) + if cells.last() == Some(CellView::Str(c)) { 1nat } else { 0nat }
    }
}

/// The categories of column `col` kept by a minimum count: those appearing at
/// least `min_count` times.
pub open spec fn kept_by_count(col: SeriesView, min_count: nat) -> Set<Seq<char>> {
    Set::new(|c: Seq<char>| string_values(col).contains(c) && count_in(col.cells, c) >= min_count)
}

/// The relabeled cell: kept strings stay, other strings become `other`,
/// nulls stay null unless `null_as_rare`.
pub open spec fn group_cell(cell: Option<CellView>, kept: Set<Seq<char>>, other: Seq<char>, null_as_rare: bool) -> Option<CellView> {
    match cell {
        Some(CellView::Str(s)) => if kept.contains(s) { Some(CellView::Str(s)) } else { Some(CellView::Str(other)) },
        Some(v) => Some(v),
        None => if null_as_rare { Some(CellView::Str(other)) } else { None },
    }
}

/// The relabeled column.
pub open spec fn grouped_column(col: SeriesView, kept: Set<Seq<char>>, other: Seq<char>, null_as_rare: bool) -> SeriesView {
    SeriesView {
        name: col.name,
        dtype: col.dtype,
        cells: col.cells.map_values(|c: Option<CellView>| group_cell(c, kept, other, null_as_rare)),
    }
}

/// The frame after relabeling each selected column in turn (each looked up in
/// the frame built so far); `None` when a column is missing or not a string
/// column.
pub open spec fn group_all(f: FrameView, cols: Seq<Seq<char>>, kept: Seq<Set<Seq<char>>>, other: Seq<char>, null_as_rare: bool) -> Option<FrameView>
    decreases cols.len(),
{
    if cols.len() == 0 {
        Some(f)
    } else {
        match group_all(f, cols.drop_last(), kept, other, null_as_rare) {
            None => None,
            Some(g) => if g.has(cols.last()) && g.col(cols.last()).dtype == DType::Utf8 {
                Some(with_column_spec(g, grouped_column(g.col(cols.last()), kept[cols.len() - 1], other, null_as_rare)))
            } else {
                None
            },
        }
    }
}

/// Once a prefix fails, every longer prefix fails.
proof fn lemma_group_none(f: FrameView, cols: Seq<Seq<char>>, kept: Seq<Set<Seq<char>>>, other: Seq<char>, null_as_rare: bool, n: int)
    requires
        0 <= n <= cols.len(),
        group_all(f, cols.take(n), kept, other, null_as_rare) is None,
    ensures
        group_all(f, cols, kept, other, null_as_rare) is None,
    decreases cols.len() - n,
{
    if n < cols.len() {
        assert(cols.take(n + 1).drop_last() =~= cols.take(n));
        lemma_group_none(f, cols, kept, other, null_as_rare, n + 1);
    } else {
        assert(cols.take(n) =~= cols);
    }
}

/// Counts the categories of a string column: the categories in increasing
/// order, each with its number of occurrences.
pub fn category_counts(col: &Series) -> (r: (SortedStrings, Vec<u64>))
    ensures
        r.0.wf(),
        lists_sorted(r.0.view_seq(), string_values(col@)),
        r.1.len() == r.0.view_seq().len(),
        forall|k: int| 0 <= k < r.1.len() ==> r.1@[k] == count_in(col@.cells, #[trigger] r.0.view_seq()[k]),
{
    let ghost cells = col@.cells;
    let mut set = SortedStrings::new();
    let mut counts: Vec<u64> = Vec::new();
    for i in 0..col.values.len()
        invariant
            cells == col@.cells,
            cells.len() == col.values.len(),
            set.wf(),
            counts.len() == set.view_seq().len(),
            forall|x: Seq<char>| set.view_seq().contains(x) <==> exists|k: int| 0 <= k < i && #[trigger] cells[k] == Some(CellView::Str(x)),
            forall|k: int| 0 <= k < counts.len() ==> counts@[k] == count_in(cells.take(i as int), #[trigger] set.view_seq()[k]),
            forall|k: int| 0 <= k < counts.len() ==> counts@[k] <= i,
    {
        let ghost pre = cells.take(i as int);
        let ghost cur = cells.take(i + 1);
        proof {
            assert(cur.drop_last() =~= pre);
            assert(cur.last() == cells[i as int]);
        }
        let ghost old_view = set.view_seq();
        match &col.values[i] {
            Some(Value::Str(s)) => {
                let (pos, added) = set.locate_or_insert(s);
                if added {
                    proof {
                        assert(set.view_seq() =~= old_view.insert(pos as int, s@));
                    }
                    counts.insert(pos, 1);
                    proof {
                        let nv = set.view_seq();
                        assert forall|k: int| 0 <= k < counts.len() implies counts@[k] == count_in(cur, #[trigger] nv[k]) by {
                            if k < pos {
                                assert(nv[k] == old_view[k]);
                                assert(nv[k] != s@);
                            } else if k == pos {
                                assert(!old_view.contains(s@));
                                assert(count_in(pre, s@) == 0) by {
                                    lemma_count_absent(pre, s@);
                                }
                            } else {
                                assert(nv[k] == old_view[k - 1]);
                                assert(nv[k] != s@);
                            }
                        }
                    }
                } else {
                    let c = counts[pos];
                    counts.set(pos, c + 1);
                    proof {
                        let nv = set.view_seq();
                        set.lemma_sorted();
                        crate::order::lemma_sorted_distinct(nv);
                        assert forall|k: int| 0 <= k < counts.len() implies counts@[k] == count_in(cur, #[trigger] nv[k]) by {
                            if k != pos {
                                assert(nv[k] != nv[pos as int]);
                            }
                        }
                    }
                }
                proof {
                    assert forall|x: Seq<char>| set.view_seq().contains(x) implies exists|k: int|
                        0 <= k < i + 1 && #[trigger] cells[k] == Some(CellView::Str(x)) by {
                        if x == s@ {
                            assert(cells[i as int] == Some(CellView::Str(x)));
                        } else {
                            assert(old_view.contains(x));
                        }
                    }
                    assert forall|x: Seq<char>| (exists|k: int|
                        0 <= k < i + 1 && #[trigger] cells[k] == Some(CellView::Str(x))) implies set.view_seq().contains(x) by {
                        let k = choose|k: int| 0 <= k < i + 1 && #[trigger] cells[k] == Some(CellView::Str(x));
                        if k == i {
                            assert(x == s@);
                            assert(set.view_seq()[pos as int] == x);
                        } else {
                            assert(old_view.contains(x));
                        }
                    }
                }
            },
            _ => {
                proof {
                    assert forall|k: int| 0 <= k < counts.len() implies counts@[k] == count_in(cur, #[trigger] set.view_seq()[k]) by {
                    }
                    assert forall|x: Seq<char>| (exists|k: int|
                        0 <= k < i + 1 && #[trigger] cells[k] == Some(CellView::Str(x))) implies set.view_seq().contains(x) by {
                        let k = choose|k: int| 0 <= k < i + 1 && #[trigger] cells[k] == Some(CellView::Str(x));
                        assert(k != i);
                    }
                }
            },
        }
    }
    proof {
        assert(cells.take(col.values.len() as int) =~= cells);
        set.lemma_sorted();
        assert forall|x: Seq<char>| set.view_seq().contains(x) <==> string_values(col@).contains(x) by {
        }
    }
    (set, counts)
}

/// A string never seen has count zero.
proof fn lemma_count_absent(cells: Seq<Option<CellView>>, c: Seq<char>)
    requires
        forall|k: int| 0 <= k < cells.len() ==> cells[k] != Some(CellView::Str(c)),
    ensures
        count_in(cells, c) == 0,
    decreases cells.len(),
{
    if cells.len() > 0 {
        lemma_count_absent(cells.drop_last(), c);
    }
}

/// The threshold that decides which categories are considered rare.
#[derive(Debug, Clone, Copy, PartialEq, Eq, Structural)]
pub enum Threshold {
    /// Keep every category that appears at least `n` times.
    ///
    /// Categories with `count < n` are relabeled. `MinCount(0)` and
    /// `MinCount(1)` keep every observed category (a no-op).
    MinCount(u32),
}

/// Group infrequent categories in `String` columns into a single `"Other"` label.
///
/// During `fit`, each selected column is scanned and the categories that
/// meet the threshold are remembered. During `transform`, every non-null
/// value that is not a kept category — rare at fit time or unseen at
/// transform time — is relabeled to `other_label`. Nulls are preserved unless
/// `treat_null_as_rare` is set.
pub struct RareCategoryGrouper {
    fitted: bool,
    columns: Vec<String>,
    threshold: Threshold,
    other_label: String,
    treat_null_as_rare: bool,
    kept_sets: Option<Vec<SortedStrings>>,
}

/// The views of the kept sets.
pub open spec fn kept_views(v: Seq<SortedStrings>) -> Seq<Set<Seq<char>>> {
    v.map_values(|s: SortedStrings| s.view_seq().to_set())
}

impl RareCategoryGrouper {
    #[verifier::type_invariant]
    spec fn inv(&self) -> bool {
        self.fitted ==> (self.kept_sets matches Some(k) && k.len() == self.columns.len()
            && forall|i: int| 0 <= i < k.len() ==> (#[trigger] k@[i]).wf())
    }

    /// Whether a fit has succeeded since the last configuration change.
    pub closed spec fn is_fitted(&self) -> bool {
        self.fitted
    }

    /// The selected columns.
    pub closed spec fn selected(&self) -> Seq<Seq<char>> {
        strings_view(self.columns@)
    }

    /// The rarity threshold.
    pub closed spec fn rule(&self) -> Threshold {
        self.threshold
    }

    /// The label given to rare and unseen categories.
    pub closed spec fn other(&self) -> Seq<char> {
        self.other_label@
    }

    /// Whether nulls are relabeled too.
    pub closed spec fn nulls_rare(&self) -> bool {
        self.treat_null_as_rare
    }

    /// The categories kept for each selected column by the last fit.
    pub closed spec fn kept(&self) -> Seq<Set<Seq<char>>> {
        match self.kept_sets {
            Some(k) => kept_views(k@),
            None => Seq::empty(),
        }
    }

    /// Create a new `RareCategoryGrouper`: threshold `MinCount(5)`, label
    /// `"Other"`, nulls preserved, no columns selected.
    pub fn new() -> (r: Self)
        ensures
            !r.is_fitted(),
            r.selected().len() == 0,
            r.rule() == Threshold::MinCount(5),
            r.other() == "Other"@,
            !r.nulls_rare(),
    {
        let r = Self {
            fitted: false,
            columns: Vec::new(),
            threshold: Threshold::MinCount(5),
            other_label: owned("Other"),
            treat_null_as_rare: false,
            kept_sets: None,
        };
        r
    }

    /// Select the `String` columns to group; a repeated name is kept once.
    /// Invalidates any previous fit.
    pub fn columns(self, cols: &[&str]) -> (r: Self)
        ensures
            !r.is_fitted(),
            r.rule() == self.rule(),
            r.other() == self.other(),
            r.nulls_rare() == self.nulls_rare(),
            r.selected() == dedup_first(cols@.map_values(|s: &str| s@)),
    {
        let all = owned_all(cols);
        let out = dedup_strings(&all);
        Self {
            fitted: false,
            columns: out,
            threshold: self.threshold,
            other_label: self.other_label,
            treat_null_as_rare: self.treat_null_as_rare,
            kept_sets: None,
        }
    }

    /// Set the rarity threshold. Invalidates any previous fit.
    pub fn threshold(self, threshold: Threshold) -> (r: Self)
        ensures
            !r.is_fitted(),
            r.rule() == threshold,
            r.selected() == self.selected(),
            r.other() == self.other(),
            r.nulls_rare() == self.nulls_rare(),
    {
        Self {
            fitted: false,
            columns: self.columns,
            threshold,
            other_label: self.other_label,
            treat_null_as_rare: self.treat_null_as_rare,
            kept_sets: None,
        }
    }

    /// Set the label rare and unseen categories are relabeled to. Invalidates
    /// any previous fit.
    pub fn other_label(self, label: &str) -> (r: Self)
        ensures
            !r.is_fitted(),
            r.other() == label@,
            r.selected() == self.selected(),
            r.rule() == self.rule(),
            r.nulls_rare() == self.nulls_rare(),
    {
        Self {
            fitted: false,
            columns: self.columns,
            threshold: self.threshold,
            other_label: owned(label),
            treat_null_as_rare: self.treat_null_as_rare,
            kept_sets: None,
        }
    }

    /// Whether nulls are relabeled to `other_label`. Invalidates any previous
    /// fit.
    pub fn treat_null_as_rare(self, treat: bool) -> (r: Self)
        ensures
            !r.is_fitted(),
            r.nulls_rare() == treat,
            r.selected() == self.selected(),
            r.rule() == self.rule(),
            r.other() == self.other(),
    {
        Self {
            fitted: false,
            columns: self.columns,
            threshold: self.threshold,
            other_label: self.other_label,
            treat_null_as_rare: treat,
            kept_sets: None,
        }
    }
}

/// The categories of `col` kept by `min_count`.
fn keep_frequent(col: &Series, min_count: u32) -> (r: SortedStrings)
    ensures
        r.wf(),
        r.view_seq().to_set() == kept_by_count(col@, min_count as nat),
{
    let (cats, counts) = category_counts(col);
    let items = cats.items();
    let mut kept = SortedStrings::new();
    for k in 0..items.len()
        invariant
            cats.wf(),
            items@.map_values(|s: String| s@) == cats.view_seq(),
            items.len() == counts.len(),
            counts.len() == cats.view_seq().len(),
            forall|m: int| 0 <= m < counts.len() ==> counts@[m] == count_in(col@.cells, #[trigger] cats.view_seq()[m]),
            lists_sorted(cats.view_seq(), string_values(col@)),
            kept.wf(),
            forall|x: Seq<char>| kept.view_seq().contains(x) <==> exists|m: int|
                0 <= m < k && cats.view_seq()[m] == x && counts@[m] >= min_count,
    {
        if counts[k] >= min_count as u64 {
            kept.insert(&items[k]);
            proof {
                assert(items@[k as int]@ == cats.view_seq()[k as int]);
                assert forall|x: Seq<char>| kept.view_seq().contains(x) <==> exists|m: int|
                    0 <= m < k + 1 && cats.view_seq()[m] == x && counts@[m] >= min_count by {
                    if x == cats.view_seq()[k as int] {
                        assert(cats.view_seq()[k as int] == x && counts@[k as int] >= min_count);
                    }
                }
            }
        }
    }
    proof {
        assert forall|x: Seq<char>| kept.view_seq().to_set().contains(x) <==> kept_by_count(col@, min_count as nat).contains(x) by {
            if kept_by_count(col@, min_count as nat).contains(x) {
                assert(cats.view_seq().contains(x));
                let m = choose|m: int| 0 <= m < cats.view_seq().len() && cats.view_seq()[m] == x;
                assert(counts@[m] >= min_count);
            }
            if kept.view_seq().contains(x) {
                let m = choose|m: int| 0 <= m < items.len() && cats.view_seq()[m] == x && counts@[m] >= min_count;
                assert(cats.view_seq().contains(x));
            }
        }
        assert(kept.view_seq().to_set() =~= kept_by_count(col@, min_count as nat));
    }
    kept
}

/// Whether every selected name is a string column of `f`.
pub open spec fn all_string_columns(f: FrameView, cols: Seq<Seq<char>>) -> bool {
    forall|k: int| 0 <= k < cols.len() ==> f.has(#[trigger] cols[k]) && f.col(cols[k]).dtype == DType::Utf8
}

/// The kept sets that a minimum count gives for each selected column.
pub open spec fn kept_for(f: FrameView, cols: Seq<Seq<char>>, min_count: nat) -> Seq<Set<Seq<char>>> {
    cols.map_values(|c: Seq<char>| kept_by_count(f.col(c), min_count))
}

impl Default for RareCategoryGrouper {
    fn default() -> (r: Self)
        ensures
            !r.is_fitted(),
            r.selected().len() == 0,
            r.rule() == Threshold::MinCount(5),
            r.other() == "Other"@,
            !r.nulls_rare(),
    {
        Self::new()
    }
}

impl Fit<Frame> for RareCategoryGrouper {
    type Output = ();

    open spec fn fits_to(&self, x: Frame, after: Self, r: Result<(), Error>) -> bool {
        &&& after.selected() == self.selected()
        &&& after.rule() == self.rule()
        &&& after.other() == self.other()
        &&& after.nulls_rare() == self.nulls_rare()
        &&& r is Ok <==> (x@.height > 0 && x@.columns.len() > 0 && self.selected().len() > 0
            && all_string_columns(x@, self.selected()))
        &&& r matches Err(e) ==> e is InvalidInput
        &&& r is Err ==> !after.is_fitted()
        &&& r is Ok ==> after.is_fitted() && (self.rule() matches Threshold::MinCount(n)
            && after.kept() == kept_for(x@, self.selected(), n as nat))
    }

    /// Learn the kept categories of each selected column.
    ///
    /// Fails with `InvalidInput` on a frame without rows or columns, when no
    /// column is selected, or when a selected column is missing or not a
    /// string column; a failed fit leaves the grouper unfitted.
    fn fit(&mut self, x: Frame) -> (r: Result<(), Error>) {
        self.fitted = false;
        self.kept_sets = None;
        if x.height() == 0 || x.width() == 0 {
            return Err(Error::InvalidInput(owned("RareCategoryGrouper.fit received an empty DataFrame (0 rows or 0 columns). Provide data with at least 1 row and 1 column.")));
        }
        if self.columns.len() == 0 {
            return Err(Error::InvalidInput(owned("RareCategoryGrouper.fit has no selected columns. Select at least one String column with .columns(&[...]).")));
        }
        let min_count = match self.threshold {
            Threshold::MinCount(n) => n,
        };
        let ghost cols = strings_view(self.columns@);
        let mut kept_sets: Vec<SortedStrings> = Vec::new();
        for i in 0..self.columns.len()
            invariant
                cols == strings_view(self.columns@),
                self.threshold == Threshold::MinCount(min_count),
                self.columns == old(self).columns,
                self.threshold == old(self).threshold,
                self.other_label == old(self).other_label,
                self.treat_null_as_rare == old(self).treat_null_as_rare,
                !self.fitted,
                kept_sets.len() == i,
                forall|k: int| 0 <= k < i ==> (#[trigger] kept_sets@[k]).wf(),
                forall|k: int| 0 <= k < i ==> x@.has(#[trigger] cols[k]) && x@.col(cols[k]).dtype == DType::Utf8,
                kept_views(kept_sets@) == kept_for(x@, cols.take(i as int), min_count as nat),
        {
            let name = &self.columns[i];
            let col = match x.column(name.as_str()) {
                Some(c) => c,
                None => {
                    return Err(Error::InvalidInput(join3("RareCategoryGrouper.fit: column '", name.as_str(), "' was not found.")));
                },
            };
            if col.dtype != DType::Utf8 {
                return Err(Error::InvalidInput(join3("RareCategoryGrouper.fit: column '", name.as_str(), "' has a non-string dtype; expected String.")));
            }
            let kept = keep_frequent(col, min_count);
            let ghost before = kept_views(kept_sets@);
            kept_sets.push(kept);
            proof {
                assert(kept_views(kept_sets@) =~= before.push(kept.view_seq().to_set()));
                assert(kept_for(x@, cols.take(i + 1), min_count as nat) =~= kept_for(x@, cols.take(i as int), min_count as nat).push(kept_by_count(x@.col(cols[i as int]), min_count as nat)));
            }
        }
        proof {
            assert(cols.take(self.columns.len() as int) =~= cols);
        }
        self.kept_sets = Some(kept_sets);
        self.fitted = true;
        Ok(())
    }
}

/// A sorted set holding the strings of `v`.
fn sorted_set(v: &Vec<String>) -> (r: SortedStrings)
    ensures
        r.wf(),
        r.view_seq().to_set() == strings_view(v@).to_set(),
{
    let mut set = SortedStrings::new();
    for k in 0..v.len()
        invariant
            set.wf(),
            forall|x: Seq<char>| set.view_seq().contains(x) <==> exists|m: int| 0 <= m < k && (#[trigger] v@[m])@ == x,
    {
        set.insert(&v[k]);
        proof {
            assert forall|x: Seq<char>| set.view_seq().contains(x) <==> exists|m: int| 0 <= m < k + 1 && (#[trigger] v@[m])@ == x by {
                if x == v@[k as int]@ {
                    assert(v@[k as int]@ == x);
                }
            }
        }
    }
    proof {
        assert forall|x: Seq<char>| set.view_seq().to_set().contains(x) <==> strings_view(v@).to_set().contains(x) by {
            if strings_view(v@).contains(x) {
                let m = choose|m: int| 0 <= m < v.len() && strings_view(v@)[m] == x;
                assert(v@[m]@ == x);
            }
            if set.view_seq().contains(x) {
                let m = choose|m: int| 0 <= m < v.len() && (#[trigger] v@[m])@ == x;
                assert(strings_view(v@)[m] == x);
            }
        }
        assert(set.view_seq().to_set() =~= strings_view(v@).to_set());
    }
    set
}

/// The sets of the kept lists.
pub open spec fn lists_as_sets(kept: Seq<Vec<String>>) -> Seq<Set<Seq<char>>> {
    kept.map_values(|v: Vec<String>| strings_view(v@).to_set())
}

impl RareCategoryGrouper {
    /// Fit with kept categories decided by the caller, one list per selected
    /// column (for a rule the grouper cannot evaluate itself, such as a
    /// minimum relative frequency).
    ///
    /// Fails with `InvalidInput` on a frame without rows or columns, when no
    /// column is selected, when a selected column is missing or not a string
    /// column, or when the number of lists differs from the number of
    /// selected columns; a failed fit leaves the grouper unfitted.
    pub fn fit_with_kept(&mut self, x: &Frame, kept: Vec<Vec<String>>) -> (r: Result<(), Error>)
        ensures
            final(self).selected() == old(self).selected(),
            final(self).rule() == old(self).rule(),
            final(self).other() == old(self).other(),
            final(self).nulls_rare() == old(self).nulls_rare(),
            r is Ok <==> (x@.height > 0 && x@.columns.len() > 0 && old(self).selected().len() > 0
                && all_string_columns(x@, old(self).selected()) && kept.len() == old(self).selected().len()),
            r matches Err(e) ==> e is InvalidInput,
            r is Err ==> !final(self).is_fitted(),
            r is Ok ==> final(self).is_fitted() && final(self).kept() == lists_as_sets(kept@),
    {
        self.fitted = false;
        self.kept_sets = None;
        if x.height() == 0 || x.width() == 0 {
            return Err(Error::InvalidInput(owned("RareCategoryGrouper.fit received an empty DataFrame (0 rows or 0 columns). Provide data with at least 1 row and 1 column.")));
        }
        if self.columns.len() == 0 {
            return Err(Error::InvalidInput(owned("RareCategoryGrouper.fit has no selected columns. Select at least one String column with .columns(&[...]).")));
        }
        let ghost cols = strings_view(self.columns@);
        for i in 0..self.columns.len()
            invariant
                cols == strings_view(self.columns@),
                self.columns == old(self).columns,
                self.threshold == old(self).threshold,
                self.other_label == old(self).other_label,
                self.treat_null_as_rare == old(self).treat_null_as_rare,
                !self.fitted,
                self.kept_sets is None,
                forall|k: int| 0 <= k < i ==> x@.has(#[trigger] cols[k]) && x@.col(cols[k]).dtype == DType::Utf8,
        {
            let name = &self.columns[i];
            assert(cols[i as int] == name@);
            let col = match x.column(name.as_str()) {
                Some(c) => c,
                None => {
                    return Err(Error::InvalidInput(join3("RareCategoryGrouper.fit: column '", name.as_str(), "' was not found.")));
                },
            };
            if col.dtype != DType::Utf8 {
                return Err(Error::InvalidInput(join3("RareCategoryGrouper.fit: column '", name.as_str(), "' has a non-string dtype; expected String.")));
            }
        }
        if kept.len() != self.columns.len() {
            return Err(Error::InvalidInput(owned("RareCategoryGrouper.fit: one list of kept categories is needed per selected column.")));
        }
        let mut kept_sets: Vec<SortedStrings> = Vec::new();
        for k in 0..kept.len()
            invariant
                kept_sets.len() == k,
                forall|m: int| 0 <= m < k ==> (#[trigger] kept_sets@[m]).wf(),
                kept_views(kept_sets@) == lists_as_sets(kept@.take(k as int)),
        {
            let set = sorted_set(&kept[k]);
            let ghost before = kept_views(kept_sets@);
            kept_sets.push(set);
            proof {
                assert(kept_views(kept_sets@) =~= before.push(set.view_seq().to_set()));
                assert(lists_as_sets(kept@.take(k + 1)) =~= lists_as_sets(kept@.take(k as int)).push(strings_view(kept@[k as int]@).to_set()));
            }
        }
        proof {
            assert(kept@.take(kept.len() as int) =~= kept@);
        }
        self.kept_sets = Some(kept_sets);
        self.fitted = true;
        Ok(())
    }
}

/// The relabeled version of a string column.
fn group_series(col: &Series, kept: &SortedStrings, other: &String, null_as_rare: bool) -> (r: Series)
    requires
        kept.wf(),
        col.dtype == DType::Utf8,
        col@.cells_fit(),
    ensures
        r@ == grouped_column(col@, kept.view_seq().to_set(), other@, null_as_rare),
        r@.cells_fit(),
{
    let mut cells: Vec<Option<Value>> = Vec::new();
    for i in 0..col.values.len()
        invariant
            kept.wf(),
            cells.len() == i,
            forall|k: int| 0 <= k < i ==> opt_view(#[trigger] cells@[k]) == group_cell(col@.cells[k], kept.view_seq().to_set(), other@, null_as_rare),
            col@.cells_fit(),
            col.dtype == DType::Utf8,
            forall|k: int| 0 <= k < i ==> crate::frame::cell_fits(DType::Utf8, opt_view(#[trigger] cells@[k])),
    {
        let c = match &col.values[i] {
            Some(Value::Str(s)) => {
                let key = chars_of(s.as_str());
                let (_, found) = kept.search(&key);
                if found { Some(Value::Str(s.clone())) } else { Some(Value::Str(other.clone())) }
            },
            Some(v) => Some(v.copy()),
            None => if null_as_rare { Some(Value::Str(other.clone())) } else { None },
        };
        proof {
            assert(crate::frame::cell_fits(DType::Utf8, col@.cells[i as int]));
        }
        cells.push(c);
    }
    let r = Series { name: col.name.clone(), dtype: col.dtype, values: cells };
    assert(r@.cells =~= grouped_column(col@, kept.view_seq().to_set(), other@, null_as_rare).cells);
    r
}

impl Transform<Frame> for RareCategoryGrouper {
    type Output = Frame;

    /// Relabel the selected columns, column by column.
    ///
    /// Fails with `NotFitted` before a fit, and with `InvalidInput` when a
    /// selected column is missing or not a string column.
    fn transform(&self, x: Frame) -> (r: Result<Frame, Error>)
        ensures
            !self.is_fitted() ==> r matches Err(Error::NotFitted(_)),
            self.is_fitted() ==> (r is Ok <==> group_all(x@, self.selected(), self.kept(), self.other(), self.nulls_rare()) is Some),
            self.is_fitted() ==> (r matches Err(e) ==> e is InvalidInput),
            self.is_fitted() ==> (r matches Ok(f) ==> group_all(x@, self.selected(), self.kept(), self.other(), self.nulls_rare()) == Some(f@)),
    {
        proof {
            use_type_invariant(self);
        }
        if !self.fitted {
            return Err(Error::NotFitted(owned("RareCategoryGrouper has not been fitted. Call .fit(dataframe) before .transform().")));
        }
        let kept_sets = match &self.kept_sets {
            Some(k) => k,
            None => {
                return Err(Error::NotFitted(owned("RareCategoryGrouper has not been fitted.")));
            },
        };
        let ghost cols = strings_view(self.columns@);
        let ghost kv = kept_views(kept_sets@);
        let mut out = x.copy();
        for i in 0..self.columns.len()
            invariant
                cols == strings_view(self.columns@),
                kv == kept_views(kept_sets@),
                kv == self.kept(),
                self.fitted,
                kept_sets.len() == self.columns.len(),
                forall|k: int| 0 <= k < kept_sets.len() ==> (#[trigger] kept_sets@[k]).wf(),
                group_all(x@, cols.take(i as int), kv, self.other_label@, self.treat_null_as_rare) == Some(out@),
        {
            proof {
                assert(cols.take(i + 1).drop_last() =~= cols.take(i as int));
                assert(cols.take(i + 1).last() == cols[i as int]);
            }
            let name = &self.columns[i];
            proof {
                lemma_position_of(out@.columns, name@);
            }
            let grouped = match out.column(name.as_str()) {
                Some(c) => if c.dtype == DType::Utf8 {
                    group_series(c, &kept_sets[i], &self.other_label, self.treat_null_as_rare)
                } else {
                    proof {
                        lemma_group_none(x@, cols, kv, self.other_label@, self.treat_null_as_rare, i as int + 1);
                    }
                    return Err(Error::InvalidInput(join3("RareCategoryGrouper.transform: column '", name.as_str(), "' has a non-string dtype; expected String.")));
                },
                None => {
                    proof {
                        lemma_group_none(x@, cols, kv, self.other_label@, self.treat_null_as_rare, i as int + 1);
                    }
                    return Err(Error::InvalidInput(join3("RareCategoryGrouper.transform: fitted column '", name.as_str(), "' was not found.")));
                },
            };
            proof {
                assert(kv[i as int] == kept_sets@[i as int].view_seq().to_set());
            }
            let _ = out.with_column(grouped);
        }
        proof {
            assert(cols.take(self.columns.len() as int) =~= cols);
        }
        Ok(out)
    }
}


/// Every relabeled cell is a kept category, the other label, or a null that
/// was null before (when nulls are not rare); non-string cells are kept.
pub proof fn law_grouped_values(col: SeriesView, kept: Set<Seq<char>>, other: Seq<char>, null_as_rare: bool, i: int)
    requires
        0 <= i < col.cells.len(),
    ensures
        match grouped_column(col, kept, other, null_as_rare).cells[i] {
            Some(CellView::Str(s)) => kept.contains(s) || s == other,
            None => col.cells[i] is None && !null_as_rare,
            Some(v) => col.cells[i] == Some(v),
        },
        grouped_column(col, kept, other, null_as_rare).cells.len() == col.cells.len(),
{
}

/// A string that occurs in a column is counted at least once.
proof fn lemma_count_present(cells: Seq<Option<CellView>>, c: Seq<char>, i: int)
    requires
        0 <= i < cells.len(),
        cells[i] == Some(CellView::Str(c)),
    ensures
        count_in(cells, c) >= 1,
    decreases cells.len(),
{
    if i < cells.len() - 1 {
        lemma_count_present(cells.drop_last(), c, i);
    }
}

/// A minimum count of 0 or 1 keeps every observed category, so grouping
/// changes nothing when nulls are kept.
pub proof fn law_min_count_one_keeps_all(col: SeriesView, n: nat, other: Seq<char>)
    requires
        n <= 1,
    ensures
        kept_by_count(col, n) == string_values(col),
        grouped_column(col, kept_by_count(col, n), other, false) == col,
{
    assert forall|c: Seq<char>| string_values(col).contains(c) implies count_in(col.cells, c) >= n by {
        let i = choose|i: int| 0 <= i < col.cells.len() && col.cells[i] == Some(CellView::Str(c));
        lemma_count_present(col.cells, c, i);
    }
    assert(kept_by_count(col, n) =~= string_values(col));
    let g = grouped_column(col, kept_by_count(col, n), other, false);
    assert forall|i: int| 0 <= i < col.cells.len() implies g.cells[i] == col.cells[i] by {
        if let Some(CellView::Str(s)) = col.cells[i] {
            assert(string_values(col).contains(s));
        }
    }
    assert(g.cells =~= col.cells);
}

/// Counting over two parts adds the counts, and one cell counts `1`
/// exactly when it holds the string `c`.
pub proof fn law_count_in_split(s: Seq<Option<CellView>>, t: Seq<Option<CellView>>, x: Option<CellView>, c: Seq<char>)
    ensures
        count_in(s + t, c) == count_in(s, c) + count_in(t, c),
        count_in(seq![x], c) == if x == Some(CellView::Str(c)) { 1nat } else { 0nat },
    decreases t.len(),
{
    let one = seq![x];
    assert(one.drop_last() =~= Seq::<Option<CellView>>::empty());
    assert(one.last() == x);
    assert(count_in(Seq::<Option<CellView>>::empty(), c) == 0);
    if t.len() == 0 {
        assert(s + t =~= s);
    } else {
        law_count_in_split(s, t.drop_last(), x, c);
        assert((s + t).drop_last() =~= s + t.drop_last());
        assert((s + t).last() == t.last());
    }
}

/// Relabeling keeps each kept category as it is, turns every other string
/// into the other label, and turns a null into the other label exactly when
/// nulls count as rare; the column keeps its name and dtype.
pub proof fn law_group_relabels_exactly(col: SeriesView, kept: Set<Seq<char>>, other: Seq<char>, null_as_rare: bool, i: int)
    requires
        0 <= i < col.cells.len(),
    ensures
        grouped_column(col, kept, other, null_as_rare).name == col.name,
        grouped_column(col, kept, other, null_as_rare).dtype == col.dtype,
        forall|s: Seq<char>| col.cells[i] == Some(CellView::Str(s)) && kept.contains(s)
            ==> grouped_column(col, kept, other, null_as_rare).cells[i] == Some(CellView::Str(s)),
        forall|s: Seq<char>| col.cells[i] == Some(CellView::Str(s)) && !kept.contains(s)
            ==> grouped_column(col, kept, other, null_as_rare).cells[i] == Some(CellView::Str(other)),
        col.cells[i] is None && null_as_rare ==> grouped_column(col, kept, other, null_as_rare).cells[i] == Some(
            CellView::Str(other),
        ),
        col.cells[i] is None && !null_as_rare ==> grouped_column(col, kept, other, null_as_rare).cells[i] is None,
{
}

/// A category of a column is kept by a minimum count exactly when it occurs
/// at least that many times: one occurring exactly `min_count` times is kept.
pub proof fn law_kept_at_least_min_count(col: SeriesView, min_count: nat, i: int, c: Seq<char>)
    requires
        0 <= i < col.cells.len(),
        col.cells[i] == Some(CellView::Str(c)),
    ensures
        kept_by_count(col, min_count).contains(c) <==> count_in(col.cells, c) >= min_count,
{
    assert(string_values(col).contains(c));
}

} // verus!
