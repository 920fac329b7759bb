//! Categorical encoding.
//!
//! - [`OneHotEncoder`] — create dummy/binary columns for each category
//! - [`LabelEncoder`] — encode labels as `0..n_classes-1` integers
//! - [`OrdinalEncoder`] — encode categorical features as integer columns
//!
//! Categories are the distinct non-null strings of a column, sorted in
//! increasing (code point) order.

use vstd::prelude::*;
use crate::frame::{
    CellView, DType, Frame, FrameView, Series, SeriesView, Value, ONE_BITS, ZERO_BITS,
    distinct_names, series_views, lemma_position_of,
};
use crate::order::{SortedStrings, strictly_sorted, lemma_sorted_distinct};
use crate::text::{owned, join3, chars_of};
use crate::traits::{Error, Fit, Transform};

verus! {

/// The distinct non-null strings of a column.
pub open spec fn string_values(c: SeriesView) -> Set<Seq<char>> {
    Set::new(|s: Seq<char>| exists|i: int| 0 <= i < c.cells.len() && c.cells[i] == Some(CellView::Str(s)))
}

/// Whether a column holds at least one non-null string.
pub open spec fn has_strings(c: SeriesView) -> bool {
    exists|i: int| 0 <= i < c.cells.len() && (#[trigger] c.cells[i]) matches Some(CellView::Str(_))
}

/// `r` lists the set `s` in strictly increasing order.
pub open spec fn lists_sorted(r: Seq<Seq<char>>, s: Set<Seq<char>>) -> bool {
    &&& strictly_sorted(r)
    &&& forall|x: Seq<char>| r.contains(x) <==> s.contains(x)
}

/// The position of `v` in `s` (meaningful when `s` contains `v`).
pub open spec fn position_in(s: Seq<Seq<char>>, v: Seq<char>) -> int {
    choose|p: int| 0 <= p < s.len() && s[p] == v
}

/// The integer code of a cell: the position of its string among `classes`,
/// null when the cell is null or holds an unknown string.
pub open spec fn code_of(classes: Seq<Seq<char>>, cell: Option<CellView>) -> Option<CellView> {
    match cell {
        Some(CellView::Str(s)) => if classes.contains(s) {
            Some(CellView::UInt(position_in(classes, s)))
        } else {
            None
        },
        _ => None,
    }
}

/// The code column of `c` under `classes`.
pub open spec fn coded_column(c: SeriesView, classes: Seq<Seq<char>>) -> SeriesView {
    SeriesView {
        name: c.name,
        dtype: DType::UInt32,
        cells: c.cells.map_values(|x: Option<CellView>| code_of(classes, x)),
    }
}

/// With distinct classes, the position of a held string is where it sits.
proof fn lemma_position_in(s: Seq<Seq<char>>, v: Seq<char>, p: int)
    requires
        strictly_sorted(s),
        0 <= p < s.len(),
        s[p] == v,
    ensures
        position_in(s, v) == p,
{
    lemma_sorted_distinct(s);
    let q = position_in(s, v);
    assert(s.contains(v));
    if q != p {
        assert(s[q] != s[p]);
    }
}

/// The string held by a cell of a string column.
fn cell_string(v: &Option<Value>) -> (r: Option<&String>)
    ensures
        match r {
            Some(s) => crate::frame::opt_view(*v) == Some(CellView::Str(s@)),
            None => !(crate::frame::opt_view(*v) matches Some(CellView::Str(_))),
        },
{
    match v {
        Some(Value::Str(s)) => Some(s),
        _ => None,
    }
}

/// The sorted distinct non-null strings of a string column.
///
/// Fails with `InvalidInput` when the column is not a string column.
pub(crate) fn column_unique_strings(col: &Series) -> (r: Result<SortedStrings, Error>)
    ensures
        r is Err <==> col.dtype != DType::Utf8,
        r matches Err(e) ==> e is InvalidInput,
        r matches Ok(s) ==> s.wf() && lists_sorted(s.view_seq(), string_values(col@)),
{
    if col.dtype != DType::Utf8 {
        let mut msg = owned("Encoder: column '");
        crate::text::push_str(&mut msg, col.name.as_str());
        crate::text::push_str(
            &mut msg,
            "' does not hold strings; expected String. Only string columns can be encoded.",
        );
        return Err(Error::InvalidInput(msg));
    }
    let ghost cells = col@.cells;
    let mut set = SortedStrings::new();
    for i in 0..col.values.len()
        invariant
            cells == col@.cells,
            cells.len() == col.values.len(),
            set.wf(),
            forall|x: Seq<char>|
                set.view_seq().contains(x) <==> exists|k: int|
                    0 <= k < i && #[trigger] cells[k] == Some(CellView::Str(x)),
    {
        match cell_string(&col.values[i]) {
            Some(s) => {
                set.insert(s);
                proof {
                    assert forall|x: Seq<char>| set.view_seq().contains(x) implies exists|k: int|
                        0 <= k < i + 1 && #[trigger] cells[k] == Some(CellView::Str(x)) by {
                        if x == s@ {
                            assert(cells[i as int] == Some(CellView::Str(x)));
                        }
                    }
                    assert forall|x: Seq<char>| (exists|k: int|
                        0 <= k < i + 1 && #[trigger] cells[k] == Some(CellView::Str(x))) implies set.view_seq().contains(x) by {
                        let k = choose|k: int| 0 <= k < i + 1 && #[trigger] cells[k] == Some(CellView::Str(x));
                        if k == i {
                            assert(x == s@);
                        }
                    }
                }
            },
            None => {
                proof {
                    assert forall|x: Seq<char>| (exists|k: int|
                        0 <= k < i + 1 && #[trigger] cells[k] == Some(CellView::Str(x))) implies set.view_seq().contains(x) by {
                        let k = choose|k: int| 0 <= k < i + 1 && #[trigger] cells[k] == Some(CellView::Str(x));
                        assert(k != i);
                    }
                }
            },
        }
    }
    proof {
        set.lemma_sorted();
        assert forall|x: Seq<char>| set.view_seq().contains(x) <==> string_values(col@).contains(x) by {
        }
    }
    Ok(set)
}

/// The code of `v` under `classes`, looked up by binary search.
fn code_for(classes: &SortedStrings, v: &Option<Value>) -> (r: Option<Value>)
    requires
        classes.wf(),
    ensures
        crate::frame::opt_view(r) == code_of(classes.view_seq(), crate::frame::opt_view(*v)),
{
    match cell_string(v) {
        Some(s) => {
            let key = chars_of(s.as_str());
            let (pos, found) = classes.search(&key);
            if found {
                proof {
                    classes.lemma_sorted();
                    lemma_position_in(classes.view_seq(), s@, pos as int);
                }
                Some(Value::UInt(pos as u64))
            } else {
                None
            }
        },
        None => None,
    }
}

/// The codes of a string column.
fn encode_column(col: &Series, classes: &SortedStrings) -> (r: Series)
    requires
        classes.wf(),
    ensures
        r@ == coded_column(col@, classes.view_seq()),
{
    let mut cells: Vec<Option<Value>> = Vec::new();
    for i in 0..col.values.len()
        invariant
            classes.wf(),
            cells.len() == i,
            forall|k: int| 0 <= k < i ==> crate::frame::opt_view(#[trigger] cells@[k]) == code_of(
                classes.view_seq(),
                col@.cells[k],
            ),
    {
        cells.push(code_for(classes, &col.values[i]));
    }
    let r = Series { name: col.name.clone(), dtype: DType::UInt32, values: cells };
    assert(r@.cells =~= coded_column(col@, classes.view_seq()).cells);
    r
}

// ---------------------------------------------------------------------------
// LabelEncoder

/// Encode labels as integers `0` to `n_classes - 1`.
///
/// Operates on a single string column. The mapping is sorted alphabetically;
/// unknown labels encode to null.
pub struct LabelEncoder {
    fitted: bool,
    classes: Option<SortedStrings>,
}

impl LabelEncoder {
    #[verifier::type_invariant]
    spec fn inv(&self) -> bool {
        self.fitted ==> (self.classes matches Some(c) && c.wf())
    }

    /// Whether a fit has succeeded.
    pub closed spec fn is_fitted(&self) -> bool {
        self.fitted
    }

    /// The classes learned by the last successful fit, in increasing order.
    pub closed spec fn classes(&self) -> Seq<Seq<char>> {
        match self.classes {
            Some(c) => c.view_seq(),
            None => Seq::empty(),
        }
    }

    /// Create a new `LabelEncoder`.
    pub fn new() -> (r: Self)
        ensures
            !r.is_fitted(),
    {
        Self { fitted: false, classes: None }
    }

    /// The learned classes, in increasing order (`None` before a fit).
    pub fn learned_classes(&self) -> (r: Option<&Vec<String>>)
        ensures
            self.is_fitted() ==> (r matches Some(v) && v@.map_values(|s: String| s@) == self.classes()),
    {
        proof {
            use_type_invariant(self);
        }
        match &self.classes {
            Some(c) => if self.fitted {
                Some(c.items())
            } else {
                None
            },
            None => None,
        }
    }

    /// Learn the sorted classes of the single string column of `x`.
    fn learn(&mut self, x: Frame) -> (r: Result<(), Error>)
        ensures
            r is Ok <==> (x@.columns.len() == 1 && x@.columns[0].dtype == DType::Utf8
                && has_strings(x@.columns[0])),
            r matches Err(e) ==> e is InvalidInput,
            r is Err ==> *final(self) == *old(self),
            r is Ok ==> final(self).is_fitted() && lists_sorted(
                final(self).classes(),
                string_values(x@.columns[0]),
            ),
    {
        let cols = x.columns();
        if cols.len() != 1 {
            let mut msg = owned("LabelEncoder.fit expects a single column but got ");
            let n = crate::text::usize_text(cols.len());
            crate::text::push_str(&mut msg, n.as_str());
            crate::text::push_str(
                &mut msg,
                " columns. Select one column before calling fit, e.g. df.select(['target']).",
            );
            return Err(Error::InvalidInput(msg));
        }
        let classes = match column_unique_strings(&cols[0]) {
            Ok(c) => c,
            Err(e) => {
                return Err(e);
            },
        };
        if classes.len() == 0 {
            proof {
                if has_strings(x@.columns[0]) {
                    let i = choose|i: int| 0 <= i < x@.columns[0].cells.len() && (#[trigger] x@.columns[0].cells[i]) matches Some(CellView::Str(_));
                    let v = x@.columns[0].cells[i]->0->Str_0;
                    assert(string_values(x@.columns[0]).contains(v));
                    assert(classes.view_seq().contains(v));
                }
            }
            let mut msg = owned("LabelEncoder.fit: column '");
            crate::text::push_str(&mut msg, cols[0].name.as_str());
            crate::text::push_str(
                &mut msg,
                "' contains no unique values. Provide data with at least one non-null string.",
            );
            return Err(Error::InvalidInput(msg));
        }
        proof {
            let s = classes.view_seq();
            assert(s.contains(s[0]));
            assert(string_values(x@.columns[0]).contains(s[0]));
        }
        self.classes = Some(classes);
        self.fitted = true;
        Ok(())
    }

    /// Encode the first column of `x` by the learned classes.
    fn encode(&self, x: Frame) -> (r: Result<Frame, Error>)
        requires
            x@.columns.len() > 0,
        ensures
            !self.is_fitted() ==> r matches Err(Error::NotFitted(_)),
            self.is_fitted() ==> (r is Ok <==> x@.columns[0].dtype == DType::Utf8),
            self.is_fitted() ==> (r matches Err(e) ==> e is InvalidInput),
            self.is_fitted() ==> (r matches Ok(f) ==> f@ == (FrameView {
                height: x@.height,
                columns: seq![coded_column(x@.columns[0], self.classes())],
            })),
    {
        proof {
            use_type_invariant(self);
        }
        if !self.fitted {
            return Err(
                Error::NotFitted(
                    owned(
                        "LabelEncoder has not been fitted. Call .fit(dataframe, target) before .transform().",
                    ),
                ),
            );
        }
        let classes = match &self.classes {
            Some(c) => c,
            None => {
                return Err(Error::NotFitted(owned("LabelEncoder has not been fitted.")));
            },
        };
        let height = x.height();
        let cols = x.columns();
        let col = &cols[0];
        if col.dtype != DType::Utf8 {
            let mut msg = owned("LabelEncoder.transform: column '");
            crate::text::push_str(&mut msg, col.name.as_str());
            crate::text::push_str(&mut msg, "' does not hold strings; expected String.");
            return Err(Error::InvalidInput(msg));
        }
        let out = encode_column(col, classes);
        let mut v: Vec<Series> = Vec::new();
        v.push(out);
        proof {
            assert(series_views(v@) =~= seq![coded_column(x@.columns[0], self.classes())]);
            lemma_coded_fits(x@.columns[0], self.classes());
        }
        match Frame::new(height, v) {
            Ok(f) => Ok(f),
            Err(_) => Err(Error::Computation(owned("LabelEncoder.transform: could not build the output"))),
        }
    }
}

/// A code column has the length of its source and agrees with its dtype.
proof fn lemma_coded_fits(c: SeriesView, classes: Seq<Seq<char>>)
    ensures
        coded_column(c, classes).cells.len() == c.cells.len(),
        coded_column(c, classes).cells_fit(),
{
}

impl Default for LabelEncoder {
    fn default() -> (r: Self)
        ensures
            !r.is_fitted(),
    {
        Self::new()
    }
}

impl Fit<Frame> for LabelEncoder {
    type Output = ();

    open spec fn fits_to(&self, x: Frame, after: Self, r: Result<(), Error>) -> bool {
        &&& r is Ok <==> (x@.columns.len() == 1 && x@.columns[0].dtype == DType::Utf8
            && has_strings(x@.columns[0]))
        &&& r matches Err(e) ==> e is InvalidInput
        &&& r is Ok ==> after.is_fitted() && lists_sorted(
            after.classes(),
            string_values(x@.columns[0]),
        )
        &&& r is Err ==> after == *self
    }

    /// Learn the sorted classes of the single string column of `x`.
    ///
    /// Fails with `InvalidInput` unless `x` has exactly one column, of strings,
    /// holding at least one non-null value; a failed fit changes nothing.
    fn fit(&mut self, x: Frame) -> (r: Result<(), Error>) {
        self.learn(x)
    }
}

impl Transform<Frame> for LabelEncoder {
    type Output = Frame;

    /// Encode the first column of `x` by the learned classes (unknown labels
    /// become null).
    ///
    /// Fails with `NotFitted` before a fit, then with `InvalidInput` on a
    /// frame without columns or when the first column is not a string column.
    fn transform(&self, x: Frame) -> (r: Result<Frame, Error>)
        ensures
            !self.is_fitted() ==> r matches Err(Error::NotFitted(_)),
            self.is_fitted() && x@.columns.len() == 0 ==> r matches Err(Error::InvalidInput(_)),
            self.is_fitted() && x@.columns.len() > 0 ==> (r is Ok <==> x@.columns[0].dtype
                == DType::Utf8),
            self.is_fitted() && x@.columns.len() > 0 ==> (r matches Ok(f) ==> f@ == (FrameView {
                height: x@.height,
                columns: seq![coded_column(x@.columns[0], self.classes())],
            })),
    {
        if !self.fitted {
            return Err(Error::NotFitted(owned("LabelEncoder has not been fitted. Call .fit(dataframe) before .transform().")));
        }
        if x.width() == 0 {
            return Err(Error::InvalidInput(owned("LabelEncoder.transform received a DataFrame with 0 columns.")));
        }
        self.encode(x)
    }
}

} // verus!

verus! {

// ---------------------------------------------------------------------------
// Learning the categories of every string column

/// The string columns of `cols` that hold at least one non-null string, in order.
pub open spec fn string_columns(cols: Seq<SeriesView>) -> Seq<SeriesView>
    decreases cols.len(),
{
    if cols.len() == 0 {
        Seq::empty()
    } else if cols.last().dtype == DType::Utf8 && has_strings(cols.last()) {
        string_columns(cols.drop_last()).push(cols.last())
    } else {
        string_columns(cols.drop_last())
    }
}

/// Whether every column of `cols` is a string column.
pub open spec fn all_utf8(cols: Seq<SeriesView>) -> bool {
    forall|i: int| 0 <= i < cols.len() ==> (#[trigger] cols[i]).dtype == DType::Utf8
}

/// `e` pairs each string column of `cols` (in order) with its sorted categories.
pub open spec fn entries_match(e: Seq<(Seq<char>, Seq<Seq<char>>)>, cols: Seq<SeriesView>) -> bool {
    let sc = string_columns(cols);
    &&& e.len() == sc.len()
    &&& forall|k: int|
        0 <= k < e.len() ==> (#[trigger] e[k]).0 == sc[k].name && lists_sorted(
            e[k].1,
            string_values(sc[k]),
        )
}

/// The view of learned entries.
pub open spec fn entries_view(v: Seq<(String, SortedStrings)>) -> Seq<(Seq<char>, Seq<Seq<char>>)> {
    v.map_values(|p: (String, SortedStrings)| (p.0@, p.1.view_seq()))
}

/// Whether every learned category list is well formed.
pub open spec fn entries_wf(v: Seq<(String, SortedStrings)>) -> bool {
    forall|k: int| 0 <= k < v.len() ==> (#[trigger] v[k]).1.wf()
}

/// Every entry has at least one category.
pub open spec fn entries_nonempty(e: Seq<(Seq<char>, Seq<Seq<char>>)>) -> bool {
    forall|k: int| 0 <= k < e.len() ==> (#[trigger] e[k]).1.len() > 0
}

/// The names of the entries are pairwise distinct.
pub open spec fn entry_names_distinct(e: Seq<(Seq<char>, Seq<Seq<char>>)>) -> bool {
    forall|a: int, b: int| 0 <= a < e.len() && 0 <= b < e.len() && a != b ==> (#[trigger] e[a]).0 != (#[trigger] e[b]).0
}

/// Each string column is a column of `cols`, and string columns keep order.
proof fn lemma_string_columns_sub(cols: Seq<SeriesView>)
    ensures
        forall|k: int| #![trigger string_columns(cols)[k]] 0 <= k < string_columns(cols).len() ==> exists|i: int|
            #![trigger cols[i]] 0 <= i < cols.len() && string_columns(cols)[k] == cols[i],
        forall|a: int, b: int| #![trigger string_columns(cols)[a], string_columns(cols)[b]] 0 <= a < b < string_columns(cols).len() ==> exists|i: int, j: int|
            #![trigger cols[i], cols[j]] 0 <= i < j < cols.len() && string_columns(cols)[a] == cols[i] && string_columns(cols)[b] == cols[j],
    decreases cols.len(),
{
    if cols.len() > 0 {
        let pre = cols.drop_last();
        lemma_string_columns_sub(pre);
        let sp = string_columns(pre);
        let sc = string_columns(cols);
        let last = cols.len() - 1;
        assert(cols[last] == cols.last());
        if cols.last().dtype == DType::Utf8 && has_strings(cols.last()) {
            assert(sc == sp.push(cols.last()));
        } else {
            assert(sc == sp);
        }
        assert forall|k: int| #![trigger sc[k]] 0 <= k < sc.len() implies exists|i: int|
            #![trigger cols[i]] 0 <= i < cols.len() && sc[k] == cols[i] by {
            if k < sp.len() {
                assert(sc[k] == sp[k]);
                let i = choose|i: int| #![trigger pre[i]] 0 <= i < pre.len() && sp[k] == pre[i];
                assert(cols[i] == pre[i]);
            } else {
                assert(cols.last().dtype == DType::Utf8 && has_strings(cols.last()));
                assert(sc[k] == cols[last]);
            }
        }
        assert forall|a: int, b: int| #![trigger sc[a], sc[b]] 0 <= a < b < sc.len() implies exists|i: int, j: int|
            #![trigger cols[i], cols[j]] 0 <= i < j < cols.len() && sc[a] == cols[i] && sc[b] == cols[j] by {
            assert(sc[a] == sp[a]);
            if b < sp.len() {
                assert(sc[b] == sp[b]);
                let (i, j) = choose|i: int, j: int| #![trigger pre[i], pre[j]] 0 <= i < j < pre.len() && sp[a] == pre[i] && sp[b] == pre[j];
                assert(cols[i] == pre[i] && cols[j] == pre[j]);
            } else {
                let i = choose|i: int| #![trigger pre[i]] 0 <= i < pre.len() && sp[a] == pre[i];
                assert(cols[i] == pre[i]);
                assert(has_strings(cols.last()));
                assert(sc[b] == cols[last]);
            }
        }
    } else {
        assert(string_columns(cols).len() == 0);
    }
}

/// Entry names are distinct when the frame's column names are.
proof fn lemma_entry_names_distinct(e: Seq<(Seq<char>, Seq<Seq<char>>)>, cols: Seq<SeriesView>)
    requires
        entries_match(e, cols),
        distinct_names(cols),
    ensures
        entry_names_distinct(e),
{
    lemma_string_columns_sub(cols);
    let sc = string_columns(cols);
    assert forall|a: int, b: int| 0 <= a < e.len() && 0 <= b < e.len() && a != b implies (#[trigger] e[a]).0 != (#[trigger] e[b]).0 by {
        let (lo, hi) = if a < b { (a, b) } else { (b, a) };
        let (i, j) = choose|i: int, j: int| #![trigger cols[i], cols[j]] 0 <= i < j < cols.len() && sc[lo] == cols[i] && sc[hi] == cols[j];
        assert(cols[i].name != cols[j].name);
    }
}

/// Learns, for every column of `x` in order, its sorted categories, keeping
/// the columns that hold at least one non-null string.
///
/// Fails with `InvalidInput` when a column is not a string column.
fn learn_string_columns(x: &Frame, skip_others: bool) -> (r: Result<Vec<(String, SortedStrings)>, Error>)
    ensures
        r is Err <==> (!skip_others && !all_utf8(x@.columns)),
        r matches Err(e) ==> e is InvalidInput,
        r matches Ok(v) ==> entries_wf(v@) && entries_match(entries_view(v@), x@.columns)
            && entry_names_distinct(entries_view(v@)) && entries_nonempty(entries_view(v@)),
{
    let cols = x.columns();
    let ghost views = x@.columns;
    let mut out: Vec<(String, SortedStrings)> = Vec::new();
    for i in 0..cols.len()
        invariant
            views == x@.columns,
            x@.wf(),
            cols.len() == views.len(),
            forall|k: int| 0 <= k < cols.len() ==> (#[trigger] cols@[k])@ == views[k],
            !skip_others ==> all_utf8(views.take(i as int)),
            entries_wf(out@),
            entries_match(entries_view(out@), views.take(i as int)),
            entries_nonempty(entries_view(out@)),
    {
        proof {
            assert(views.take(i + 1).drop_last() =~= views.take(i as int));
            assert(views.take(i + 1).last() == views[i as int]);
            assert(views[i as int] == cols@[i as int]@);
        }
        if skip_others && cols[i].dtype != DType::Utf8 {
            assert(string_columns(views.take(i + 1)) == string_columns(views.take(i as int)));
        } else {
            let set = match column_unique_strings(&cols[i]) {
                Ok(s) => s,
                Err(e) => {
                    proof {
                        assert(views[i as int].dtype != DType::Utf8);
                    }
                    return Err(e);
                },
            };
            proof {
                if !skip_others {
                    assert forall|j: int| 0 <= j < i + 1 implies (#[trigger] views.take(i + 1)[j]).dtype == DType::Utf8 by {
                        if j < i {
                            assert(views.take(i + 1)[j] == views.take(i as int)[j]);
                        }
                    }
                }
            }
            if set.len() > 0 {
                let ghost before = entries_view(out@);
                proof {
                    let s = set.view_seq();
                    assert(s.contains(s[0]));
                    assert(string_values(views[i as int]).contains(s[0]));
                    assert(has_strings(views[i as int]));
                }
                out.push((cols[i].name.clone(), set));
                proof {
                    assert(entries_view(out@) =~= before.push((views[i as int].name, set.view_seq())));
                }
            } else {
                proof {
                    if has_strings(views[i as int]) {
                        let k = choose|k: int| 0 <= k < views[i as int].cells.len() && (#[trigger] views[i as int].cells[k]) matches Some(CellView::Str(_));
                        let v = views[i as int].cells[k]->0->Str_0;
                        assert(string_values(views[i as int]).contains(v));
                        assert(set.view_seq().contains(v));
                    }
                }
            }
        }
    }
    proof {
        assert(views.take(cols.len() as int) =~= views);
        lemma_entry_names_distinct(entries_view(out@), views);
    }
    Ok(out)
}

// ---------------------------------------------------------------------------
// OrdinalEncoder

/// The code columns of `x` for the learned entries, in entry order.
pub open spec fn ordinal_columns(x: FrameView, e: Seq<(Seq<char>, Seq<Seq<char>>)>) -> Seq<SeriesView> {
    e.map_values(|p: (Seq<char>, Seq<Seq<char>>)| coded_column(x.col(p.0), p.1))
}

/// Whether every entry names a string column of `x`.
pub open spec fn entries_present(x: FrameView, e: Seq<(Seq<char>, Seq<Seq<char>>)>) -> bool {
    forall|k: int| 0 <= k < e.len() ==> x.has((#[trigger] e[k]).0) && x.col(e[k].0).dtype == DType::Utf8
}

/// Encode categorical features as integer columns.
///
/// Each string column receives its own `0..n_categories` mapping; unknown
/// categories encode to null.
pub struct OrdinalEncoder {
    fitted: bool,
    categories: Option<Vec<(String, SortedStrings)>>,
}

impl OrdinalEncoder {
    #[verifier::type_invariant]
    spec fn inv(&self) -> bool {
        self.fitted ==> (self.categories matches Some(c) && entries_wf(c@) && entry_names_distinct(entries_view(c@)))
    }

    /// Whether a fit has succeeded.
    pub closed spec fn is_fitted(&self) -> bool {
        self.fitted
    }

    /// The learned (column, sorted categories) pairs.
    pub closed spec fn entries(&self) -> Seq<(Seq<char>, Seq<Seq<char>>)> {
        match self.categories {
            Some(c) => entries_view(c@),
            None => Seq::empty(),
        }
    }

    /// Create a new `OrdinalEncoder`.
    pub fn new() -> (r: Self)
        ensures
            !r.is_fitted(),
    {
        Self { fitted: false, categories: None }
    }
}

impl Default for OrdinalEncoder {
    fn default() -> (r: Self)
        ensures
            !r.is_fitted(),
    {
        Self::new()
    }
}

impl Fit<Frame> for OrdinalEncoder {
    type Output = ();

    open spec fn fits_to(&self, x: Frame, after: Self, r: Result<(), Error>) -> bool {
        &&& r is Ok <==> (x@.columns.len() > 0 && all_utf8(x@.columns) && string_columns(x@.columns).len() > 0)
        &&& r matches Err(e) ==> e is InvalidInput
        &&& r is Err ==> after == *self
        &&& r is Ok ==> after.is_fitted() && entries_match(after.entries(), x@.columns)
    }

    /// Learn the sorted categories of every string column.
    ///
    /// Fails with `InvalidInput` on a frame without columns, when a column is
    /// not a string column, or when no column holds a non-null string; a
    /// failed fit changes nothing.
    fn fit(&mut self, x: Frame) -> (r: Result<(), Error>) {
        if x.width() == 0 {
            return Err(Error::InvalidInput(owned("OrdinalEncoder.fit received a DataFrame with 0 columns. Provide at least one string column to encode.")));
        }
        let cats = match learn_string_columns(&x, false) {
            Ok(c) => c,
            Err(e) => {
                return Err(e);
            },
        };
        if cats.len() == 0 {
            return Err(Error::InvalidInput(owned("OrdinalEncoder.fit: no string columns found. OrdinalEncoder operates on String columns only.")));
        }
        self.categories = Some(cats);
        self.fitted = true;
        Ok(())
    }
}

impl Transform<Frame> for OrdinalEncoder {
    type Output = Frame;

    /// Encode each learned column of `x` by its categories.
    ///
    /// Fails with `NotFitted` before a fit, and with `InvalidInput` when a
    /// learned column is missing from `x` or is not a string column.
    fn transform(&self, x: Frame) -> (r: Result<Frame, Error>)
        ensures
            !self.is_fitted() ==> r matches Err(Error::NotFitted(_)),
            self.is_fitted() ==> (r is Ok <==> entries_present(x@, self.entries())),
            self.is_fitted() ==> (r matches Err(e) ==> e is InvalidInput),
            self.is_fitted() ==> (r matches Ok(f) ==> f@ == (FrameView {
                height: x@.height,
                columns: ordinal_columns(x@, self.entries()),
            })),
    {
        proof {
            use_type_invariant(self);
        }
        if !self.fitted {
            return Err(Error::NotFitted(owned("OrdinalEncoder has not been fitted. Call .fit(dataframe) before .transform().")));
        }
        let cats = match &self.categories {
            Some(c) => c,
            None => {
                return Err(Error::NotFitted(owned("OrdinalEncoder has not been fitted.")));
            },
        };
        let ghost e = entries_view(cats@);
        let height = x.height();
        let mut out: Vec<Series> = Vec::new();
        for k in 0..cats.len()
            invariant
                e == entries_view(cats@),
                e == self.entries(),
                self.fitted,
                entries_wf(cats@),
                x@.wf(),
                height == x@.height,
                out.len() == k,
                forall|j: int| 0 <= j < k ==> x@.has((#[trigger] e[j]).0) && x@.col(e[j].0).dtype == DType::Utf8,
                forall|j: int| 0 <= j < k ==> (#[trigger] out@[j])@ == coded_column(x@.col(e[j].0), e[j].1),
        {
            let name = &cats[k].0;
            assert(name@ == e[k as int].0);
            let col = match x.column(name.as_str()) {
                Some(c) => c,
                None => {
                    return Err(Error::InvalidInput(join3("OrdinalEncoder.transform: column '", name.as_str(), "' not found.")));
                },
            };
            if col.dtype != DType::Utf8 {
                return Err(Error::InvalidInput(join3("OrdinalEncoder.transform: column '", name.as_str(), "' does not hold strings; expected String.")));
            }
            let coded = encode_column(col, &cats[k].1);
            out.push(coded);
        }
        proof {
            let cv = ordinal_columns(x@, e);
            assert(series_views(out@) =~= cv);
            assert forall|j: int| 0 <= j < cv.len() implies (#[trigger] cv[j]).cells.len() == x@.height && cv[j].cells_fit() && cv[j].name == e[j].0 by {
                lemma_position_of(x@.columns, e[j].0);
            }
            assert forall|a: int, b: int| 0 <= a < cv.len() && 0 <= b < cv.len() && a != b implies #[trigger] cv[a].name != #[trigger] cv[b].name by {
                assert(e[a].0 != e[b].0);
            }
        }
        match Frame::new(height, out) {
            Ok(f) => Ok(f),
            Err(_) => Err(Error::Computation(owned("OrdinalEncoder.transform: could not build the output"))),
        }
    }
}

// ---------------------------------------------------------------------------
// OneHotEncoder

/// The indicator column of category `cat` of column `src`: `1.0` where the
/// cell is `cat`, else `0.0` (also for nulls), named `{name}_{cat}`.
pub open spec fn indicator_column(src: SeriesView, name: Seq<char>, cat: Seq<char>) -> SeriesView {
    SeriesView {
        name: name + "_"@ + cat,
        dtype: DType::Float64,
        cells: src.cells.map_values(
            |c: Option<CellView>|
                Some(CellView::Float(if c == Some(CellView::Str(cat)) { ONE_BITS } else { ZERO_BITS })),
        ),
    }
}

/// The indicator columns of one learned entry.
pub open spec fn entry_indicators(x: FrameView, p: (Seq<char>, Seq<Seq<char>>), drop_first: bool) -> Seq<SeriesView> {
    p.1.skip(if drop_first { 1 } else { 0 }).map_values(|cat: Seq<char>| indicator_column(x.col(p.0), p.0, cat))
}

/// The indicator columns of all learned entries, entry by entry.
pub open spec fn onehot_columns(x: FrameView, e: Seq<(Seq<char>, Seq<Seq<char>>)>, drop_first: bool) -> Seq<SeriesView>
    decreases e.len(),
{
    if e.len() == 0 {
        Seq::empty()
    } else {
        onehot_columns(x, e.drop_last(), drop_first) + entry_indicators(x, e.last(), drop_first)
    }
}

/// Encode categorical features as a one-hot numeric array.
///
/// Creates a `Float64` indicator column for each category value.
pub struct OneHotEncoder {
    fitted: bool,
    categories: Option<Vec<(String, SortedStrings)>>,
    drop_first: bool,
}

impl OneHotEncoder {
    #[verifier::type_invariant]
    spec fn inv(&self) -> bool {
        self.fitted ==> (self.categories matches Some(c) && entries_wf(c@) && entries_nonempty(entries_view(c@)))
    }

    /// Whether a fit has succeeded.
    pub closed spec fn is_fitted(&self) -> bool {
        self.fitted
    }

    /// The learned (column, sorted categories) pairs.
    pub closed spec fn entries(&self) -> Seq<(Seq<char>, Seq<Seq<char>>)> {
        match self.categories {
            Some(c) => entries_view(c@),
            None => Seq::empty(),
        }
    }

    /// Whether the first category of each column is left out.
    pub closed spec fn drops_first(&self) -> bool {
        self.drop_first
    }

    /// Create a new `OneHotEncoder` that keeps every category.
    pub fn new() -> (r: Self)
        ensures
            !r.is_fitted(),
            !r.drops_first(),
    {
        Self { fitted: false, categories: None, drop_first: false }
    }

    /// Whether to drop the first category of each feature (default: `false`).
    pub fn drop_first(self, value: bool) -> (r: Self)
        ensures
            r.drops_first() == value,
            r.is_fitted() == self.is_fitted(),
            r.entries() == self.entries(),
    {
        proof {
            use_type_invariant(&self);
        }
        Self { fitted: self.fitted, categories: self.categories, drop_first: value }
    }
}

/// The indicator column of `cat` over `src`.
fn indicator(src: &Series, name: &String, cat: &String) -> (r: Series)
    ensures
        r@ == indicator_column(src@, name@, cat@),
{
    let mut cells: Vec<Option<Value>> = Vec::new();
    for i in 0..src.values.len()
        invariant
            cells.len() == i,
            forall|k: int| 0 <= k < i ==> crate::frame::opt_view(#[trigger] cells@[k]) == Some(CellView::Float(
                if src@.cells[k] == Some(CellView::Str(cat@)) { ONE_BITS } else { ZERO_BITS },
            )),
    {
        let hit = match cell_string(&src.values[i]) {
            Some(s) => s.eq(cat),
            None => false,
        };
        cells.push(Some(Value::Float(if hit { ONE_BITS } else { ZERO_BITS })));
    }
    let r = Series { name: join3(name.as_str(), "_", cat.as_str()), dtype: DType::Float64, values: cells };
    assert(r@.cells =~= indicator_column(src@, name@, cat@).cells);
    r
}

impl Default for OneHotEncoder {
    fn default() -> (r: Self)
        ensures
            !r.is_fitted(),
            !r.drops_first(),
    {
        Self::new()
    }
}

impl Fit<Frame> for OneHotEncoder {
    type Output = ();

    open spec fn fits_to(&self, x: Frame, after: Self, r: Result<(), Error>) -> bool {
        &&& r is Ok <==> (x@.height > 0 && string_columns(x@.columns).len() > 0)
        &&& r matches Err(e) ==> e is InvalidInput
        &&& r is Err ==> after == *self
        &&& r is Ok ==> after.is_fitted() && entries_match(after.entries(), x@.columns)
            && after.drops_first() == self.drops_first()
    }

    /// Learn the sorted categories of every string column; columns of other
    /// dtypes are ignored.
    ///
    /// Fails with `InvalidInput` on a frame without rows, or when no string
    /// column holds a non-null string; a failed fit changes nothing.
    fn fit(&mut self, x: Frame) -> (r: Result<(), Error>) {
        if x.height() == 0 {
            return Err(Error::InvalidInput(owned("OneHotEncoder.fit received a DataFrame with 0 rows. Provide at least 1 row.")));
        }
        let cats = match learn_string_columns(&x, true) {
            Ok(c) => c,
            Err(e) => {
                return Err(e);
            },
        };
        if cats.len() == 0 {
            return Err(Error::InvalidInput(owned("OneHotEncoder.fit: no string columns found. OneHotEncoder operates on String columns only. Cast categorical columns to String first.")));
        }
        self.categories = Some(cats);
        self.fitted = true;
        Ok(())
    }
}

impl Transform<Frame> for OneHotEncoder {
    type Output = Frame;

    /// One indicator column per learned category (the first of each column
    /// left out with `drop_first`), column by column.
    ///
    /// Fails with `NotFitted` before a fit, with `InvalidInput` when a learned
    /// column is missing from `x` or is not a string column, and with
    /// `Computation` when two generated names coincide.
    fn transform(&self, x: Frame) -> (r: Result<Frame, Error>)
        ensures
            !self.is_fitted() ==> r matches Err(Error::NotFitted(_)),
            self.is_fitted() && !entries_present(x@, self.entries()) ==> r matches Err(Error::InvalidInput(_)),
            self.is_fitted() && entries_present(x@, self.entries()) ==> (r is Ok <==> distinct_names(
                onehot_columns(x@, self.entries(), self.drops_first()),
            )),
            self.is_fitted() && entries_present(x@, self.entries()) ==> (r matches Err(e) ==> e is Computation),
            self.is_fitted() ==> (r matches Ok(f) ==> f@ == (FrameView {
                height: x@.height,
                columns: onehot_columns(x@, self.entries(), self.drops_first()),
            })),
    {
        proof {
            use_type_invariant(self);
        }
        if !self.fitted {
            return Err(Error::NotFitted(owned("OneHotEncoder has not been fitted. Call .fit(dataframe) before .transform().")));
        }
        let cats = match &self.categories {
            Some(c) => c,
            None => {
                return Err(Error::NotFitted(owned("OneHotEncoder has not been fitted.")));
            },
        };
        let ghost e = entries_view(cats@);
        let height = x.height();
        let start: usize = if self.drop_first { 1 } else { 0 };
        let mut out: Vec<Series> = Vec::new();
        for k in 0..cats.len()
            invariant
                e == entries_view(cats@),
                e == self.entries(),
                self.fitted,
                entries_wf(cats@),
                entries_nonempty(e),
                x@.wf(),
                height == x@.height,
                start == (if self.drop_first { 1usize } else { 0usize }),
                forall|j: int| 0 <= j < k ==> x@.has((#[trigger] e[j]).0) && x@.col(e[j].0).dtype == DType::Utf8,
                series_views(out@) == onehot_columns(x@, e.take(k as int), self.drop_first),
        {
            let name = &cats[k].0;
            assert(name@ == e[k as int].0);
            let col = match x.column(name.as_str()) {
                Some(c) => c,
                None => {
                    return Err(Error::InvalidInput(join3("OneHotEncoder.transform: column '", name.as_str(), "' not found in input.")));
                },
            };
            if col.dtype != DType::Utf8 {
                return Err(Error::InvalidInput(join3("OneHotEncoder.transform: column '", name.as_str(), "' does not hold strings; expected String.")));
            }
            let items = cats[k].1.items();
            let ghost before = series_views(out@);
            let ghost ind = entry_indicators(x@, e[k as int], self.drop_first);
            let mut j: usize = start;
            while j < items.len()
                invariant
                    e == entries_view(cats@),
                    k < cats.len(),
                    items@.map_values(|s: String| s@) == e[k as int].1,
                    items.len() == e[k as int].1.len(),
                    col@ == x@.col(e[k as int].0),
                    name@ == e[k as int].0,
                    ind == entry_indicators(x@, e[k as int], self.drop_first),
                    start == (if self.drop_first { 1usize } else { 0usize }),
                    start <= items.len(),
                    j <= items.len(),
                    series_views(out@) == before + ind.take(if j >= start { (j - start) as int } else { 0 }),
                    j >= start,
                decreases items.len() - j,
            {
                let s = indicator(col, name, &items[j]);
                let ghost prev = series_views(out@);
                out.push(s);
                proof {
                    assert(items@[j as int]@ == e[k as int].1[j as int]);
                    assert(ind[(j - start) as int] == indicator_column(x@.col(e[k as int].0), e[k as int].0, e[k as int].1[j as int]));
                    assert(ind.take((j + 1 - start) as int) =~= ind.take((j - start) as int).push(ind[(j - start) as int]));
                    assert(series_views(out@) =~= prev.push(s@));
                }
                j += 1;
            }
            proof {
                let n = if j >= start { (j - start) as int } else { 0 };
                assert(ind.len() == items.len() - start);
                assert(ind.take(n) =~= ind);
                assert(e.take(k + 1).drop_last() =~= e.take(k as int));
                assert(e.take(k + 1).last() == e[k as int]);
            }
        }
        proof {
            assert(e.take(cats.len() as int) =~= e);
        }
        let ghost cv = onehot_columns(x@, e, self.drop_first);
        proof {
            lemma_onehot_shape(x@, e, self.drop_first);
        }
        match Frame::new(height, out) {
            Ok(f) => Ok(f),
            Err(_) => Err(Error::Computation(owned("OneHotEncoder.transform: generated column names collide"))),
        }
    }
}

/// Generated indicator columns have the frame height and hold float cells.
proof fn lemma_onehot_shape(x: FrameView, e: Seq<(Seq<char>, Seq<Seq<char>>)>, drop_first: bool)
    requires
        x.wf(),
        entries_present(x, e),
    ensures
        crate::frame::all_of_height(onehot_columns(x, e, drop_first), x.height),
        crate::frame::all_fit(onehot_columns(x, e, drop_first)),
    decreases e.len(),
{
    if e.len() > 0 {
        let pre = e.drop_last();
        assert(entries_present(x, pre)) by {
            assert forall|k: int| 0 <= k < pre.len() implies x.has((#[trigger] pre[k]).0) && x.col(pre[k].0).dtype == DType::Utf8 by {
                assert(pre[k] == e[k]);
            }
        }
        lemma_onehot_shape(x, pre, drop_first);
        let p = e.last();
        assert(e[e.len() - 1] == p);
        lemma_position_of(x.columns, p.0);
        let ind = entry_indicators(x, p, drop_first);
        let all = onehot_columns(x, e, drop_first);
        let prev = onehot_columns(x, pre, drop_first);
        assert forall|i: int| 0 <= i < all.len() implies (#[trigger] all[i]).cells.len() == x.height && all[i].cells_fit() by {
            if i < prev.len() {
                assert(all[i] == prev[i]);
            } else {
                assert(all[i] == ind[i - prev.len()]);
            }
        }
    }
}


/// Every known label gets a code between `0` and `n_classes - 1`, and the
/// class at that code is the label itself.
pub proof fn law_label_code_roundtrip(classes: Seq<Seq<char>>, s: Seq<char>)
    requires
        strictly_sorted(classes),
        classes.contains(s),
    ensures
        code_of(classes, Some(CellView::Str(s))) matches Some(CellView::UInt(p)) && 0 <= p < classes.len()
            && classes[p] == s,
{
    let p = choose|p: int| 0 <= p < classes.len() && classes[p] == s;
    lemma_position_in(classes, s, p);
}

/// Distinct known labels get distinct codes; unknown labels and nulls get none.
pub proof fn law_label_codes_distinct(classes: Seq<Seq<char>>, s: Seq<char>, t: Seq<char>)
    requires
        strictly_sorted(classes),
    ensures
        classes.contains(s) && classes.contains(t) && s != t ==> code_of(classes, Some(CellView::Str(s)))
            != code_of(classes, Some(CellView::Str(t))),
        !classes.contains(s) ==> code_of(classes, Some(CellView::Str(s))) is None,
        code_of(classes, None) is None,
{
    if classes.contains(s) && classes.contains(t) && s != t {
        law_label_code_roundtrip(classes, s);
        law_label_code_roundtrip(classes, t);
    }
}

/// One-hot encoding gives one column per category of a feature, or one
/// fewer when the first category is dropped.
pub proof fn law_onehot_width(x: FrameView, p: (Seq<char>, Seq<Seq<char>>), drop_first: bool)
    requires
        p.1.len() > 0,
    ensures
        entry_indicators(x, p, drop_first).len() == if drop_first { p.1.len() - 1 } else { p.1.len() as int },
{
}

/// In a row whose value is a known category, exactly the indicator of that
/// category is `1.0`; in a row holding null or an unknown value, every
/// indicator is `0.0`.
pub proof fn law_onehot_single_hot(x: FrameView, p: (Seq<char>, Seq<Seq<char>>), i: int, j: int)
    requires
        strictly_sorted(p.1),
        0 <= i < x.col(p.0).cells.len(),
        0 <= j < p.1.len(),
    ensures
        entry_indicators(x, p, false)[j].cells[i] == Some(CellView::Float(
            if x.col(p.0).cells[i] == Some(CellView::Str(p.1[j])) { ONE_BITS } else { ZERO_BITS },
        )),
        forall|c: Seq<char>| x.col(p.0).cells[i] == Some(CellView::Str(c)) ==> (entry_indicators(x, p, false)[j].cells[i]
            == Some(CellView::Float(ONE_BITS)) <==> p.1[j] == c),
{
    assert(p.1.skip(0) =~= p.1);
}

/// The indicators of a learned entry are those of its sorted categories in
/// order, starting at the second when the first is dropped: indicator `j` is
/// named `{column}_{category}` after category `j` (resp. `j + 1`), and holds
/// `1.0` exactly in the rows whose value is that category.
pub proof fn law_onehot_indicators(x: FrameView, p: (Seq<char>, Seq<Seq<char>>), drop_first: bool, j: int, i: int)
    requires
        p.1.len() > 0,
        0 <= j < p.1.len() - (if drop_first { 1int } else { 0int }),
    ensures
        ({
            let d: int = if drop_first { 1 } else { 0 };
            let ind = entry_indicators(x, p, drop_first);
            &&& ind.len() == p.1.len() - d
            &&& ind[j].name == p.0 + "_"@ + p.1[j + d]
            &&& ind[j].dtype == DType::Float64
            &&& ind[j].cells.len() == x.col(p.0).cells.len()
            &&& 0 <= i < x.col(p.0).cells.len() ==> ind[j].cells[i] == Some(CellView::Float(
                if x.col(p.0).cells[i] == Some(CellView::Str(p.1[j + d])) { ONE_BITS } else { ZERO_BITS },
            ))
        }),
{
}

/// Dropping the first category drops just its indicator: with distinct
/// categories, no remaining indicator is named after the first one, and the
/// last category keeps its indicator.
pub proof fn law_onehot_drop_first_drops_only_first(x: FrameView, p: (Seq<char>, Seq<Seq<char>>), j: int)
    requires
        strictly_sorted(p.1),
        p.1.len() > 1,
        0 <= j < p.1.len() - 1,
    ensures
        entry_indicators(x, p, true)[j].name != p.0 + "_"@ + p.1[0],
        entry_indicators(x, p, true)[p.1.len() - 2].name == p.0 + "_"@ + p.1.last(),
{
    lemma_sorted_distinct(p.1);
    let pre = p.0 + "_"@;
    let a = pre + p.1[j + 1];
    let b = pre + p.1[0];
    if a == b {
        assert(a.subrange(pre.len() as int, a.len() as int) =~= p.1[j + 1]);
        assert(b.subrange(pre.len() as int, b.len() as int) =~= p.1[0]);
    }
}

/// The columns an encoder learns from are exactly the string columns
/// holding a non-null string, each once, in column order.
pub proof fn law_string_columns_filter(s: Seq<SeriesView>)
    ensures
        string_columns(s) == s.filter_map(|c: SeriesView| if c.dtype == DType::Utf8 && has_strings(c) { Some(c) } else { None }),
    decreases s.len(),
{
    if s.len() > 0 {
        law_string_columns_filter(s.drop_last());
        let rest = string_columns(s.drop_last());
        assert forall|v: SeriesView| #[trigger] rest.push(v) == rest + seq![v] by {
            assert(rest.push(v) =~= rest + seq![v]);
        }
    }
}

/// The indicators of two runs of learned entries are those of the first
/// followed by those of the second, and one entry contributes just its own.
pub proof fn law_onehot_columns_split(x_frame: FrameView, s: Seq<(Seq<char>, Seq<Seq<char>>)>, t: Seq<(Seq<char>, Seq<Seq<char>>)>, x: (Seq<char>, Seq<Seq<char>>), drop_first: bool)
    ensures
        onehot_columns(x_frame, s + t, drop_first) == onehot_columns(x_frame, s, drop_first) + onehot_columns(x_frame, t, drop_first),
        onehot_columns(x_frame, seq![x], drop_first) == entry_indicators(x_frame, x, drop_first),
    decreases t.len(),
{
    let one = seq![x];
    assert(one.drop_last() =~= Seq::<(Seq<char>, Seq<Seq<char>>)>::empty());
    assert(one.last() == x);
    assert(onehot_columns(x_frame, Seq::<(Seq<char>, Seq<Seq<char>>)>::empty(), drop_first) =~= Seq::<SeriesView>::empty());
    assert(Seq::<SeriesView>::empty() + entry_indicators(x_frame, x, drop_first) =~= entry_indicators(x_frame, x, drop_first));
    if t.len() == 0 {
        assert(s + t =~= s);
        assert(onehot_columns(x_frame, s, drop_first) + Seq::<SeriesView>::empty() =~= onehot_columns(x_frame, s, drop_first));
    } else {
        law_onehot_columns_split(x_frame, s, t.drop_last(), x, drop_first);
        assert((s + t).drop_last() =~= s + t.drop_last());
        assert((s + t).last() == t.last());
        assert(onehot_columns(x_frame, s, drop_first) + onehot_columns(x_frame, t.drop_last(), drop_first) + entry_indicators(x_frame, t.last(), drop_first) =~= onehot_columns(x_frame, s, drop_first) + (onehot_columns(x_frame, t.drop_last(), drop_first) + entry_indicators(x_frame, t.last(), drop_first)));
    }
}

} // verus!
