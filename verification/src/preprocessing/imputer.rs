//! Null imputation of `Float64` columns: everything but the averages.
//!
//! A simple imputer fills the nulls of each `Float64` column that has one
//! with a value learned at fit time: a constant, the most frequent value,
//! the mean or the median. This module decides which columns are filled,
//! finds the most frequent value (ties go to the smallest value), and
//! fills the nulls; means and medians are floating-point arithmetic and are
//! computed outside this crate's verified core. Floats are handled as their
//! IEEE-754 bit patterns.

use vstd::prelude::*;
use crate::frame::{
    CellView, DType, Frame, FrameView, Series, SeriesView, Value, canonical_float_bits, opt_view, series_views,
    strings_view,
};
use crate::preprocessing::binarizer::order_key;
use crate::text::{owned, push_str};
use crate::total_order::{count_under, count_under_sorted, law_total_order, lemma_count_monotone, sort_total, sorted_total, total_key, total_rank};
use crate::traits::Error;

verus! {

/// Whether the column holds a null.
pub open spec fn has_null(c: SeriesView) -> bool {
    exists|k: int| 0 <= k < c.cells.len() && (#[trigger] c.cells[k]) is None
}

/// The names of the `Float64` columns of `cols` that hold a null, in order.
pub open spec fn null_f64_names(cols: Seq<SeriesView>) -> Seq<Seq<char>>
    decreases cols.len(),
{
    if cols.len() == 0 {
        Seq::empty()
    } else if cols.last().dtype == DType::Float64 && has_null(cols.last()) {
        null_f64_names(cols.drop_last()).push(cols.last().name)
    } else {
        null_f64_names(cols.drop_last())
    }
}

/// Whether the column holds a null.
fn series_has_null(c: &Series) -> (r: bool)
    ensures
        r == has_null(c@),
{
    let ghost cv = c@;
    for i in 0..c.values.len()
        invariant
            cv == c@,
            forall|k: int| 0 <= k < i ==> (#[trigger] cv.cells[k]) is Some,
    {
        assert(cv.cells[i as int] == opt_view(c.values@[i as int]));
        if c.values[i].is_none() {
            return true;
        }
    }
    false
}

/// The columns an imputer fills: the `Float64` columns of `x` holding a null.
pub fn columns_to_impute(x: &Frame) -> (r: Vec<String>)
    ensures
        strings_view(r@) == null_f64_names(x@.columns),
{
    let cols = x.columns();
    let ghost views = x@.columns;
    let mut out: Vec<String> = Vec::new();
    for i in 0..cols.len()
        invariant
            views == x@.columns,
            cols.len() == views.len(),
            forall|k: int| 0 <= k < cols.len() ==> (#[trigger] cols@[k])@ == views[k],
            strings_view(out@) == null_f64_names(views.take(i as int)),
    {
        proof {
            assert(views.take(i + 1).drop_last() =~= views.take(i as int));
            assert(views.take(i + 1).last() == views[i as int]);
        }
        if cols[i].dtype == DType::Float64 && series_has_null(&cols[i]) {
            out.push(cols[i].name.clone());
            proof {
                assert(strings_view(out@) =~= null_f64_names(views.take(i as int)).push(views[i as int].name));
            }
        }
    }
    proof {
        assert(views.take(cols.len() as int) =~= views);
    }
    out
}

/// The number of cells holding the float with bit pattern `b`.
pub open spec fn float_count(cells: Seq<Option<CellView>>, b: u64) -> nat
    decreases cells.len(),
{
    if cells.len() == 0 {
        0
    } else {
        float_count(cells.drop_last(), b) + if cells.last() == Some(CellView::Float(b)) { 1nat } else { 0nat }
    }
}

/// Whether `b` is a most frequent float of `cells`, the smallest value
/// among equally frequent ones (a NaN counts as above every number).
pub open spec fn is_mode(cells: Seq<Option<CellView>>, b: u64) -> bool {
    &&& float_count(cells, b) > 0
    &&& forall|o: u64| #[trigger] float_count(cells, o) < float_count(cells, b) || (float_count(cells, o)
        == float_count(cells, b) && order_key(b) <= order_key(o))
}

/// Whether some cell holds a float.
pub open spec fn has_float(cells: Seq<Option<CellView>>) -> bool {
    exists|k: int| 0 <= k < cells.len() && (#[trigger] cells[k]) matches Some(CellView::Float(_))
}

/// A float that occurs is counted; one that is counted occurs.
proof fn lemma_float_count(cells: Seq<Option<CellView>>, b: u64)
    ensures
        float_count(cells, b) > 0 <==> exists|k: int| 0 <= k < cells.len() && cells[k] == Some(CellView::Float(b)),
        float_count(cells, b) <= cells.len(),
    decreases cells.len(),
{
    if cells.len() > 0 {
        let pre = cells.drop_last();
        lemma_float_count(pre, b);
        if exists|k: int| 0 <= k < pre.len() && pre[k] == Some(CellView::Float(b)) {
            let k = choose|k: int| 0 <= k < pre.len() && pre[k] == Some(CellView::Float(b));
            assert(cells[k] == pre[k]);
        }
        if exists|k: int| 0 <= k < cells.len() && cells[k] == Some(CellView::Float(b)) {
            let k = choose|k: int| 0 <= k < cells.len() && cells[k] == Some(CellView::Float(b));
            if k < pre.len() {
                assert(pre[k] == cells[k]);
            } else {
                assert(cells[k] == cells.last());
            }
        }
    }
}

/// The position of a float on the line (a NaN above every number).
fn key(b: u64) -> (r: i128)
    ensures
        r == order_key(b),
{
    if b < 0x8000_0000_0000_0000u64 { b as i128 } else { -((b - 0x8000_0000_0000_0000u64) as i128) }
}

/// Every float of `cells`, in order.
pub open spec fn float_bits(cells: Seq<Option<CellView>>) -> Seq<u64>
    decreases cells.len(),
{
    if cells.len() == 0 {
        Seq::empty()
    } else {
        let rest = float_bits(cells.drop_last());
        match cells.last() {
            Some(CellView::Float(v)) => rest.push(v),
            _ => rest,
        }
    }
}

/// The floats equal to `b` are those at its place in the total order.
proof fn lemma_float_count_places(cells: Seq<Option<CellView>>, b: u64)
    ensures
        float_count(cells, b) == count_under(float_bits(cells), total_key(b) + 1) - count_under(float_bits(cells), total_key(b)),
    decreases cells.len(),
{
    if cells.len() > 0 {
        lemma_float_count_places(cells.drop_last(), b);
        match cells.last() {
            Some(CellView::Float(v)) => {
                let rest = float_bits(cells.drop_last());
                assert(float_bits(cells).drop_last() =~= rest);
                law_total_order();
            },
            _ => {},
        }
    }
}

/// Every float of the column, in order.
fn float_values(c: &Series) -> (r: Vec<u64>)
    ensures
        r@ == float_bits(c@.cells),
{
    let ghost cells = c@.cells;
    let mut r: Vec<u64> = Vec::new();
    for i in 0..c.values.len()
        invariant
            cells == c@.cells,
            cells.len() == c.values.len(),
            r@ == float_bits(cells.take(i as int)),
    {
        proof {
            assert(cells.take(i + 1).drop_last() =~= cells.take(i as int));
            assert(cells.take(i + 1).last() == cells[i as int]);
            assert(cells[i as int] == opt_view(c.values@[i as int]));
        }
        match &c.values[i] {
            Some(Value::Float(v)) => r.push(*v),
            _ => {},
        }
    }
    proof {
        assert(cells.take(c.values.len() as int) =~= cells);
    }
    r
}

/// The number of floats of `cells` equal to `b`, read from their sorted copy.
fn count_in_sorted(sorted: &Vec<u64>, cells: Ghost<Seq<Option<CellView>>>, b: u64) -> (r: usize)
    requires
        sorted_total(sorted@),
        sorted@.to_multiset() == float_bits(cells@).to_multiset(),
    ensures
        r == float_count(cells@, b),
{
    let k = total_rank(b);
    let upto = count_under_sorted(sorted, Ghost(float_bits(cells@)), k + 1);
    let below = count_under_sorted(sorted, Ghost(float_bits(cells@)), k);
    proof {
        lemma_count_monotone(float_bits(cells@), k as int, k + 1);
        lemma_float_count_places(cells@, b);
    }
    upto - below
}

/// The most frequent float of the column (the smallest value among
/// equally frequent ones), or `None` when it holds no float.
pub fn most_frequent_bits(c: &Series) -> (r: Option<u64>)
    ensures
        r is None <==> !has_float(c@.cells),
        r matches Some(b) ==> is_mode(c@.cells, b),
{
    let ghost cells = c@.cells;
    let vals = float_values(c);
    let sorted = sort_total(&vals);
    let mut best: Option<(u64, usize)> = None;
    for i in 0..c.values.len()
        invariant
            cells == c@.cells,
            cells.len() == c.values.len(),
            sorted_total(sorted@),
            sorted@.to_multiset() == float_bits(cells).to_multiset(),
            best is None <==> forall|k: int| 0 <= k < i ==> !((#[trigger] cells[k]) matches Some(CellView::Float(_))),
            best matches Some(p) ==> p.1 == float_count(cells, p.0) && p.1 > 0,
            best matches Some(p) ==> forall|k: int| 0 <= k < i ==> (#[trigger] cells[k] matches Some(CellView::Float(o)) ==> (
                float_count(cells, o) < p.1 || (float_count(cells, o) == p.1 && order_key(p.0) <= order_key(o)))),
    {
        assert(cells[i as int] == opt_view(c.values@[i as int]));
        match &c.values[i] {
            Some(Value::Float(v)) => {
                let v = *v;
                let n = count_in_sorted(&sorted, Ghost(cells), v);
                proof {
                    lemma_float_count(cells, v);
                }
                let replace = match best {
                    None => true,
                    Some((bb, bn)) => n > bn || (n == bn && key(v) < key(bb)),
                };
                if replace {
                    best = Some((v, n));
                }
            },
            _ => {},
        }
    }
    match best {
        None => None,
        Some((b, n)) => {
            proof {
                assert forall|o: u64| #[trigger] float_count(cells, o) < float_count(cells, b) || (float_count(cells, o)
                    == float_count(cells, b) && order_key(b) <= order_key(o)) by {
                    lemma_float_count(cells, o);
                    if float_count(cells, o) > 0 {
                        let k = choose|k: int| 0 <= k < cells.len() && cells[k] == Some(CellView::Float(o));
                        assert(cells[k] matches Some(CellView::Float(_)));
                    }
                }
            }
            Some(b)
        },
    }
}

/// The fill value for the column named `name`: the last entry of `fills`
/// with that name.
pub open spec fn fill_for(fills: Seq<(Seq<char>, u64)>, name: Seq<char>) -> Option<u64>
    decreases fills.len(),
{
    if fills.len() == 0 {
        None
    } else if fills.last().0 == name {
        Some(fills.last().1)
    } else {
        fill_for(fills.drop_last(), name)
    }
}

/// The column with every null replaced by the float with bit pattern `b`.
pub open spec fn filled_series(c: SeriesView, b: u64) -> SeriesView {
    SeriesView {
        name: c.name,
        dtype: c.dtype,
        cells: c.cells.map_values(|o: Option<CellView>| if o is None { Some(CellView::Float(b)) } else { o }),
    }
}

/// The columns after filling: each column with a fill value gets its nulls
/// replaced by the canonical form of that value; others are kept.
pub open spec fn imputed(cols: Seq<SeriesView>, fills: Seq<(Seq<char>, u64)>) -> Seq<SeriesView> {
    cols.map_values(
        |c: SeriesView|
            match fill_for(fills, c.name) {
                Some(b) => filled_series(c, canonical_float_bits(b)),
                None => c,
            },
    )
}

/// The view of a list of (name, bits) pairs.
pub open spec fn fills_view(v: Seq<(String, u64)>) -> Seq<(Seq<char>, u64)> {
    v.map_values(|p: (String, u64)| (p.0@, p.1))
}

/// Whether every named column of `fills` is a `Float64` column of `x`.
pub open spec fn fills_ok(x: FrameView, fills: Seq<(Seq<char>, u64)>) -> bool {
    forall|k: int| 0 <= k < fills.len() ==> x.has(#[trigger] fills[k].0) && x.col(fills[k].0).dtype == DType::Float64
}

/// The fill value of `name`, by the same rule as [`fill_for`].
fn find_fill(fills: &Vec<(String, u64)>, name: &String) -> (r: Option<u64>)
    ensures
        r == fill_for(fills_view(fills@), name@),
{
    let ghost fv = fills_view(fills@);
    let mut found: Option<u64> = None;
    for k in 0..fills.len()
        invariant
            fv == fills_view(fills@),
            found == fill_for(fv.take(k as int), name@),
    {
        proof {
            assert(fv.take(k + 1).drop_last() =~= fv.take(k as int));
            assert(fv.take(k + 1).last() == fv[k as int]);
        }
        if crate::text::str_eq(fills[k].0.as_str(), name.as_str()) {
            found = Some(fills[k].1);
        }
    }
    proof {
        assert(fv.take(fills.len() as int) =~= fv);
    }
    found
}

/// The column with its nulls replaced by the float with bit pattern `b`
/// (canonicalized).
fn fill_series(c: &Series, b: u64) -> (r: Series)
    requires
        c@.dtype == DType::Float64,
        c@.cells_fit(),
    ensures
        r@ == filled_series(c@, canonical_float_bits(b)),
        r@.cells_fit(),
{
    let ghost cb = canonical_float_bits(b);
    let mut cells: Vec<Option<Value>> = Vec::new();
    for i in 0..c.values.len()
        invariant
            c@.dtype == DType::Float64,
            c@.cells_fit(),
            cb == canonical_float_bits(b),
            cells.len() == i,
            forall|k: int| 0 <= k < i ==> opt_view(#[trigger] cells@[k]) == (if c@.cells[k] is None {
                Some(CellView::Float(cb))
            } else {
                c@.cells[k]
            }),
            forall|k: int| 0 <= k < i ==> crate::frame::cell_fits(DType::Float64, opt_view(#[trigger] cells@[k])),
    {
        proof {
            assert(crate::frame::cell_fits(DType::Float64, c@.cells[i as int]));
            assert(c@.cells[i as int] == opt_view(c.values@[i as int]));
        }
        let v = match &c.values[i] {
            None => {
                let f = Value::from_f64_bits(b);
                assert(f@ == CellView::Float(cb));
                Some(f)
            },
            other => crate::frame::copy_cell(other),
        };
        assert(opt_view(v) == (if c@.cells[i as int] is None { Some(CellView::Float(cb)) } else { c@.cells[i as int] }));
        cells.push(v);
    }
    let r = Series { name: c.name.clone(), dtype: c.dtype, values: cells };
    assert(r@.cells =~= filled_series(c@, cb).cells);
    r
}

/// Fill the nulls of the named `Float64` columns of `x`, each with the bit
/// pattern given for it (the last entry wins for a repeated name).
///
/// Fails with `InvalidInput` when a named column is missing or not `Float64`.
pub fn fill_nulls(x: Frame, fills: &Vec<(String, u64)>) -> (r: Result<Frame, Error>)
    ensures
        r is Ok <==> fills_ok(x@, fills_view(fills@)),
        r matches Err(e) ==> e is InvalidInput,
        r matches Ok(f) ==> f@ == (FrameView { height: x@.height, columns: imputed(x@.columns, fills_view(fills@)) }),
{
    let ghost fv = fills_view(fills@);
    for k in 0..fills.len()
        invariant
            fv == fills_view(fills@),
            forall|j: int| 0 <= j < k ==> x@.has(#[trigger] fv[j].0) && x@.col(fv[j].0).dtype == DType::Float64,
    {
        let found = x.column(fills[k].0.as_str());
        assert(fv[k as int].0 == fills@[k as int].0@);
        let ok = match found {
            Some(c) => c.dtype == DType::Float64,
            None => false,
        };
        if !ok {
            let mut msg = owned("SimpleImputer.transform: column '");
            push_str(&mut msg, fills[k].0.as_str());
            push_str(&mut msg, "' not found or not Float64. The imputer fills Float64 columns only.");
            return Err(Error::InvalidInput(msg));
        }
    }
    let cols = x.columns();
    let ghost views = x@.columns;
    let ghost target = imputed(views, fv);
    let mut out: Vec<Series> = Vec::new();
    for i in 0..cols.len()
        invariant
            views == x@.columns,
            fv == fills_view(fills@),
            target == imputed(views, fv),
            x@.wf(),
            fills_ok(x@, fv),
            cols.len() == views.len(),
            forall|k: int| 0 <= k < cols.len() ==> (#[trigger] cols@[k])@ == views[k],
            out.len() == i,
            forall|k: int| 0 <= k < i ==> (#[trigger] out@[k])@ == target[k],
            forall|k: int| 0 <= k < i ==> (#[trigger] out@[k])@.cells_fit(),
    {
        proof {
            assert(views[i as int].cells_fit());
        }
        match find_fill(fills, &cols[i].name) {
            Some(b) => {
                proof {
                    lemma_fill_source(fv, views[i as int].name);
                    let j = choose|j: int| 0 <= j < fv.len() && fv[j].0 == views[i as int].name;
                    assert(x@.has(fv[j].0) && x@.col(fv[j].0).dtype == DType::Float64);
                    crate::frame::lemma_position_unique(views, views[i as int].name, i as int);
                }
                out.push(fill_series(&cols[i], b));
            },
            None => {
                out.push(cols[i].copy());
            },
        }
    }
    proof {
        assert(series_views(out@) =~= target);
        assert forall|a: int, b: int| 0 <= a < target.len() && 0 <= b < target.len() && a != b
            implies #[trigger] target[a].name != #[trigger] target[b].name by {
            assert(views[a].name != views[b].name);
        }
        assert forall|a: int| 0 <= a < target.len() implies (#[trigger] target[a]).cells.len() == x@.height by {
            assert(views[a].cells.len() == x@.height);
        }
        assert forall|a: int| 0 <= a < target.len() implies (#[trigger] target[a]).cells_fit() by {
            assert(out@[a]@.cells_fit());
        }
    }
    match Frame::new(x.height(), out) {
        Ok(f) => Ok(f),
        Err(_) => Err(Error::Computation(owned("SimpleImputer: could not rebuild the frame."))),
    }
}

/// A name with a fill value is named by some entry.
proof fn lemma_fill_source(fills: Seq<(Seq<char>, u64)>, name: Seq<char>)
    ensures
        fill_for(fills, name) is Some ==> exists|j: int| 0 <= j < fills.len() && fills[j].0 == name,
    decreases fills.len(),
{
    if fills.len() > 0 && fills.last().0 != name {
        let pre = fills.drop_last();
        lemma_fill_source(pre, name);
        if fill_for(pre, name) is Some {
            let j = choose|j: int| 0 <= j < pre.len() && pre[j].0 == name;
            assert(fills[j] == pre[j]);
        }
    } else if fills.len() > 0 {
        assert(fills[fills.len() - 1] == fills.last());
    }
}

/// Imputation fills every null of a filled column and keeps every value
/// that was there; a column without a fill value is kept as it is.
pub proof fn law_fill_keeps_values(cols: Seq<SeriesView>, fills: Seq<(Seq<char>, u64)>, k: int, i: int)
    requires
        0 <= k < cols.len(),
        0 <= i < cols[k].cells.len(),
    ensures
        imputed(cols, fills)[k].name == cols[k].name,
        imputed(cols, fills)[k].dtype == cols[k].dtype,
        imputed(cols, fills)[k].cells.len() == cols[k].cells.len(),
        cols[k].cells[i] is Some ==> imputed(cols, fills)[k].cells[i] == cols[k].cells[i],
        fill_for(fills, cols[k].name) matches Some(b) ==> imputed(cols, fills)[k].cells[i] is Some && (
        cols[k].cells[i] is None ==> imputed(cols, fills)[k].cells[i] == Some(CellView::Float(canonical_float_bits(b)))),
        fill_for(fills, cols[k].name) is None ==> imputed(cols, fills)[k] == cols[k],
{
}

/// Imputing twice with the same fill values gives what imputing once gives.
pub proof fn law_fill_idempotent(cols: Seq<SeriesView>, fills: Seq<(Seq<char>, u64)>)
    ensures
        imputed(imputed(cols, fills), fills) == imputed(cols, fills),
{
    let once = imputed(cols, fills);
    let twice = imputed(once, fills);
    assert forall|k: int| 0 <= k < once.len() implies #[trigger] twice[k] == once[k] by {
        assert(once[k].name == cols[k].name);
        match fill_for(fills, cols[k].name) {
            Some(b) => {
                let cb = canonical_float_bits(b);
                assert(twice[k] == filled_series(once[k], cb));
                assert(filled_series(once[k], cb).cells =~= once[k].cells);
            },
            None => {},
        }
    }
    assert(twice =~= once);
}

/// The columns to impute are exactly the `Float64` columns holding a null,
/// each once, in column order.
pub proof fn law_null_f64_names_filter(s: Seq<SeriesView>)
    ensures
        null_f64_names(s) == s.filter_map(|c: SeriesView| if c.dtype == DType::Float64 && has_null(c) { Some(c.name) } else { None }),
    decreases s.len(),
{
    if s.len() > 0 {
        law_null_f64_names_filter(s.drop_last());
        let rest = null_f64_names(s.drop_last());
        assert forall|v: Seq<char>| #[trigger] rest.push(v) == rest + seq![v] by {
            assert(rest.push(v) =~= rest + seq![v]);
        }
    }
}

/// The floats of a column are all its float cells, each once, in order.
pub proof fn law_float_bits_filter(s: Seq<Option<CellView>>)
    ensures
        float_bits(s) == s.filter_map(|c: Option<CellView>| match c { Some(CellView::Float(v)) => Some(v), _ => None }),
    decreases s.len(),
{
    if s.len() > 0 {
        law_float_bits_filter(s.drop_last());
        let rest = float_bits(s.drop_last());
        assert forall|v: u64| #[trigger] rest.push(v) == rest + seq![v] by {
            assert(rest.push(v) =~= rest + seq![v]);
        }
    }
}

/// Counting over two parts adds the counts, and one cell counts `1`
/// exactly when it holds the float `b`.
pub proof fn law_float_count_split(s: Seq<Option<CellView>>, t: Seq<Option<CellView>>, x: Option<CellView>, b: u64)
    ensures
        float_count(s + t, b) == float_count(s, b) + float_count(t, b),
        float_count(seq![x], b) == if x == Some(CellView::Float(b)) { 1nat } else { 0nat },
    decreases t.len(),
{
    let one = seq![x];
    assert(one.drop_last() =~= Seq::<Option<CellView>>::empty());
    assert(one.last() == x);
    assert(float_count(Seq::<Option<CellView>>::empty(), b) == 0);
    if t.len() == 0 {
        assert(s + t =~= s);
    } else {
        law_float_count_split(s, t.drop_last(), x, b);
        assert((s + t).drop_last() =~= s + t.drop_last());
        assert((s + t).last() == t.last());
    }
}

} // verus!
