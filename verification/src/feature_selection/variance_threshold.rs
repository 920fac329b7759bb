//! What a variance-based selection measures.
//!
//! Selecting features by variance keeps each `Float64` column whose variance
//! meets a threshold; the variances are floating-point arithmetic, done
//! outside this crate's verified core. This module decides what they are
//! computed over: each `Float64` column, in order, with its non-null values
//! that are not NaN (infinities included); a column with no such value is
//! left out. Floats are handled as their IEEE-754 bit patterns.

use vstd::prelude::*;
use crate::frame::{CellView, DType, Frame, SeriesView, Value, is_nan_bits, opt_view, series_views};
use crate::text::owned;
use crate::traits::Error;

verus! {

/// The non-null floats of `cells` that are not NaN, in order.
pub open spec fn non_nan_bits(cells: Seq<Option<CellView>>) -> Seq<u64>
    decreases cells.len(),
{
    if cells.len() == 0 {
        Seq::empty()
    } else {
        let rest = non_nan_bits(cells.drop_last());
        match cells.last() {
            Some(CellView::Float(v)) => if is_nan_bits(v) { rest } else { rest.push(v) },
            _ => rest,
        }
    }
}

/// Each `Float64` column with a value that is not NaN, in order, with those
/// values.
pub open spec fn variance_inputs(cols: Seq<SeriesView>) -> Seq<(Seq<char>, Seq<u64>)>
    decreases cols.len(),
{
    if cols.len() == 0 {
        Seq::empty()
    } else {
        let prev = variance_inputs(cols.drop_last());
        let c = cols.last();
        if c.dtype == DType::Float64 && non_nan_bits(c.cells).len() > 0 {
            prev.push((c.name, non_nan_bits(c.cells)))
        } else {
            prev
        }
    }
}

/// The view of a list of named value lists.
pub open spec fn named_bits_view(v: Seq<(String, Vec<u64>)>) -> Seq<(Seq<char>, Seq<u64>)> {
    v.map_values(|p: (String, Vec<u64>)| (p.0@, p.1@))
}

/// The non-null, non-NaN values of each `Float64` column of `x` that has
/// one, in column order.
///
/// Fails with `InvalidInput` when `x` has no column or no row.
pub fn variance_candidates(x: &Frame) -> (r: Result<Vec<(String, Vec<u64>)>, Error>)
    ensures
        r is Err <==> (x@.columns.len() == 0 || x@.height == 0),
        r matches Err(e) ==> e is InvalidInput,
        r matches Ok(v) ==> named_bits_view(v@) == variance_inputs(x@.columns),
{
    if x.width() == 0 {
        return Err(Error::InvalidInput(owned("VarianceThreshold.fit received a DataFrame with 0 columns. Provide at least one column.")));
    }
    if x.height() == 0 {
        return Err(Error::InvalidInput(owned("VarianceThreshold.fit received a DataFrame with 0 rows. Provide at least one row.")));
    }
    let cols = x.columns();
    let ghost xc = x@.columns;
    let mut out: Vec<(String, Vec<u64>)> = Vec::new();
    for k in 0..cols.len()
        invariant
            xc == x@.columns,
            series_views(cols@) == xc,
            cols.len() == xc.len(),
            named_bits_view(out@) == variance_inputs(xc.take(k as int)),
    {
        proof {
            assert(xc.take(k + 1).drop_last() =~= xc.take(k as int));
            assert(xc.take(k + 1).last() == xc[k as int]);
            assert(xc[k as int] == cols@[k as int]@);
        }
        let c = &cols[k];
        if c.dtype == DType::Float64 {
            let ghost cells = c@.cells;
            let mut vals: Vec<u64> = Vec::new();
            for i in 0..c.values.len()
                invariant
                    cells == c@.cells,
                    cells.len() == c.values.len(),
                    vals@ == non_nan_bits(cells.take(i as int)),
            {
                proof {
                    assert(cells.take(i + 1).drop_last() =~= cells.take(i as int));
                    assert(cells.take(i + 1).last() == cells[i as int]);
                    assert(cells[i as int] == opt_view(c.values@[i as int]));
                }
                match &c.values[i] {
                    Some(Value::Float(v)) => {
                        let exponent = (*v / 0x10_0000_0000_0000u64) % 0x800;
                        let fraction = *v % 0x10_0000_0000_0000u64;
                        if !(exponent == 0x7ff && fraction != 0) {
                            vals.push(*v);
                        }
                    },
                    _ => {},
                }
            }
            proof {
                assert(cells.take(c.values.len() as int) =~= cells);
            }
            if vals.len() > 0 {
                let name = c.name.clone();
                out.push((name, vals));
                proof {
                    assert(named_bits_view(out@) =~= variance_inputs(xc.take(k as int)).push((xc[k as int].name, non_nan_bits(cells))));
                }
            }
        }
    }
    proof {
        assert(xc.take(cols.len() as int) =~= xc);
    }
    Ok(out)
}

/// Whether a cell holds a number: a float that is not NaN.
pub open spec fn number_cell(c: Option<CellView>) -> bool {
    match c {
        Some(CellView::Float(v)) => !is_nan_bits(v),
        _ => false,
    }
}

/// The values taken from cells one after the other are those taken from
/// each part: splitting a column splits its values.
pub proof fn law_values_concat(a: Seq<Option<CellView>>, b: Seq<Option<CellView>>)
    ensures
        non_nan_bits(a + b) == non_nan_bits(a) + non_nan_bits(b),
    decreases b.len(),
{
    if b.len() == 0 {
        assert(a + b =~= a);
        assert(non_nan_bits(a) + non_nan_bits(b) =~= non_nan_bits(a));
    } else {
        law_values_concat(a, b.drop_last());
        assert((a + b).drop_last() =~= a + b.drop_last());
        assert((a + b).last() == b.last());
        match b.last() {
            Some(CellView::Float(v)) => {
                if !is_nan_bits(v) {
                    assert(non_nan_bits(a) + non_nan_bits(b.drop_last()).push(v) =~= (non_nan_bits(a) + non_nan_bits(
                        b.drop_last(),
                    )).push(v));
                }
            },
            _ => {},
        }
    }
}

/// A column whose cells all hold numbers (no null, no NaN) hands over every
/// value, zeros and infinities included, in order.
pub proof fn law_values_all_present(cells: Seq<Option<CellView>>)
    requires
        forall|k: int| 0 <= k < cells.len() ==> number_cell(#[trigger] cells[k]),
    ensures
        non_nan_bits(cells).len() == cells.len(),
        forall|k: int| 0 <= k < cells.len() ==> Some(CellView::Float(#[trigger] non_nan_bits(cells)[k])) == cells[k],
    decreases cells.len(),
{
    if cells.len() > 0 {
        let pre = cells.drop_last();
        assert forall|k: int| 0 <= k < pre.len() implies number_cell(#[trigger] pre[k]) by {
            assert(pre[k] == cells[k]);
        }
        law_values_all_present(pre);
        assert(cells[cells.len() - 1] == cells.last());
        assert forall|k: int| 0 <= k < cells.len() implies Some(CellView::Float(#[trigger] non_nan_bits(cells)[k])) == cells[k] by {
            if k < pre.len() {
                assert(pre[k] == cells[k]);
            }
        }
    }
}

/// Nulls, NaNs and cells that are not floats hand over nothing.
pub proof fn law_values_skip_missing(cells: Seq<Option<CellView>>)
    requires
        forall|k: int| 0 <= k < cells.len() ==> !number_cell(#[trigger] cells[k]),
    ensures
        non_nan_bits(cells).len() == 0,
    decreases cells.len(),
{
    if cells.len() > 0 {
        let pre = cells.drop_last();
        assert forall|k: int| 0 <= k < pre.len() implies !number_cell(#[trigger] pre[k]) by {
            assert(pre[k] == cells[k]);
        }
        law_values_skip_missing(pre);
        assert(cells[cells.len() - 1] == cells.last());
    }
}

/// The values a variance is taken over are exactly the float cells that
/// are not NaN, each once, in order (zeros and infinities included).
pub proof fn law_values_filter(s: Seq<Option<CellView>>)
    ensures
        non_nan_bits(s) == s.filter_map(|c: Option<CellView>| match c { Some(CellView::Float(v)) => if is_nan_bits(v) { None } else { Some(v) }, _ => None }),
    decreases s.len(),
{
    if s.len() > 0 {
        law_values_filter(s.drop_last());
        let rest = non_nan_bits(s.drop_last());
        assert forall|v: u64| #[trigger] rest.push(v) == rest + seq![v] by {
            assert(rest.push(v) =~= rest + seq![v]);
        }
    }
}

/// The columns a variance is taken of are exactly the `Float64` columns
/// with a value that is not NaN, each once with those values, in column order.
pub proof fn law_variance_inputs_filter(s: Seq<SeriesView>)
    ensures
        variance_inputs(s) == s.filter_map(|c: SeriesView| if c.dtype == DType::Float64 && non_nan_bits(c.cells).len() > 0 { Some((c.name, non_nan_bits(c.cells))) } else { None }),
    decreases s.len(),
{
    if s.len() > 0 {
        law_variance_inputs_filter(s.drop_last());
        let rest = variance_inputs(s.drop_last());
        assert forall|v: (Seq<char>, Seq<u64>)| #[trigger] rest.push(v) == rest + seq![v] by {
            assert(rest.push(v) =~= rest + seq![v]);
        }
    }
}

} // verus!
