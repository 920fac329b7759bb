//! Clipping `Float64` columns to learned bounds.
//!
//! Winsorizing and outlier clipping learn, per column, a lower and an upper
//! bound (percentiles, an interquartile or a z-score range: floating-point
//! arithmetic, done outside this crate's verified core), then clamp every
//! value into them. This module does the clamping: the pair of bounds is
//! first put in order (`min`/`max`, where a NaN bound gives way to the
//! other), a value below the lower bound becomes it, one above the upper
//! bound becomes it, and `NaN` and nulls stay. Floats are handled as their
//! IEEE-754 bit patterns.

use vstd::prelude::*;
use crate::frame::{
    CellView, DType, Frame, FrameView, Series, SeriesView, Value, canonical_float_bits, is_nan_bits, opt_view,
    series_views,
};
use crate::preprocessing::binarizer::{order_key, float_gt};
use crate::text::{owned, push_str};
use crate::traits::Error;

verus! {

/// `a < b` between floats given by their bit patterns (false when either is NaN).
pub open spec fn float_lt(a: u64, b: u64) -> bool {
    !is_nan_bits(a) && !is_nan_bits(b) && order_key(a) < order_key(b)
}

/// The smaller of two floats; a NaN gives way to the other.
pub open spec fn float_min(a: u64, b: u64) -> u64 {
    if is_nan_bits(a) {
        b
    } else if is_nan_bits(b) {
        a
    } else if order_key(b) < order_key(a) {
        b
    } else {
        a
    }
}

/// The larger of two floats; a NaN gives way to the other.
pub open spec fn float_max(a: u64, b: u64) -> u64 {
    if is_nan_bits(a) {
        b
    } else if is_nan_bits(b) {
        a
    } else if order_key(b) > order_key(a) {
        b
    } else {
        a
    }
}

/// `v` clamped into `[lo, hi]`: below `lo` gives `lo`, above `hi` gives `hi`,
/// and anything else (`NaN` among it) stays.
pub open spec fn clamped(v: u64, lo: u64, hi: u64) -> u64 {
    if float_lt(v, lo) {
        lo
    } else if float_gt(v, hi) {
        hi
    } else {
        v
    }
}

/// The clamped cell (canonical bit pattern); nulls and non-floats stay.
pub open spec fn clamped_cell(o: Option<CellView>, lo: u64, hi: u64) -> Option<CellView> {
    match o {
        Some(CellView::Float(v)) => Some(CellView::Float(canonical_float_bits(clamped(v, lo, hi)))),
        _ => o,
    }
}

/// The column with every value clamped into the ordered pair of bounds.
pub open spec fn clipped_series(c: SeriesView, a: u64, b: u64) -> SeriesView {
    SeriesView {
        name: c.name,
        dtype: c.dtype,
        cells: c.cells.map_values(|o: Option<CellView>| clamped_cell(o, float_min(a, b), float_max(a, b))),
    }
}

/// The columns after clipping by each `(name, a, b)` of `bounds` in turn.
pub open spec fn clipped(cols: Seq<SeriesView>, bounds: Seq<(Seq<char>, u64, u64)>) -> Seq<SeriesView>
    decreases bounds.len(),
{
    if bounds.len() == 0 {
        cols
    } else {
        let (name, a, b) = bounds.last();
        clipped(cols, bounds.drop_last()).map_values(
            |c: SeriesView| if c.name == name { clipped_series(c, a, b) } else { c },
        )
    }
}

/// The view of a list of (name, bound, bound) triples.
pub open spec fn bounds_view(v: Seq<(String, u64, u64)>) -> Seq<(Seq<char>, u64, u64)> {
    v.map_values(|p: (String, u64, u64)| (p.0@, p.1, p.2))
}

/// Whether every named column of `bounds` is a `Float64` column of `x`.
pub open spec fn bounds_ok(x: FrameView, bounds: Seq<(Seq<char>, u64, u64)>) -> bool {
    forall|k: int| 0 <= k < bounds.len() ==> x.has(#[trigger] bounds[k].0) && x.col(bounds[k].0).dtype == DType::Float64
}

/// Whether no pair of bounds is NaN on both sides.
pub open spec fn bounds_comparable(bounds: Seq<(Seq<char>, u64, u64)>) -> bool {
    forall|k: int| 0 <= k < bounds.len() ==> !(is_nan_bits(#[trigger] bounds[k].1) && is_nan_bits(bounds[k].2))
}

/// Whether the bit pattern encodes a NaN.
fn nan(b: u64) -> (r: bool)
    ensures
        r == is_nan_bits(b),
{
    (b / 0x10_0000_0000_0000u64) % 0x800 == 0x7ff && b % 0x10_0000_0000_0000u64 != 0
}

/// The position of a non-NaN float on the real line.
fn key(b: u64) -> (r: i128)
    ensures
        r == order_key(b),
{
    if b < 0x8000_0000_0000_0000u64 { b as i128 } else { -((b - 0x8000_0000_0000_0000u64) as i128) }
}

/// The ordered pair of bounds.
fn ordered(a: u64, b: u64) -> (r: (u64, u64))
    ensures
        r == (float_min(a, b), float_max(a, b)),
{
    if nan(a) {
        (b, b)
    } else if nan(b) {
        (a, a)
    } else if key(b) < key(a) {
        (b, a)
    } else if key(b) > key(a) {
        (a, b)
    } else {
        (a, a)
    }
}

/// `v` clamped into `[lo, hi]`.
fn clamp_bits(v: u64, lo: u64, hi: u64) -> (r: u64)
    ensures
        r == clamped(v, lo, hi),
{
    if nan(v) {
        return v;
    }
    if !nan(lo) && key(v) < key(lo) {
        lo
    } else if !nan(hi) && key(v) > key(hi) {
        hi
    } else {
        v
    }
}

/// The column clipped to the ordered pair of `a` and `b`.
fn clip_series(c: &Series, a: u64, b: u64) -> (r: Series)
    requires
        c@.dtype == DType::Float64,
        c@.cells_fit(),
    ensures
        r@ == clipped_series(c@, a, b),
        r@.cells_fit(),
{
    let (lo, hi) = ordered(a, b);
    let mut cells: Vec<Option<Value>> = Vec::new();
    for i in 0..c.values.len()
        invariant
            c@.dtype == DType::Float64,
            c@.cells_fit(),
            lo == float_min(a, b),
            hi == float_max(a, b),
            cells.len() == i,
            forall|k: int| 0 <= k < i ==> opt_view(#[trigger] cells@[k]) == clamped_cell(c@.cells[k], lo, hi),
            forall|k: int| 0 <= k < i ==> crate::frame::cell_fits(DType::Float64, opt_view(#[trigger] cells@[k])),
    {
        proof {
            assert(crate::frame::cell_fits(DType::Float64, c@.cells[i as int]));
            assert(c@.cells[i as int] == opt_view(c.values@[i as int]));
        }
        let v = match &c.values[i] {
            Some(Value::Float(x)) => {
                let f = Value::from_f64_bits(clamp_bits(*x, lo, hi));
                Some(f)
            },
            other => crate::frame::copy_cell(other),
        };
        cells.push(v);
    }
    let r = Series { name: c.name.clone(), dtype: c.dtype, values: cells };
    assert(r@.cells =~= clipped_series(c@, a, b).cells);
    r
}

/// Clip the named `Float64` columns of `x`, by each `(name, a, b)` of
/// `bounds` in turn, to the ordered pair of `a` and `b`.
///
/// Fails with `InvalidInput` when a named column is missing or not `Float64`.
pub fn clip_columns(x: Frame, bounds: &Vec<(String, u64, u64)>) -> (r: Result<Frame, Error>)
    requires
        bounds_comparable(bounds_view(bounds@)),
    ensures
        r is Ok <==> bounds_ok(x@, bounds_view(bounds@)),
        r matches Err(e) ==> e is InvalidInput,
        r matches Ok(f) ==> f@ == (FrameView { height: x@.height, columns: clipped(x@.columns, bounds_view(bounds@)) }),
{
    let ghost bv = bounds_view(bounds@);
    for k in 0..bounds.len()
        invariant
            bv == bounds_view(bounds@),
            forall|j: int| 0 <= j < k ==> x@.has(#[trigger] bv[j].0) && x@.col(bv[j].0).dtype == DType::Float64,
    {
        let found = x.column(bounds[k].0.as_str());
        assert(bv[k as int].0 == bounds@[k as int].0@);
        let ok = match found {
            Some(c) => c.dtype == DType::Float64,
            None => false,
        };
        if !ok {
            let mut msg = owned("transform: column '");
            push_str(&mut msg, bounds[k].0.as_str());
            push_str(&mut msg, "' not found or not Float64.");
            return Err(Error::InvalidInput(msg));
        }
    }
    let ghost xv = x@;
    let mut out = x.copy_columns();
    for k in 0..bounds.len()
        invariant
            bv == bounds_view(bounds@),
            xv == x@,
            xv.wf(),
            bounds_ok(xv, bv),
            series_views(out@) == clipped(xv.columns, bv.take(k as int)),
            crate::frame::names_of(series_views(out@)) == xv.names(),
            forall|m: int| 0 <= m < out.len() ==> (#[trigger] out@[m])@.cells_fit() && out@[m]@.cells.len() == xv.height
                && out@[m]@.dtype == xv.columns[m].dtype,
    {
        let ghost before = series_views(out@);
        proof {
            assert(crate::frame::names_of(before).len() == before.len());
            assert(before.len() == out.len());
            assert(out.len() == xv.columns.len());
            assert(bv.take(k + 1).drop_last() =~= bv.take(k as int));
            assert(bv.take(k + 1).last() == bv[k as int]);
            assert(xv.has(bv[k as int].0));
        }
        let mut pos: Option<usize> = None;
        for j in 0..out.len()
            invariant
                pos matches Some(p) ==> p < out.len() && out@[p as int]@.name == bounds@[k as int].0@,
                pos is None ==> forall|m: int| 0 <= m < j ==> out@[m]@.name != bounds@[k as int].0@,
                k < bounds.len(),
        {
            if pos.is_none() && crate::text::str_eq(out[j].name.as_str(), bounds[k].0.as_str()) {
                pos = Some(j);
            }
        }
        let ghost name = bv[k as int].0;
        proof {
            assert(name == bounds@[k as int].0@);
            assert(forall|m: int| 0 <= m < before.len() ==> before[m].name == #[trigger] xv.names()[m]);
        }
        match pos {
            Some(p) => {
                proof {
                    assert(before[p as int] == out@[p as int]@);
                    assert(xv.columns[p as int].name == before[p as int].name) by {
                        assert(crate::frame::names_of(before)[p as int] == xv.names()[p as int]);
                    }
                    crate::frame::lemma_position_unique(xv.columns, name, p as int);
                }
                let clipped_col = clip_series(&out[p], bounds[k].1, bounds[k].2);
                out.set(p, clipped_col);
                proof {
                    let after = clipped(xv.columns, bv.take(k + 1));
                    assert forall|m: int| 0 <= m < before.len() implies #[trigger] series_views(out@)[m] == after[m] by {
                        if m != p {
                            assert(before[m] == out@[m]@);
                            assert(before[m].name != name) by {
                                assert(crate::frame::names_of(before)[m] == xv.names()[m]);
                                assert(xv.columns[m].name != xv.columns[p as int].name);
                            }
                        }
                    }
                    assert(series_views(out@) =~= after);
                    assert(crate::frame::names_of(series_views(out@)) =~= crate::frame::names_of(before));
                }
            },
            None => {
                proof {
                    let m = position_witness(xv, name);
                    assert(crate::frame::names_of(before)[m] == xv.names()[m]);
                    assert(before[m] == out@[m]@);
                    assert(false);
                }
            },
        }
    }
    proof {
        assert(bv.take(bounds.len() as int) =~= bv);
        let target = series_views(out@);
        assert forall|a: int, b: int| 0 <= a < target.len() && 0 <= b < target.len() && a != b
            implies #[trigger] target[a].name != #[trigger] target[b].name by {
            assert(crate::frame::names_of(target)[a] == xv.names()[a]);
            assert(crate::frame::names_of(target)[b] == xv.names()[b]);
            assert(xv.columns[a].name != xv.columns[b].name);
        }
        assert forall|a: int| 0 <= a < target.len() implies (#[trigger] target[a]).cells.len() == xv.height by {
            assert(out@[a]@.cells.len() == xv.height);
        }
        assert forall|a: int| 0 <= a < target.len() implies (#[trigger] target[a]).cells_fit() by {
            assert(out@[a]@.cells_fit());
        }
    }
    match Frame::new(x.height(), out) {
        Ok(f) => Ok(f),
        Err(_) => Err(Error::Computation(owned("could not rebuild the frame after clipping."))),
    }
}

/// The position of a column that exists.
proof fn position_witness(x: FrameView, name: Seq<char>) -> (m: int)
    requires
        x.has(name),
    ensures
        0 <= m < x.columns.len(),
        x.columns[m].name == name,
{
    choose|m: int| 0 <= m < x.columns.len() && (#[trigger] x.columns[m]).name == name
}

/// After clipping, a value that is not NaN lies within the ordered bounds
/// (when they are not NaN).
pub proof fn law_clamped_within(v: u64, a: u64, b: u64)
    requires
        !is_nan_bits(v),
        !is_nan_bits(a),
        !is_nan_bits(b),
    ensures
        order_key(float_min(a, b)) <= order_key(clamped(v, float_min(a, b), float_max(a, b))) <= order_key(
            float_max(a, b),
        ),
{
}

/// Clipping keeps nulls null and NaN NaN, and keeps the column's name,
/// dtype and length.
pub proof fn law_clip_keeps_missing(c: SeriesView, a: u64, b: u64, k: int)
    requires
        0 <= k < c.cells.len(),
    ensures
        clipped_series(c, a, b).name == c.name,
        clipped_series(c, a, b).dtype == c.dtype,
        clipped_series(c, a, b).cells.len() == c.cells.len(),
        c.cells[k] is None ==> clipped_series(c, a, b).cells[k] is None,
        c.cells[k] matches Some(CellView::Float(v)) ==> (is_nan_bits(v) ==> clipped_series(c, a, b).cells[k] == Some(
            CellView::Float(canonical_float_bits(v)),
        )),
{
}

/// Clipping twice by the same bounds gives what clipping once gives.
pub proof fn law_clip_idempotent(c: SeriesView, a: u64, b: u64)
    ensures
        clipped_series(clipped_series(c, a, b), a, b) == clipped_series(c, a, b),
{
    let once = clipped_series(c, a, b);
    let lo = float_min(a, b);
    let hi = float_max(a, b);
    assert forall|k: int| 0 <= k < once.cells.len() implies #[trigger] clamped_cell(once.cells[k], lo, hi) == once.cells[k] by {
        match c.cells[k] {
            Some(CellView::Float(v)) => {
                lemma_min_le_max(a, b);
                lemma_clamped_fixed(canonical_float_bits(clamped(v, lo, hi)), v, lo, hi);
            },
            _ => {},
        }
    }
    assert(clipped_series(once, a, b).cells =~= once.cells);
}

/// Canonicalizing keeps NaN-ness and the position on the line.
proof fn lemma_canonical_order(w: u64)
    ensures
        is_nan_bits(canonical_float_bits(w)) == is_nan_bits(w),
        !is_nan_bits(w) ==> order_key(canonical_float_bits(w)) == order_key(w),
{
    assert(!is_nan_bits(crate::frame::ZERO_BITS));
    assert(is_nan_bits(crate::frame::CANONICAL_NAN_BITS));
}

/// The ordered pair is in order.
proof fn lemma_min_le_max(a: u64, b: u64)
    ensures
        !float_gt(float_min(a, b), float_max(a, b)),
{
}

/// Canonicalizing twice is canonicalizing once.
proof fn lemma_canonical_idempotent(w: u64)
    ensures
        canonical_float_bits(canonical_float_bits(w)) == canonical_float_bits(w),
{
    lemma_canonical_order(w);
    assert(crate::frame::CANONICAL_NAN_BITS != crate::frame::NEGATIVE_ZERO_BITS);
}

/// A value already clamped (up to canonical form) is not moved again.
proof fn lemma_clamped_fixed(u: u64, v: u64, lo: u64, hi: u64)
    requires
        u == canonical_float_bits(clamped(v, lo, hi)),
        !float_gt(lo, hi),
    ensures
        canonical_float_bits(clamped(u, lo, hi)) == u,
{
    let w = clamped(v, lo, hi);
    lemma_canonical_order(w);
    lemma_canonical_idempotent(w);
    assert(clamped(u, lo, hi) == u);
}

/// Clamping moves only the values outside the bounds: a number below the
/// lower bound becomes it, one above the upper bound becomes it, and one
/// between them (a bound included) stays as it is.
pub proof fn law_clamp_moves_only_outliers(v: u64, lo: u64, hi: u64)
    requires
        !is_nan_bits(v),
        !is_nan_bits(lo),
        !is_nan_bits(hi),
        order_key(lo) <= order_key(hi),
    ensures
        order_key(v) < order_key(lo) ==> clamped(v, lo, hi) == lo,
        order_key(v) > order_key(hi) ==> clamped(v, lo, hi) == hi,
        order_key(lo) <= order_key(v) <= order_key(hi) ==> clamped(v, lo, hi) == v,
{
}

/// The ordered pair of two numbers holds the smaller one first and the
/// larger one second, whatever order they come in.
pub proof fn law_bounds_ordered(a: u64, b: u64)
    requires
        !is_nan_bits(a),
        !is_nan_bits(b),
    ensures
        order_key(float_min(a, b)) <= order_key(a) && order_key(float_min(a, b)) <= order_key(b),
        order_key(float_max(a, b)) >= order_key(a) && order_key(float_max(a, b)) >= order_key(b),
        float_min(a, b) == a || float_min(a, b) == b,
        float_max(a, b) == a || float_max(a, b) == b,
        order_key(float_min(a, b)) == order_key(float_min(b, a)),
        order_key(float_max(a, b)) == order_key(float_max(b, a)),
{
}

} // verus!
