//! Binarization of `Float64` columns.
//!
//! [`Binarizer`] maps every value of every `Float64` column to `1.0` when it
//! is greater than the threshold and to `0.0` otherwise; `NaN` stays `NaN`
//! and nulls stay null. Floats are compared under IEEE-754 on their bit
//! patterns: `-0.0` equals `0.0`, and nothing compares greater than `NaN`.

use vstd::prelude::*;
use crate::frame::{
    CellView, DType, Frame, FrameView, Series, SeriesView, Value, opt_view, series_views,
    is_nan_bits, ONE_BITS, ZERO_BITS,
};
use crate::text::owned;
use crate::traits::{Error, Fit, Transform};

verus! {

/// The position of a non-NaN float on the real line, as an integer: larger
/// floats get larger keys, and both zeros get key 0.
pub open spec fn order_key(b: u64) -> int {
    if b < 0x8000_0000_0000_0000u64 {
        b as int
    } else {
        -((b - 0x8000_0000_0000_0000u64) as int)
    }
}

/// `a > t` between floats given by their bit patterns (false when either is NaN).
pub open spec fn float_gt(a: u64, t: u64) -> bool {
    !is_nan_bits(a) && !is_nan_bits(t) && order_key(a) > order_key(t)
}

/// The binarized value of `v`: NaN stays, above `t` is `1.0`, else `0.0`.
pub open spec fn binarized(v: u64, t: u64) -> u64 {
    if is_nan_bits(v) {
        v
    } else if float_gt(v, t) {
        ONE_BITS
    } else {
        ZERO_BITS
    }
}

/// The binarized cell: floats are binarized, anything else is kept.
pub open spec fn binarized_cell(x: Option<CellView>, t: u64) -> Option<CellView> {
    match x {
        Some(CellView::Float(v)) => Some(CellView::Float(binarized(v, t))),
        _ => x,
    }
}

/// A column after binarization: `Float64` columns are binarized, others kept.
pub open spec fn binarized_series(c: SeriesView, t: u64) -> SeriesView {
    if c.dtype == DType::Float64 {
        SeriesView { name: c.name, dtype: c.dtype, cells: c.cells.map_values(|x: Option<CellView>| binarized_cell(x, t)) }
    } else {
        c
    }
}

/// Whether the bit pattern encodes a NaN.
fn nan_bits(b: u64) -> (r: bool)
    ensures
        r == is_nan_bits(b),
{
    let exponent = (b / 0x10_0000_0000_0000u64) % 0x800;
    let fraction = b % 0x10_0000_0000_0000u64;
    exponent == 0x7ff && fraction != 0
}

/// `a > t` between floats given by their bit patterns.
pub fn greater_than(a: u64, t: u64) -> (r: bool)
    ensures
        r == float_gt(a, t),
{
    if nan_bits(a) || nan_bits(t) {
        return false;
    }
    let ka: i128 = if a < 0x8000_0000_0000_0000u64 { a as i128 } else { -((a - 0x8000_0000_0000_0000u64) as i128) };
    let kt: i128 = if t < 0x8000_0000_0000_0000u64 { t as i128 } else { -((t - 0x8000_0000_0000_0000u64) as i128) };
    ka > kt
}

/// Binarize with the threshold given by its `f64` bit pattern.
pub struct Binarizer {
    fitted: bool,
    threshold: u64,
}

impl Binarizer {
    /// Whether a fit has succeeded.
    pub closed spec fn is_fitted(&self) -> bool {
        self.fitted
    }

    /// The bit pattern of the threshold.
    pub closed spec fn threshold_bits(&self) -> u64 {
        self.threshold
    }

    /// A binarizer with the threshold whose `f64` bit pattern is
    /// `threshold_bits` (as `f64::to_bits` gives it).
    pub fn new(threshold_bits: u64) -> (r: Self)
        ensures
            !r.is_fitted(),
            r.threshold_bits() == threshold_bits,
    {
        Self { fitted: false, threshold: threshold_bits }
    }
}

impl Default for Binarizer {
    /// A binarizer with threshold `0.0`.
    fn default() -> (r: Self)
        ensures
            !r.is_fitted(),
            r.threshold_bits() == ZERO_BITS,
    {
        Self::new(ZERO_BITS)
    }
}

impl Fit<Frame> for Binarizer {
    type Output = ();

    open spec fn fits_to(&self, x: Frame, after: Self, r: Result<(), Error>) -> bool {
        &&& r is Ok <==> (x@.height > 0 && x@.columns.len() > 0)
        &&& r matches Err(e) ==> e is InvalidInput
        &&& r is Ok ==> after.is_fitted()
        &&& r is Err ==> after.is_fitted() == self.is_fitted()
        &&& after.threshold_bits() == self.threshold_bits()
    }

    /// Check that `x` is not empty; nothing is learned.
    fn fit(&mut self, x: Frame) -> (r: Result<(), Error>) {
        if x.height() == 0 || x.width() == 0 {
            return Err(Error::InvalidInput(owned("Binarizer.fit received an empty DataFrame (0 rows or 0 columns). Provide data with at least 1 row and 1 column.")));
        }
        self.fitted = true;
        Ok(())
    }
}

/// The binarized copy of a column.
fn binarize_series(c: &Series, t: u64) -> (r: Series)
    requires
        c@.cells_fit(),
    ensures
        r@ == binarized_series(c@, t),
        r@.cells_fit(),
{
    if c.dtype != DType::Float64 {
        return c.copy();
    }
    let mut cells: Vec<Option<Value>> = Vec::new();
    for i in 0..c.values.len()
        invariant
            c.dtype == DType::Float64,
            c@.cells_fit(),
            cells.len() == i,
            forall|k: int| 0 <= k < i ==> opt_view(#[trigger] cells@[k]) == binarized_cell(c@.cells[k], t),
            forall|k: int| 0 <= k < i ==> crate::frame::cell_fits(DType::Float64, opt_view(#[trigger] cells@[k])),
    {
        proof {
            assert(crate::frame::cell_fits(DType::Float64, c@.cells[i as int]));
        }
        let v = match &c.values[i] {
            Some(Value::Float(b)) => {
                let b = *b;
                let out = if nan_bits(b) {
                    b
                } else if greater_than(b, t) {
                    ONE_BITS
                } else {
                    ZERO_BITS
                };
                Some(Value::Float(out))
            },
            other => crate::frame::copy_cell(other),
        };
        cells.push(v);
    }
    let r = Series { name: c.name.clone(), dtype: c.dtype, values: cells };
    assert(r@.cells =~= binarized_series(c@, t).cells);
    r
}

impl Transform<Frame> for Binarizer {
    type Output = Frame;

    /// Binarize every `Float64` column in place; other columns are kept.
    ///
    /// Fails with `NotFitted` before a fit.
    fn transform(&self, x: Frame) -> (r: Result<Frame, Error>)
        ensures
            !self.is_fitted() ==> r matches Err(Error::NotFitted(_)),
            self.is_fitted() ==> (r matches Ok(f) && f@ == (FrameView {
                height: x@.height,
                columns: x@.columns.map_values(|c: SeriesView| binarized_series(c, self.threshold_bits())),
            })),
    {
        if !self.fitted {
            return Err(Error::NotFitted(owned("Binarizer has not been fitted. Call .fit(dataframe) before .transform().")));
        }
        let cols = x.columns();
        let ghost views = x@.columns;
        let mut out: Vec<Series> = Vec::new();
        for i in 0..cols.len()
            invariant
                views == x@.columns,
                x@.wf(),
                cols.len() == views.len(),
                forall|k: int| 0 <= k < cols.len() ==> (#[trigger] cols@[k])@ == views[k],
                out.len() == i,
                forall|k: int| 0 <= k < i ==> (#[trigger] out@[k])@ == binarized_series(views[k], self.threshold),
                forall|k: int| 0 <= k < i ==> (#[trigger] out@[k])@.cells_fit(),
        {
            proof {
                assert(views[i as int].cells_fit());
            }
            out.push(binarize_series(&cols[i], self.threshold));
        }
        let ghost target = views.map_values(|c: SeriesView| binarized_series(c, self.threshold));
        proof {
            assert(series_views(out@) =~= target);
            assert forall|a: int, b: int| 0 <= a < target.len() && 0 <= b < target.len() && a != b
                implies #[trigger] target[a].name != #[trigger] target[b].name by {
                assert(views[a].name != views[b].name);
            }
            assert forall|a: int| 0 <= a < target.len() implies (#[trigger] target[a]).cells.len() == x@.height by {
                assert(views[a].cells.len() == x@.height);
            }
            assert forall|a: int| 0 <= a < target.len() implies (#[trigger] target[a]).cells_fit() by {
                assert(out@[a]@.cells_fit());
            }
        }
        match Frame::new(x.height(), out) {
            Ok(f) => Ok(f),
            Err(_) => Err(Error::Computation(owned("Binarizer: could not rebuild the frame."))),
        }
    }
}

/// Binarizing against `t` gives `1.0` to every number strictly above `t`,
/// `0.0` to every number at or below it (`t` itself included, and `-0.0`
/// against `0.0`), and keeps a NaN as it is.
pub proof fn law_binarize_strictly_above(v: u64, t: u64)
    requires
        !is_nan_bits(t),
    ensures
        is_nan_bits(v) ==> binarized(v, t) == v,
        !is_nan_bits(v) && order_key(v) > order_key(t) ==> binarized(v, t) == ONE_BITS,
        !is_nan_bits(v) && order_key(v) <= order_key(t) ==> binarized(v, t) == ZERO_BITS,
        binarized(t, t) == ZERO_BITS,
{
}

/// Binarizing is monotone: a number at least as large as one that becomes
/// `1.0` becomes `1.0` too.
pub proof fn law_binarize_monotone(v: u64, w: u64, t: u64)
    requires
        !is_nan_bits(v),
        !is_nan_bits(w),
        order_key(v) <= order_key(w),
        binarized(v, t) == ONE_BITS,
    ensures
        binarized(w, t) == ONE_BITS,
{
}

} // verus!
