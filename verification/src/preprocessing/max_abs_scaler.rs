//! Maximum-absolute-value scaling: the fit.
//!
//! [`MaxAbsScaler`] learns, for every `Float64` column, the largest absolute
//! value among its finite values (from `0.0` up), and a transform divides
//! each value by it, leaving a column whose maximum is `0.0` unchanged. The
//! fit needs no arithmetic and is verified here; the division is floating
//! point and is done outside this crate's verified core, over
//! [`MaxAbsScaler::scales`]. Floats are handled as their IEEE-754 bit
//! patterns.

use vstd::prelude::*;
use crate::frame::{CellView, Frame, FrameView, Series, SeriesView, Value, opt_view, strings_view, ZERO_BITS};
use crate::preprocessing::log_transformer::is_finite_bits;
use crate::text::{owned, push_str};
use crate::traits::{Error, Fit};
use crate::util::{f64_names, require_f64_columns, lemma_f64_names_found};

verus! {

/// The bit pattern of the absolute value (the sign bit cleared).
pub open spec fn abs_bits(b: u64) -> u64 {
    if b >= 0x8000_0000_0000_0000u64 { (b - 0x8000_0000_0000_0000u64) as u64 } else { b }
}

/// The largest absolute value among the finite floats of `cells`, from
/// `0.0` up. Non-negative floats order as their bit patterns do.
pub open spec fn max_abs_of(cells: Seq<Option<CellView>>) -> u64
    decreases cells.len(),
{
    if cells.len() == 0 {
        ZERO_BITS
    } else {
        let m = max_abs_of(cells.drop_last());
        match cells.last() {
            Some(CellView::Float(v)) => if is_finite_bits(v) && abs_bits(v) > m { abs_bits(v) } else { m },
            _ => m,
        }
    }
}

/// Whether the column holds a finite value.
pub open spec fn has_finite(c: SeriesView) -> bool {
    exists|k: int| 0 <= k < c.cells.len() && #[trigger] finite_cell(c.cells[k])
}

/// Whether the cell holds a finite float.
pub open spec fn finite_cell(o: Option<CellView>) -> bool {
    match o {
        Some(CellView::Float(v)) => is_finite_bits(v),
        _ => false,
    }
}

/// The bit pattern of a float cell (`0` for anything else).
pub open spec fn float_of(o: Option<CellView>) -> u64 {
    match o {
        Some(CellView::Float(v)) => v,
        _ => 0,
    }
}

/// Whether a fit on `x` succeeds: rows and columns, a `Float64` column, and
/// a finite value in each of them.
pub open spec fn max_abs_fit_ok(x: FrameView) -> bool {
    &&& x.height > 0
    &&& x.columns.len() > 0
    &&& f64_names(x.columns).len() > 0
    &&& forall|k: int| 0 <= k < f64_names(x.columns).len() ==> has_finite(x.col(#[trigger] f64_names(x.columns)[k]))
}

/// The largest absolute finite value of the column, and whether it has a
/// finite value at all.
fn column_max_abs(c: &Series) -> (r: (u64, bool))
    ensures
        r.0 == max_abs_of(c@.cells),
        r.1 == has_finite(c@),
{
    let ghost cells = c@.cells;
    let mut m: u64 = ZERO_BITS;
    let mut any = false;
    for i in 0..c.values.len()
        invariant
            cells == c@.cells,
            cells.len() == c.values.len(),
            m == max_abs_of(cells.take(i as int)),
            any <==> exists|k: int| 0 <= k < i && #[trigger] finite_cell(cells[k]),
    {
        proof {
            assert(cells.take(i + 1).drop_last() =~= cells.take(i as int));
            assert(cells.take(i + 1).last() == cells[i as int]);
            assert(cells[i as int] == opt_view(c.values@[i as int]));
        }
        match &c.values[i] {
            Some(Value::Float(v)) => {
                let v = *v;
                if (v / 0x10_0000_0000_0000u64) % 0x800 != 0x7ff {
                    let a = if v >= 0x8000_0000_0000_0000u64 { v - 0x8000_0000_0000_0000u64 } else { v };
                    if a > m {
                        m = a;
                    }
                    any = true;
                    assert(finite_cell(cells[i as int]));
                } else {
                    assert(!finite_cell(cells[i as int]));
                }
            },
            _ => {
                assert(!finite_cell(cells[i as int]));
            },
        }
    }
    proof {
        assert(cells.take(c.values.len() as int) =~= cells);
    }
    (m, any)
}

/// Scale each `Float64` column by its maximum absolute value.
pub struct MaxAbsScaler {
    fitted: bool,
    max_abs: Option<Vec<u64>>,
    column_names: Option<Vec<String>>,
}

impl MaxAbsScaler {
    /// Whether a fit has succeeded (and no later fit failed).
    pub closed spec fn is_fitted(&self) -> bool {
        self.fitted && self.max_abs is Some && self.column_names is Some
    }

    /// The fitted columns.
    pub closed spec fn names(&self) -> Seq<Seq<char>> {
        match self.column_names {
            Some(v) => strings_view(v@),
            None => Seq::empty(),
        }
    }

    /// The fitted maxima, one per fitted column.
    pub closed spec fn maxima(&self) -> Seq<u64> {
        match self.max_abs {
            Some(v) => v@,
            None => Seq::empty(),
        }
    }

    /// An unfitted scaler.
    pub fn new() -> (r: Self)
        ensures
            !r.is_fitted(),
    {
        Self { fitted: false, max_abs: None, column_names: None }
    }

    /// The fitted columns and the bit pattern of each one's maximum absolute
    /// value, or `None` before a successful fit.
    pub fn scales(&self) -> (r: Option<(&Vec<String>, &Vec<u64>)>)
        ensures
            r is Some <==> self.is_fitted(),
            r matches Some(p) ==> strings_view(p.0@) == self.names() && p.1@ == self.maxima(),
    {
        if !self.fitted {
            return None;
        }
        match (&self.column_names, &self.max_abs) {
            (Some(n), Some(m)) => Some((n, m)),
            _ => None,
        }
    }
}

impl Default for MaxAbsScaler {
    fn default() -> (r: Self)
        ensures
            !r.is_fitted(),
    {
        Self::new()
    }
}

impl Fit<Frame> for MaxAbsScaler {
    type Output = ();

    open spec fn fits_to(&self, x: Frame, after: Self, r: Result<(), Error>) -> bool {
        &&& r is Ok <==> max_abs_fit_ok(x@)
        &&& r matches Err(e) ==> (e is Computation <==> (x@.height > 0 && x@.columns.len() > 0 && f64_names(x@.columns).len() > 0))
        &&& r matches Err(e) ==> (e is InvalidInput || e is Computation)
        &&& r is Err ==> !after.is_fitted()
        &&& r is Ok ==> after.is_fitted() && after.names() == f64_names(x@.columns)
        &&& r is Ok ==> after.maxima().len() == after.names().len()
        &&& r is Ok ==> forall|k: int| 0 <= k < f64_names(x@.columns).len() ==> after.maxima()[k] == max_abs_of(
            x@.col(#[trigger] f64_names(x@.columns)[k]).cells,
        )
    }

    /// Learn the maximum absolute finite value of every `Float64` column.
    ///
    /// Fails with `InvalidInput` on an empty frame or one without a
    /// `Float64` column, and with `Computation` when such a column has no
    /// finite value; a failed fit leaves the scaler unfitted.
    fn fit(&mut self, x: Frame) -> (r: Result<(), Error>) {
        self.fitted = false;
        self.max_abs = None;
        self.column_names = None;
        if x.height() == 0 || x.width() == 0 {
            return Err(Error::InvalidInput(owned(
                "MaxAbsScaler.fit received an empty DataFrame (0 rows or 0 columns). Provide data with at least 1 row and 1 column.",
            )));
        }
        let names = match require_f64_columns(&x, "MaxAbsScaler") {
            Ok(v) => v,
            Err(e) => {
                return Err(e);
            },
        };
        let ghost xv = x@;
        let ghost nv = strings_view(names@);
        proof {
            lemma_f64_names_found(xv);
        }
        let mut maxima: Vec<u64> = Vec::new();
        for i in 0..names.len()
            invariant
                xv == x@,
                !self.fitted,
                xv.height > 0,
                xv.columns.len() > 0,
                nv.len() > 0,
                nv == strings_view(names@),
                nv == f64_names(xv.columns),
                forall|k: int| 0 <= k < nv.len() ==> xv.has(#[trigger] nv[k]),
                maxima.len() == i,
                forall|k: int| 0 <= k < i ==> #[trigger] maxima@[k] == max_abs_of(xv.col(nv[k]).cells),
                forall|k: int| 0 <= k < i ==> has_finite(xv.col(#[trigger] nv[k])),
        {
            assert(nv[i as int] == names@[i as int]@);
            let c = match x.column(names[i].as_str()) {
                Some(c) => c,
                None => {
                    return Err(Error::InvalidInput(owned("MaxAbsScaler.fit: a Float64 column is missing.")));
                },
            };
            let (m, any) = column_max_abs(c);
            if !any {
                let mut msg = owned("MaxAbsScaler: column '");
                push_str(&mut msg, names[i].as_str());
                push_str(&mut msg, "' has no non-null, finite values. Cannot scale an all-null or all-NaN column. Impute first or drop the column.");
                return Err(Error::Computation(msg));
            }
            maxima.push(m);
        }
        self.max_abs = Some(maxima);
        self.column_names = Some(names);
        self.fitted = true;
        Ok(())
    }
}

/// The learned maximum bounds the absolute value of every finite value of
/// the column, and is `0.0` or the absolute value of one of them; so dividing
/// by it maps the finite values into `[-1, 1]`.
pub proof fn law_max_abs_is_maximum(cells: Seq<Option<CellView>>)
    ensures
        forall|k: int| 0 <= k < cells.len() && #[trigger] finite_cell(cells[k]) ==> abs_bits(float_of(cells[k])) <= max_abs_of(cells),
        max_abs_of(cells) == ZERO_BITS || exists|k: int| 0 <= k < cells.len() && #[trigger] finite_cell(cells[k]) && abs_bits(
            float_of(cells[k]),
        ) == max_abs_of(cells),
    decreases cells.len(),
{
    if cells.len() > 0 {
        let pre = cells.drop_last();
        law_max_abs_is_maximum(pre);
        assert forall|k: int| 0 <= k < cells.len() && #[trigger] finite_cell(cells[k]) implies abs_bits(float_of(cells[k])) <= max_abs_of(cells) by {
            if k < pre.len() {
                assert(cells[k] == pre[k]);
            }
        }
        if max_abs_of(cells) != ZERO_BITS {
            if max_abs_of(cells) == max_abs_of(pre) {
                let k = choose|k: int| 0 <= k < pre.len() && #[trigger] finite_cell(pre[k]) && abs_bits(float_of(pre[k])) == max_abs_of(pre);
                assert(cells[k] == pre[k]);
            } else {
                let k = cells.len() - 1;
                assert(cells[k] == cells.last());
                assert(finite_cell(cells[k]));
            }
        }
    }
}

} // verus!
