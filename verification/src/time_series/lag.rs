//! Lag feature generation.
//!
//! [`Lagger`] creates shifted copies of columns for use as features in
//! forecasting models, like `df.shift()` in pandas.

use vstd::prelude::*;
use crate::frame::{
    CellView, Frame, FrameView, Series, SeriesView, Value, with_column_spec, strings_view,
    copy_cell, opt_view, lemma_position_of,
};
use crate::preprocessing::missing_indicator::{all_named, first_missing};
use crate::text::{owned, concat, join3, int_text, int_decimal, push_str};
use crate::traits::{Error, Fit, Transform};

verus! {

/// The cells shifted down by `p` places (up when `p` is negative), with
/// nulls filling the vacated places.
pub open spec fn shift_cells(cells: Seq<Option<CellView>>, p: int) -> Seq<Option<CellView>> {
    Seq::new(cells.len(), |i: int| if 0 <= i - p < cells.len() { cells[i - p] } else { None })
}

/// The lag column of `s` (selected as `name`) by `p`: `{name}_lag_{p}`.
pub open spec fn lag_series(s: SeriesView, name: Seq<char>, p: i64) -> SeriesView {
    SeriesView {
        name: name + "_lag_"@ + int_decimal(p as int),
        dtype: s.dtype,
        cells: shift_cells(s.cells, p as int),
    }
}

/// The frame after adding the lags of `s` by each period, one by one.
pub open spec fn add_lags_of(f: FrameView, s: SeriesView, name: Seq<char>, periods: Seq<i64>) -> FrameView
    decreases periods.len(),
{
    if periods.len() == 0 {
        f
    } else {
        with_column_spec(add_lags_of(f, s, name, periods.drop_last()), lag_series(s, name, periods.last()))
    }
}

/// The frame after adding the lags of every column of `cols`, each column
/// looked up in the frame built so far; `None` when a column is missing.
pub open spec fn add_lags(f: FrameView, cols: Seq<Seq<char>>, periods: Seq<i64>) -> Option<FrameView>
    decreases cols.len(),
{
    if cols.len() == 0 {
        Some(f)
    } else {
        match add_lags(f, cols.drop_last(), periods) {
            None => None,
            Some(g) => if g.has(cols.last()) {
                Some(add_lags_of(g, g.col(cols.last()), cols.last(), periods))
            } else {
                None
            },
        }
    }
}

/// Whether `v` holds no value twice.
pub open spec fn distinct_periods(v: Seq<i64>) -> bool {
    forall|a: int, b: int| 0 <= a < v.len() && 0 <= b < v.len() && a != b ==> v[a] != v[b]
}

/// The cells of `s` shifted by `p`.
fn shifted(s: &Series, name: &String, p: i64) -> (r: Series)
    ensures
        r@ == lag_series(s@, name@, p),
{
    let n = s.values.len();
    let mut cells: Vec<Option<Value>> = Vec::new();
    for i in 0..n
        invariant
            n == s.values.len(),
            cells.len() == i,
            forall|k: int| 0 <= k < i ==> opt_view(#[trigger] cells@[k]) == (if 0 <= k - p < n { s@.cells[k - p] } else { None }),
    {
        let src: i128 = (i as i128) - (p as i128);
        if 0 <= src && src < (n as i128) {
            cells.push(copy_cell(&s.values[src as usize]));
        } else {
            cells.push(None);
        }
    }
    let mut nm = concat(name.as_str(), "_lag_");
    let pt = int_text(p);
    push_str(&mut nm, pt.as_str());
    let r = Series { name: nm, dtype: s.dtype, values: cells };
    assert(r@.cells =~= shift_cells(s@.cells, p as int));
    r
}

/// Create lag features by shifting columns.
///
/// Each specified column gets one additional column per lag value:
/// `{col}_lag_1`, `{col}_lag_2`, etc.
pub struct Lagger {
    fitted: bool,
    columns: Vec<String>,
    periods: Vec<i64>,
}

impl Lagger {
    /// Whether a fit has succeeded.
    pub closed spec fn is_fitted(&self) -> bool {
        self.fitted
    }

    /// The columns to lag.
    pub closed spec fn selected(&self) -> Seq<Seq<char>> {
        strings_view(self.columns@)
    }

    /// The shift amounts.
    pub closed spec fn lag_periods(&self) -> Seq<i64> {
        self.periods@
    }

    /// Create a new `Lagger` for `columns` and shift amounts `periods`.
    pub fn new(columns: &[&str], periods: &[i64]) -> (r: Self)
        ensures
            !r.is_fitted(),
            r.selected() == columns@.map_values(|s: &str| s@),
            r.lag_periods() == periods@,
    {
        let mut cols: Vec<String> = Vec::new();
        for i in 0..columns.len()
            invariant
                cols.len() == i,
                forall|k: int| 0 <= k < i ==> (#[trigger] cols@[k])@ == columns@[k]@,
        {
            cols.push(owned(columns[i]));
        }
        let mut ps: Vec<i64> = Vec::new();
        for i in 0..periods.len()
            invariant
                ps@ == periods@.take(i as int),
        {
            ps.push(periods[i]);
            assert(periods@.take(i + 1) =~= periods@.take(i as int).push(periods@[i as int]));
        }
        assert(periods@.take(periods.len() as int) =~= periods@);
        let r = Self { fitted: false, columns: cols, periods: ps };
        assert(r.selected() =~= columns@.map_values(|s: &str| s@));
        r
    }
}

/// The periods in decimal, separated by `", "`.
pub open spec fn periods_joined(v: Seq<i64>) -> Seq<char>
    decreases v.len(),
{
    if v.len() == 0 {
        Seq::empty()
    } else if v.len() == 1 {
        int_decimal(v[0] as int)
    } else {
        periods_joined(v.drop_last()) + ", "@ + int_decimal(v.last() as int)
    }
}

/// The text `[p0, p1, ...]` of a list of periods.
fn periods_text(v: &Vec<i64>) -> (r: String)
    ensures
        r@ == "["@ + periods_joined(v@) + "]"@,
{
    let mut out = owned("[");
    for i in 0..v.len()
        invariant
            out@ == "["@ + periods_joined(v@.take(i as int)),
    {
        proof {
            assert(v@.take(i + 1).drop_last() =~= v@.take(i as int));
            assert(v@.take(i + 1).last() == v@[i as int]);
        }
        if i > 0 {
            push_str(&mut out, ", ");
        }
        let t = int_text(v[i]);
        push_str(&mut out, t.as_str());
        proof {
            if i == 0 {
                assert(v@.take(1)[0] == v@[0]);
                assert(periods_joined(v@.take(0)) =~= Seq::<char>::empty());
            }
        }
        assert(out@ =~= "["@ + periods_joined(v@.take(i + 1)));
    }
    assert(v@.take(v.len() as int) =~= v@);
    push_str(&mut out, "]");
    out
}

impl Fit<Frame> for Lagger {
    type Output = ();

    open spec fn fits_to(&self, x: Frame, after: Self, r: Result<(), Error>) -> bool {
        &&& after.selected() == self.selected()
        &&& after.lag_periods() == self.lag_periods()
        &&& r is Ok <==> (self.selected().len() > 0 && self.lag_periods().len() > 0
            && all_named(x@, self.selected()) && distinct_periods(self.lag_periods()))
        &&& r matches Err(e) ==> e is InvalidInput
        &&& r is Ok ==> after.is_fitted()
        &&& r is Err ==> after.is_fitted() == self.is_fitted()
    }

    /// Check the configuration against `x`.
    ///
    /// Fails with `InvalidInput` when no column or no period is given, when a
    /// column is missing from `x`, or when a period repeats; the fitted flag
    /// is then unchanged.
    fn fit(&mut self, x: Frame) -> (r: Result<(), Error>) {
        if self.columns.len() == 0 {
            return Err(Error::InvalidInput(owned("Lagger: at least one column name is required.")));
        }
        if self.periods.len() == 0 {
            return Err(Error::InvalidInput(owned("Lagger: at least one period is required.")));
        }
        match first_missing(&x, &self.columns) {
            Some(i) => {
                return Err(Error::InvalidInput(join3("Lagger: column '", self.columns[i].as_str(), "' not found in input.")));
            },
            None => {},
        }
        let ghost ps = self.periods@;
        for i in 0..self.periods.len()
            invariant
                ps == self.periods@,
                forall|a: int, b: int| 0 <= a < i && 0 <= b < i && a != b ==> ps[a] != ps[b],
        {
            for j in 0..i
                invariant
                    ps == self.periods@,
                    i < ps.len(),
                    forall|a: int, b: int| 0 <= a < i && 0 <= b < i && a != b ==> ps[a] != ps[b],
                    forall|b: int| 0 <= b < j ==> ps[b] != ps[i as int],
            {
                if self.periods[j] == self.periods[i] {
                    let mut msg = owned("Lagger: duplicate period ");
                    let t = int_text(self.periods[i]);
                    push_str(&mut msg, t.as_str());
                    push_str(&mut msg, " in periods ");
                    let l = periods_text(&self.periods);
                    push_str(&mut msg, l.as_str());
                    push_str(&mut msg, ". Each lag period must be unique.");
                    return Err(Error::InvalidInput(msg));
                }
            }
        }
        self.fitted = true;
        Ok(())
    }
}

impl Transform<Frame> for Lagger {
    type Output = Frame;

    /// Append the lags of every selected column, column by column and period
    /// by period; a generated name equal to an existing column replaces it.
    ///
    /// Fails with `NotFitted` before a fit, and with `InvalidInput` when a
    /// selected column is missing.
    fn transform(&self, x: Frame) -> (r: Result<Frame, Error>)
        ensures
            !self.is_fitted() ==> r matches Err(Error::NotFitted(_)),
            self.is_fitted() ==> (r is Ok <==> add_lags(x@, self.selected(), self.lag_periods()) is Some),
            self.is_fitted() ==> (r matches Err(e) ==> e is InvalidInput),
            self.is_fitted() ==> (r matches Ok(f) ==> add_lags(x@, self.selected(), self.lag_periods()) == Some(f@)),
    {
        if !self.fitted {
            return Err(Error::NotFitted(owned("Lagger has not been fitted.")));
        }
        let ghost cols = strings_view(self.columns@);
        let ghost ps = self.periods@;
        let mut out = x.copy();
        for i in 0..self.columns.len()
            invariant
                cols == strings_view(self.columns@),
                ps == self.periods@,
                self.fitted,
                add_lags(x@, cols.take(i as int), ps) == Some(out@),
        {
            proof {
                assert(cols.take(i + 1).drop_last() =~= cols.take(i as int));
                assert(cols.take(i + 1).last() == cols[i as int]);
            }
            let name = &self.columns[i];
            let src = match out.column(name.as_str()) {
                Some(c) => c.copy(),
                None => {
                    proof {
                        lemma_lags_none(x@, cols, ps, i as int + 1);
                    }
                    return Err(Error::InvalidInput(join3("Lagger.transform: column '", name.as_str(), "' not found.")));
                },
            };
            let ghost g = out@;
            proof {
                lemma_position_of(g.columns, name@);
            }
            for k in 0..self.periods.len()
                invariant
                    ps == self.periods@,
                    src@ == g.col(name@),
                    g.has(name@),
                    g.wf(),
                    src@.cells.len() == g.height,
                    g.columns.len() > 0,
                    out@ == add_lags_of(g, src@, name@, ps.take(k as int)),
                    out@.height == g.height,
                    out@.columns.len() > 0,
            {
                let s = shifted(&src, name, self.periods[k]);
                proof {
                    assert(ps.take(k + 1).drop_last() =~= ps.take(k as int));
                    assert(ps.take(k + 1).last() == ps[k as int]);
                    lemma_position_of(g.columns, name@);
                    assert(s@.cells_fit());
                }
                let _ = out.with_column(s);
            }
            proof {
                assert(ps.take(ps.len() as int) =~= ps);
            }
        }
        proof {
            assert(cols.take(self.columns.len() as int) =~= cols);
        }
        Ok(out)
    }
}

/// Once a prefix fails, every longer prefix fails.
proof fn lemma_lags_none(f: FrameView, cols: Seq<Seq<char>>, periods: Seq<i64>, n: int)
    requires
        0 <= n <= cols.len(),
        add_lags(f, cols.take(n), periods) is None,
    ensures
        add_lags(f, cols, periods) is None,
    decreases cols.len() - n,
{
    if n < cols.len() {
        assert(cols.take(n + 1).drop_last() =~= cols.take(n));
        lemma_lags_none(f, cols, periods, n + 1);
    } else {
        assert(cols.take(n) =~= cols);
    }
}


/// A lag by `p >= 0` keeps the column length, leaves the first `p` rows null,
/// and moves every other value down by `p` rows.
pub proof fn law_lag_shift(s: SeriesView, name: Seq<char>, p: i64, i: int)
    requires
        p >= 0,
        0 <= i < s.cells.len(),
    ensures
        lag_series(s, name, p).cells.len() == s.cells.len(),
        i < p ==> lag_series(s, name, p).cells[i] is None,
        i >= p ==> lag_series(s, name, p).cells[i] == s.cells[i - p],
{
}

/// A lag by any period `p`, negative ones (leads) included, keeps the column
/// length; row `i` holds the value of row `i - p` when that row exists and is
/// null otherwise. So a lead by `k` fills every row but the last `k`.
pub proof fn law_lag_any_period(s: SeriesView, name: Seq<char>, p: i64, i: int)
    requires
        0 <= i < s.cells.len(),
    ensures
        lag_series(s, name, p).cells.len() == s.cells.len(),
        0 <= i - p < s.cells.len() ==> lag_series(s, name, p).cells[i] == s.cells[i - p],
        !(0 <= i - p < s.cells.len()) ==> lag_series(s, name, p).cells[i] is None,
        p < 0 && i < s.cells.len() + p ==> lag_series(s, name, p).cells[i] == s.cells[i - p],
{
}

/// Shifting by `p` and then by `-p` gives back every value whose row the
/// first shift kept.
pub proof fn law_lag_round_trip(s: SeriesView, name: Seq<char>, p: i64, i: int)
    requires
        p > i64::MIN,
        0 <= i < s.cells.len(),
        0 <= i + p < s.cells.len(),
    ensures
        lag_series(lag_series(s, name, p), name, (-p) as i64).cells[i] == s.cells[i],
{
}

} // verus!
