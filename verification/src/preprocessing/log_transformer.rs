//! Logarithmic transformations for numeric columns: configuration and fit.
//!
//! [`LogTransformer`] resolves the `Float64` columns to transform (the
//! configured ones, or every `Float64` column) and checks at fit time that
//! the method's domain holds: every non-null value must be above `-1` for
//! `Log1p` and above `0` for the other methods. The logarithms themselves
//! are taken outside this crate's verified core, over
//! [`LogTransformer::fitted_columns`] and [`LogTransformer::log_method`].
//! Floats are handled as their IEEE-754 bit patterns.

use vstd::prelude::*;
use crate::frame::{
    CellView, DType, Frame, FrameView, Series, SeriesView, Value, is_nan_bits, opt_view, strings_view, ONE_BITS, ZERO_BITS,
};
use crate::preprocessing::binarizer::order_key;
use crate::text::{
    contains_text, lemma_text_append, lemma_text_at_end, lemma_text_prepend, owned, push_str, copy_strings, owned_all,
    quoted, usize_text,
};
use crate::traits::{Error, Fit};
use crate::util::{f64_names, require_f64_columns, check_f64_columns, lemma_f64_names_found};

verus! {

/// The bit pattern of `-1.0`.
pub const MINUS_ONE_BITS: u64 = 0xbff0_0000_0000_0000u64;

/// The logarithmic transformation to apply.
#[derive(Clone, Copy, Debug, PartialEq, Eq, Structural)]
pub enum LogMethod {
    /// Natural logarithm `ln(x)`. Requires `x > 0`.
    Ln,
    /// Natural logarithm of `x + 1`. Requires `x > -1`.
    Log1p,
    /// Base-2 logarithm. Requires `x > 0`.
    Log2,
    /// Base-10 logarithm. Requires `x > 0`.
    Log10,
    /// Logarithm in the base whose `f64` bit pattern is given. Requires
    /// `x > 0`, and a finite base above `0` other than `1`.
    LogBase(u64),
}

/// Whether `b` encodes a finite float (neither infinite nor NaN).
pub open spec fn is_finite_bits(b: u64) -> bool {
    (b / 0x10_0000_0000_0000u64) % 0x800 != 0x7ff
}

/// Whether the method can be used: a `LogBase` needs a finite base above `0`
/// other than `1`.
pub open spec fn method_ok(m: LogMethod) -> bool {
    match m {
        LogMethod::LogBase(b) => is_finite_bits(b) && order_key(b) > 0 && b != ONE_BITS,
        _ => true,
    }
}

/// The bound that values must exceed: `-1` for `Log1p`, else `0`.
pub open spec fn domain_bound(m: LogMethod) -> u64 {
    if m is Log1p { MINUS_ONE_BITS } else { ZERO_BITS }
}

/// `v <= t` between floats given by their bit patterns (false when either is NaN).
pub open spec fn float_le(v: u64, t: u64) -> bool {
    !is_nan_bits(v) && !is_nan_bits(t) && order_key(v) <= order_key(t)
}

/// Whether the cell holds a non-NaN float.
pub open spec fn usable_cell(o: Option<CellView>) -> bool {
    match o {
        Some(CellView::Float(v)) => !is_nan_bits(v),
        _ => false,
    }
}

/// Whether the cell holds a float at or below `t`.
pub open spec fn low_cell(o: Option<CellView>, t: u64) -> bool {
    match o {
        Some(CellView::Float(v)) => float_le(v, t),
        _ => false,
    }
}

/// Whether the column holds a non-null, non-NaN value.
pub open spec fn has_usable(c: SeriesView) -> bool {
    exists|k: int| 0 <= k < c.cells.len() && usable_cell(#[trigger] c.cells[k])
}

/// Whether the column holds a value at or below `t`.
pub open spec fn has_at_or_below(c: SeriesView, t: u64) -> bool {
    exists|k: int| 0 <= k < c.cells.len() && low_cell(#[trigger] c.cells[k], t)
}

/// The columns a fit resolves: `None` when the configuration does not fit
/// the frame (an empty list, a missing or non-`Float64` column, or no
/// `Float64` column to discover).
pub open spec fn resolve(x: FrameView, cfg: Option<Seq<Seq<char>>>) -> Option<Seq<Seq<char>>> {
    match cfg {
        None => if f64_names(x.columns).len() > 0 { Some(f64_names(x.columns)) } else { None },
        Some(cols) => if cols.len() > 0 && forall|k: int| 0 <= k < cols.len() ==> x.has(#[trigger] cols[k]) && x.col(cols[k]).dtype
            == DType::Float64 {
            Some(cols)
        } else {
            None
        },
    }
}

/// The outcome of a fit.
pub ghost enum LogFit {
    /// Rejected with `InvalidInput`.
    Invalid,
    /// Rejected with `Computation`: a resolved column has no usable value.
    Unusable,
    /// Fitted on these columns.
    Fitted(Seq<Seq<char>>),
}

/// The outcome of fitting method `m` (checking the domain when `check`) with
/// the configured columns `cfg` on `x`.
pub open spec fn log_fit(m: LogMethod, check: bool, cfg: Option<Seq<Seq<char>>>, x: FrameView) -> LogFit {
    if !method_ok(m) || x.height == 0 || x.columns.len() == 0 {
        LogFit::Invalid
    } else {
        match resolve(x, cfg) {
            None => LogFit::Invalid,
            Some(cols) => if exists|k: int| 0 <= k < cols.len() && !has_usable(x.col(#[trigger] cols[k])) {
                LogFit::Unusable
            } else if check && exists|k: int| 0 <= k < cols.len() && has_at_or_below(x.col(#[trigger] cols[k]), domain_bound(m)) {
                LogFit::Invalid
            } else {
                LogFit::Fitted(cols)
            },
        }
    }
}

/// Whether the bit pattern encodes a NaN.
fn nan(b: u64) -> (r: bool)
    ensures
        r == is_nan_bits(b),
{
    (b / 0x10_0000_0000_0000u64) % 0x800 == 0x7ff && b % 0x10_0000_0000_0000u64 != 0
}

/// `v <= t` between floats given by their bit patterns.
fn at_or_below(v: u64, t: u64) -> (r: bool)
    ensures
        r == float_le(v, t),
{
    if nan(v) || nan(t) {
        return false;
    }
    let kv: i128 = if v < 0x8000_0000_0000_0000u64 { v as i128 } else { -((v - 0x8000_0000_0000_0000u64) as i128) };
    let kt: i128 = if t < 0x8000_0000_0000_0000u64 { t as i128 } else { -((t - 0x8000_0000_0000_0000u64) as i128) };
    kv <= kt
}

/// Whether `m` can be used.
fn check_method(m: LogMethod) -> (r: bool)
    ensures
        r == method_ok(m),
{
    match m {
        LogMethod::LogBase(b) => {
            let finite = (b / 0x10_0000_0000_0000u64) % 0x800 != 0x7ff;
            finite && 0 < b && b < 0x8000_0000_0000_0000u64 && b != ONE_BITS
        },
        _ => true,
    }
}

/// Whether the column holds a non-null, non-NaN value.
fn series_usable(c: &Series) -> (r: bool)
    ensures
        r == has_usable(c@),
{
    let ghost cv = c@;
    for i in 0..c.values.len()
        invariant
            cv == c@,
            forall|k: int| 0 <= k < i ==> !usable_cell(#[trigger] cv.cells[k]),
    {
        assert(cv.cells[i as int] == opt_view(c.values@[i as int]));
        match &c.values[i] {
            Some(Value::Float(v)) => {
                if !nan(*v) {
                    assert(usable_cell(cv.cells[i as int]));
                    return true;
                }
            },
            _ => {},
        }
    }
    false
}

/// The number of cells of the column holding a value at or below `t`.
fn count_at_or_below(c: &Series, t: u64) -> (r: usize)
    ensures
        r == 0 <==> !has_at_or_below(c@, t),
{
    let ghost cv = c@;
    let mut n: usize = 0;
    for i in 0..c.values.len()
        invariant
            cv == c@,
            n <= i,
            n == 0 <==> forall|k: int| 0 <= k < i ==> !low_cell(#[trigger] cv.cells[k], t),
    {
        assert(cv.cells[i as int] == opt_view(c.values@[i as int]));
        match &c.values[i] {
            Some(Value::Float(v)) => {
                if at_or_below(*v, t) {
                    n = n + 1;
                }
            },
            _ => {},
        }
    }
    n
}

/// Apply a logarithm to `Float64` columns.
pub struct LogTransformer {
    fitted: bool,
    columns: Option<Vec<String>>,
    fitted_columns: Vec<String>,
    method: LogMethod,
    check_positive: bool,
}

impl LogTransformer {
    /// Whether a fit has succeeded.
    pub closed spec fn is_fitted(&self) -> bool {
        self.fitted
    }

    /// The configured columns; `None` asks for auto-discovery.
    pub closed spec fn configured(&self) -> Option<Seq<Seq<char>>> {
        match self.columns {
            Some(v) => Some(strings_view(v@)),
            None => None,
        }
    }

    /// The columns the last successful fit resolved.
    pub closed spec fn resolved(&self) -> Seq<Seq<char>> {
        strings_view(self.fitted_columns@)
    }

    /// The method.
    pub closed spec fn method_spec(&self) -> LogMethod {
        self.method
    }

    /// Whether fit checks the domain.
    pub closed spec fn checks_domain(&self) -> bool {
        self.check_positive
    }

    /// A transformer of every `Float64` column with `Log1p`, checking the domain.
    pub fn new() -> (r: Self)
        ensures
            !r.is_fitted(),
            r.configured() is None,
            r.method_spec() == LogMethod::Log1p,
            r.checks_domain(),
    {
        Self { fitted: false, columns: None, fitted_columns: Vec::new(), method: LogMethod::Log1p, check_positive: true }
    }

    /// Restrict the transformation to the named columns, each of which must
    /// be a `Float64` column of the frame given to `fit`.
    pub fn columns(self, cols: &[&str]) -> (r: Self)
        ensures
            r.is_fitted() == self.is_fitted(),
            r.configured() == Some(cols@.map_values(|s: &str| s@)),
            r.resolved() == self.resolved(),
            r.method_spec() == self.method_spec(),
            r.checks_domain() == self.checks_domain(),
    {
        let v = owned_all(cols);
        Self { columns: Some(v), ..self }
    }

    /// Set the method (default `Log1p`).
    pub fn method(self, m: LogMethod) -> (r: Self)
        ensures
            r.is_fitted() == self.is_fitted(),
            r.configured() == self.configured(),
            r.resolved() == self.resolved(),
            r.method_spec() == m,
            r.checks_domain() == self.checks_domain(),
    {
        Self { method: m, ..self }
    }

    /// Whether fit rejects values outside the method's domain (default `true`).
    pub fn check_positive(self, b: bool) -> (r: Self)
        ensures
            r.is_fitted() == self.is_fitted(),
            r.configured() == self.configured(),
            r.resolved() == self.resolved(),
            r.method_spec() == self.method_spec(),
            r.checks_domain() == b,
    {
        Self { check_positive: b, ..self }
    }

    /// The method.
    pub fn log_method(&self) -> (r: LogMethod)
        ensures
            r == self.method_spec(),
    {
        self.method
    }

    /// The columns to transform, or `None` before a successful fit.
    pub fn fitted_columns(&self) -> (r: Option<&Vec<String>>)
        ensures
            r is Some <==> self.is_fitted(),
            r matches Some(v) ==> strings_view(v@) == self.resolved(),
    {
        if self.fitted { Some(&self.fitted_columns) } else { None }
    }
}

impl Default for LogTransformer {
    fn default() -> (r: Self)
        ensures
            !r.is_fitted(),
            r.configured() is None,
            r.method_spec() == LogMethod::Log1p,
            r.checks_domain(),
    {
        Self::new()
    }
}

impl Fit<Frame> for LogTransformer {
    type Output = ();

    open spec fn fits_to(&self, x: Frame, after: Self, r: Result<(), Error>) -> bool {
        &&& after.configured() == self.configured()
        &&& after.method_spec() == self.method_spec()
        &&& after.checks_domain() == self.checks_domain()
        &&& match log_fit(self.method_spec(), self.checks_domain(), self.configured(), x@) {
            LogFit::Invalid => r matches Err(Error::InvalidInput(_)) && after.is_fitted() == self.is_fitted()
                && after.resolved() == self.resolved(),
            LogFit::Unusable => r matches Err(Error::Computation(_)) && after.is_fitted() == self.is_fitted()
                && after.resolved() == self.resolved(),
            LogFit::Fitted(cols) => r is Ok && after.is_fitted() && after.resolved() == cols,
        }
        &&& match resolve(x@, self.configured()) {
            Some(cols) => (method_ok(self.method_spec()) && x@.height > 0 && x@.columns.len() > 0
                && self.checks_domain() && forall|k: int| 0 <= k < cols.len() ==> has_usable(x@.col(#[trigger] cols[k])))
                ==> forall|k: int| 0 <= k < cols.len() && has_at_or_below(x@.col(#[trigger] cols[k]), domain_bound(self.method_spec()))
                ==> (r matches Err(Error::InvalidInput(msg)) && contains_text(msg@, quoted(cols[k]))),
            None => true,
        }
    }

    /// Resolve the columns and check them.
    ///
    /// Fails with `InvalidInput` on an invalid `LogBase`, an empty frame, an
    /// empty column list, a missing or non-`Float64` column, no `Float64`
    /// column to discover, or (when checking) a value at or below the
    /// method's bound; with `Computation` when a resolved column has no
    /// non-null, non-NaN value. A failed fit leaves the transformer as it was.
    fn fit(&mut self, x: Frame) -> (r: Result<(), Error>) {
        let ghost xv = x@;
        if !check_method(self.method) {
            return Err(Error::InvalidInput(owned(
                "LogTransformer: invalid log base. Base must be finite, positive, and not equal to 1.",
            )));
        }
        if x.height() == 0 || x.width() == 0 {
            return Err(Error::InvalidInput(owned(
                "LogTransformer.fit received an empty DataFrame (0 rows or 0 columns). Provide data with at least 1 row and 1 column.",
            )));
        }
        let resolved: Vec<String> = match &self.columns {
            None => match require_f64_columns(&x, "LogTransformer") {
                Ok(v) => v,
                Err(e) => {
                    return Err(e);
                },
            },
            Some(cols) => {
                if cols.len() == 0 {
                    return Err(Error::InvalidInput(owned(
                        "LogTransformer.fit: columns list is empty. Omit .columns() for auto-discovery or provide at least one column name.",
                    )));
                }
                match check_f64_columns(&x, cols, "LogTransformer.fit") {
                    Ok(()) => {},
                    Err(e) => {
                        return Err(e);
                    },
                }
                copy_strings(cols)
            },
        };
        let ghost rv = strings_view(resolved@);
        proof {
            lemma_f64_names_found(xv);
        }
        assert(resolve(xv, self.configured()) == Some(rv));

        // every resolved column must hold a usable value
        let mut bad = String::new();
        let mut n_bad: usize = 0;
        for i in 0..resolved.len()
            invariant
                rv == strings_view(resolved@),
                xv == x@,
                forall|k: int| 0 <= k < rv.len() ==> xv.has(#[trigger] rv[k]) && xv.col(rv[k]).dtype == DType::Float64,
                n_bad == 0 <==> forall|k: int| 0 <= k < i ==> has_usable(xv.col(#[trigger] rv[k])),
                n_bad <= i,
        {
            assert(xv.has(rv[i as int]));
            let c = match x.column(resolved[i].as_str()) {
                Some(c) => c,
                None => {
                    return Err(Error::InvalidInput(owned("LogTransformer.fit: a resolved column is missing.")));
                },
            };
            let ok = series_usable(c);
            if !ok {
                if n_bad > 0 {
                    push_str(&mut bad, ", ");
                }
                push_str(&mut bad, resolved[i].as_str());
                n_bad = n_bad + 1;
            }
        }
        if n_bad > 0 {
            let mut msg = owned("LogTransformer: column(s) [");
            push_str(&mut msg, bad.as_str());
            push_str(
                &mut msg,
                "] have no non-null, non-NaN values. Cannot validate or transform columns with no usable data. Impute first or drop the column(s).",
            );
            return Err(Error::Computation(msg));
        }

        if self.check_positive {
            let is_log1p = matches!(self.method, LogMethod::Log1p);
            let bound: u64 = if is_log1p { MINUS_ONE_BITS } else { ZERO_BITS };
            let bound_text = if is_log1p { "-1" } else { "0" };
            let condition = if is_log1p { "x > -1" } else { "x > 0" };
            let mut violations = String::new();
            let mut n_viol: usize = 0;
            for i in 0..resolved.len()
                invariant
                    rv == strings_view(resolved@),
                    xv == x@,
                    bound == domain_bound(self.method),
                    forall|k: int| 0 <= k < rv.len() ==> xv.has(#[trigger] rv[k]) && xv.col(rv[k]).dtype == DType::Float64,
                    n_viol == 0 <==> forall|k: int| 0 <= k < i ==> !has_at_or_below(xv.col(#[trigger] rv[k]), bound),
                    n_viol <= i,
                    forall|k: int| 0 <= k < i && has_at_or_below(xv.col(#[trigger] rv[k]), bound) ==> contains_text(violations@, quoted(rv[k])),
            {
                assert(xv.has(rv[i as int]));
                let c = match x.column(resolved[i].as_str()) {
                    Some(c) => c,
                    None => {
                        return Err(Error::InvalidInput(owned("LogTransformer.fit: a resolved column is missing.")));
                    },
                };
                let n = count_at_or_below(c, bound);
                if n > 0 {
                    let ghost before = violations@;
                    push_str(&mut violations, "\n  column ");
                    let ghost pre = violations@;
                    push_str(&mut violations, "'");
                    push_str(&mut violations, resolved[i].as_str());
                    push_str(&mut violations, "'");
                    let ghost mid = violations@;
                    proof {
                        assert(mid =~= pre + quoted(rv[i as int]));
                        lemma_text_at_end(pre, quoted(rv[i as int]));
                    }
                    push_str(&mut violations, " contains ");
                    let count = usize_text(n);
                    push_str(&mut violations, count.as_str());
                    push_str(&mut violations, " value(s) ≤ ");
                    push_str(&mut violations, bound_text);
                    push_str(&mut violations, " (requires ");
                    push_str(&mut violations, condition);
                    push_str(&mut violations, ")");
                    n_viol = n_viol + 1;
                    proof {
                        let rest = violations@.subrange(mid.len() as int, violations@.len() as int);
                        assert(violations@ =~= mid + rest);
                        lemma_text_append(mid, quoted(rv[i as int]), rest);
                        assert forall|k: int| 0 <= k < i && has_at_or_below(xv.col(#[trigger] rv[k]), bound) implies contains_text(violations@, quoted(rv[k])) by {
                            let tail = violations@.subrange(before.len() as int, violations@.len() as int);
                            assert(violations@ =~= before + tail);
                            lemma_text_append(before, quoted(rv[k]), tail);
                        }
                    }
                }
            }
            if n_viol > 0 {
                let mut msg = owned("LogTransformer.fit: ");
                let count = usize_text(n_viol);
                push_str(&mut msg, count.as_str());
                push_str(&mut msg, " column(s) violate the positivity requirement:");
                let ghost head = msg@;
                push_str(&mut msg, violations.as_str());
                proof {
                    assert forall|k: int| 0 <= k < rv.len() && has_at_or_below(xv.col(#[trigger] rv[k]), bound) implies contains_text(msg@, quoted(rv[k])) by {
                        lemma_text_prepend(head, violations@, quoted(rv[k]));
                    }
                }
                return Err(Error::InvalidInput(msg));
            }
        }
        self.fitted_columns = resolved;
        self.fitted = true;
        Ok(())
    }
}

} // verus!
