//! Ratio features: configuration, fit and planning.
//!
//! [`RatioFeatures`] divides every pair of its fitted `Float64` columns. This
//! module decides everything but the division: the fitted columns (sorted,
//! without repeats), which pairs are divided and in what order (`(i, j)` for
//! `i < j`, each followed by `(j, i)` when reciprocals are asked for), the
//! output names `{numerator}_div_{denominator}`, and the checks that no
//! fitted column is missing and no output name collides. The divisions
//! themselves, `a / (b + copysign(epsilon, b))`, are floating point and are
//! done outside this crate's verified core, over [`RatioFeatures::plan`].

use vstd::prelude::*;
use crate::frame::{DType, Frame, FrameView, strings_view, is_nan_bits};
use crate::preprocessing::binarizer::order_key;
use crate::preprocessing::log_transformer::is_finite_bits;
use crate::text::{copy_strings, owned_all};
use crate::util::{f64_names, require_f64_columns, check_f64_columns};
use crate::order::{SortedStrings, strictly_sorted};
use crate::text::{concat, contains_text, join3, owned, quote_in, quoted, str_eq};
use crate::traits::{Error, Fit};

verus! {

/// The columns a fit keeps: the resolved names sorted, without repeats.
pub fn fitted_ratio_columns(resolved: &Vec<String>) -> (r: Vec<String>)
    ensures
        strictly_sorted(strings_view(r@)),
        strings_view(r@).to_set() == strings_view(resolved@).to_set(),
{
    let mut set = SortedStrings::new();
    for k in 0..resolved.len()
        invariant
            set.wf(),
            forall|x: Seq<char>| set.view_seq().contains(x) <==> exists|m: int| 0 <= m < k && (#[trigger] resolved@[m])@ == x,
    {
        set.insert(&resolved[k]);
        proof {
            assert forall|x: Seq<char>| set.view_seq().contains(x) <==> exists|m: int| 0 <= m < k + 1 && (#[trigger] resolved@[m])@ == x by {
                if x == resolved@[k as int]@ {
                    assert(resolved@[k as int]@ == x);
                }
            }
        }
    }
    proof {
        set.lemma_sorted();
        assert forall|x: Seq<char>| set.view_seq().to_set().contains(x) <==> strings_view(resolved@).to_set().contains(x) by {
            if strings_view(resolved@).contains(x) {
                let m = choose|m: int| 0 <= m < resolved.len() && strings_view(resolved@)[m] == x;
                assert(resolved@[m]@ == x);
            }
            if set.view_seq().contains(x) {
                let m = choose|m: int| 0 <= m < resolved.len() && (#[trigger] resolved@[m])@ == x;
                assert(strings_view(resolved@)[m] == x);
            }
        }
    }
    let out = set.into_items();
    out
}

/// The pairs of row `i` up to (not including) column `j`: `(i, k)` for
/// `i < k < j`, each followed by `(k, i)` when `recip`.
pub open spec fn row_pairs(i: int, j: int, recip: bool) -> Seq<(int, int)>
    decreases j - i,
{
    if j <= i + 1 {
        Seq::empty()
    } else {
        row_pairs(i, j - 1, recip) + if recip { seq![(i, j - 1), (j - 1, i)] } else { seq![(i, j - 1)] }
    }
}

/// The pairs of rows `0` to `i - 1` among `n` columns, row by row.
pub open spec fn ratio_pairs(n: int, i: int, recip: bool) -> Seq<(int, int)>
    decreases i,
{
    if i <= 0 {
        Seq::empty()
    } else {
        ratio_pairs(n, i - 1, recip) + row_pairs(i - 1, n, recip)
    }
}

/// The output name of the pair `p` over the columns `cols`.
pub open spec fn ratio_name(cols: Seq<Seq<char>>, p: (int, int)) -> Seq<char> {
    cols[p.0] + "_div_"@ + cols[p.1]
}

/// One planned ratio: the positions of its numerator and denominator among
/// the fitted columns, and its output name.
pub struct RatioTerm {
    /// Position of the numerator column.
    pub numerator: usize,
    /// Position of the denominator column.
    pub denominator: usize,
    /// Output column name.
    pub name: String,
}

/// Whether the generated name at `k` is already a column of `x` or repeats an
/// earlier generated name.
pub open spec fn clashes(x: FrameView, names: Seq<Seq<char>>, k: int) -> bool {
    x.has(names[k]) || exists|a: int| 0 <= a < k && names[a] == names[k]
}

/// Whether `k` is the first generated name that clashes.
pub open spec fn first_clash(x: FrameView, names: Seq<Seq<char>>, k: int) -> bool {
    &&& 0 <= k < names.len()
    &&& clashes(x, names, k)
    &&& forall|j: int| 0 <= j < k ==> !#[trigger] clashes(x, names, j)
}

/// The ratios over the fitted columns `cols` of a transform of `x`.
///
/// Fails with `InvalidInput` when a fitted column is missing from `x`, or
/// when an output name is already a column of `x` or repeats another output
/// name; the message then quotes the first such name. With fewer than two
/// columns there is nothing to divide.
pub fn plan_ratios(cols: &Vec<String>, x: &Frame, include_reciprocal: bool) -> (r: Result<Vec<RatioTerm>, Error>)
    ensures
        ({
            let cv = strings_view(cols@);
            let pairs = ratio_pairs(cv.len() as int, cv.len() as int, include_reciprocal);
            let names = pairs.map_values(|p: (int, int)| ratio_name(cv, p));
            if !(forall|k: int| 0 <= k < cv.len() ==> x@.has(#[trigger] cv[k])) {
                r matches Err(Error::InvalidInput(_))
            } else if cv.len() < 2 {
                r matches Ok(v) && v.len() == 0
            } else if exists|k: int| 0 <= k < names.len() && x@.has(#[trigger] names[k]) {
                r matches Err(Error::InvalidInput(m)) && exists|k: int| first_clash(x@, names, k) && contains_text(m@, quoted(names[k]))
            } else if exists|a: int, b: int| 0 <= a < b < names.len() && #[trigger] names[a] == #[trigger] names[b] {
                r matches Err(Error::InvalidInput(m)) && exists|k: int| first_clash(x@, names, k) && contains_text(m@, quoted(names[k]))
            } else {
                r matches Ok(v) && v.len() == pairs.len() && forall|k: int| 0 <= k < pairs.len() ==> {
                    &&& (#[trigger] v@[k]).numerator == pairs[k].0
                    &&& v@[k].denominator == pairs[k].1
                    &&& v@[k].name@ == names[k]
                }
            }
        }),
{
    let ghost cv = strings_view(cols@);
    for k in 0..cols.len()
        invariant
            cv == strings_view(cols@),
            forall|a: int| 0 <= a < k ==> x@.has(#[trigger] cv[a]),
    {
        if x.column(cols[k].as_str()).is_none() {
            assert(!x@.has(cv[k as int]));
            let head = join3("RatioFeatures.transform: column '", cols[k].as_str(), "' not found. ");
            return Err(Error::InvalidInput(concat(head.as_str(), "The transformer was fitted on other columns.")));
        }
    }
    let n = cols.len();
    if n < 2 {
        return Ok(Vec::new());
    }
    let mut terms: Vec<RatioTerm> = Vec::new();
    let ghost pairs = ratio_pairs(n as int, n as int, include_reciprocal);
    let ghost names = pairs.map_values(|p: (int, int)| ratio_name(cv, p));
    for i in 0..n
        invariant
            cv == strings_view(cols@),
            n == cols.len(),
            n >= 2,
            pairs == ratio_pairs(n as int, n as int, include_reciprocal),
            names == pairs.map_values(|p: (int, int)| ratio_name(cv, p)),
            forall|a: int| 0 <= a < n ==> x@.has(#[trigger] cv[a]),
            terms.len() == ratio_pairs(n as int, i as int, include_reciprocal).len(),
            forall|k: int| 0 <= k < terms.len() ==> {
                let p = ratio_pairs(n as int, i as int, include_reciprocal)[k];
                &&& (#[trigger] terms@[k]).numerator == p.0
                &&& terms@[k].denominator == p.1
                &&& terms@[k].name@ == ratio_name(cv, p)
                &&& 0 <= p.0 < n && 0 <= p.1 < n
            },
    {
        let ghost base = ratio_pairs(n as int, i as int, include_reciprocal);
        let mut j = i + 1;
        while j < n
            invariant
                cv == strings_view(cols@),
                n == cols.len(),
                i < n,
                i + 1 <= j <= n,
                base == ratio_pairs(n as int, i as int, include_reciprocal),
                terms.len() == base.len() + row_pairs(i as int, j as int, include_reciprocal).len(),
                forall|k: int| 0 <= k < terms.len() ==> {
                    let p = (base + row_pairs(i as int, j as int, include_reciprocal))[k];
                    &&& (#[trigger] terms@[k]).numerator == p.0
                    &&& terms@[k].denominator == p.1
                    &&& terms@[k].name@ == ratio_name(cv, p)
                    &&& 0 <= p.0 < n && 0 <= p.1 < n
                },
            decreases n - j,
        {
            let ghost before = base + row_pairs(i as int, j as int, include_reciprocal);
            let ghost old_len = terms.len();
            terms.push(RatioTerm { numerator: i, denominator: j, name: join3(cols[i].as_str(), "_div_", cols[j].as_str()) });
            if include_reciprocal {
                terms.push(RatioTerm { numerator: j, denominator: i, name: join3(cols[j].as_str(), "_div_", cols[i].as_str()) });
            }
            proof {
                let after = base + row_pairs(i as int, j + 1, include_reciprocal);
                let blk: Seq<(int, int)> = if include_reciprocal { seq![(i as int, j as int), (j as int, i as int)] } else { seq![(i as int, j as int)] };
                assert(row_pairs(i as int, j + 1, include_reciprocal) == row_pairs(i as int, j as int, include_reciprocal) + blk);
                assert(after =~= before + blk);
                assert(cv[i as int] == cols@[i as int]@);
                assert(cv[j as int] == cols@[j as int]@);
                assert forall|k: int| 0 <= k < terms.len() implies {
                    let p = after[k];
                    &&& (#[trigger] terms@[k]).numerator == p.0
                    &&& terms@[k].denominator == p.1
                    &&& terms@[k].name@ == ratio_name(cv, p)
                    &&& 0 <= p.0 < n && 0 <= p.1 < n
                } by {
                    if k < old_len {
                        assert(after[k] == before[k]);
                    } else {
                        assert(after[k] == blk[k - old_len]);
                    }
                }
            }
            j = j + 1;
        }
        proof {
            assert(ratio_pairs(n as int, i + 1, include_reciprocal) == base + row_pairs(i as int, n as int, include_reciprocal));
        }
    }
    let existing = x.get_column_names();
    for k in 0..terms.len()
        invariant
            cv == strings_view(cols@),
            n == cols.len(),
            n >= 2,
            pairs == ratio_pairs(n as int, n as int, include_reciprocal),
            forall|a: int| 0 <= a < n ==> x@.has(#[trigger] cv[a]),
            names == pairs.map_values(|p: (int, int)| ratio_name(cv, p)),
            terms.len() == pairs.len(),
            strings_view(existing@) == x@.names(),
            forall|m: int| 0 <= m < terms.len() ==> (#[trigger] terms@[m]).name@ == names[m],
            forall|a: int| 0 <= a < k ==> !x@.has(#[trigger] names[a]),
            forall|a: int, b: int| 0 <= a < b < k ==> #[trigger] names[a] != #[trigger] names[b],
    {
        let mut hit = false;
        for m in 0..existing.len()
            invariant
                k < terms.len(),
                hit ==> x@.names().contains(terms@[k as int].name@),
                !hit ==> forall|a: int| 0 <= a < m ==> x@.names()[a] != terms@[k as int].name@,
                strings_view(existing@) == x@.names(),
        {
            if str_eq(existing[m].as_str(), terms[k].name.as_str()) {
                assert(x@.names()[m as int] == terms@[k as int].name@);
                hit = true;
            }
        }
        proof {
            lemma_has_iff_named(x@, names[k as int]);
            if !hit {
                assert(!x@.names().contains(names[k as int]));
            }
        }
        if hit {
            proof {
                assert(x@.has(names[k as int]));
                assert forall|j: int| 0 <= j < k implies !#[trigger] clashes(x@, names, j) by {
                    assert forall|a: int| 0 <= a < j implies names[a] != names[j] by {}
                }
                assert(first_clash(x@, names, k as int));
            }
            return Err(Error::InvalidInput(quote_in(
                "RatioFeatures.transform: generated column ",
                terms[k].name.as_str(),
                " collides with an existing input column or a previously generated column. Rename the conflicting column(s) or choose different column names.",
            )));
        }
        for m in 0..k
            invariant
                k < terms.len(),
                cv == strings_view(cols@),
                n == cols.len(),
                n >= 2,
                pairs == ratio_pairs(n as int, n as int, include_reciprocal),
                forall|a: int| 0 <= a < n ==> x@.has(#[trigger] cv[a]),
                names == pairs.map_values(|p: (int, int)| ratio_name(cv, p)),
                terms.len() == pairs.len(),
                forall|mm: int| 0 <= mm < terms.len() ==> (#[trigger] terms@[mm]).name@ == names[mm],
                forall|a: int| 0 <= a <= k ==> !x@.has(#[trigger] names[a]),
                forall|a: int| 0 <= a < m ==> names[a] != names[k as int],
                forall|a: int, b: int| 0 <= a < b < k ==> #[trigger] names[a] != #[trigger] names[b],
        {
            if str_eq(terms[m].name.as_str(), terms[k].name.as_str()) {
                assert(names[m as int] == names[k as int]);
                proof {
                    assert(clashes(x@, names, k as int));
                    assert forall|j: int| 0 <= j < k implies !#[trigger] clashes(x@, names, j) by {
                        assert forall|a: int| 0 <= a < j implies names[a] != names[j] by {}
                    }
                    assert(first_clash(x@, names, k as int));
                }
                return Err(Error::InvalidInput(quote_in(
                    "RatioFeatures.transform: generated column ",
                    terms[k].name.as_str(),
                    " collides with an existing input column or a previously generated column. Rename the conflicting column(s) or choose different column names.",
                )));
            }
        }
    }
    Ok(terms)
}

/// A frame has a column exactly when the name is among its names.
proof fn lemma_has_iff_named(f: FrameView, name: Seq<char>)
    ensures
        f.has(name) <==> f.names().contains(name),
{
    if f.has(name) {
        let i = choose|i: int| 0 <= i < f.columns.len() && (#[trigger] f.columns[i]).name == name;
        assert(f.names()[i] == name);
    }
    if f.names().contains(name) {
        let i = choose|i: int| 0 <= i < f.names().len() && f.names()[i] == name;
        assert(f.columns[i].name == name);
    }
}

/// The bit pattern of the default divisor floor, `1e-12`.
pub const DEFAULT_EPSILON_BITS: u64 = 0x3d71_9799_812d_ea11u64;

/// Whether the divisor floor is usable: finite and not negative.
pub open spec fn epsilon_ok(e: u64) -> bool {
    is_finite_bits(e) && !is_nan_bits(e) && order_key(e) >= 0
}

/// The columns a fit resolves from the configured list `cfg` (every
/// `Float64` column when it is empty); `None` when a configured column is
/// missing or not `Float64`, or there is no `Float64` column to discover.
pub open spec fn ratio_resolve(x: FrameView, cfg: Seq<Seq<char>>) -> Option<Seq<Seq<char>>> {
    if cfg.len() == 0 {
        if f64_names(x.columns).len() > 0 { Some(f64_names(x.columns)) } else { None }
    } else if forall|k: int| 0 <= k < cfg.len() ==> x.has(#[trigger] cfg[k]) && x.col(cfg[k]).dtype == DType::Float64 {
        Some(cfg)
    } else {
        None
    }
}

/// Create ratio features from pairs of `Float64` columns.
pub struct RatioFeatures {
    fitted: bool,
    columns: Vec<String>,
    fitted_columns: Vec<String>,
    include_reciprocal: bool,
    epsilon: u64,
}

impl RatioFeatures {
    /// Whether a fit has succeeded (and no later fit failed).
    pub closed spec fn is_fitted(&self) -> bool {
        self.fitted
    }

    /// The configured columns; empty asks for every `Float64` column.
    pub closed spec fn configured(&self) -> Seq<Seq<char>> {
        strings_view(self.columns@)
    }

    /// The fitted columns.
    pub closed spec fn fitted(&self) -> Seq<Seq<char>> {
        strings_view(self.fitted_columns@)
    }

    /// Whether reciprocals are emitted.
    pub closed spec fn reciprocal(&self) -> bool {
        self.include_reciprocal
    }

    /// The bit pattern of the divisor floor.
    pub closed spec fn epsilon_spec(&self) -> u64 {
        self.epsilon
    }

    /// Ratios of every pair of `Float64` columns, without reciprocals, with
    /// the divisor floor `1e-12`.
    pub fn new() -> (r: Self)
        ensures
            !r.is_fitted(),
            r.configured().len() == 0,
            !r.reciprocal(),
            r.epsilon_spec() == DEFAULT_EPSILON_BITS,
    {
        Self { fitted: false, columns: Vec::new(), fitted_columns: Vec::new(), include_reciprocal: false, epsilon: DEFAULT_EPSILON_BITS }
    }

    /// Restrict to the named columns (an empty list asks for every `Float64` column).
    pub fn columns(self, cols: &[&str]) -> (r: Self)
        ensures
            r.is_fitted() == self.is_fitted(),
            r.fitted() == self.fitted(),
            r.configured() == cols@.map_values(|s: &str| s@),
            r.reciprocal() == self.reciprocal(),
            r.epsilon_spec() == self.epsilon_spec(),
    {
        let v = owned_all(cols);
        Self { columns: v, ..self }
    }

    /// Also emit `b / a` right after each `a / b`.
    pub fn include_reciprocal(self, b: bool) -> (r: Self)
        ensures
            r.is_fitted() == self.is_fitted(),
            r.fitted() == self.fitted(),
            r.configured() == self.configured(),
            r.reciprocal() == b,
            r.epsilon_spec() == self.epsilon_spec(),
    {
        Self { include_reciprocal: b, ..self }
    }

    /// Set the divisor floor by the bit pattern of an `f64` (it must be
    /// finite and not negative, else `fit` fails).
    pub fn epsilon(self, e_bits: u64) -> (r: Self)
        ensures
            r.is_fitted() == self.is_fitted(),
            r.fitted() == self.fitted(),
            r.configured() == self.configured(),
            r.reciprocal() == self.reciprocal(),
            r.epsilon_spec() == e_bits,
    {
        Self { epsilon: e_bits, ..self }
    }

    /// The fitted columns (sorted, without repeats), or `None` before a
    /// successful fit; a plan's positions refer to this list.
    pub fn fitted_columns(&self) -> (r: Option<&Vec<String>>)
        ensures
            r is Some <==> self.is_fitted(),
            r matches Some(v) ==> strings_view(v@) == self.fitted(),
    {
        if self.fitted { Some(&self.fitted_columns) } else { None }
    }

    /// The bit pattern of the divisor floor.
    pub fn epsilon_bits(&self) -> (r: u64)
        ensures
            r == self.epsilon_spec(),
    {
        self.epsilon
    }

    /// The ratios a transform of `x` appends, in order: fails with
    /// `NotFitted` before a fit, else as [`plan_ratios`] over the fitted columns.
    pub fn plan(&self, x: &Frame) -> (r: Result<Vec<RatioTerm>, Error>)
        ensures
            !self.is_fitted() ==> r matches Err(Error::NotFitted(_)),
            self.is_fitted() ==> ({
                let cv = self.fitted();
                let pairs = ratio_pairs(cv.len() as int, cv.len() as int, self.reciprocal());
                let names = pairs.map_values(|p: (int, int)| ratio_name(cv, p));
                if !(forall|k: int| 0 <= k < cv.len() ==> x@.has(#[trigger] cv[k])) {
                    r matches Err(Error::InvalidInput(_))
                } else if cv.len() < 2 {
                    r matches Ok(v) && v.len() == 0
                } else if exists|k: int| 0 <= k < names.len() && x@.has(#[trigger] names[k]) {
                    r matches Err(Error::InvalidInput(m)) && exists|k: int| first_clash(x@, names, k) && contains_text(m@, quoted(names[k]))
                } else if exists|a: int, b: int| 0 <= a < b < names.len() && #[trigger] names[a] == #[trigger] names[b] {
                    r matches Err(Error::InvalidInput(m)) && exists|k: int| first_clash(x@, names, k) && contains_text(m@, quoted(names[k]))
                } else {
                    r matches Ok(v) && v.len() == pairs.len() && forall|k: int| 0 <= k < pairs.len() ==> {
                        &&& (#[trigger] v@[k]).numerator == pairs[k].0
                        &&& v@[k].denominator == pairs[k].1
                        &&& v@[k].name@ == names[k]
                    }
                }
            }),
    {
        if !self.fitted {
            return Err(Error::NotFitted(owned("RatioFeatures has not been fitted. Call .fit(dataframe) before .transform().")));
        }
        plan_ratios(&self.fitted_columns, x, self.include_reciprocal)
    }
}

impl Default for RatioFeatures {
    fn default() -> (r: Self)
        ensures
            !r.is_fitted(),
            r.configured().len() == 0,
            !r.reciprocal(),
            r.epsilon_spec() == DEFAULT_EPSILON_BITS,
    {
        Self::new()
    }
}

/// Whether the floor is finite and not negative.
fn check_epsilon(e: u64) -> (r: bool)
    ensures
        r == epsilon_ok(e),
{
    (e / 0x10_0000_0000_0000u64) % 0x800 != 0x7ff && (e < 0x8000_0000_0000_0000u64 || e == 0x8000_0000_0000_0000u64)
}

impl Fit<Frame> for RatioFeatures {
    type Output = ();

    open spec fn fits_to(&self, x: Frame, after: Self, r: Result<(), Error>) -> bool {
        &&& after.configured() == self.configured()
        &&& after.reciprocal() == self.reciprocal()
        &&& after.epsilon_spec() == self.epsilon_spec()
        &&& r is Ok <==> (x@.height > 0 && x@.columns.len() > 0 && epsilon_ok(self.epsilon_spec())
            && ratio_resolve(x@, self.configured()) is Some)
        &&& r matches Err(e) ==> e is InvalidInput
        &&& r is Err ==> !after.is_fitted()
        &&& r is Ok ==> after.is_fitted() && strictly_sorted(after.fitted())
            && after.fitted().to_set() == ratio_resolve(x@, self.configured())->0.to_set()
    }

    /// Resolve the columns and keep them sorted, without repeats.
    ///
    /// Fails with `InvalidInput` on an empty frame, an unusable divisor
    /// floor, a configured column that is missing or not `Float64`, or no
    /// `Float64` column to discover; a failed fit leaves the transformer
    /// unfitted.
    fn fit(&mut self, x: Frame) -> (r: Result<(), Error>) {
        let ghost xv = x@;
        self.fitted = false;
        self.fitted_columns = Vec::new();
        if x.height() == 0 || x.width() == 0 {
            return Err(Error::InvalidInput(owned(
                "RatioFeatures.fit received an empty DataFrame (0 rows or 0 columns). Provide data with at least 1 row and 1 column.",
            )));
        }
        if !check_epsilon(self.epsilon) {
            return Err(Error::InvalidInput(owned(
                "RatioFeatures: epsilon must be a finite, non-negative number. Use 0.0 to disable the divisor floor, or keep the default 1e-12.",
            )));
        }
        let resolved: Vec<String> = if self.columns.len() == 0 {
            match require_f64_columns(&x, "RatioFeatures") {
                Ok(v) => v,
                Err(e) => {
                    return Err(e);
                },
            }
        } else {
            match check_f64_columns(&x, &self.columns, "RatioFeatures.fit") {
                Ok(()) => {},
                Err(e) => {
                    return Err(e);
                },
            }
            copy_strings(&self.columns)
        };
        assert(ratio_resolve(xv, self.configured()) == Some(strings_view(resolved@)));
        self.fitted_columns = fitted_ratio_columns(&resolved);
        self.fitted = true;
        Ok(())
    }
}

/// The fitted columns do not depend on the order (or repetition) in which
/// the columns were configured: two fits whose resolved columns hold the same
/// names keep the same sorted list, so they plan the same pairs.
pub proof fn law_fit_order_independent(
    x: FrameView,
    cfg1: Seq<Seq<char>>,
    cfg2: Seq<Seq<char>>,
    fitted1: Seq<Seq<char>>,
    fitted2: Seq<Seq<char>>,
)
    requires
        ratio_resolve(x, cfg1) is Some,
        ratio_resolve(x, cfg2) is Some,
        ratio_resolve(x, cfg1)->0.to_set() == ratio_resolve(x, cfg2)->0.to_set(),
        strictly_sorted(fitted1),
        fitted1.to_set() == ratio_resolve(x, cfg1)->0.to_set(),
        strictly_sorted(fitted2),
        fitted2.to_set() == ratio_resolve(x, cfg2)->0.to_set(),
    ensures
        fitted1 == fitted2,
{
    crate::order::lemma_sorted_unique(fitted1, fitted2);
}

/// One row of pairs has two entries per partner with reciprocals, one without.
proof fn lemma_row_pairs_len(i: int, j: int, recip: bool)
    ensures
        row_pairs(i, j, recip).len() == (if j <= i + 1 { 0 } else if recip { 2 * (j - i - 1) } else { j - i - 1 }),
    decreases j - i,
{
    if j > i + 1 {
        lemma_row_pairs_len(i, j - 1, recip);
    }
}

/// With reciprocals, the pairs come two by two: each `(a, b)` at an even
/// position is followed by `(b, a)`.
proof fn lemma_row_pairs_reciprocal(i: int, j: int)
    ensures
        row_pairs(i, j, true).len() % 2 == 0,
        forall|t: int| 0 <= t < row_pairs(i, j, true).len() / 2 ==> #[trigger] row_pairs(i, j, true)[2 * t + 1] == (
            row_pairs(i, j, true)[2 * t].1,
            row_pairs(i, j, true)[2 * t].0,
        ),
    decreases j - i,
{
    if j > i + 1 {
        lemma_row_pairs_reciprocal(i, j - 1);
        let pre = row_pairs(i, j - 1, true);
        let blk = seq![(i, j - 1), (j - 1, i)];
        assert(row_pairs(i, j, true) == pre + blk);
        assert forall|t: int| 0 <= t < row_pairs(i, j, true).len() / 2 implies #[trigger] row_pairs(i, j, true)[2 * t + 1] == (
            row_pairs(i, j, true)[2 * t].1,
            row_pairs(i, j, true)[2 * t].0,
        ) by {
            if 2 * t + 1 < pre.len() {
                assert(pre[2 * t + 1] == (pre[2 * t].1, pre[2 * t].0));
            }
        }
    }
}

/// With reciprocals, each ratio `a / b` is followed right away by `b / a`.
pub proof fn law_reciprocal_follows(n: int, i: int)
    ensures
        ratio_pairs(n, i, true).len() % 2 == 0,
        forall|t: int| 0 <= t < ratio_pairs(n, i, true).len() / 2 ==> #[trigger] ratio_pairs(n, i, true)[2 * t + 1] == (
            ratio_pairs(n, i, true)[2 * t].1,
            ratio_pairs(n, i, true)[2 * t].0,
        ),
    decreases i,
{
    if i > 0 {
        law_reciprocal_follows(n, i - 1);
        lemma_row_pairs_reciprocal(i - 1, n);
        let pre = ratio_pairs(n, i - 1, true);
        let row = row_pairs(i - 1, n, true);
        assert(ratio_pairs(n, i, true) == pre + row);
        assert forall|t: int| 0 <= t < ratio_pairs(n, i, true).len() / 2 implies #[trigger] ratio_pairs(n, i, true)[2 * t + 1] == (
            ratio_pairs(n, i, true)[2 * t].1,
            ratio_pairs(n, i, true)[2 * t].0,
        ) by {
            if 2 * t + 1 < pre.len() {
                assert(pre[2 * t + 1] == (pre[2 * t].1, pre[2 * t].0));
            } else {
                let u = t - pre.len() / 2;
                assert(2 * t == pre.len() + 2 * u);
                assert(row[2 * u + 1] == (row[2 * u].1, row[2 * u].0));
            }
        }
    }
}

} // verus!
