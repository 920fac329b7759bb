//! Feature hashing for string columns.
//!
//! [`FeatureHasher`] maps every non-null string of the selected columns to a
//! bucket and a sign with two seeded hashes, and returns one `Float64` column
//! per bucket (`hashed_0`, `hashed_1`, ...) holding, per row, the sum of the
//! signs that landed in it. Values are whole numbers.

use vstd::prelude::*;
use std::collections::hash_map::DefaultHasher;
use std::hash::{Hash, Hasher};
use crate::frame::{CellView, DType, Frame, FrameView, Series, SeriesView, Value, opt_view, series_views, strings_view, lemma_position_of};
use crate::numbers::{exact_limit, f64_bits_from_int, f64_bits_of_int};
use crate::text::{owned, concat, join3, usize_text, nat_decimal, digit_char, owned_all};
use crate::traits::{Error, Fit, Transform};

verus! {

/// The `u64` that `DefaultHasher::new()` finishes with after hashing the
/// byte `tag` and then the string `s`.
pub uninterp spec fn tagged_hash(tag: u8, s: Seq<char>) -> u64;

/// `DefaultHasher::new()`, fed `tag` then `s` through `Hash::hash`, then
/// `Hasher::finish`. The result is `tagged_hash(tag, s)`: every hasher made
/// by `new` starts from the same keys.
#[verifier::external_body]
fn default_hash(tag: u8, s: &str) -> (r: u64)
    ensures
        r == tagged_hash(tag, s@),
{
    let mut h = DefaultHasher::new();
    tag.hash(&mut h);
    s.hash(&mut h);
    h.finish()
}

/// The bucket of `s` among `n`.
pub open spec fn bucket_of(s: Seq<char>, n: nat) -> nat {
    ((tagged_hash(0, s) as usize) as nat) % n
}

/// The sign (`1` or `-1`) of `s`.
pub open spec fn sign_of(s: Seq<char>) -> int {
    if tagged_hash(1, s) % 2 == 1 { 1 } else { -1 }
}

/// What one cell adds to bucket `b`.
pub open spec fn contribution(x: Option<CellView>, n: nat, b: nat) -> int {
    match x {
        Some(CellView::Str(s)) => if bucket_of(s, n) == b { sign_of(s) } else { 0 },
        _ => 0,
    }
}

/// The value of bucket `b` in row `i`: the contributions of the cells of
/// row `i` of the columns `cols` of `f`.
pub open spec fn bucket_value(f: FrameView, cols: Seq<Seq<char>>, n: nat, b: nat, i: int) -> int
    decreases cols.len(),
{
    if cols.len() == 0 {
        0
    } else {
        bucket_value(f, cols.drop_last(), n, b, i) + contribution(f.col(cols.last()).cells[i], n, b)
    }
}

/// The name of bucket column `b`: `hashed_{b}`.
pub open spec fn bucket_name(b: nat) -> Seq<char> {
    "hashed_"@ + nat_decimal(b)
}

/// The output of hashing `cols` of `f` into `n` buckets.
pub open spec fn hashed_frame(f: FrameView, cols: Seq<Seq<char>>, n: nat) -> FrameView {
    FrameView {
        height: f.height,
        columns: Seq::new(n, |b: int| SeriesView {
            name: bucket_name(b as nat),
            dtype: DType::Float64,
            cells: Seq::new(f.height, |i: int| Some(CellView::Float(f64_bits_of_int(bucket_value(f, cols, n, b as nat, i)) as u64))),
        }),
    }
}

/// Whether every name of `cols` is a `Utf8` column of `f`.
pub open spec fn all_strings(f: FrameView, cols: Seq<Seq<char>>) -> bool {
    forall|k: int| 0 <= k < cols.len() ==> f.has(#[trigger] cols[k]) && f.col(cols[k]).dtype == DType::Utf8
}

/// Distinct numbers have distinct decimal texts.
pub proof fn lemma_decimal_injective(a: nat, b: nat)
    requires
        nat_decimal(a) == nat_decimal(b),
    ensures
        a == b,
    decreases a + b,
{
    if a < 10 && b < 10 {
        assert(nat_decimal(a)[0] == digit_char(a as int));
        assert(nat_decimal(b)[0] == digit_char(b as int));
        assert((digit_char(a as int) as int) == '0' as int + a);
        assert((digit_char(b as int) as int) == '0' as int + b);
    } else if a < 10 {
        lemma_decimal_len(b / 10);
        assert(nat_decimal(b).len() >= 2);
    } else if b < 10 {
        lemma_decimal_len(a / 10);
        assert(nat_decimal(a).len() >= 2);
    } else {
        let da = nat_decimal(a);
        let db = nat_decimal(b);
        assert(da.drop_last() == nat_decimal(a / 10));
        assert(db.drop_last() == nat_decimal(b / 10));
        lemma_decimal_injective(a / 10, b / 10);
        assert(da.last() == digit_char((a % 10) as int));
        assert(db.last() == digit_char((b % 10) as int));
        assert((digit_char((a % 10) as int) as int) == '0' as int + a % 10);
        assert((digit_char((b % 10) as int) as int) == '0' as int + b % 10);
    }
}

/// Decimal texts are never empty.
pub proof fn lemma_decimal_len(a: nat)
    ensures
        nat_decimal(a).len() >= 1,
    decreases a,
{
    if a >= 10 {
        lemma_decimal_len(a / 10);
    }
}

/// Hash features into a fixed number of signed buckets.
pub struct FeatureHasher {
    fitted: bool,
    columns: Vec<String>,
    n_features: usize,
}

impl FeatureHasher {
    #[verifier::type_invariant]
    spec fn inv(&self) -> bool {
        self.fitted ==> self.n_features > 0
    }

    /// Whether a fit has succeeded.
    pub closed spec fn is_fitted(&self) -> bool {
        self.fitted
    }

    /// The hashed columns.
    pub closed spec fn selected(&self) -> Seq<Seq<char>> {
        strings_view(self.columns@)
    }

    /// The number of buckets.
    pub closed spec fn buckets(&self) -> nat {
        self.n_features as nat
    }

    /// A hasher of the columns `columns` into `n_features` buckets.
    pub fn new(columns: &[&str], n_features: usize) -> (r: Self)
        ensures
            !r.is_fitted(),
            r.selected() == columns@.map_values(|s: &str| s@),
            r.buckets() == n_features,
    {
        let cols = owned_all(columns);
        Self { fitted: false, columns: cols, n_features }
    }

    /// The bucket (below `n`) and the sign (`1` or `-1`) of `s`.
    pub fn hash_to_bucket(s: &str, n: usize) -> (r: (usize, i64))
        requires
            n > 0,
        ensures
            r.0 == bucket_of(s@, n as nat),
            r.1 == sign_of(s@),
            r.0 < n,
    {
        let h_idx = default_hash(0, s);
        let idx = (h_idx as usize) % n;
        let h_sign = default_hash(1, s);
        let sign: i64 = if h_sign % 2 == 1 { 1 } else { -1 };
        (idx, sign)
    }
}

impl Fit<Frame> for FeatureHasher {
    type Output = ();

    open spec fn fits_to(&self, x: Frame, after: Self, r: Result<(), Error>) -> bool {
        &&& r is Ok <==> (self.buckets() > 0 && all_strings(x@, self.selected()))
        &&& r matches Err(e) ==> e is InvalidInput
        &&& r is Ok ==> after.is_fitted()
        &&& r is Err ==> after.is_fitted() == self.is_fitted()
        &&& after.selected() == self.selected()
        &&& after.buckets() == self.buckets()
    }

    /// Check the bucket count and the columns.
    ///
    /// Fails with `InvalidInput` when there are no buckets or a column is
    /// missing or not `Utf8`; the hasher is then unchanged.
    fn fit(&mut self, x: Frame) -> (r: Result<(), Error>) {
        if self.n_features == 0 {
            return Err(Error::InvalidInput(owned("FeatureHasher: n_features must be >= 1.")));
        }
        let ghost cols = strings_view(self.columns@);
        for i in 0..self.columns.len()
            invariant
                cols == strings_view(self.columns@),
                self.n_features > 0,
                self.fitted == old(self).fitted,
                self.selected() == old(self).selected(),
                self.buckets() == old(self).buckets(),
                forall|k: int| 0 <= k < i ==> x@.has(#[trigger] cols[k]) && x@.col(cols[k]).dtype == DType::Utf8,
        {
            let name = self.columns[i].as_str();
            assert(cols[i as int] == name@);
            match x.column(name) {
                None => {
                    return Err(Error::InvalidInput(join3("FeatureHasher.fit: column '", name, "' not found.")));
                },
                Some(c) => {
                    if c.dtype != DType::Utf8 {
                        let head = join3("FeatureHasher.fit: column '", name, "' has dtype ");
                        return Err(Error::InvalidInput(join3(head.as_str(), crate::util::dtype_text(c.dtype), "; expected String.")));
                    }
                },
            }
        }
        self.fitted = true;
        Ok(())
    }
}

/// A column of `n` zeros.
fn zeros(n: usize) -> (r: Vec<i64>)
    ensures
        r.len() == n,
        forall|i: int| 0 <= i < n ==> r@[i] == 0,
{
    let mut v: Vec<i64> = Vec::new();
    for i in 0..n
        invariant
            v.len() == i,
            forall|k: int| 0 <= k < i ==> v@[k] == 0,
    {
        v.push(0);
    }
    v
}

impl Transform<Frame> for FeatureHasher {
    type Output = Frame;

    /// One `Float64` column per bucket, `hashed_0` first.
    ///
    /// Fails with `NotFitted` before a fit; with `InvalidInput` when a
    /// column is missing or not `Utf8`; with `Computation` when there are
    /// 2^53 columns or more, beyond which sums are not exact floats.
    fn transform(&self, x: Frame) -> (r: Result<Frame, Error>)
        ensures
            !self.is_fitted() ==> r matches Err(Error::NotFitted(_)),
            self.is_fitted() ==> {
                if !all_strings(x@, self.selected()) {
                    r matches Err(Error::InvalidInput(_))
                } else if self.selected().len() >= exact_limit() {
                    r matches Err(Error::Computation(_))
                } else {
                    r matches Ok(f) && f@ == hashed_frame(x@, self.selected(), self.buckets())
                }
            },
    {
        proof {
            use_type_invariant(self);
        }
        if !self.fitted {
            return Err(Error::NotFitted(owned("FeatureHasher")));
        }
        let n = self.n_features;
        let rows = x.height();
        let ghost cols = strings_view(self.columns@);
        for i in 0..self.columns.len()
            invariant
                cols == strings_view(self.columns@),
                self.fitted,
                forall|k: int| 0 <= k < i ==> x@.has(#[trigger] cols[k]) && x@.col(cols[k]).dtype == DType::Utf8,
        {
            let name = self.columns[i].as_str();
            assert(cols[i as int] == name@);
            match x.column(name) {
                None => {
                    return Err(Error::InvalidInput(join3("FeatureHasher.transform: column '", name, "' not found.")));
                },
                Some(c) => {
                    if c.dtype != DType::Utf8 {
                        let head = join3("FeatureHasher.transform: column '", name, "' has dtype ");
                        return Err(Error::InvalidInput(join3(head.as_str(), crate::util::dtype_text(c.dtype), "; expected String.")));
                    }
                },
            }
        }
        if self.columns.len() as u64 >= 0x20_0000_0000_0000u64 {
            proof {
                vstd::arithmetic::power2::lemma2_to64_rest();
            }
            return Err(Error::Computation(owned("FeatureHasher: too many columns for exact bucket sums.")));
        }
        proof {
            vstd::arithmetic::power2::lemma2_to64_rest();
        }
        let mut buckets: Vec<Vec<i64>> = Vec::new();
        for b in 0..n
            invariant
                buckets.len() == b,
                forall|k: int| 0 <= k < b ==> (#[trigger] buckets@[k]).len() == rows,
                forall|k: int, i: int| 0 <= k < b && 0 <= i < rows ==> #[trigger] buckets@[k]@[i] == 0,
        {
            buckets.push(zeros(rows));
        }
        assert forall|k: int, i: int| 0 <= k < n && 0 <= i < rows implies #[trigger] buckets@[k]@[i] == bucket_value(x@, cols.take(0), n as nat, k as nat, i) by {}
        for c in 0..self.columns.len()
            invariant
                cols == strings_view(self.columns@),
                n == self.n_features,
                n > 0,
                rows == x@.height,
                x@.wf(),
                self.columns.len() < exact_limit(),
                exact_limit() == 0x20_0000_0000_0000,
                all_strings(x@, cols),
                buckets.len() == n,
                forall|k: int| 0 <= k < n ==> (#[trigger] buckets@[k]).len() == rows,
                forall|k: int, i: int| 0 <= k < n && 0 <= i < rows ==> #[trigger] buckets@[k]@[i] == bucket_value(x@, cols.take(c as int), n as nat, k as nat, i),
                forall|k: int, i: int| 0 <= k < n && 0 <= i < rows ==> -c <= #[trigger] buckets@[k]@[i] <= c,
        {
            let name = self.columns[c].as_str();
            proof {
                assert(cols[c as int] == name@);
                assert(x@.has(cols[c as int]));
                lemma_position_of(x@.columns, name@);
            }
            let col = match x.column(name) {
                Some(s) => s,
                None => {
                    return Err(Error::InvalidInput(owned("FeatureHasher.transform: column not found.")));
                },
            };
            let ghost cv = col@;
            proof {
                let p = crate::frame::position_of(x@.columns, name@)->0;
                assert(x@.columns[p].cells.len() == x@.height);
                assert(cols.take(c + 1).drop_last() =~= cols.take(c as int));
                assert(cols.take(c + 1).last() == name@);
            }
            for i in 0..rows
                invariant
                    cols == strings_view(self.columns@),
                    c < self.columns.len(),
                    n == self.n_features,
                    n > 0,
                    rows == x@.height,
                    cv == col@,
                    cv == x@.col(cols[c as int]),
                    cv.cells.len() == rows,
                    self.columns.len() < exact_limit(),
                    exact_limit() == 0x20_0000_0000_0000,
                    buckets.len() == n,
                    forall|k: int| 0 <= k < n ==> (#[trigger] buckets@[k]).len() == rows,
                    forall|k: int, j: int| 0 <= k < n && 0 <= j < rows ==> #[trigger] buckets@[k]@[j] == bucket_value(x@, cols.take(c as int), n as nat, k as nat, j)
                        + if j < i { contribution(cv.cells[j], n as nat, k as nat) } else { 0 },
                    forall|k: int, j: int| 0 <= k < n && 0 <= j < rows ==> -(c + 1) <= #[trigger] buckets@[k]@[j] <= c + 1,
                    forall|k: int, j: int| 0 <= k < n && i <= j < rows ==> -c <= #[trigger] buckets@[k]@[j] <= c,
            {
                match &col.values[i] {
                    Some(Value::Str(s)) => {
                        let (idx, sign) = Self::hash_to_bucket(s.as_str(), n);
                        let cur = buckets[idx][i];
                        let mut row = Vec::new();
                        std::mem::swap(&mut row, &mut buckets[idx]);
                        row.set(i, cur + sign);
                        std::mem::swap(&mut row, &mut buckets[idx]);
                        proof {
                            assert(cv.cells[i as int] == Some(CellView::Str(s@)));
                        }
                    },
                    _ => {},
                }
            }
        }
        proof {
            assert(cols.take(self.columns.len() as int) =~= cols);
        }
        let mut out: Vec<Series> = Vec::new();
        for b in 0..n
            invariant
                n == self.n_features,
                rows == x@.height,
                buckets.len() == n,
                exact_limit() == 0x20_0000_0000_0000,
                self.columns.len() < exact_limit(),
                forall|k: int| 0 <= k < n ==> (#[trigger] buckets@[k]).len() == rows,
                forall|k: int, i: int| 0 <= k < n && 0 <= i < rows ==> #[trigger] buckets@[k]@[i] == bucket_value(x@, cols, n as nat, k as nat, i),
                forall|k: int, j: int| 0 <= k < n && 0 <= j < rows ==> -(self.columns.len() as int) <= #[trigger] buckets@[k]@[j] <= self.columns.len(),
                out.len() == b,
                forall|k: int| 0 <= k < b ==> (#[trigger] out@[k])@ == hashed_frame(x@, cols, n as nat).columns[k],
        {
            let mut cells: Vec<Option<Value>> = Vec::new();
            for i in 0..rows
                invariant
                    b < n,
                    buckets.len() == n,
                    buckets@[b as int].len() == rows,
                    rows == x@.height,
                    exact_limit() == 0x20_0000_0000_0000,
                    self.columns.len() < exact_limit(),
                    forall|j: int| 0 <= j < rows ==> -(self.columns.len() as int) <= #[trigger] buckets@[b as int]@[j] <= self.columns.len(),
                    cells.len() == i,
                    forall|j: int| 0 <= j < i ==> opt_view(#[trigger] cells@[j]) == Some(CellView::Float(f64_bits_of_int(buckets@[b as int]@[j] as int) as u64)),
            {
                let v = buckets[b][i];
                let bits = f64_bits_from_int(v);
                cells.push(Some(Value::Float(bits)));
            }
            let name = concat("hashed_", usize_text(b).as_str());
            let s = Series { name, dtype: DType::Float64, values: cells };
            proof {
                assert(s@.cells =~= hashed_frame(x@, cols, n as nat).columns[b as int].cells);
            }
            out.push(s);
        }
        let ghost target = hashed_frame(x@, cols, n as nat);
        proof {
            assert(series_views(out@) =~= target.columns);
            assert forall|a: int, c: int| 0 <= a < target.columns.len() && 0 <= c < target.columns.len() && a != c
                implies #[trigger] target.columns[a].name != #[trigger] target.columns[c].name by {
                reveal_strlit("hashed_");
                if target.columns[a].name == target.columns[c].name {
                    assert(target.columns[a].name.subrange(7, target.columns[a].name.len() as int) =~= nat_decimal(a as nat));
                    assert(target.columns[c].name.subrange(7, target.columns[c].name.len() as int) =~= nat_decimal(c as nat));
                    lemma_decimal_injective(a as nat, c as nat);
                }
            }
        }
        match Frame::new(rows, out) {
            Ok(f) => Ok(f),
            Err(_) => Err(Error::Computation(owned("FeatureHasher: could not build the output frame."))),
        }
    }
}


/// A cell adds at most one to a bucket.
proof fn lemma_contribution_bounded(x: Option<CellView>, n: nat, b: nat)
    ensures
        -1 <= contribution(x, n, b) <= 1,
{
}

/// A bucket of a row sums at most one sign per hashed column.
pub proof fn law_bucket_bounded(f: FrameView, cols: Seq<Seq<char>>, n: nat, b: nat, i: int)
    ensures
        -(cols.len() as int) <= bucket_value(f, cols, n, b, i) <= cols.len(),
    decreases cols.len(),
{
    if cols.len() > 0 {
        law_bucket_bounded(f, cols.drop_last(), n, b, i);
        lemma_contribution_bounded(f.col(cols.last()).cells[i], n, b);
    }
}

/// A string lands in exactly one bucket: it adds its sign there and nothing
/// elsewhere.
pub proof fn law_single_bucket(s: Seq<char>, n: nat, b: nat)
    requires
        n > 0,
    ensures
        bucket_of(s, n) < n,
        contribution(Some(CellView::Str(s)), n, b) == if b == bucket_of(s, n) { sign_of(s) } else { 0 },
        sign_of(s) == 1 || sign_of(s) == -1,
{
}

/// Hashing one column puts in each bucket just that column's contribution.
pub proof fn law_bucket_one_column(f: FrameView, c: Seq<char>, n: nat, b: nat, i: int)
    ensures
        bucket_value(f, seq![c], n, b, i) == contribution(f.col(c).cells[i], n, b),
{
    let one = seq![c];
    assert(one.drop_last() =~= Seq::<Seq<char>>::empty());
    assert(one.last() == c);
    assert(bucket_value(f, one.drop_last(), n, b, i) == 0);
}

/// Buckets add up over the hashed columns: hashing the columns `a` and then
/// `c` fills each bucket with the sum of what `a` and `c` give on their own.
/// So two columns holding the same string in a row add their signs.
pub proof fn law_bucket_additive(f: FrameView, a: Seq<Seq<char>>, c: Seq<Seq<char>>, n: nat, b: nat, i: int)
    ensures
        bucket_value(f, a + c, n, b, i) == bucket_value(f, a, n, b, i) + bucket_value(f, c, n, b, i),
    decreases c.len(),
{
    if c.len() == 0 {
        assert(a + c =~= a);
    } else {
        law_bucket_additive(f, a, c.drop_last(), n, b, i);
        assert((a + c).drop_last() =~= a + c.drop_last());
        assert((a + c).last() == c.last());
    }
}

/// Two columns holding the same string `s` in row `i` give its bucket twice
/// its sign, and every other bucket nothing.
pub proof fn law_same_string_twice(f: FrameView, c1: Seq<char>, c2: Seq<char>, s: Seq<char>, n: nat, b: nat, i: int)
    requires
        n > 0,
        f.col(c1).cells[i] == Some(CellView::Str(s)),
        f.col(c2).cells[i] == Some(CellView::Str(s)),
    ensures
        bucket_value(f, seq![c1, c2], n, b, i) == if b == bucket_of(s, n) { 2 * sign_of(s) } else { 0 },
{
    law_bucket_additive(f, seq![c1], seq![c2], n, b, i);
    assert(seq![c1] + seq![c2] =~= seq![c1, c2]);
    law_bucket_one_column(f, c1, n, b, i);
    law_bucket_one_column(f, c2, n, b, i);
}

/// Hashing gives one `Float64` column per bucket, `hashed_0` to
/// `hashed_{n-1}` in order, each with one cell per row holding the value of
/// its bucket in that row (as a float).
pub proof fn law_hashed_frame_columns(f: FrameView, cols: Seq<Seq<char>>, n: nat, b: int, i: int)
    requires
        0 <= b < n,
        0 <= i < f.height,
    ensures
        hashed_frame(f, cols, n).columns.len() == n,
        hashed_frame(f, cols, n).height == f.height,
        hashed_frame(f, cols, n).columns[b].name == "hashed_"@ + nat_decimal(b as nat),
        hashed_frame(f, cols, n).columns[b].dtype == DType::Float64,
        hashed_frame(f, cols, n).columns[b].cells.len() == f.height,
        hashed_frame(f, cols, n).columns[b].cells[i] == Some(CellView::Float(
            f64_bits_of_int(bucket_value(f, cols, n, b as nat, i)) as u64,
        )),
{
}

} // verus!
