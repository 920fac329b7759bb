//! Polynomial feature generation.
//!
//! [`PolynomialFeatures`] plans all polynomial combinations of the `Float64`
//! input columns up to a degree: which powers each output column multiplies
//! and what it is called. Each combination is a vector of exponents, one per
//! input column; the vectors come by total degree, and within one degree in
//! lexicographic order (ascending bit mask order for interaction-only
//! terms).

use vstd::prelude::*;
use crate::frame::{Frame, FrameView, distinct_seq, strings_view};
use crate::text::{owned, concat, contains_text, join3, push_char, push_str, quote_in, quoted, str_eq, joined};
use crate::traits::{Error, FitSupervised};
use crate::util::{f64_names, require_f64_columns};

verus! {

/// The sum of the entries of `v`.
pub open spec fn total(v: Seq<usize>) -> int
    decreases v.len(),
{
    if v.len() == 0 {
        0
    } else {
        total(v.drop_last()) + v.last()
    }
}

/// The vectors of length `n + 1` whose entries sum to `t` and whose first
/// entry is at least `p`, in lexicographic order.
pub open spec fn with_first(n: nat, t: nat, p: nat) -> Seq<Seq<usize>>
    decreases n, t - p + 1,
{
    if p > t {
        Seq::empty()
    } else {
        exact_sum(n, (t - p) as nat).map_values(|v: Seq<usize>| seq![p as usize] + v) + with_first(n, t, p + 1)
    }
}

/// The vectors of length `n` whose entries sum to `t`, in lexicographic order.
pub open spec fn exact_sum(n: nat, t: nat) -> Seq<Seq<usize>>
    decreases n, 0int,
{
    if n == 0 {
        if t == 0 { seq![Seq::empty()] } else { Seq::empty() }
    } else {
        with_first((n - 1) as nat, t, 0)
    }
}

/// The 0/1 vectors of length `n` with `t` ones, in ascending order of the
/// bit mask whose bit `j` is entry `j`.
pub open spec fn binary_sum(n: nat, t: nat) -> Seq<Seq<usize>>
    decreases n,
{
    if n == 0 {
        if t == 0 { seq![Seq::empty()] } else { Seq::empty() }
    } else {
        binary_sum((n - 1) as nat, t).map_values(|v: Seq<usize>| v.push(0usize)) + if t > 0 {
            binary_sum((n - 1) as nat, (t - 1) as nat).map_values(|v: Seq<usize>| v.push(1usize))
        } else {
            Seq::empty()
        }
    }
}

/// The exponent vectors of total degree `t`: all of them, or only the
/// interaction terms (0/1 entries, at least two factors).
pub open spec fn level(n: nat, t: nat, interaction_only: bool) -> Seq<Seq<usize>> {
    if interaction_only {
        if t >= 2 { binary_sum(n, t) } else { Seq::empty() }
    } else {
        if t >= 1 { exact_sum(n, t) } else { Seq::empty() }
    }
}

/// The exponent vectors of total degree 1 to `d`, by degree.
pub open spec fn powers_upto(n: nat, d: nat, interaction_only: bool) -> Seq<Seq<usize>>
    decreases d,
{
    if d == 0 {
        Seq::empty()
    } else {
        powers_upto(n, (d - 1) as nat, interaction_only) + level(n, d, interaction_only)
    }
}

/// The views of a list of vectors.
pub open spec fn vecs_view(s: Seq<Vec<usize>>) -> Seq<Seq<usize>> {
    s.map_values(|v: Vec<usize>| v@)
}

/// `[p]` followed by `v`.
fn prepend(p: usize, v: &Vec<usize>) -> (r: Vec<usize>)
    ensures
        r@ == seq![p] + v@,
{
    let mut w: Vec<usize> = Vec::new();
    w.push(p);
    for i in 0..v.len()
        invariant
            w@ == seq![p] + v@.take(i as int),
    {
        w.push(v[i]);
        assert(v@.take(i + 1) =~= v@.take(i as int).push(v@[i as int]));
        assert(w@ =~= seq![p] + v@.take(i + 1));
    }
    assert(v@.take(v.len() as int) =~= v@);
    w
}

/// `v` followed by `x`.
fn appended(v: &Vec<usize>, x: usize) -> (r: Vec<usize>)
    ensures
        r@ == v@.push(x),
{
    let mut w: Vec<usize> = Vec::new();
    for i in 0..v.len()
        invariant
            w@ == v@.take(i as int),
    {
        w.push(v[i]);
        assert(w@ =~= v@.take(i + 1));
    }
    w.push(x);
    assert(w@ =~= v@.push(x));
    w
}

/// The vectors of length `n` whose entries sum to `t`, in lexicographic order.
fn exact_sum_vecs(n: usize, t: usize) -> (r: Vec<Vec<usize>>)
    ensures
        vecs_view(r@) == exact_sum(n as nat, t as nat),
    decreases n,
{
    let mut out: Vec<Vec<usize>> = Vec::new();
    if n == 0 {
        if t == 0 {
            out.push(Vec::new());
            assert(vecs_view(out@) =~= seq![Seq::<usize>::empty()]);
        } else {
            assert(vecs_view(out@) =~= Seq::<Seq<usize>>::empty());
        }
        return out;
    }
    let m: usize = n - 1;
    let mut p: usize = 0;
    let mut done = false;
    assert(vecs_view(out@) =~= Seq::<Seq<usize>>::empty());
    while !done
        invariant
            m == n - 1,
            p <= t,
            !done ==> vecs_view(out@) + with_first(m as nat, t as nat, p as nat) == with_first(m as nat, t as nat, 0),
            done ==> vecs_view(out@) == with_first(m as nat, t as nat, 0),
        decreases t - p + (if done { 0int } else { 1int }),
    {
        let sub = exact_sum_vecs(m, t - p);
        let ghost before = vecs_view(out@);
        let ghost src = exact_sum(m as nat, (t - p) as nat);
        let ghost block = src.map_values(|v: Seq<usize>| seq![p] + v);
        assert(vecs_view(sub@) == src);
        for k in 0..sub.len()
            invariant
                vecs_view(sub@) == src,
                block == src.map_values(|v: Seq<usize>| seq![p] + v),
                vecs_view(out@) == before + block.take(k as int),
        {
            let w = prepend(p, &sub[k]);
            let ghost prev = vecs_view(out@);
            out.push(w);
            proof {
                assert(src[k as int] == sub@[k as int]@);
                assert(block[k as int] == w@);
                assert(vecs_view(out@) =~= prev.push(w@));
                assert(block.take(k + 1) =~= block.take(k as int).push(block[k as int]));
                assert(vecs_view(out@) =~= before + block.take(k + 1));
            }
        }
        proof {
            assert(block.take(sub.len() as int) =~= block);
            assert(with_first(m as nat, t as nat, p as nat) == block + with_first(m as nat, t as nat, (p + 1) as nat));
            assert(vecs_view(out@) + with_first(m as nat, t as nat, (p + 1) as nat) =~= before + with_first(m as nat, t as nat, p as nat));
        }
        if p == t {
            proof {
                assert(with_first(m as nat, t as nat, (p + 1) as nat) == Seq::<Seq<usize>>::empty());
                assert(vecs_view(out@) =~= vecs_view(out@) + Seq::<Seq<usize>>::empty());
            }
            done = true;
        } else {
            p = p + 1;
        }
    }
    out
}

/// The 0/1 vectors of length `n` with `t` ones, in ascending mask order.
fn binary_sum_vecs(n: usize, t: usize) -> (r: Vec<Vec<usize>>)
    ensures
        vecs_view(r@) == binary_sum(n as nat, t as nat),
    decreases n,
{
    let mut out: Vec<Vec<usize>> = Vec::new();
    if n == 0 {
        if t == 0 {
            out.push(Vec::new());
            assert(vecs_view(out@) =~= seq![Seq::<usize>::empty()]);
        } else {
            assert(vecs_view(out@) =~= Seq::<Seq<usize>>::empty());
        }
        return out;
    }
    let zeros = binary_sum_vecs(n - 1, t);
    let ghost a = binary_sum((n - 1) as nat, t as nat).map_values(|v: Seq<usize>| v.push(0usize));
    for k in 0..zeros.len()
        invariant
            vecs_view(zeros@) == binary_sum((n - 1) as nat, t as nat),
            a == binary_sum((n - 1) as nat, t as nat).map_values(|v: Seq<usize>| v.push(0usize)),
            vecs_view(out@) == a.take(k as int),
    {
        let w = appended(&zeros[k], 0);
        let ghost prev = vecs_view(out@);
        out.push(w);
        proof {
            assert(binary_sum((n - 1) as nat, t as nat)[k as int] == zeros@[k as int]@);
            assert(a[k as int] == w@);
            assert(vecs_view(out@) =~= prev.push(w@));
            assert(vecs_view(out@) =~= a.take(k + 1));
        }
    }
    assert(a.take(zeros.len() as int) =~= a);
    assert(binary_sum(n as nat, t as nat) == a + if t > 0 {
        binary_sum((n - 1) as nat, (t - 1) as nat).map_values(|v: Seq<usize>| v.push(1usize))
    } else {
        Seq::<Seq<usize>>::empty()
    });
    if t > 0 {
        let ones = binary_sum_vecs(n - 1, t - 1);
        let ghost b = binary_sum((n - 1) as nat, (t - 1) as nat).map_values(|v: Seq<usize>| v.push(1usize));
        for k in 0..ones.len()
            invariant
                vecs_view(ones@) == binary_sum((n - 1) as nat, (t - 1) as nat),
                b == binary_sum((n - 1) as nat, (t - 1) as nat).map_values(|v: Seq<usize>| v.push(1usize)),
                vecs_view(out@) == a + b.take(k as int),
        {
            let w = appended(&ones[k], 1);
            let ghost prev = vecs_view(out@);
            out.push(w);
            proof {
                assert(binary_sum((n - 1) as nat, (t - 1) as nat)[k as int] == ones@[k as int]@);
                assert(b[k as int] == w@);
                assert(vecs_view(out@) =~= prev.push(w@));
                assert(vecs_view(out@) =~= a + b.take(k + 1));
            }
        }
        assert(b.take(ones.len() as int) =~= b);
    } else {
        assert(vecs_view(out@) =~= a + Seq::<Seq<usize>>::empty());
    }
    out
}

/// The nonzero exponents of `p` as (position, exponent) pairs, in order.
pub open spec fn factors(p: Seq<usize>) -> Seq<(usize, usize)>
    decreases p.len(),
{
    if p.len() == 0 {
        Seq::empty()
    } else if p.last() > 0 {
        factors(p.drop_last()).push(((p.len() - 1) as usize, p.last()))
    } else {
        factors(p.drop_last())
    }
}

/// The names of the columns with a nonzero exponent in `p`, in order.
pub open spec fn used_names(cols: Seq<Seq<char>>, p: Seq<usize>) -> Seq<Seq<char>>
    decreases p.len(),
{
    if p.len() == 0 {
        Seq::empty()
    } else if p.last() > 0 {
        used_names(cols, p.drop_last()).push(cols[p.len() - 1])
    } else {
        used_names(cols, p.drop_last())
    }
}

/// The name of the output column of `p`: the used column names joined with
/// `_`, then `_inter` for a product of several columns, or `^` for a power
/// above one of a single column.
pub open spec fn term_name(cols: Seq<Seq<char>>, p: Seq<usize>) -> Seq<char> {
    let base = joined(used_names(cols, p), "_"@);
    if used_names(cols, p).len() > 1 {
        base + "_inter"@
    } else if exists|j: int| 0 <= j < p.len() && p[j] > 1 {
        base + "^"@
    } else {
        base
    }
}

/// One planned output column: its name and the (input position, exponent)
/// factors it multiplies.
pub struct PolyTerm {
    /// Output column name.
    pub name: String,
    /// (position in the fitted input columns, exponent) for each factor.
    pub factors: Vec<(usize, usize)>,
}

/// The output columns a transform produces, in order.
pub struct PolyPlan {
    /// Whether a `bias` column of ones comes first.
    pub bias: bool,
    /// The fitted input columns the factors refer to.
    pub inputs: Vec<String>,
    /// The product columns, in order.
    pub terms: Vec<PolyTerm>,
}

/// The term for the exponent vector `p` over the input columns `cols`.
fn build_term(cols: &Vec<String>, p: &Vec<usize>) -> (r: PolyTerm)
    requires
        p.len() <= cols.len(),
    ensures
        r.name@ == term_name(strings_view(cols@), p@),
        r.factors@ == factors(p@),
{
    let ghost cv = strings_view(cols@);
    proof {
        reveal_strlit("_");
        reveal_strlit("^");
        reveal_strlit("_inter");
    }
    let mut name = String::new();
    let mut count: usize = 0;
    let mut above_one = false;
    let mut fs: Vec<(usize, usize)> = Vec::new();
    for j in 0..p.len()
        invariant
            cv == strings_view(cols@),
            p.len() <= cols.len(),
            name@ == joined(used_names(cv, p@.take(j as int)), "_"@),
            count == used_names(cv, p@.take(j as int)).len(),
            count <= j,
            above_one <==> exists|k: int| 0 <= k < j && p@[k] > 1,
            fs@ == factors(p@.take(j as int)),
    {
        let ghost pre = p@.take(j as int);
        let ghost cur = p@.take(j + 1);
        proof {
            assert(cur.drop_last() =~= pre);
            assert(cur.last() == p@[j as int]);
            assert(cur.len() - 1 == j);
        }
        if p[j] > 0 {
            let ghost u = used_names(cv, pre);
            let ghost old_name = name@;
            proof {
                reveal_strlit("_");
            }
            if count > 0 {
                push_char(&mut name, '_');
                assert(name@ =~= old_name + "_"@);
            }
            let ghost mid = name@;
            push_str(&mut name, cols[j].as_str());
            proof {
                assert(cv[j as int] == cols@[j as int]@);
                assert(name@ == mid + cv[j as int]);
            }
            proof {
                assert(used_names(cv, cur) == u.push(cv[j as int]));
                assert(u.push(cv[j as int]).drop_last() =~= u);
                if u.len() == 0 {
                    assert(name@ =~= cv[j as int]);
                } else {
                    assert(name@ =~= joined(u, "_"@) + "_"@ + cv[j as int]);
                }
            }
            count = count + 1;
            fs.push((j, p[j]));
        }
        if p[j] > 1 {
            above_one = true;
        }
    }
    proof {
        assert(p@.take(p.len() as int) =~= p@);
    }
    let ghost base = name@;
    if count > 1 {
        push_str(&mut name, "_inter");
    } else if above_one {
        push_char(&mut name, '^');
        assert(name@ =~= base + "^"@);
    }
    PolyTerm { name, factors: fs }
}

/// The names of the output columns: `bias` first when asked, then one per
/// exponent vector.
pub open spec fn output_names(cols: Seq<Seq<char>>, powers: Seq<Seq<usize>>, bias: bool) -> Seq<Seq<char>> {
    (if bias { seq!["bias"@] } else { Seq::empty() }) + powers.map_values(|p: Seq<usize>| term_name(cols, p))
}

/// Whether an exponent vector of `powers` uses a column of `cols` missing from `f`.
pub open spec fn uses_missing(f: FrameView, cols: Seq<Seq<char>>, powers: Seq<Seq<usize>>) -> bool {
    exists|k: int, j: int|
        #![trigger powers[k][j], cols[j]]
        0 <= k < powers.len() && 0 <= j < powers[k].len() && powers[k][j] > 0 && !f.has(cols[j])
}

/// Whether two names of `names` are equal.
fn has_repeat(names: &Vec<String>) -> (r: bool)
    ensures
        r == !distinct_seq(strings_view(names@)),
{
    let ghost v = strings_view(names@);
    for i in 0..names.len()
        invariant
            v == strings_view(names@),
            forall|a: int, b: int| 0 <= a < i && 0 <= b < i && a != b ==> #[trigger] v[a] != #[trigger] v[b],
    {
        for j in 0..i
            invariant
                v == strings_view(names@),
                i < names.len(),
                forall|a: int, b: int| 0 <= a < i && 0 <= b < i && a != b ==> #[trigger] v[a] != #[trigger] v[b],
                forall|b: int| 0 <= b < j ==> v[b] != v[i as int],
        {
            if str_eq(names[j].as_str(), names[i].as_str()) {
                assert(v[j as int] == v[i as int]);
                return true;
            }
        }
    }
    false
}

/// Generate polynomial and interaction features of the `Float64` columns.
pub struct PolynomialFeatures {
    fitted: bool,
    degree: usize,
    interaction_only: bool,
    include_bias: bool,
    input_columns: Option<Vec<String>>,
}

impl PolynomialFeatures {
    #[verifier::type_invariant]
    spec fn inv(&self) -> bool {
        &&& self.degree >= 1
        &&& self.fitted ==> self.input_columns is Some
    }

    /// Whether a fit has succeeded.
    pub closed spec fn is_fitted(&self) -> bool {
        self.fitted
    }

    /// The maximum total degree.
    pub closed spec fn max_degree(&self) -> nat {
        self.degree as nat
    }

    /// Whether only interaction terms are generated.
    pub closed spec fn interactions(&self) -> bool {
        self.interaction_only
    }

    /// Whether a bias column comes first.
    pub closed spec fn bias(&self) -> bool {
        self.include_bias
    }

    /// The `Float64` columns found by the last fit.
    pub closed spec fn inputs(&self) -> Seq<Seq<char>> {
        match self.input_columns {
            Some(v) => strings_view(v@),
            None => Seq::empty(),
        }
    }

    /// A generator of all terms up to `degree`, with a bias column.
    pub fn new(degree: usize) -> (r: Self)
        requires
            degree >= 1,
        ensures
            !r.is_fitted(),
            r.max_degree() == degree,
            !r.interactions(),
            r.bias(),
    {
        Self { fitted: false, degree, interaction_only: false, include_bias: true, input_columns: None }
    }

    /// Whether to generate only interaction terms (`a_b_inter`, ...): no
    /// single columns and no powers. Default: `false`.
    pub fn interaction_only(self, value: bool) -> (r: Self)
        ensures
            r.is_fitted() == self.is_fitted(),
            r.max_degree() == self.max_degree(),
            r.interactions() == value,
            r.bias() == self.bias(),
            r.inputs() == self.inputs(),
    {
        proof {
            use_type_invariant(&self);
        }
        Self {
            fitted: self.fitted,
            degree: self.degree,
            interaction_only: value,
            include_bias: self.include_bias,
            input_columns: self.input_columns,
        }
    }

    /// Whether to put a `bias` column of ones first. Default: `true`.
    pub fn include_bias(self, value: bool) -> (r: Self)
        ensures
            r.is_fitted() == self.is_fitted(),
            r.max_degree() == self.max_degree(),
            r.interactions() == self.interactions(),
            r.bias() == value,
            r.inputs() == self.inputs(),
    {
        proof {
            use_type_invariant(&self);
        }
        Self {
            fitted: self.fitted,
            degree: self.degree,
            interaction_only: self.interaction_only,
            include_bias: value,
            input_columns: self.input_columns,
        }
    }

    /// The exponent vectors over `n_features` columns of total degree 1 to
    /// `degree` (2 to `degree`, 0/1 entries, for interaction terms only), by
    /// degree and then in lexicographic (resp. bit mask) order.
    pub fn generate_powers(n_features: usize, degree: usize, interaction_only: bool) -> (r: Vec<Vec<usize>>)
        requires
            interaction_only ==> n_features < usize::BITS,
        ensures
            vecs_view(r@) == powers_upto(n_features as nat, degree as nat, interaction_only),
    {
        let mut out: Vec<Vec<usize>> = Vec::new();
        let mut t: usize = 0;
        assert(vecs_view(out@) =~= Seq::<Seq<usize>>::empty());
        while t < degree
            invariant
                t <= degree,
                vecs_view(out@) == powers_upto(n_features as nat, t as nat, interaction_only),
            decreases degree - t,
        {
            t = t + 1;
            let lvl: Vec<Vec<usize>> = if interaction_only {
                if t >= 2 { binary_sum_vecs(n_features, t) } else { Vec::new() }
            } else {
                exact_sum_vecs(n_features, t)
            };
            let ghost before = out@;
            let ghost lv = level(n_features as nat, t as nat, interaction_only);
            assert(vecs_view(lvl@) =~= lv);
            let mut lvl = lvl;
            let ghost lvl0 = lvl@;
            out.append(&mut lvl);
            assert(vecs_view(out@) =~= vecs_view(before) + vecs_view(lvl0));
        }
        out
    }

    /// The output columns of a transform of `x`.
    ///
    /// Fails with `NotFitted` before a fit; with `InvalidInput` when a term
    /// uses a fitted column missing from `x`; with `Computation` when there
    /// is no output column, when two output columns share a name (as `a^`
    /// does for every power of `a` when the degree is above 2), or when
    /// interaction terms are asked of more columns than a bit mask holds.
    pub fn plan(&self, x: &Frame) -> (r: Result<PolyPlan, Error>)
        ensures
            !self.is_fitted() ==> r matches Err(Error::NotFitted(_)),
            self.is_fitted() && self.interactions() && self.inputs().len() >= usize::BITS ==> r matches Err(Error::Computation(_)),
            self.is_fitted() && (self.interactions() ==> self.inputs().len() < usize::BITS) ==> ({
                let cols = self.inputs();
                let powers = powers_upto(cols.len(), self.max_degree(), self.interactions());
                let names = output_names(cols, powers, self.bias());
                if uses_missing(x@, cols, powers) {
                    r matches Err(Error::InvalidInput(_))
                } else if names.len() == 0 || !distinct_seq(names) {
                    r matches Err(Error::Computation(_))
                } else {
                    r matches Ok(plan) && {
                        &&& plan.bias == self.bias()
                        &&& strings_view(plan.inputs@) == cols
                        &&& plan.terms.len() == powers.len()
                        &&& forall|k: int| 0 <= k < powers.len() ==> (#[trigger] plan.terms@[k]).name@ == term_name(cols, powers[k])
                            && plan.terms@[k].factors@ == factors(powers[k])
                    }
                }
            }),
    {
        proof {
            use_type_invariant(self);
        }
        if !self.fitted {
            return Err(Error::NotFitted(owned("PolynomialFeatures has not been fitted. Call .fit(dataframe, target) before .transform().")));
        }
        let cols = match &self.input_columns {
            Some(c) => c,
            None => {
                return Err(Error::NotFitted(owned("PolynomialFeatures has not been fitted.")));
            },
        };
        let n = cols.len();
        if self.interaction_only && n >= usize::BITS as usize {
            return Err(Error::Computation(owned("PolynomialFeatures: too many columns for interaction terms.")));
        }
        let ghost cv = strings_view(cols@);
        let powers = Self::generate_powers(n, self.degree, self.interaction_only);
        let ghost pw = vecs_view(powers@);
        proof {
            lemma_powers_len(n as nat, self.degree as nat, self.interaction_only);
        }
        let mut terms: Vec<PolyTerm> = Vec::new();
        let mut names: Vec<String> = Vec::new();
        if self.include_bias {
            names.push(owned("bias"));
        }
        let ghost head: Seq<Seq<char>> = if self.include_bias { seq!["bias"@] } else { Seq::empty() };
        assert(strings_view(names@) =~= head);
        for k in 0..powers.len()
            invariant
                cv == strings_view(cols@),
                n == cols.len(),
                self.fitted,
                self.inputs() == cv,
                self.interaction_only ==> n < usize::BITS,
                pw == vecs_view(powers@),
                pw == powers_upto(n as nat, self.degree as nat, self.interaction_only),
                forall|a: int| 0 <= a < pw.len() ==> (#[trigger] pw[a]).len() == n,
                head == (if self.include_bias { seq!["bias"@] } else { Seq::<Seq<char>>::empty() }),
                terms.len() == k,
                forall|a: int| 0 <= a < k ==> (#[trigger] terms@[a]).name@ == term_name(cv, pw[a])
                    && terms@[a].factors@ == factors(pw[a]),
                strings_view(names@) == head + pw.take(k as int).map_values(|p: Seq<usize>| term_name(cv, p)),
                forall|a: int, j: int|
                    #![trigger pw[a][j], cv[j]]
                    0 <= a < k && 0 <= j < pw[a].len() && pw[a][j] > 0 ==> x@.has(cv[j]),
        {
            proof {
                assert(pw[k as int] == powers@[k as int]@);
            }
            let width = powers[k].len();
            for j in 0..width
                invariant
                    cv == strings_view(cols@),
                    self.fitted,
                    self.inputs() == cv,
                    self.interaction_only ==> n < usize::BITS,
                    pw == vecs_view(powers@),
                    pw == powers_upto(n as nat, self.degree as nat, self.interaction_only),
                    k < powers.len(),
                    width == powers@[k as int].len(),
                    pw[k as int] == powers@[k as int]@,
                    powers@[k as int].len() == n,
                    n == cols.len(),
                    forall|b: int| 0 <= b < j && #[trigger] pw[k as int][b] > 0 ==> x@.has(cv[b]),
            {
                if powers[k][j] > 0 && x.column(cols[j].as_str()).is_none() {
                    proof {
                        assert(!x@.has(cv[j as int]));
                        assert(pw[k as int][j as int] > 0);
                        assert(uses_missing(x@, cv, pw));
                    }
                    let head_msg = join3("PolynomialFeatures.transform: column '", cols[j].as_str(), "' not found. ");
                    return Err(Error::InvalidInput(concat(head_msg.as_str(), "The transformer was fitted on other columns.")));
                }
            }
            let term = build_term(cols, &powers[k]);
            let ghost before = strings_view(names@);
            names.push(term.name.clone());
            terms.push(term);
            proof {
                assert(pw.take(k + 1) =~= pw.take(k as int).push(pw[k as int]));
                assert(strings_view(names@) =~= before.push(term_name(cv, pw[k as int])));
                assert(pw.take(k + 1).map_values(|p: Seq<usize>| term_name(cv, p)) =~= pw.take(k as int).map_values(
                    |p: Seq<usize>| term_name(cv, p),
                ).push(term_name(cv, pw[k as int])));
            }
        }
        proof {
            assert(pw.take(powers.len() as int) =~= pw);
            assert(strings_view(names@) == output_names(cv, pw, self.include_bias));
            assert(!uses_missing(x@, cv, pw));
        }
        if names.len() == 0 {
            return Err(Error::Computation(owned("PolynomialFeatures: no features were generated. Ensure degree >= 1 and the input has at least one f64 column.")));
        }
        if has_repeat(&names) {
            return Err(Error::Computation(owned("failed to create polynomial features: duplicate column names.")));
        }
        let inputs = crate::text::copy_strings(cols);
        Ok(PolyPlan { bias: self.include_bias, inputs, terms })
    }
}

/// Every exponent vector over `n` columns has `n` entries.
proof fn lemma_powers_len(n: nat, d: nat, io: bool)
    requires
        d <= usize::MAX,
    ensures
        forall|a: int| 0 <= a < powers_upto(n, d, io).len() ==> (#[trigger] powers_upto(n, d, io)[a]).len() == n,
    decreases d,
{
    if d > 0 {
        lemma_powers_len(n, (d - 1) as nat, io);
        let lv = level(n, d, io);
        if io {
            if d >= 2 {
                lemma_binary_sum_shape(n, d);
            }
        } else {
            lemma_exact_sum_shape(n, d);
        }
        let pre = powers_upto(n, (d - 1) as nat, io);
        assert forall|a: int| 0 <= a < powers_upto(n, d, io).len() implies (#[trigger] powers_upto(n, d, io)[a]).len() == n by {
            if a >= pre.len() {
                assert(powers_upto(n, d, io)[a] == lv[a - pre.len()]);
            } else {
                assert(powers_upto(n, d, io)[a] == pre[a]);
            }
        }
    }
}

/// The vectors of `exact_sum(n, t)` have `n` entries summing to `t`.
pub proof fn lemma_exact_sum_shape(n: nat, t: nat)
    requires
        t <= usize::MAX,
    ensures
        forall|a: int| 0 <= a < exact_sum(n, t).len() ==> (#[trigger] exact_sum(n, t)[a]).len() == n
            && total(exact_sum(n, t)[a]) == t,
    decreases n, 0int,
{
    if n > 0 {
        lemma_with_first_shape((n - 1) as nat, t, 0);
        assert(exact_sum(n, t) == with_first((n - 1) as nat, t, 0));
    } else {
        assert(total(Seq::<usize>::empty()) == 0);
        if t == 0 {
            assert(exact_sum(n, t) == seq![Seq::<usize>::empty()]);
        } else {
            assert(exact_sum(n, t) == Seq::<Seq<usize>>::empty());
        }
    }
}

/// The vectors of `with_first(n, t, p)` have `n + 1` entries summing to `t`.
pub proof fn lemma_with_first_shape(n: nat, t: nat, p: nat)
    requires
        t <= usize::MAX,
    ensures
        forall|a: int| 0 <= a < with_first(n, t, p).len() ==> (#[trigger] with_first(n, t, p)[a]).len() == n + 1
            && total(with_first(n, t, p)[a]) == t,
    decreases n, t - p + 1,
{
    if p <= t {
        lemma_exact_sum_shape(n, (t - p) as nat);
        lemma_with_first_shape(n, t, p + 1);
        let block = exact_sum(n, (t - p) as nat).map_values(|v: Seq<usize>| seq![p as usize] + v);
        let rest = with_first(n, t, p + 1);
        assert(with_first(n, t, p) == block + rest);
        assert forall|a: int| 0 <= a < with_first(n, t, p).len() implies (#[trigger] with_first(n, t, p)[a]).len() == n + 1
            && total(with_first(n, t, p)[a]) == t by {
            if a < block.len() {
                let v = exact_sum(n, (t - p) as nat)[a];
                assert(with_first(n, t, p)[a] == seq![p as usize] + v);
                lemma_total_prepend(p as usize, v);
            } else {
                assert(with_first(n, t, p)[a] == rest[a - block.len()]);
            }
        }
    }
}

/// The sum of `[x] + v` is `x` plus the sum of `v`.
pub proof fn lemma_total_prepend(x: usize, v: Seq<usize>)
    ensures
        total(seq![x] + v) == x + total(v),
    decreases v.len(),
{
    let s = seq![x] + v;
    if v.len() == 0 {
        assert(s =~= seq![x]);
        assert(s.drop_last() =~= Seq::<usize>::empty());
        assert(total(Seq::<usize>::empty()) == 0);
        assert(total(s) == total(s.drop_last()) + s.last());
    } else {
        lemma_total_prepend(x, v.drop_last());
        assert(s.drop_last() =~= seq![x] + v.drop_last());
        assert(s.last() == v.last());
        assert(total(s) == total(s.drop_last()) + s.last());
    }
}

/// The vectors of `binary_sum(n, t)` have `n` entries, each 0 or 1, with `t` ones.
pub proof fn lemma_binary_sum_shape(n: nat, t: nat)
    ensures
        forall|a: int| 0 <= a < binary_sum(n, t).len() ==> (#[trigger] binary_sum(n, t)[a]).len() == n
            && total(binary_sum(n, t)[a]) == t
            && forall|j: int| 0 <= j < n ==> binary_sum(n, t)[a][j] <= 1,
    decreases n,
{
    if n > 0 {
        lemma_binary_sum_shape((n - 1) as nat, t);
        if t > 0 {
            lemma_binary_sum_shape((n - 1) as nat, (t - 1) as nat);
        }
        let zs = binary_sum((n - 1) as nat, t);
        let a0 = zs.map_values(|v: Seq<usize>| v.push(0usize));
        assert forall|a: int| 0 <= a < binary_sum(n, t).len() implies (#[trigger] binary_sum(n, t)[a]).len() == n
            && total(binary_sum(n, t)[a]) == t
            && forall|j: int| 0 <= j < n ==> binary_sum(n, t)[a][j] <= 1 by {
            if a < a0.len() {
                let v = zs[a];
                assert(binary_sum(n, t)[a] == v.push(0usize));
                assert(v.push(0usize).drop_last() =~= v);
            } else {
                let os = binary_sum((n - 1) as nat, (t - 1) as nat);
                let v = os[a - a0.len()];
                assert(binary_sum(n, t)[a] == v.push(1usize));
                assert(v.push(1usize).drop_last() =~= v);
            }
        }
    } else {
        assert(total(Seq::<usize>::empty()) == 0);
    }
}

/// A sequence that holds `x` keeps holding it after a prefix or a suffix is added.
proof fn lemma_concat_contains(a: Seq<Seq<usize>>, b: Seq<Seq<usize>>, x: Seq<usize>)
    ensures
        a.contains(x) ==> (a + b).contains(x),
        b.contains(x) ==> (a + b).contains(x),
{
    if a.contains(x) {
        let i = choose|i: int| 0 <= i < a.len() && a[i] == x;
        assert((a + b)[i] == x);
    }
    if b.contains(x) {
        let i = choose|i: int| 0 <= i < b.len() && b[i] == x;
        assert((a + b)[a.len() + i] == x);
    }
}

/// `v` splits into its first entry and the rest.
proof fn lemma_split_first(v: Seq<usize>)
    requires
        v.len() > 0,
    ensures
        v == seq![v[0]] + v.drop_first(),
        total(v) == v[0] + total(v.drop_first()),
{
    assert(v =~= seq![v[0]] + v.drop_first());
    lemma_total_prepend(v[0], v.drop_first());
}

/// Every vector of `n` entries summing to `t` is in `exact_sum(n, t)`.
pub proof fn lemma_exact_sum_complete(n: nat, t: nat, v: Seq<usize>)
    requires
        v.len() == n,
        total(v) == t,
    ensures
        exact_sum(n, t).contains(v),
    decreases n,
{
    if n == 0 {
        assert(v =~= Seq::<usize>::empty());
        assert(exact_sum(n, t)[0] == v);
    } else {
        lemma_split_first(v);
        let rest = v.drop_first();
        lemma_total_nonneg(rest);
        lemma_exact_sum_complete((n - 1) as nat, (t - v[0]) as nat, rest);
        lemma_with_first_contains((n - 1) as nat, t, 0, v[0] as nat, rest);
    }
}

/// Sums of entries are never negative.
proof fn lemma_total_nonneg(v: Seq<usize>)
    ensures
        total(v) >= 0,
    decreases v.len(),
{
    if v.len() > 0 {
        lemma_total_nonneg(v.drop_last());
    }
}

/// `with_first(m, t, p)` holds `[x] + rest` when `p <= x <= t` and `rest`
/// is in `exact_sum(m, t - x)`.
proof fn lemma_with_first_contains(m: nat, t: nat, p: nat, x: nat, rest: Seq<usize>)
    requires
        p <= x <= t,
        x <= usize::MAX,
        exact_sum(m, (t - x) as nat).contains(rest),
    ensures
        with_first(m, t, p).contains(seq![x as usize] + rest),
    decreases x - p,
{
    let block = exact_sum(m, (t - p) as nat).map_values(|v: Seq<usize>| seq![p as usize] + v);
    let tail = with_first(m, t, p + 1);
    assert(with_first(m, t, p) == block + tail);
    if p == x {
        let src = exact_sum(m, (t - x) as nat);
        let i = choose|i: int| 0 <= i < src.len() && #[trigger] src[i] == rest;
        assert(block[i] == seq![x as usize] + rest);
        lemma_concat_contains(block, tail, seq![x as usize] + rest);
    } else {
        lemma_with_first_contains(m, t, p + 1, x, rest);
        lemma_concat_contains(block, tail, seq![x as usize] + rest);
    }
}

/// Every 0/1 vector of `n` entries with `t` ones is in `binary_sum(n, t)`.
pub proof fn lemma_binary_sum_complete(n: nat, t: nat, v: Seq<usize>)
    requires
        v.len() == n,
        total(v) == t,
        forall|j: int| 0 <= j < n ==> v[j] <= 1,
    ensures
        binary_sum(n, t).contains(v),
    decreases n,
{
    if n == 0 {
        assert(v =~= Seq::<usize>::empty());
        assert(binary_sum(n, t)[0] == v);
    } else {
        let pre = v.drop_last();
        assert(v =~= pre.push(v.last()));
        lemma_total_nonneg(pre);
        let zs = binary_sum((n - 1) as nat, t).map_values(|w: Seq<usize>| w.push(0usize));
        let os = if t > 0 {
            binary_sum((n - 1) as nat, (t - 1) as nat).map_values(|w: Seq<usize>| w.push(1usize))
        } else {
            Seq::empty()
        };
        assert(binary_sum(n, t) == zs + os);
        if v.last() == 0 {
            lemma_binary_sum_complete((n - 1) as nat, t, pre);
            let src = binary_sum((n - 1) as nat, t);
            let i = choose|i: int| 0 <= i < src.len() && #[trigger] src[i] == pre;
            assert(zs[i] == v);
            lemma_concat_contains(zs, os, v);
        } else {
            lemma_binary_sum_complete((n - 1) as nat, (t - 1) as nat, pre);
            let src = binary_sum((n - 1) as nat, (t - 1) as nat);
            let i = choose|i: int| 0 <= i < src.len() && #[trigger] src[i] == pre;
            assert(os[i] == v);
            lemma_concat_contains(zs, os, v);
        }
    }
}

/// Each level lands in `powers_upto` for every degree at least its own.
proof fn lemma_upto_contains(n: nat, d: nat, t: nat, io: bool, v: Seq<usize>)
    requires
        1 <= t <= d,
        level(n, t, io).contains(v),
    ensures
        powers_upto(n, d, io).contains(v),
    decreases d,
{
    let pre = powers_upto(n, (d - 1) as nat, io);
    assert(powers_upto(n, d, io) == pre + level(n, d, io));
    if t == d {
        lemma_concat_contains(pre, level(n, d, io), v);
    } else {
        lemma_upto_contains(n, (d - 1) as nat, t, io, v);
        lemma_concat_contains(pre, level(n, d, io), v);
    }
}

/// Each vector of `powers_upto` comes from one of its levels.
proof fn lemma_upto_member(n: nat, d: nat, io: bool, a: int)
    requires
        0 <= a < powers_upto(n, d, io).len(),
    ensures
        exists|t: nat| 1 <= t <= d && (#[trigger] level(n, t, io)).contains(powers_upto(n, d, io)[a]),
    decreases d,
{
    let pre = powers_upto(n, (d - 1) as nat, io);
    let lv = level(n, d, io);
    assert(powers_upto(n, d, io) == pre + lv);
    if a < pre.len() {
        lemma_upto_member(n, (d - 1) as nat, io, a);
        assert(powers_upto(n, d, io)[a] == pre[a]);
    } else {
        assert(powers_upto(n, d, io)[a] == lv[a - pre.len()]);
        assert(lv.contains(powers_upto(n, d, io)[a]));
    }
}

/// Every polynomial combination is generated: an exponent vector over `n`
/// columns of total degree 1 to `d` is among the generated powers; with
/// interaction terms only, every 0/1 vector with 2 to `d` ones is.
pub proof fn law_generate_powers_complete(n: nat, d: nat, interaction_only: bool, v: Seq<usize>)
    requires
        v.len() == n,
        total(v) <= d,
        interaction_only ==> total(v) >= 2 && forall|j: int| 0 <= j < n ==> v[j] <= 1,
        !interaction_only ==> total(v) >= 1,
    ensures
        powers_upto(n, d, interaction_only).contains(v),
{
    let t = total(v) as nat;
    if interaction_only {
        lemma_binary_sum_complete(n, t, v);
    } else {
        lemma_exact_sum_complete(n, t, v);
    }
    lemma_upto_contains(n, d, t, interaction_only, v);
}

/// Putting the same entry in front of two vectors keeps them apart.
proof fn lemma_prepend_injective(p: usize, v: Seq<usize>, w: Seq<usize>)
    requires
        seq![p] + v == seq![p] + w,
    ensures
        v == w,
{
    assert(seq![p].len() == 1);
    assert((seq![p] + v).len() == v.len() + 1);
    assert((seq![p] + w).len() == w.len() + 1);
    assert(v =~= (seq![p] + v).subrange(1, v.len() + 1int));
    assert(w =~= (seq![p] + w).subrange(1, w.len() + 1int));
}

/// The vectors of `exact_sum(n, t)` are pairwise different.
proof fn lemma_exact_sum_distinct(n: nat, t: nat)
    requires
        t <= usize::MAX,
    ensures
        exact_sum(n, t).no_duplicates(),
    decreases n, 0int,
{
    if n > 0 {
        lemma_with_first_distinct((n - 1) as nat, t, 0);
        assert(exact_sum(n, t) == with_first((n - 1) as nat, t, 0));
    } else if t == 0 {
        assert(exact_sum(n, t) == seq![Seq::<usize>::empty()]);
    } else {
        assert(exact_sum(n, t) == Seq::<Seq<usize>>::empty());
    }
}

/// The vectors of `with_first(n, t, p)` are pairwise different and start
/// with an entry of at least `p`.
proof fn lemma_with_first_distinct(n: nat, t: nat, p: nat)
    requires
        t <= usize::MAX,
    ensures
        with_first(n, t, p).no_duplicates(),
        forall|a: int| 0 <= a < with_first(n, t, p).len() ==> (#[trigger] with_first(n, t, p)[a]).len() > 0
            && with_first(n, t, p)[a][0] >= p,
    decreases n, t - p + 1,
{
    if p <= t {
        lemma_exact_sum_distinct(n, (t - p) as nat);
        lemma_with_first_distinct(n, t, p + 1);
        let es = exact_sum(n, (t - p) as nat);
        let block = es.map_values(|v: Seq<usize>| seq![p as usize] + v);
        let rest = with_first(n, t, p + 1);
        let all = with_first(n, t, p);
        assert(all == block + rest);
        assert forall|a: int| 0 <= a < block.len() implies (#[trigger] all[a]).len() > 0 && all[a][0] == p && all[a] == seq![
            p as usize,
        ] + es[a] by {
            assert(all[a] == block[a]);
        }
        assert forall|a: int| block.len() <= a < all.len() implies (#[trigger] all[a]).len() > 0 && all[a][0] >= p + 1 by {
            assert(all[a] == rest[a - block.len()]);
        }
        assert forall|i: int, j: int| 0 <= i < all.len() && 0 <= j < all.len() && i != j implies all[i] != all[j] by {
            if i < block.len() && j < block.len() {
                if all[i] == all[j] {
                    lemma_prepend_injective(p as usize, es[i], es[j]);
                }
            } else if i >= block.len() && j >= block.len() {
                assert(all[i] == rest[i - block.len()]);
                assert(all[j] == rest[j - block.len()]);
            }
        }
    }
}

/// The vectors of `binary_sum(n, t)` are pairwise different.
proof fn lemma_binary_sum_distinct(n: nat, t: nat)
    ensures
        binary_sum(n, t).no_duplicates(),
    decreases n,
{
    if n > 0 {
        let m = (n - 1) as nat;
        lemma_binary_sum_distinct(m, t);
        lemma_binary_sum_shape(m, t);
        let zs = binary_sum(m, t);
        let a0 = zs.map_values(|v: Seq<usize>| v.push(0usize));
        let all = binary_sum(n, t);
        if t > 0 {
            lemma_binary_sum_distinct(m, (t - 1) as nat);
            lemma_binary_sum_shape(m, (t - 1) as nat);
        }
        let os = if t > 0 { binary_sum(m, (t - 1) as nat) } else { Seq::<Seq<usize>>::empty() };
        let a1 = os.map_values(|v: Seq<usize>| v.push(1usize));
        assert(all == a0 + a1);
        assert forall|a: int| 0 <= a < a0.len() implies (#[trigger] all[a]) == zs[a].push(0usize) && all[a][m as int] == 0
            && all[a].drop_last() == zs[a] by {
            assert(all[a] == a0[a]);
            assert(zs[a].push(0usize).drop_last() =~= zs[a]);
        }
        assert forall|a: int| a0.len() <= a < all.len() implies (#[trigger] all[a]) == os[a - a0.len()].push(1usize)
            && all[a][m as int] == 1 && all[a].drop_last() == os[a - a0.len()] by {
            assert(all[a] == a1[a - a0.len()]);
            assert(os[a - a0.len()].push(1usize).drop_last() =~= os[a - a0.len()]);
        }
        assert forall|i: int, j: int| 0 <= i < all.len() && 0 <= j < all.len() && i != j implies all[i] != all[j] by {
            if i >= a0.len() && j >= a0.len() {
                assert(os.no_duplicates());
            }
        }
    } else if t == 0 {
        assert(binary_sum(n, t) == seq![Seq::<usize>::empty()]);
    } else {
        assert(binary_sum(n, t) == Seq::<Seq<usize>>::empty());
    }
}

/// The vectors of one level are pairwise different and all of total `t`.
proof fn lemma_level_distinct(n: nat, t: nat, io: bool)
    requires
        t <= usize::MAX,
    ensures
        level(n, t, io).no_duplicates(),
        forall|a: int| 0 <= a < level(n, t, io).len() ==> total(#[trigger] level(n, t, io)[a]) == t,
{
    if io {
        if t >= 2 {
            lemma_binary_sum_distinct(n, t);
            lemma_binary_sum_shape(n, t);
        }
    } else if t >= 1 {
        lemma_exact_sum_distinct(n, t);
        lemma_exact_sum_shape(n, t);
    }
}

/// No polynomial combination is generated twice: the generated exponent
/// vectors are pairwise different.
pub proof fn law_generate_powers_distinct(n: nat, d: nat, interaction_only: bool)
    requires
        d <= usize::MAX,
    ensures
        powers_upto(n, d, interaction_only).no_duplicates(),
    decreases d,
{
    if d > 0 {
        let io = interaction_only;
        law_generate_powers_distinct(n, (d - 1) as nat, io);
        lemma_level_distinct(n, d, io);
        let pre = powers_upto(n, (d - 1) as nat, io);
        let lv = level(n, d, io);
        let all = powers_upto(n, d, io);
        assert(all == pre + lv);
        assert forall|a: int| 0 <= a < pre.len() implies total(#[trigger] all[a]) < d by {
            law_generate_powers_sound(n, (d - 1) as nat, io, a);
            assert(all[a] == pre[a]);
        }
        assert forall|a: int| pre.len() <= a < all.len() implies total(#[trigger] all[a]) == d by {
            assert(all[a] == lv[a - pre.len()]);
        }
        assert forall|i: int, j: int| 0 <= i < all.len() && 0 <= j < all.len() && i != j implies all[i] != all[j] by {
            if i < pre.len() && j < pre.len() {
                assert(all[i] == pre[i] && all[j] == pre[j]);
            } else if i >= pre.len() && j >= pre.len() {
                assert(all[i] == lv[i - pre.len()] && all[j] == lv[j - pre.len()]);
            }
        }
    }
}

/// `a` comes before `b` in lexicographic order: at the first entry where
/// they differ, `a`'s is the smaller.
pub open spec fn lex_lt(a: Seq<usize>, b: Seq<usize>) -> bool
    decreases a.len(),
{
    if a.len() == 0 || b.len() == 0 {
        false
    } else if a[0] != b[0] {
        a[0] < b[0]
    } else {
        lex_lt(a.subrange(1, a.len() as int), b.subrange(1, b.len() as int))
    }
}

/// Comparing two vectors with a first entry put in front.
proof fn lemma_lex_prepend(p: usize, q: usize, u: Seq<usize>, w: Seq<usize>)
    ensures
        lex_lt(seq![p] + u, seq![q] + w) == (p < q || (p == q && lex_lt(u, w))),
{
    let a = seq![p] + u;
    let b = seq![q] + w;
    assert(seq![p].len() == 1 && seq![q].len() == 1);
    assert(a.len() == u.len() + 1 && b.len() == w.len() + 1);
    assert(a[0] == p && b[0] == q);
    assert(a.subrange(1, a.len() as int) =~= u);
    assert(b.subrange(1, b.len() as int) =~= w);
}

/// The vectors of `exact_sum(n, t)` are in strictly increasing lexicographic order.
proof fn lemma_exact_sum_sorted(n: nat, t: nat)
    requires
        t <= usize::MAX,
    ensures
        forall|i: int, j: int| 0 <= i < j < exact_sum(n, t).len() ==> lex_lt(#[trigger] exact_sum(n, t)[i], #[trigger] exact_sum(n, t)[j]),
    decreases n, 0int,
{
    if n > 0 {
        lemma_with_first_sorted((n - 1) as nat, t, 0);
        assert(exact_sum(n, t) == with_first((n - 1) as nat, t, 0));
    } else if t == 0 {
        assert(exact_sum(n, t) == seq![Seq::<usize>::empty()]);
    } else {
        assert(exact_sum(n, t) == Seq::<Seq<usize>>::empty());
    }
}

/// The vectors of `with_first(n, t, p)` are in strictly increasing
/// lexicographic order.
proof fn lemma_with_first_sorted(n: nat, t: nat, p: nat)
    requires
        t <= usize::MAX,
    ensures
        forall|i: int, j: int| 0 <= i < j < with_first(n, t, p).len() ==> lex_lt(#[trigger] with_first(n, t, p)[i], #[trigger] with_first(n, t, p)[j]),
    decreases n, t - p + 1,
{
    if p <= t {
        lemma_exact_sum_sorted(n, (t - p) as nat);
        lemma_with_first_sorted(n, t, p + 1);
        lemma_with_first_distinct(n, t, p + 1);
        let es = exact_sum(n, (t - p) as nat);
        let block = es.map_values(|v: Seq<usize>| seq![p as usize] + v);
        let rest = with_first(n, t, p + 1);
        let all = with_first(n, t, p);
        assert(all == block + rest);
        assert forall|i: int, j: int| 0 <= i < j < all.len() implies lex_lt(#[trigger] all[i], #[trigger] all[j]) by {
            if j < block.len() {
                assert(all[i] == seq![p as usize] + es[i]);
                assert(all[j] == seq![p as usize] + es[j]);
                lemma_lex_prepend(p as usize, p as usize, es[i], es[j]);
            } else if i < block.len() {
                let w = rest[j - block.len()];
                assert(all[i] == seq![p as usize] + es[i]);
                assert(all[j] == w);
                assert(w.len() > 0 && w[0] >= p + 1);
                assert(w =~= seq![w[0]] + w.subrange(1, w.len() as int));
                lemma_lex_prepend(p as usize, w[0], es[i], w.subrange(1, w.len() as int));
            } else {
                assert(all[i] == rest[i - block.len()]);
                assert(all[j] == rest[j - block.len()]);
            }
        }
    }
}

/// The bit mask of a vector whose entries are bits: entry `j` is bit `j`.
pub open spec fn bit_mask(v: Seq<usize>) -> int
    decreases v.len(),
{
    if v.len() == 0 {
        0
    } else {
        bit_mask(v.drop_last()) + v.last() * vstd::arithmetic::power2::pow2((v.len() - 1) as nat)
    }
}

/// The mask of a vector of `m` bits lies in `0 .. 2^m`.
proof fn lemma_bit_mask_bounds(v: Seq<usize>)
    requires
        forall|j: int| 0 <= j < v.len() ==> v[j] <= 1,
    ensures
        0 <= bit_mask(v) < vstd::arithmetic::power2::pow2(v.len()),
    decreases v.len(),
{
    vstd::arithmetic::power2::lemma_pow2_pos(v.len());
    if v.len() > 0 {
        let m = (v.len() - 1) as nat;
        lemma_bit_mask_bounds(v.drop_last());
        vstd::arithmetic::power2::lemma_pow2_unfold(v.len());
        if v.last() == 0 {
            assert(v.last() * vstd::arithmetic::power2::pow2(m) == 0);
        } else {
            assert(v.last() == 1);
            assert(v.last() * vstd::arithmetic::power2::pow2(m) == vstd::arithmetic::power2::pow2(m));
        }
    }
}

/// Appending a bit adds it at the top of the mask.
proof fn lemma_bit_mask_push(v: Seq<usize>, x: usize)
    requires
        x <= 1,
    ensures
        bit_mask(v.push(x)) == bit_mask(v) + (if x == 1 { vstd::arithmetic::power2::pow2(v.len()) as int } else { 0 }),
{
    assert(v.push(x).drop_last() =~= v);
    if x == 0 {
        assert(x * vstd::arithmetic::power2::pow2(v.len()) == 0);
    } else {
        assert(x * vstd::arithmetic::power2::pow2(v.len()) == vstd::arithmetic::power2::pow2(v.len()));
    }
}

/// The vectors of `binary_sum(n, t)` come in strictly increasing order of
/// their bit masks.
proof fn lemma_binary_sum_sorted(n: nat, t: nat)
    ensures
        forall|i: int, j: int| 0 <= i < j < binary_sum(n, t).len() ==> bit_mask(#[trigger] binary_sum(n, t)[i]) < bit_mask(
            #[trigger] binary_sum(n, t)[j],
        ),
    decreases n,
{
    if n > 0 {
        let m = (n - 1) as nat;
        lemma_binary_sum_sorted(m, t);
        lemma_binary_sum_shape(m, t);
        let zs = binary_sum(m, t);
        let a0 = zs.map_values(|v: Seq<usize>| v.push(0usize));
        let all = binary_sum(n, t);
        if t > 0 {
            lemma_binary_sum_sorted(m, (t - 1) as nat);
            lemma_binary_sum_shape(m, (t - 1) as nat);
        }
        let os = if t > 0 { binary_sum(m, (t - 1) as nat) } else { Seq::<Seq<usize>>::empty() };
        let a1 = os.map_values(|v: Seq<usize>| v.push(1usize));
        assert(all == a0 + a1);
        assert forall|a: int| 0 <= a < a0.len() implies bit_mask(#[trigger] all[a]) == bit_mask(zs[a]) && bit_mask(zs[a])
            < vstd::arithmetic::power2::pow2(m) by {
            assert(all[a] == a0[a]);
            lemma_bit_mask_push(zs[a], 0);
            lemma_bit_mask_bounds(zs[a]);
        }
        assert forall|a: int| a0.len() <= a < all.len() implies bit_mask(#[trigger] all[a]) == bit_mask(os[a - a0.len()])
            + vstd::arithmetic::power2::pow2(m) && bit_mask(os[a - a0.len()]) >= 0 by {
            assert(all[a] == a1[a - a0.len()]);
            lemma_bit_mask_push(os[a - a0.len()], 1);
            lemma_bit_mask_bounds(os[a - a0.len()]);
        }
        assert forall|i: int, j: int| 0 <= i < j < all.len() implies bit_mask(#[trigger] all[i]) < bit_mask(#[trigger] all[j]) by {
            if i >= a0.len() {
                assert(bit_mask(os[i - a0.len()]) < bit_mask(os[j - a0.len()]));
            } else if j < a0.len() {
                assert(bit_mask(zs[i]) < bit_mask(zs[j]));
            }
        }
    } else if t == 0 {
        assert(binary_sum(n, t) == seq![Seq::<usize>::empty()]);
    } else {
        assert(binary_sum(n, t) == Seq::<Seq<usize>>::empty());
    }
}

/// The generated exponent vectors come by increasing total degree; those of
/// one degree come in increasing lexicographic order, or, when only
/// interaction terms are asked for, in increasing order of their bit masks.
pub proof fn law_generate_powers_ordered(n: nat, d: nat, interaction_only: bool, a: int, b: int)
    requires
        d <= usize::MAX,
        0 <= a < b < powers_upto(n, d, interaction_only).len(),
    ensures
        ({
            let s = powers_upto(n, d, interaction_only);
            ||| total(s[a]) < total(s[b])
            ||| total(s[a]) == total(s[b]) && (!interaction_only ==> lex_lt(s[a], s[b])) && (interaction_only ==> bit_mask(s[a])
                < bit_mask(s[b]))
        }),
    decreases d,
{
    let io = interaction_only;
    let pre = powers_upto(n, (d - 1) as nat, io);
    let lv = level(n, d, io);
    let all = powers_upto(n, d, io);
    assert(all == pre + lv);
    if b < pre.len() {
        law_generate_powers_ordered(n, (d - 1) as nat, io, a, b);
        assert(all[a] == pre[a] && all[b] == pre[b]);
    } else if a < pre.len() {
        law_generate_powers_sound(n, (d - 1) as nat, io, a);
        lemma_level_distinct(n, d, io);
        assert(all[a] == pre[a]);
        assert(all[b] == lv[b - pre.len()]);
    } else {
        lemma_level_distinct(n, d, io);
        assert(all[a] == lv[a - pre.len()]);
        assert(all[b] == lv[b - pre.len()]);
        if !io {
            lemma_exact_sum_sorted(n, d);
            assert(lv == exact_sum(n, d));
        } else {
            lemma_binary_sum_sorted(n, d);
        }
    }
}

/// Only polynomial combinations are generated: each generated vector has
/// one exponent per column and total degree 1 to `d`; with interaction terms
/// only, its entries are 0 or 1 and it has 2 to `d` ones.
pub proof fn law_generate_powers_sound(n: nat, d: nat, interaction_only: bool, a: int)
    requires
        d <= usize::MAX,
        0 <= a < powers_upto(n, d, interaction_only).len(),
    ensures
        ({
            let v = powers_upto(n, d, interaction_only)[a];
            &&& v.len() == n
            &&& 1 <= total(v) <= d
            &&& interaction_only ==> total(v) >= 2 && forall|j: int| 0 <= j < n ==> v[j] <= 1
        }),
{
    let v = powers_upto(n, d, interaction_only)[a];
    lemma_upto_member(n, d, interaction_only, a);
    let t = choose|t: nat| 1 <= t <= d && (#[trigger] level(n, t, interaction_only)).contains(v);
    let lv = level(n, t, interaction_only);
    let i = choose|i: int| 0 <= i < lv.len() && #[trigger] lv[i] == v;
    if interaction_only {
        lemma_binary_sum_shape(n, t);
        assert(binary_sum(n, t)[i] == v);
    } else {
        lemma_exact_sum_shape(n, t);
        assert(exact_sum(n, t)[i] == v);
    }
}

impl Default for PolynomialFeatures {
    /// Degree `2`, with a bias column.
    fn default() -> (r: Self)
        ensures
            !r.is_fitted(),
            r.max_degree() == 2,
            !r.interactions(),
            r.bias(),
    {
        Self::new(2)
    }
}

impl FitSupervised<Frame, Frame> for PolynomialFeatures {
    type Output = ();

    /// Record the `Float64` columns of `x`; the target is not used.
    ///
    /// Fails with `InvalidInput` on an empty frame, when `x` has no
    /// `Float64` column, or when a bias column is asked for and a `Float64`
    /// column is already named `bias` (the message then quotes `bias`); the
    /// transformer is then unchanged.
    fn fit(&mut self, x: Frame, _y: Frame) -> (r: Result<(), Error>)
        ensures
            r is Ok <==> (x@.height > 0 && x@.columns.len() > 0 && f64_names(x@.columns).len() > 0 && !(old(self).bias()
                && f64_names(x@.columns).contains("bias"@))),
            r matches Err(e) ==> e is InvalidInput,
            (x@.height > 0 && x@.columns.len() > 0 && old(self).bias() && f64_names(x@.columns).contains("bias"@))
                ==> (r matches Err(Error::InvalidInput(m)) && contains_text(m@, quoted("bias"@))),
            r is Ok ==> final(self).is_fitted() && final(self).inputs() == f64_names(x@.columns),
            r is Err ==> final(self).is_fitted() == old(self).is_fitted() && final(self).inputs() == old(self).inputs(),
            final(self).max_degree() == old(self).max_degree(),
            final(self).interactions() == old(self).interactions(),
            final(self).bias() == old(self).bias(),
    {
        proof {
            use_type_invariant(&*self);
        }
        if x.height() == 0 || x.width() == 0 {
            return Err(Error::InvalidInput(owned("PolynomialFeatures.fit received an empty DataFrame (0 rows or 0 columns).")));
        }
        let cols = match require_f64_columns(&x, "PolynomialFeatures.fit") {
            Ok(c) => c,
            Err(e) => {
                return Err(e);
            },
        };
        if self.include_bias {
            let ghost cv = strings_view(cols@);
            for k in 0..cols.len()
                invariant
                    cv == strings_view(cols@),
                    cv == f64_names(x@.columns),
                    x@.height > 0,
                    x@.columns.len() > 0,
                    cv.len() > 0,
                    *self == *old(self),
                    self.include_bias,
                    forall|j: int| 0 <= j < k ==> cv[j] != "bias"@,
            {
                proof {
                    reveal_strlit("bias");
                }
                assert(cv[k as int] == cols@[k as int]@);
                if str_eq(cols[k].as_str(), "bias") {
                    assert(cv.contains("bias"@));
                    return Err(Error::InvalidInput(quote_in(
                        "PolynomialFeatures.fit: an input column is named ",
                        "bias",
                        ", which clashes with the bias column. Rename it or use include_bias(false).",
                    )));
                }
            }
            assert(!cv.contains("bias"@));
        }
        self.input_columns = Some(cols);
        self.fitted = true;
        Ok(())
    }
}

} // verus!
