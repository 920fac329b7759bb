//! Greedy selection of weakly correlated columns.
//!
//! A correlation filter keeps a column unless it is correlated (by a
//! floating-point measure and threshold, computed outside this crate's
//! verified core) with a column kept before it; earlier columns win. Given
//! which pairs are correlated, this module makes that selection.
//!
//! A rank correlation correlates ranks in place of values: this module also
//! ranks a column, tied values sharing the average of the ranks they span.
//! Values are `f64` bit patterns, ranked in the total order.

use vstd::prelude::*;
use crate::total_order::{count_under, count_under_sorted, lemma_count_monotone, lemma_count_strict, sort_total, sorted_total, total_key, total_rank};

verus! {

broadcast use {vstd::seq_lib::group_to_multiset_ensures, vstd::multiset::group_multiset_axioms};

/// The survivors among columns `0..i`: column `i - 1` joins the survivors of
/// `0..i - 1` unless `corr[i - 1][j]` holds for one of them.
pub open spec fn survivors(corr: Seq<Seq<bool>>, i: nat) -> Seq<usize>
    decreases i,
{
    if i == 0 {
        Seq::empty()
    } else {
        let s = survivors(corr, (i - 1) as nat);
        if exists|t: int| 0 <= t < s.len() && corr[i - 1][#[trigger] s[t] as int] {
            s
        } else {
            s.push((i - 1) as usize)
        }
    }
}

/// The survivors of the greedy pass over `corr`, in increasing order: column
/// `i` survives unless `corr[i][j]` holds for a survivor `j < i`.
pub fn greedy_survivors(corr: &Vec<Vec<bool>>) -> (r: Vec<usize>)
    requires
        forall|i: int| 0 <= i < corr.len() ==> (#[trigger] corr@[i]).len() == corr.len(),
    ensures
        r@ == survivors(corr@.map_values(|row: Vec<bool>| row@), corr.len() as nat),
{
    let ghost c = corr@.map_values(|row: Vec<bool>| row@);
    let n = corr.len();
    let mut kept: Vec<usize> = Vec::new();
    for i in 0..n
        invariant
            n == corr.len(),
            c == corr@.map_values(|row: Vec<bool>| row@),
            forall|a: int| 0 <= a < corr.len() ==> (#[trigger] corr@[a]).len() == corr.len(),
            kept@ == survivors(c, i as nat),
            forall|t: int| 0 <= t < kept.len() ==> (#[trigger] kept@[t]) < i,
    {
        let mut drop = false;
        for t in 0..kept.len()
            invariant
                n == corr.len(),
                i < n,
                c == corr@.map_values(|row: Vec<bool>| row@),
                forall|a: int| 0 <= a < corr.len() ==> (#[trigger] corr@[a]).len() == corr.len(),
                forall|u: int| 0 <= u < kept.len() ==> (#[trigger] kept@[u]) < i,
                drop <==> exists|u: int| 0 <= u < t && c[i as int][#[trigger] kept@[u] as int],
        {
            let j = kept[t];
            assert(c[i as int] == corr@[i as int]@);
            if corr[i][j] {
                drop = true;
            }
        }
        if !drop {
            kept.push(i);
        }
    }
    kept
}

/// No survivor is correlated with an earlier survivor.
pub proof fn law_survivors_uncorrelated(corr: Seq<Seq<bool>>, n: nat, a: int, b: int)
    requires
        n <= usize::MAX,
        0 <= a < b < survivors(corr, n).len(),
    ensures
        !corr[survivors(corr, n)[b] as int][survivors(corr, n)[a] as int],
        survivors(corr, n)[a] < survivors(corr, n)[b],
    decreases n,
{
    lemma_survivors_bounded(corr, n);
    if n > 0 {
        let s = survivors(corr, (n - 1) as nat);
        if b < s.len() {
            law_survivors_uncorrelated(corr, (n - 1) as nat, a, b);
        } else {
            lemma_survivors_bounded(corr, (n - 1) as nat);
            assert(!corr[n - 1][s[a] as int]);
        }
    }
}

/// Every column that does not survive is correlated with an earlier survivor.
pub proof fn law_dropped_have_reason(corr: Seq<Seq<bool>>, n: nat, i: int)
    requires
        n <= usize::MAX,
        0 <= i < n,
        !survivors(corr, n).contains(i as usize),
    ensures
        exists|t: int| 0 <= t < survivors(corr, n).len() && survivors(corr, n)[t] < i && corr[i][#[trigger] survivors(
            corr,
            n,
        )[t] as int],
    decreases n,
{
    lemma_survivors_bounded(corr, n);
    let s = survivors(corr, (n - 1) as nat);
    lemma_survivors_bounded(corr, (n - 1) as nat);
    if i < n - 1 {
        if s.contains(i as usize) {
            let t = choose|t: int| 0 <= t < s.len() && s[t] == i as usize;
            assert(survivors(corr, n)[t] == s[t]);
        }
        law_dropped_have_reason(corr, (n - 1) as nat, i);
        let t = choose|t: int| 0 <= t < s.len() && s[t] < i && corr[i][#[trigger] s[t] as int];
        assert(survivors(corr, n)[t] == s[t]);
    } else {
        if !(exists|t: int| 0 <= t < s.len() && corr[n - 1][#[trigger] s[t] as int]) {
            assert(survivors(corr, n)[s.len() as int] == (n - 1) as usize);
        }
        let t = choose|t: int| 0 <= t < s.len() && corr[n - 1][#[trigger] s[t] as int];
        assert(survivors(corr, n)[t] == s[t]);
    }
}

/// Survivors are columns below `n`, in increasing order.
pub proof fn lemma_survivors_bounded(corr: Seq<Seq<bool>>, n: nat)
    requires
        n <= usize::MAX,
    ensures
        forall|t: int| 0 <= t < survivors(corr, n).len() ==> (#[trigger] survivors(corr, n)[t]) < n,
        forall|a: int, b: int| 0 <= a < b < survivors(corr, n).len() ==> #[trigger] survivors(corr, n)[a] < #[trigger] survivors(
            corr,
            n,
        )[b],
        survivors(corr, n).len() <= n,
    decreases n,
{
    if n > 0 {
        lemma_survivors_bounded(corr, (n - 1) as nat);
    }
}


/// The values present in `s`, in order.
pub open spec fn present_bits(s: Seq<Option<u64>>) -> Seq<u64>
    decreases s.len(),
{
    if s.len() == 0 {
        Seq::empty()
    } else {
        let p = present_bits(s.drop_last());
        match s.last() {
            Some(u) => p.push(u),
            None => p,
        }
    }
}

/// Twice the average rank of `v` among the present values of `s`: the ranks
/// start at `1`, and the values tied with `v` span the ranks after those
/// below it, so twice their average is the number below `v`, plus the number
/// at or below it, plus one.
pub open spec fn doubled_rank(s: Seq<Option<u64>>, v: u64) -> int {
    (count_under(present_bits(s), total_key(v)) + count_under(present_bits(s), total_key(v) + 1) + 1) as int
}

/// The ranks of `s`: each present value's doubled average rank; missing
/// values stay missing.
pub open spec fn doubled_ranks(s: Seq<Option<u64>>) -> Seq<Option<int>> {
    s.map_values(|o: Option<u64>| match o {
        Some(v) => Some(doubled_rank(s, v)),
        None => None,
    })
}

/// A present value is among the present values.
proof fn lemma_present(s: Seq<Option<u64>>, i: int)
    requires
        0 <= i < s.len(),
        s[i] is Some,
    ensures
        exists|m: int| 0 <= m < present_bits(s).len() && present_bits(s)[m] == s[i]->0,
    decreases s.len(),
{
    let p = present_bits(s.drop_last());
    if i == s.len() - 1 {
        assert(present_bits(s)[p.len() as int] == s[i]->0);
    } else {
        assert(s.drop_last()[i] == s[i]);
        lemma_present(s.drop_last(), i);
        let m = choose|m: int| 0 <= m < p.len() && p[m] == s[i]->0;
        assert(present_bits(s)[m] == p[m]);
    }
}

/// Ranks keep the order of the values: a value below another in the total
/// order has the smaller rank, and equal values share their rank.
pub proof fn law_ranks_ordered(s: Seq<Option<u64>>, i: int, j: int)
    requires
        0 <= i < s.len(),
        0 <= j < s.len(),
        s[i] is Some,
        s[j] is Some,
    ensures
        total_key(s[i]->0) < total_key(s[j]->0) ==> doubled_rank(s, s[i]->0) < doubled_rank(s, s[j]->0),
        s[i] == s[j] ==> doubled_rank(s, s[i]->0) == doubled_rank(s, s[j]->0),
{
    let a = s[i]->0;
    let b = s[j]->0;
    let p = present_bits(s);
    if total_key(a) < total_key(b) {
        lemma_count_monotone(p, total_key(a), total_key(b));
        lemma_present(s, j);
        let m = choose|m: int| 0 <= m < p.len() && p[m] == b;
        lemma_count_strict(p, total_key(a) + 1, total_key(b) + 1, m);
    }
}

/// The values present in `s`, in order.
fn present_values(s: &Vec<Option<u64>>) -> (r: Vec<u64>)
    ensures
        r@ == present_bits(s@),
{
    let mut r: Vec<u64> = Vec::new();
    for i in 0..s.len()
        invariant
            r@ == present_bits(s@.take(i as int)),
    {
        proof {
            assert(s@.take(i + 1).drop_last() =~= s@.take(i as int));
            assert(s@.take(i + 1).last() == s@[i as int]);
        }
        match s[i] {
            Some(u) => r.push(u),
            None => {},
        }
    }
    proof {
        assert(s@.take(s.len() as int) =~= s@);
    }
    r
}

/// The ranks of `values`, tied values sharing the average of the ranks they
/// span, each doubled so that it is a whole number; missing values stay
/// missing.
pub fn average_ranks(values: &Vec<Option<u64>>) -> (r: Vec<Option<u128>>)
    ensures
        r.len() == values.len(),
        forall|i: int| 0 <= i < values.len() ==> (match (#[trigger] r@[i]) {
            Some(d) => doubled_ranks(values@)[i] == Some(d as int),
            None => doubled_ranks(values@)[i] is None,
        }),
{
    let present = present_values(values);
    let sorted = sort_total(&present);
    let ghost p = present@;
    let mut out: Vec<Option<u128>> = Vec::new();
    for i in 0..values.len()
        invariant
            p == present_bits(values@),
            sorted_total(sorted@),
            sorted@.to_multiset() == p.to_multiset(),
            out.len() == i,
            forall|j: int| 0 <= j < i ==> (match (#[trigger] out@[j]) {
                Some(d) => doubled_ranks(values@)[j] == Some(d as int),
                None => doubled_ranks(values@)[j] is None,
            }),
    {
        match values[i] {
            Some(v) => {
                let key = total_rank(v);
                let below = count_under_sorted(&sorted, Ghost(p), key);
                let upto = count_under_sorted(&sorted, Ghost(p), key + 1);
                out.push(Some(below as u128 + upto as u128 + 1));
            },
            None => {
                out.push(None);
            },
        }
    }
    out
}
/// The ranked values are exactly the present values, each once, in order.
pub proof fn law_present_bits_filter(s: Seq<Option<u64>>)
    ensures
        present_bits(s) == s.filter_map(|c: Option<u64>| c),
    decreases s.len(),
{
    if s.len() > 0 {
        law_present_bits_filter(s.drop_last());
        let rest = present_bits(s.drop_last());
        assert forall|v: u64| #[trigger] rest.push(v) == rest + seq![v] by {
            assert(rest.push(v) =~= rest + seq![v]);
        }
    }
}

} // verus!
