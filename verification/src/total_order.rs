//! The IEEE-754 total order on `f64` bit patterns, and sorting by it.
//!
//! Floats are handled as their bit patterns. The total order (the order of
//! `f64::total_cmp`) puts every pattern with the sign bit set below every
//! pattern without it, orders the patterns without it by their value as
//! integers and the ones with it the other way round; so `-0.0` sits just
//! below `+0.0`, and on finite values it is the numeric order. Two patterns
//! are equal in it only when they are the same pattern.

use vstd::prelude::*;
use vstd::relations::{sorted_by, total_ordering};

verus! {

broadcast use {vstd::seq_lib::group_to_multiset_ensures, vstd::multiset::group_multiset_axioms};

/// The place of a bit pattern in the total order, as an integer.
pub open spec fn total_key(b: u64) -> int {
    if b < 0x8000_0000_0000_0000u64 {
        b as int
    } else {
        0x7fff_ffff_ffff_ffffu64 - b
    }
}

/// Whether `a` comes no later than `b` in the total order.
pub open spec fn total_le(a: u64, b: u64) -> bool {
    total_key(a) <= total_key(b)
}

/// Whether `s` is in increasing total order.
pub open spec fn sorted_total(s: Seq<u64>) -> bool {
    forall|i: int, j: int| 0 <= i < j < s.len() ==> total_key(#[trigger] s[i]) <= total_key(#[trigger] s[j])
}

/// The place of `b` in the total order.
pub fn total_rank(b: u64) -> (r: i128)
    ensures
        r == total_key(b),
{
    if b < 0x8000_0000_0000_0000u64 {
        b as i128
    } else {
        0x7fff_ffff_ffff_ffffi128 - b as i128
    }
}

/// The total order is a total order: a pattern is equal in it only to itself.
pub proof fn law_total_order()
    ensures
        total_ordering(|a: u64, b: u64| total_le(a, b)),
        forall|a: u64, b: u64| total_key(a) == total_key(b) ==> a == b,
{
}

/// Two sequences sorted by the total order with the same elements are the
/// same sequence: sorting has one result.
pub proof fn law_sorted_unique(x: Seq<u64>, y: Seq<u64>)
    requires
        sorted_total(x),
        sorted_total(y),
        x.to_multiset() == y.to_multiset(),
    ensures
        x == y,
{
    let leq = |a: u64, b: u64| total_le(a, b);
    law_total_order();
    assert(sorted_by(x, leq));
    assert(sorted_by(y, leq));
    vstd::seq_lib::lemma_sorted_unique(x, y, leq);
}

/// The two sorted sequences merged into one sorted sequence.
fn merge(a: &Vec<u64>, b: &Vec<u64>) -> (r: Vec<u64>)
    requires
        sorted_total(a@),
        sorted_total(b@),
    ensures
        sorted_total(r@),
        r@.to_multiset() == a@.to_multiset().add(b@.to_multiset()),
        r.len() == a.len() + b.len(),
{
    let mut r: Vec<u64> = Vec::new();
    let mut i: usize = 0;
    let mut j: usize = 0;
    while i < a.len() || j < b.len()
        invariant
            sorted_total(a@),
            sorted_total(b@),
            i <= a.len(),
            j <= b.len(),
            r.len() == i + j,
            sorted_total(r@),
            r@.to_multiset() == a@.take(i as int).to_multiset().add(b@.take(j as int).to_multiset()),
            r.len() > 0 && i < a.len() ==> total_key(r@.last()) <= total_key(a@[i as int]),
            r.len() > 0 && j < b.len() ==> total_key(r@.last()) <= total_key(b@[j as int]),
        decreases a.len() + b.len() - i - j,
    {
        let take_a = if j >= b.len() {
            true
        } else if i >= a.len() {
            false
        } else {
            total_rank(a[i]) <= total_rank(b[j])
        };
        let ghost old_r = r@;
        if take_a {
            let x = a[i];
            r.push(x);
            proof {
                assert(a@.take(i + 1) =~= a@.take(i as int).push(x));
                assert(r@ =~= old_r.push(x));
                assert forall|p: int, q: int| 0 <= p < q < r@.len() implies total_key(#[trigger] r@[p]) <= total_key(#[trigger] r@[q]) by {
                    if q == r@.len() - 1 && p < old_r.len() {
                        assert(r@[p] == old_r[p]);
                        if p < old_r.len() - 1 {
                            assert(total_key(old_r[p]) <= total_key(old_r[old_r.len() - 1]));
                        }
                    } else if q < old_r.len() {
                        assert(r@[p] == old_r[p] && r@[q] == old_r[q]);
                    }
                }
                if i + 1 < a.len() {
                    assert(total_key(a@[i as int]) <= total_key(a@[i + 1]));
                }
            }
            i = i + 1;
        } else {
            let x = b[j];
            r.push(x);
            proof {
                assert(b@.take(j + 1) =~= b@.take(j as int).push(x));
                assert(r@ =~= old_r.push(x));
                assert forall|p: int, q: int| 0 <= p < q < r@.len() implies total_key(#[trigger] r@[p]) <= total_key(#[trigger] r@[q]) by {
                    if q == r@.len() - 1 && p < old_r.len() {
                        assert(r@[p] == old_r[p]);
                        if p < old_r.len() - 1 {
                            assert(total_key(old_r[p]) <= total_key(old_r[old_r.len() - 1]));
                        }
                    } else if q < old_r.len() {
                        assert(r@[p] == old_r[p] && r@[q] == old_r[q]);
                    }
                }
                if j + 1 < b.len() {
                    assert(total_key(b@[j as int]) <= total_key(b@[j + 1]));
                }
            }
            j = j + 1;
        }
    }
    proof {
        assert(a@.take(a.len() as int) =~= a@);
        assert(b@.take(b.len() as int) =~= b@);
    }
    r
}

/// The entries of `v` from `lo` up to `hi`.
fn slice_of(v: &Vec<u64>, lo: usize, hi: usize) -> (r: Vec<u64>)
    requires
        lo <= hi <= v.len(),
    ensures
        r@ == v@.subrange(lo as int, hi as int),
{
    let mut r: Vec<u64> = Vec::new();
    let mut k = lo;
    while k < hi
        invariant
            lo <= k <= hi,
            hi <= v.len(),
            r@ == v@.subrange(lo as int, k as int),
        decreases hi - k,
    {
        r.push(v[k]);
        proof {
            assert(v@.subrange(lo as int, k + 1) =~= v@.subrange(lo as int, k as int).push(v@[k as int]));
        }
        k = k + 1;
    }
    r
}

/// `v` sorted in increasing total order (a stable merge sort).
pub fn sort_total(v: &Vec<u64>) -> (r: Vec<u64>)
    ensures
        sorted_total(r@),
        r@.to_multiset() == v@.to_multiset(),
        r.len() == v.len(),
    decreases v.len(),
{
    if v.len() <= 1 {
        let r = slice_of(v, 0, v.len());
        proof {
            assert(r@ =~= v@);
        }
        return r;
    }
    let mid = v.len() / 2;
    let left = slice_of(v, 0, mid);
    let right = slice_of(v, mid, v.len());
    let sl = sort_total(&left);
    let sr = sort_total(&right);
    let r = merge(&sl, &sr);
    proof {
        assert(v@ =~= left@ + right@);
        vstd::seq_lib::lemma_multiset_commutative(left@, right@);
    }
    r
}

/// How many of `s` come before the place `k` in the total order.
pub open spec fn count_under(s: Seq<u64>, k: int) -> nat
    decreases s.len(),
{
    if s.len() == 0 {
        0
    } else {
        count_under(s.drop_last(), k) + if total_key(s.last()) < k { 1nat } else { 0nat }
    }
}

/// Removing one entry removes its share of the count.
pub proof fn lemma_count_remove(s: Seq<u64>, i: int, k: int)
    requires
        0 <= i < s.len(),
    ensures
        count_under(s, k) == count_under(s.remove(i), k) + if total_key(s[i]) < k { 1nat } else { 0nat },
    decreases s.len(),
{
    if i == s.len() - 1 {
        assert(s.remove(i) =~= s.drop_last());
    } else {
        assert(s.remove(i).drop_last() =~= s.drop_last().remove(i));
        assert(s.remove(i).last() == s.last());
        lemma_count_remove(s.drop_last(), i, k);
    }
}

/// The count depends on the elements only, not on their order.
pub proof fn lemma_count_permutation(s: Seq<u64>, t: Seq<u64>, k: int)
    requires
        s.to_multiset() == t.to_multiset(),
    ensures
        count_under(s, k) == count_under(t, k),
    decreases s.len(),
{
    if s.len() == 0 {
        vstd::seq_lib::to_multiset_len(s);
        vstd::seq_lib::to_multiset_len(t);
        assert(t.len() == 0);
    } else {
        let x = s.last();
        let pre = s.drop_last();
        assert(s =~= pre.push(x));
        assert(s.to_multiset().count(x) > 0);
        assert(t.contains(x));
        let i = choose|i: int| 0 <= i < t.len() && t[i] == x;
        assert(t.remove(i).to_multiset() =~= pre.to_multiset());
        lemma_count_permutation(pre, t.remove(i), k);
        lemma_count_remove(t, i, k);
    }
}

/// In a sequence whose entries before `lo` come before `k` and whose other
/// entries do not, `lo` entries come before `k`.
pub proof fn lemma_count_split(s: Seq<u64>, k: int, lo: int, n: int)
    requires
        0 <= lo <= s.len(),
        0 <= n <= s.len(),
        forall|m: int| 0 <= m < lo ==> total_key(#[trigger] s[m]) < k,
        forall|m: int| lo <= m < s.len() ==> total_key(#[trigger] s[m]) >= k,
    ensures
        count_under(s.take(n), k) == if n <= lo { n } else { lo },
    decreases n,
{
    if n > 0 {
        assert(s.take(n).drop_last() =~= s.take(n - 1));
        assert(s.take(n).last() == s[n - 1]);
        lemma_count_split(s, k, lo, n - 1);
    } else {
        assert(s.take(0).len() == 0);
    }
}

/// The count does not decrease as the place moves up.
pub proof fn lemma_count_monotone(s: Seq<u64>, k1: int, k2: int)
    requires
        k1 <= k2,
    ensures
        count_under(s, k1) <= count_under(s, k2),
    decreases s.len(),
{
    if s.len() > 0 {
        lemma_count_monotone(s.drop_last(), k1, k2);
    }
}

/// The count grows past an element that lies between the two places.
pub proof fn lemma_count_strict(s: Seq<u64>, k1: int, k2: int, m: int)
    requires
        0 <= m < s.len(),
        k1 <= total_key(s[m]) < k2,
    ensures
        count_under(s, k1) < count_under(s, k2),
    decreases s.len(),
{
    if m == s.len() - 1 {
        lemma_count_monotone(s.drop_last(), k1, k2);
    } else {
        assert(s.drop_last()[m] == s[m]);
        lemma_count_strict(s.drop_last(), k1, k2, m);
    }
}

/// The first place in the sorted `s` whose entry does not come before `k`.
pub(crate) fn first_not_under(s: &Vec<u64>, k: i128) -> (r: usize)
    requires
        sorted_total(s@),
    ensures
        r <= s.len(),
        forall|m: int| 0 <= m < r ==> total_key(#[trigger] s@[m]) < k,
        forall|m: int| r <= m < s.len() ==> total_key(#[trigger] s@[m]) >= k,
{
    let mut lo: usize = 0;
    let mut hi: usize = s.len();
    while lo < hi
        invariant
            sorted_total(s@),
            lo <= hi <= s.len(),
            forall|m: int| 0 <= m < lo ==> total_key(#[trigger] s@[m]) < k,
            forall|m: int| hi <= m < s.len() ==> total_key(#[trigger] s@[m]) >= k,
        decreases hi - lo,
    {
        let mid = lo + (hi - lo) / 2;
        if total_rank(s[mid]) < k {
            proof {
                assert forall|m: int| 0 <= m < mid + 1 implies total_key(#[trigger] s@[m]) < k by {
                    if m < mid {
                        assert(total_key(s@[m]) <= total_key(s@[mid as int]));
                    }
                }
            }
            lo = mid + 1;
        } else {
            proof {
                assert forall|m: int| mid <= m < s.len() implies total_key(#[trigger] s@[m]) >= k by {
                    if m > mid {
                        assert(total_key(s@[mid as int]) <= total_key(s@[m]));
                    }
                }
            }
            hi = mid;
        }
    }
    lo
}

/// How many of the sorted `s`, with the elements of `p`, come before `k`.
pub(crate) fn count_under_sorted(s: &Vec<u64>, p: Ghost<Seq<u64>>, k: i128) -> (r: usize)
    requires
        sorted_total(s@),
        s@.to_multiset() == p@.to_multiset(),
    ensures
        r == count_under(p@, k as int),
{
    let r = first_not_under(s, k);
    proof {
        lemma_count_split(s@, k as int, r as int, s@.len() as int);
        assert(s@.take(s@.len() as int) =~= s@);
        lemma_count_permutation(s@, p@, k as int);
    }
    r
}

/// Counting over two parts adds the counts, and one entry counts `1`
/// exactly when it comes before the place `k`.
pub proof fn law_count_under_split(s: Seq<u64>, t: Seq<u64>, x: u64, k: int)
    ensures
        count_under(s + t, k) == count_under(s, k) + count_under(t, k),
        count_under(seq![x], k) == if total_key(x) < k { 1nat } else { 0nat },
    decreases t.len(),
{
    let one = seq![x];
    assert(one.drop_last() =~= Seq::<u64>::empty());
    assert(one.last() == x);
    assert(count_under(Seq::<u64>::empty(), k) == 0);
    if t.len() == 0 {
        assert(s + t =~= s);
    } else {
        law_count_under_split(s, t.drop_last(), x, k);
        assert((s + t).drop_last() =~= s + t.drop_last());
        assert((s + t).last() == t.last());
    }
}

} // verus!
