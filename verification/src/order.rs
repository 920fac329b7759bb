//! The lexicographic order on strings, and sorted sets of strings.

use vstd::prelude::*;
use crate::text::{seq_lt, chars_of};

verus! {

/// Dropping an equal first character keeps the order.
proof fn lemma_lt_skip(a: Seq<char>, b: Seq<char>, i: int)
    requires
        0 <= i <= a.len(),
        i <= b.len(),
        a.take(i) == b.take(i),
    ensures
        seq_lt(a, b) == seq_lt(a.skip(i), b.skip(i)),
    decreases i,
{
    if i > 0 {
        assert(a[0] == a.take(i)[0]);
        assert(b[0] == b.take(i)[0]);
        assert(a.drop_first().take(i - 1) =~= a.take(i).drop_first());
        assert(b.drop_first().take(i - 1) =~= b.take(i).drop_first());
        lemma_lt_skip(a.drop_first(), b.drop_first(), i - 1);
        assert(a.drop_first().skip(i - 1) =~= a.skip(i));
        assert(b.drop_first().skip(i - 1) =~= b.skip(i));
    } else {
        assert(a.skip(0) =~= a);
        assert(b.skip(0) =~= b);
    }
}

/// No sequence precedes itself.
pub proof fn lemma_lt_irreflexive(a: Seq<char>)
    ensures
        !seq_lt(a, a),
    decreases a.len(),
{
    if a.len() > 0 {
        lemma_lt_irreflexive(a.drop_first());
    }
}

/// Two different sequences are ordered one way or the other, never both.
pub proof fn lemma_lt_total(a: Seq<char>, b: Seq<char>)
    ensures
        a != b ==> (seq_lt(a, b) || seq_lt(b, a)),
        !(seq_lt(a, b) && seq_lt(b, a)),
        seq_lt(a, b) ==> a != b,
    decreases a.len(),
{
    if a.len() > 0 && b.len() > 0 {
        lemma_lt_total(a.drop_first(), b.drop_first());
        if a[0] == b[0] && a.drop_first() == b.drop_first() {
            assert forall|i: int| 0 <= i < a.len() implies a[i] == b[i] by {
                if i > 0 {
                    assert(a[i] == a.drop_first()[i - 1]);
                    assert(b[i] == b.drop_first()[i - 1]);
                }
            }
            assert(a =~= b);
        }
    } else if a.len() == 0 && b.len() == 0 {
        assert(a =~= b);
    }
    if seq_lt(a, b) {
        lemma_lt_irreflexive(a);
    }
}

/// The order is transitive.
pub proof fn lemma_lt_transitive(a: Seq<char>, b: Seq<char>, c: Seq<char>)
    requires
        seq_lt(a, b),
        seq_lt(b, c),
    ensures
        seq_lt(a, c),
    decreases a.len(),
{
    if a.len() > 0 && b.len() > 0 && c.len() > 0 {
        if a[0] == b[0] && b[0] == c[0] {
            lemma_lt_transitive(a.drop_first(), b.drop_first(), c.drop_first());
        }
    }
}

/// Compares two character sequences: `-1` when `a` precedes `b`, `0` when they
/// are equal, `1` when `b` precedes `a`.
pub fn compare_chars(a: &Vec<char>, b: &Vec<char>) -> (r: i8)
    ensures
        r == -1 || r == 0 || r == 1,
        (r == -1) == seq_lt(a@, b@),
        (r == 0) == (a@ == b@),
        (r == 1) == seq_lt(b@, a@),
{
    proof {
        lemma_lt_total(a@, b@);
    }
    let n = if a.len() < b.len() { a.len() } else { b.len() };
    let mut i: usize = 0;
    while i < n
        invariant
            n <= a.len(),
            n <= b.len(),
            n == a.len() || n == b.len(),
            i <= n,
            a@.take(i as int) == b@.take(i as int),
        decreases n - i,
    {
        if a[i] != b[i] {
            proof {
                lemma_lt_skip(a@, b@, i as int);
                lemma_lt_skip(b@, a@, i as int);
                assert(a@.skip(i as int)[0] == a@[i as int]);
                assert(b@.skip(i as int)[0] == b@[i as int]);
            }
            if a[i] < b[i] {
                return -1;
            } else {
                return 1;
            }
        }
        proof {
            assert(a@.take(i + 1) =~= a@.take(i as int).push(a@[i as int]));
            assert(b@.take(i + 1) =~= b@.take(i as int).push(b@[i as int]));
        }
        i += 1;
    }
    proof {
        lemma_lt_skip(a@, b@, i as int);
        lemma_lt_skip(b@, a@, i as int);
    }
    if a.len() == b.len() {
        proof {
            assert(a@ =~= a@.take(i as int));
            assert(b@ =~= b@.take(i as int));
        }
        0
    } else if a.len() < b.len() {
        proof {
            assert(a@.skip(i as int).len() == 0);
        }
        -1
    } else {
        proof {
            assert(b@.skip(i as int).len() == 0);
        }
        1
    }
}

/// Whether `s` is strictly increasing.
pub open spec fn strictly_sorted(s: Seq<Seq<char>>) -> bool {
    forall|a: int, b: int| 0 <= a < b < s.len() ==> seq_lt(#[trigger] s[a], #[trigger] s[b])
}

/// A strictly increasing sequence has no repeated element.
pub proof fn lemma_sorted_distinct(s: Seq<Seq<char>>)
    requires
        strictly_sorted(s),
    ensures
        forall|a: int, b: int|
            0 <= a < s.len() && 0 <= b < s.len() && a != b ==> #[trigger] s[a] != #[trigger] s[b],
{
    assert forall|a: int, b: int| 0 <= a < s.len() && 0 <= b < s.len() && a != b implies #[trigger] s[a]
        != #[trigger] s[b] by {
        if a < b {
            lemma_lt_total(s[a], s[b]);
        } else {
            lemma_lt_total(s[b], s[a]);
        }
    }
}

/// Two strictly increasing sequences holding the same strings are equal.
pub proof fn lemma_sorted_unique(a: Seq<Seq<char>>, b: Seq<Seq<char>>)
    requires
        strictly_sorted(a),
        strictly_sorted(b),
        a.to_set() == b.to_set(),
    ensures
        a == b,
    decreases a.len(),
{
    if a.len() == 0 {
        if b.len() > 0 {
            assert(b.to_set().contains(b[0]));
        }
        assert(a =~= b);
    } else {
        assert(a.to_set().contains(a[0]));
        assert(b.contains(a[0]));
        let j = choose|j: int| 0 <= j < b.len() && b[j] == a[0];
        assert(b.to_set().contains(b[0]));
        assert(a.contains(b[0]));
        let i = choose|i: int| 0 <= i < a.len() && a[i] == b[0];
        if j > 0 {
            assert(seq_lt(b[0], b[j]));
            if i > 0 {
                assert(seq_lt(a[0], a[i]));
                lemma_lt_transitive(a[0], b[0], a[0]);
                lemma_lt_irreflexive(a[0]);
            } else {
                lemma_lt_irreflexive(a[0]);
            }
        }
        assert(a[0] == b[0]);
        let ta = a.drop_first();
        let tb = b.drop_first();
        lemma_sorted_distinct(a);
        lemma_sorted_distinct(b);
        assert forall|x: Seq<char>| ta.to_set().contains(x) <==> tb.to_set().contains(x) by {
            if ta.contains(x) {
                let k = choose|k: int| 0 <= k < ta.len() && ta[k] == x;
                assert(a[k + 1] == x);
                assert(a.to_set().contains(x));
                let m = choose|m: int| 0 <= m < b.len() && b[m] == x;
                if m == 0 {
                    assert(a[0] == a[k + 1]);
                } else {
                    assert(tb[m - 1] == x);
                }
            }
            if tb.contains(x) {
                let k = choose|k: int| 0 <= k < tb.len() && tb[k] == x;
                assert(b[k + 1] == x);
                assert(b.to_set().contains(x));
                let m = choose|m: int| 0 <= m < a.len() && a[m] == x;
                if m == 0 {
                    assert(b[0] == b[k + 1]);
                } else {
                    assert(ta[m - 1] == x);
                }
            }
        }
        assert(ta.to_set() =~= tb.to_set());
        assert forall|p: int, q: int| 0 <= p < q < ta.len() implies seq_lt(#[trigger] ta[p], #[trigger] ta[q]) by {
            assert(ta[p] == a[p + 1] && ta[q] == a[q + 1]);
        }
        assert forall|p: int, q: int| 0 <= p < q < tb.len() implies seq_lt(#[trigger] tb[p], #[trigger] tb[q]) by {
            assert(tb[p] == b[p + 1] && tb[q] == b[q + 1]);
        }
        lemma_sorted_unique(ta, tb);
        assert(a =~= seq![a[0]] + ta);
        assert(b =~= seq![b[0]] + tb);
    }
}

/// A strictly increasing list of strings with their characters alongside.
pub struct SortedStrings {
    /// The characters of each string, in the same order.
    keys: Vec<Vec<char>>,
    /// The strings, strictly increasing.
    items: Vec<String>,
}

impl SortedStrings {
    /// The strings held, in increasing order.
    pub closed spec fn view_seq(&self) -> Seq<Seq<char>> {
        self.items@.map_values(|s: String| s@)
    }

    /// The representation invariant.
    pub closed spec fn wf(&self) -> bool {
        &&& self.keys.len() == self.items.len()
        &&& forall|k: int| 0 <= k < self.keys.len() ==> (#[trigger] self.keys@[k])@ == self.items@[k]@
        &&& strictly_sorted(self.view_seq())
    }

    /// The strings held are strictly increasing.
    pub proof fn lemma_sorted(&self)
        requires
            self.wf(),
        ensures
            strictly_sorted(self.view_seq()),
    {
    }

    /// An empty list.
    pub fn new() -> (r: Self)
        ensures
            r.wf(),
            r.view_seq() == Seq::<Seq<char>>::empty(),
    {
        let r = SortedStrings { keys: Vec::new(), items: Vec::new() };
        assert(r.view_seq() =~= Seq::<Seq<char>>::empty());
        r
    }

    /// The number of strings held.
    pub fn len(&self) -> (r: usize)
        requires
            self.wf(),
        ensures
            r == self.view_seq().len(),
    {
        self.items.len()
    }

    /// The strings held, in increasing order.
    pub fn items(&self) -> (r: &Vec<String>)
        requires
            self.wf(),
        ensures
            r@.map_values(|s: String| s@) == self.view_seq(),
            r.len() == self.view_seq().len(),
            forall|k: int| 0 <= k < r.len() ==> (#[trigger] r@[k])@ == self.view_seq()[k],
    {
        &self.items
    }

    /// The strings held, given up in increasing order.
    pub fn into_items(self) -> (r: Vec<String>)
        requires
            self.wf(),
        ensures
            r@.map_values(|s: String| s@) == self.view_seq(),
    {
        self.items
    }

    /// Where `key` is or would go: the number of held strings below it, and
    /// whether it is held there.
    pub fn search(&self, key: &Vec<char>) -> (r: (usize, bool))
        requires
            self.wf(),
        ensures
            r.0 <= self.view_seq().len(),
            forall|k: int| 0 <= k < r.0 ==> seq_lt(#[trigger] self.view_seq()[k], key@),
            forall|k: int| r.0 <= k < self.view_seq().len() ==> !seq_lt(#[trigger] self.view_seq()[k], key@),
            r.1 == (r.0 < self.view_seq().len() && self.view_seq()[r.0 as int] == key@),
            r.1 == self.view_seq().contains(key@),
    {
        let ghost v = self.view_seq();
        let mut lo: usize = 0;
        let mut hi: usize = self.keys.len();
        while lo < hi
            invariant
                self.wf(),
                v == self.view_seq(),
                lo <= hi <= v.len(),
                forall|k: int| 0 <= k < lo ==> seq_lt(#[trigger] v[k], key@),
                forall|k: int| hi <= k < v.len() ==> !seq_lt(#[trigger] v[k], key@),
            decreases hi - lo,
        {
            let mid = lo + (hi - lo) / 2;
            let c = compare_chars(&self.keys[mid], key);
            if c == -1 {
                proof {
                    assert forall|k: int| 0 <= k <= mid implies seq_lt(#[trigger] v[k], key@) by {
                        if k < mid {
                            lemma_lt_transitive(v[k], v[mid as int], key@);
                        }
                    }
                }
                lo = mid + 1;
            } else {
                proof {
                    assert forall|k: int| mid <= k < v.len() implies !seq_lt(#[trigger] v[k], key@) by {
                        if k > mid {
                            if seq_lt(v[k], key@) {
                                lemma_lt_transitive(v[mid as int], v[k], key@);
                                lemma_lt_total(v[mid as int], key@);
                            }
                        }
                    }
                }
                hi = mid;
            }
        }
        let found = if lo < self.keys.len() {
            compare_chars(&self.keys[lo], key) == 0
        } else {
            false
        };
        proof {
            if v.contains(key@) {
                let k = choose|k: int| 0 <= k < v.len() && v[k] == key@;
                lemma_lt_irreflexive(key@);
                if k != lo {
                    if k < lo {
                    } else {
                        assert(!seq_lt(v[lo as int], key@));
                        lemma_lt_total(v[lo as int], key@);
                        if v[lo as int] != key@ {
                            assert(seq_lt(key@, v[lo as int]));
                            assert(seq_lt(v[lo as int], v[k]));
                            lemma_lt_total(v[lo as int], v[k]);
                            assert(false);
                        }
                    }
                }
            }
        }
        (lo, found)
    }

    /// Finds `s`, adding it at its place when it is not held; returns its
    /// position and whether it was added.
    pub fn locate_or_insert(&mut self, s: &String) -> (r: (usize, bool))
        requires
            old(self).wf(),
        ensures
            final(self).wf(),
            r.0 < final(self).view_seq().len(),
            r.0 <= old(self).view_seq().len(),
            final(self).view_seq()[r.0 as int] == s@,
            r.1 == !old(self).view_seq().contains(s@),
            r.1 ==> final(self).view_seq() == old(self).view_seq().insert(r.0 as int, s@),
            !r.1 ==> final(self).view_seq() == old(self).view_seq(),
            forall|x: Seq<char>| final(self).view_seq().contains(x) <==> (old(self).view_seq().contains(x) || x == s@),
    {
        let key = chars_of(s.as_str());
        let (pos, found) = self.search(&key);
        if found {
            return (pos, false);
        }
        self.insert(s);
        proof {
            let v = old(self).view_seq();
            assert(self.view_seq() =~= v.insert(pos as int, s@));
        }
        (pos, true)
    }

    /// Adds `s` unless it is already held.
    pub fn insert(&mut self, s: &String)
        requires
            old(self).wf(),
        ensures
            final(self).wf(),
            forall|x: Seq<char>| final(self).view_seq().contains(x) <==> (old(self).view_seq().contains(x) || x == s@),
            old(self).view_seq().contains(s@) ==> final(self).view_seq() == old(self).view_seq(),
            !old(self).view_seq().contains(s@) ==> exists|p: int| 0 <= p <= old(self).view_seq().len()
                && final(self).view_seq() == old(self).view_seq().insert(p, s@)
                && (forall|k: int| 0 <= k < p ==> seq_lt(#[trigger] old(self).view_seq()[k], s@))
                && (forall|k: int| p <= k < old(self).view_seq().len() ==> !seq_lt(#[trigger] old(self).view_seq()[k], s@)),
    {
        let key = chars_of(s.as_str());
        let (pos, found) = self.search(&key);
        if !found {
            let ghost v = self.view_seq();
            self.keys.insert(pos, key);
            self.items.insert(pos, s.clone());
            proof {
                let nv = self.view_seq();
                assert(nv =~= v.insert(pos as int, s@));
                assert forall|a: int, b: int| 0 <= a < b < nv.len() implies seq_lt(#[trigger] nv[a], #[trigger] nv[b]) by {
                    if b < pos {
                    } else if b == pos {
                        assert(nv[a] == v[a]);
                    } else if a == pos {
                        assert(nv[b] == v[b - 1]);
                        lemma_lt_total(v[b - 1], s@);
                    } else if a < pos {
                        assert(nv[a] == v[a]);
                        assert(nv[b] == v[b - 1]);
                    } else {
                        assert(nv[a] == v[a - 1]);
                        assert(nv[b] == v[b - 1]);
                    }
                }
                assert forall|x: Seq<char>| nv.contains(x) <==> (v.contains(x) || x == s@) by {
                    if nv.contains(x) {
                        let k = choose|k: int| 0 <= k < nv.len() && nv[k] == x;
                        if k < pos {
                            assert(v[k] == x);
                        } else if k > pos {
                            assert(v[k - 1] == x);
                        }
                    }
                    if v.contains(x) {
                        let k = choose|k: int| 0 <= k < v.len() && v[k] == x;
                        if k < pos {
                            assert(nv[k] == x);
                        } else {
                            assert(nv[k + 1] == x);
                        }
                    }
                    if x == s@ {
                        assert(nv[pos as int] == x);
                    }
                }
            }
        }
    }
}

} // verus!
