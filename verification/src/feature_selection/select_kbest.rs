//! Ranking scored columns for top-k selection.
//!
//! A k-best selector scores every feature (a floating-point statistic,
//! computed outside this crate's verified core), ranks the scores from the
//! highest down, keeping the given order among equal scores, and keeps the
//! first `k`. This module does the ranking. Scores are `f64` bit patterns
//! compared as floats (`-0.0` equals `0.0`); a `NaN` score cannot be ranked.

use vstd::prelude::*;
use crate::frame::is_nan_bits;
use crate::preprocessing::binarizer::order_key;

verus! {

broadcast use vstd::seq_lib::to_multiset_insert;

/// Where a stable descending insertion puts `e` into `s`: after every
/// entry whose score is at least `e`'s.
pub open spec fn insert_pos(s: Seq<(Seq<char>, u64)>, e: (Seq<char>, u64)) -> nat
    decreases s.len(),
{
    if s.len() == 0 {
        0
    } else if order_key(s[0].1) < order_key(e.1) {
        0
    } else {
        1 + insert_pos(s.drop_first(), e)
    }
}

/// The entries of `s` ranked by score from the highest down, equal scores
/// keeping their order in `s`.
pub open spec fn ranked(s: Seq<(Seq<char>, u64)>) -> Seq<(Seq<char>, u64)>
    decreases s.len(),
{
    if s.len() == 0 {
        Seq::empty()
    } else {
        let r = ranked(s.drop_last());
        r.insert(insert_pos(r, s.last()) as int, s.last())
    }
}

/// The view of a list of (name, score) pairs.
pub open spec fn scores_view(v: Seq<(String, u64)>) -> Seq<(Seq<char>, u64)> {
    v.map_values(|p: (String, u64)| (p.0@, p.1))
}

/// Whether no score is `NaN`.
pub open spec fn no_nan_score(s: Seq<(Seq<char>, u64)>) -> bool {
    forall|k: int| 0 <= k < s.len() ==> !is_nan_bits(#[trigger] s[k].1)
}

proof fn lemma_insert_pos_bound(s: Seq<(Seq<char>, u64)>, e: (Seq<char>, u64))
    ensures
        insert_pos(s, e) <= s.len(),
        forall|m: int| 0 <= m < insert_pos(s, e) ==> order_key(#[trigger] s[m].1) >= order_key(e.1),
        insert_pos(s, e) < s.len() ==> order_key(s[insert_pos(s, e) as int].1) < order_key(e.1),
    decreases s.len(),
{
    if s.len() > 0 && order_key(s[0].1) >= order_key(e.1) {
        lemma_insert_pos_bound(s.drop_first(), e);
        assert forall|m: int| 0 <= m < insert_pos(s, e) implies order_key(#[trigger] s[m].1) >= order_key(e.1) by {
            if m > 0 {
                assert(s[m] == s.drop_first()[m - 1]);
            }
        }
    }
}

/// The position where `e` goes, by the same rule as [`insert_pos`].
fn find_insert_pos(v: &Vec<(String, u64)>, e: u64) -> (r: usize)
    ensures
        r == insert_pos(scores_view(v@), (Seq::<char>::empty(), e)),
{
    let ghost s = scores_view(v@);
    let ghost probe = (Seq::<char>::empty(), e);
    let mut j: usize = 0;
    assert(s.skip(0) =~= s);
    while j < v.len()
        invariant
            s == scores_view(v@),
            probe == (Seq::<char>::empty(), e),
            j <= v.len(),
            insert_pos(s, probe) == j + insert_pos(s.skip(j as int), probe),
        decreases v.len() - j,
    {
        proof {
            assert(s.skip(j as int)[0] == s[j as int]);
            assert(s[j as int].1 == v@[j as int].1);
            assert(s.skip(j as int).drop_first() =~= s.skip(j + 1));
        }
        let kj: i128 = if v[j].1 < 0x8000_0000_0000_0000u64 { v[j].1 as i128 } else { -((v[j].1 - 0x8000_0000_0000_0000u64) as i128) };
        let ke: i128 = if e < 0x8000_0000_0000_0000u64 { e as i128 } else { -((e - 0x8000_0000_0000_0000u64) as i128) };
        assert(kj == order_key(s[j as int].1) && ke == order_key(e));
        if kj < ke {
            return j;
        }
        j = j + 1;
    }
    j
}

/// The position only depends on the score of the inserted entry.
proof fn lemma_insert_pos_score(s: Seq<(Seq<char>, u64)>, e: (Seq<char>, u64), f: (Seq<char>, u64))
    requires
        e.1 == f.1,
    ensures
        insert_pos(s, e) == insert_pos(s, f),
    decreases s.len(),
{
    if s.len() > 0 {
        lemma_insert_pos_score(s.drop_first(), e, f);
    }
}

/// The scored columns ranked from the highest score down, equal scores
/// keeping their given order (a stable sort).
pub fn rank_scores(scores: &Vec<(String, u64)>) -> (r: Vec<(String, u64)>)
    ensures
        scores_view(r@) == ranked(scores_view(scores@)),
{
    let ghost s = scores_view(scores@);
    let mut out: Vec<(String, u64)> = Vec::new();
    for i in 0..scores.len()
        invariant
            s == scores_view(scores@),
            scores_view(out@) == ranked(s.take(i as int)),
    {
        let ghost before = scores_view(out@);
        let e = (scores[i].0.clone(), scores[i].1);
        let p = find_insert_pos(&out, e.1);
        proof {
            assert(s.take(i + 1).drop_last() =~= s.take(i as int));
            assert(s.take(i + 1).last() == s[i as int]);
            lemma_insert_pos_score(before, (Seq::<char>::empty(), e.1), s[i as int]);
            lemma_insert_pos_bound(before, s[i as int]);
        }
        out.insert(p, e);
        proof {
            assert(scores_view(out@) =~= before.insert(p as int, s[i as int]));
        }
    }
    proof {
        assert(s.take(scores.len() as int) =~= s);
    }
    out
}

/// Ranking orders the scores from the highest down and keeps every entry:
/// the ranked list is a reordering of the scores.
pub proof fn law_ranked_sorted(s: Seq<(Seq<char>, u64)>)
    requires
        no_nan_score(s),
    ensures
        forall|a: int, b: int| 0 <= a < b < ranked(s).len() ==> order_key(#[trigger] ranked(s)[a].1) >= order_key(
            #[trigger] ranked(s)[b].1,
        ),
        ranked(s).to_multiset() == s.to_multiset(),
    decreases s.len(),
{
    if s.len() > 0 {
        let pre = s.drop_last();
        assert(no_nan_score(pre)) by {
            assert forall|k: int| 0 <= k < pre.len() implies !is_nan_bits(#[trigger] pre[k].1) by {
                assert(pre[k] == s[k]);
            }
        }
        law_ranked_sorted(pre);
        let r = ranked(pre);
        let e = s.last();
        let p = insert_pos(r, e);
        lemma_insert_pos_bound(r, e);
        let out = r.insert(p as int, e);
        assert forall|a: int, b: int| 0 <= a < b < out.len() implies order_key(#[trigger] out[a].1) >= order_key(#[trigger] out[b].1) by {
            if b < p {
                assert(out[a] == r[a] && out[b] == r[b]);
            } else if b == p {
                assert(out[a] == r[a]);
            } else if a < p {
                assert(out[a] == r[a] && out[b] == r[b - 1]);
                if p < r.len() {
                    assert(order_key(r[a].1) >= order_key(e.1));
                    assert(order_key(r[p as int].1) < order_key(e.1));
                    if b - 1 > p {
                        assert(order_key(r[p as int].1) >= order_key(r[b - 1].1));
                    }
                }
            } else if a == p {
                assert(out[a] == e && out[b] == r[b - 1]);
                if b - 1 > p {
                    assert(order_key(r[p as int].1) >= order_key(r[b - 1].1));
                }
            } else {
                assert(out[a] == r[a - 1] && out[b] == r[b - 1]);
            }
        }
        assert(s =~= pre.push(e));
        assert(s.to_multiset() =~= pre.to_multiset().insert(e)) by {
            pre.to_multiset_ensures();
        }
        assert(out.to_multiset() == r.to_multiset().insert(e));
        assert(ranked(s) == out);
    } else {
        assert(ranked(s) =~= s);
    }
}

/// An entry goes after every entry whose score is at least its own.
proof fn lemma_insert_after_ties(s: Seq<(Seq<char>, u64)>, e: (Seq<char>, u64))
    requires
        forall|k: int| 0 <= k < s.len() ==> order_key((#[trigger] s[k]).1) >= order_key(e.1),
    ensures
        insert_pos(s, e) == s.len(),
    decreases s.len(),
{
    if s.len() > 0 {
        let rest = s.drop_first();
        assert forall|k: int| 0 <= k < rest.len() implies order_key((#[trigger] rest[k]).1) >= order_key(e.1) by {
            assert(rest[k] == s[k + 1]);
        }
        lemma_insert_after_ties(rest, e);
    }
}

/// Ranking is stable: entries with equal scores keep their order, so a list
/// whose scores are all equal comes back unchanged.
pub proof fn law_ranked_ties_keep_order(s: Seq<(Seq<char>, u64)>)
    requires
        forall|a: int, b: int| 0 <= a < s.len() && 0 <= b < s.len() ==> order_key((#[trigger] s[a]).1) == order_key(
            (#[trigger] s[b]).1,
        ),
    ensures
        ranked(s) == s,
    decreases s.len(),
{
    if s.len() > 0 {
        let pre = s.drop_last();
        assert forall|a: int, b: int| 0 <= a < pre.len() && 0 <= b < pre.len() implies order_key((#[trigger] pre[a]).1)
            == order_key((#[trigger] pre[b]).1) by {
            assert(pre[a] == s[a] && pre[b] == s[b]);
        }
        law_ranked_ties_keep_order(pre);
        assert forall|k: int| 0 <= k < pre.len() implies order_key((#[trigger] pre[k]).1) >= order_key(s.last().1) by {
            assert(pre[k] == s[k]);
            assert(s.last() == s[s.len() - 1]);
        }
        lemma_insert_after_ties(pre, s.last());
        assert(pre.insert(pre.len() as int, s.last()) =~= s);
    }
}

} // verus!
