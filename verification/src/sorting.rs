//! Canonical ordering of owner identifiers.
//!
//! A candidate owner set is sorted into a total order before it is encoded
//! and fingerprinted, so that semantically identical candidate sets always
//! fingerprint identically regardless of submission order.

use vstd::prelude::*;
use vstd::relations::{sorted_by, total_ordering};
use vstd::seq_lib::{lemma_multiset_commutative, lemma_sorted_unique};

verus! {

use crate::OwnerId;

/// The ordering that canonicalization sorts by.
pub open spec fn id_leq(a: OwnerId, b: OwnerId) -> bool {
    a <= b
}

/// The canonical (sorted) arrangement of a sequence of owner identifiers.
pub open spec fn canonical_order(s: Seq<OwnerId>) -> Seq<OwnerId> {
    s.sort_by(|a: OwnerId, b: OwnerId| id_leq(a, b))
}

proof fn lemma_insert_to_multiset(s: Seq<OwnerId>, i: int, x: OwnerId)
    requires
        0 <= i <= s.len(),
    ensures
        s.insert(i, x).to_multiset() == s.to_multiset().insert(x),
{
    broadcast use vstd::seq_lib::group_to_multiset_ensures;
    broadcast use vstd::multiset::group_multiset_axioms;

    let front = s.subrange(0, i);
    let back = s.subrange(i, s.len() as int);
    assert(s.insert(i, x) == front.push(x) + back);
    lemma_multiset_commutative(front.push(x), back);
    assert(s =~= front + back);
    lemma_multiset_commutative(front, back);
    assert forall|e: OwnerId|
        s.insert(i, x).to_multiset().count(e) == s.to_multiset().insert(x).count(e) by {
        assert(front.push(x).to_multiset() =~= front.to_multiset().insert(x));
    }
    assert(s.insert(i, x).to_multiset() =~= s.to_multiset().insert(x));
}

/// Sequences holding the same identifiers the same number of times share
/// one canonical arrangement.
pub proof fn lemma_canonical_order_permutation(a: Seq<OwnerId>, b: Seq<OwnerId>)
    requires
        a.to_multiset() == b.to_multiset(),
    ensures
        canonical_order(a) == canonical_order(b),
{
    let leq = |x: OwnerId, y: OwnerId| id_leq(x, y);
    a.lemma_sort_by_ensures(leq);
    b.lemma_sort_by_ensures(leq);
    assert(total_ordering(leq));
    lemma_sorted_unique(a.sort_by(leq), b.sort_by(leq), leq);
    assert(a.sort_by(leq) =~= b.sort_by(leq));
}

/// Sorts owner identifiers into the canonical order.
pub fn sort_ids(v: &Vec<OwnerId>) -> (r: Vec<OwnerId>)
    ensures
        r@ == canonical_order(v@),
{
    let ghost leq = |a: OwnerId, b: OwnerId| id_leq(a, b);
    let mut r: Vec<OwnerId> = Vec::new();
    let mut i: usize = 0;
    proof {
        assert(v@.take(0) =~= Seq::<OwnerId>::empty());
    }
    while i < v.len()
        invariant
            i <= v.len(),
            forall|a: OwnerId, b: OwnerId| #[trigger] leq(a, b) == id_leq(a, b),
            sorted_by(r@, leq),
            r@.to_multiset() == v@.take(i as int).to_multiset(),
        decreases v.len() - i,
    {
        let x = v[i];
        let mut j: usize = 0;
        while j < r.len() && r[j] <= x
            invariant
                j <= r.len(),
                forall|k: int| 0 <= k < j ==> r@[k] <= x,
            decreases r.len() - j,
        {
            j = j + 1;
        }
        let ghost prev = r@;
        r.insert(j, x);
        proof {
            broadcast use vstd::seq_lib::group_to_multiset_ensures;

            lemma_insert_to_multiset(prev, j as int, x);
            let t = prev.insert(j as int, x);
            assert(r@ == t);
            prev.insert_ensures(j as int, x);
            assert(t[j as int] == x) by {
                assert(t == prev.subrange(0, j as int).push(x) + prev.subrange(
                    j as int,
                    prev.len() as int,
                ));
            }
            assert forall|p: int, q: int| 0 <= p < q < t.len() implies #[trigger] leq(
                t[p],
                t[q],
            ) by {
                if q < j {
                    assert(t[p] == prev[p]);
                    assert(t[q] == prev[q]);
                    assert(leq(prev[p], prev[q]));
                } else if q == j {
                    assert(t[p] == prev[p]);
                    assert(t[q] == x);
                    assert(prev[p] <= x);
                } else {
                    assert(t[q] == prev[q - 1]);
                    if p < j {
                        assert(t[p] == prev[p]);
                        assert(leq(prev[p], prev[q - 1]));
                    } else if p == j {
                        assert(t[p] == x);
                        assert(j < prev.len() && prev[j as int] > x);
                        if q - 1 > j {
                            assert(leq(prev[j as int], prev[q - 1]));
                        }
                    } else {
                        assert(t[p] == prev[p - 1]);
                        assert(leq(prev[p - 1], prev[q - 1]));
                    }
                }
            }
            assert(v@.take(i as int + 1) =~= v@.take(i as int).push(v@[i as int]));
            assert(v@.take(i as int + 1).to_multiset() == v@.take(
                i as int,
            ).to_multiset().insert(x));
        }
        i = i + 1;
    }
    proof {
        assert(v@.take(v@.len() as int) =~= v@);
        v@.lemma_sort_by_ensures(leq);
        assert(total_ordering(leq));
        lemma_sorted_unique(r@, v@.sort_by(leq), leq);
        assert(r@ == canonical_order(v@));
    }
    r
}

} // verus!
