//! The call aggregation ledger.
//!
//! Maps a proposal fingerprint to the ordered sequence of owner identities
//! that have approved that proposal so far. Storage stays bounded because
//! identical (call, arguments) pairs collapse to one fingerprint.

use vstd::prelude::*;

verus! {

use crate::OwnerId;

/// One pending proposal: its fingerprint and its approvers so far, in
/// approval order.
pub struct LedgerEntry {
    pub key: Vec<u8>,
    pub signers: Vec<OwnerId>,
}

/// The ledger, viewed as a map from fingerprint to approver sequence.
pub struct CallLedger {
    pub entries: Vec<LedgerEntry>,
}

/// Byte-vector equality.
fn bytes_eq(a: &Vec<u8>, b: &Vec<u8>) -> (r: bool)
    ensures
        r == (a@ == b@),
{
    if a.len() != b.len() {
        return false;
    }
    let mut i: usize = 0;
    while i < a.len()
        invariant
            i <= a.len(),
            a@.len() == b@.len(),
            forall|j: int| 0 <= j < i ==> a@[j] == b@[j],
        decreases a.len() - i,
    {
        if a[i] != b[i] {
            return false;
        }
        i = i + 1;
    }
    proof {
        assert(a@ =~= b@);
    }
    true
}

impl CallLedger {
    /// No two entries share a fingerprint.
    pub open spec fn wf(&self) -> bool {
        forall|i: int, j: int|
            0 <= i < j < self.entries@.len() ==> self.entries@[i].key@ != self.entries@[j].key@
    }

    /// Whether some entry holds the given fingerprint.
    pub open spec fn has_key(&self, k: Seq<u8>) -> bool {
        exists|i: int| 0 <= i < self.entries@.len() && self.entries@[i].key@ == k
    }

    /// The index of the entry holding the given fingerprint.
    pub open spec fn index_of(&self, k: Seq<u8>) -> int {
        choose|i: int| 0 <= i < self.entries@.len() && self.entries@[i].key@ == k
    }

    /// With distinct keys, the entry found at any index is the entry of its key.
    proof fn lemma_index_of(&self, i: int)
        requires
            self.wf(),
            0 <= i < self.entries@.len(),
        ensures
            self.index_of(self.entries@[i].key@) == i,
    {
        let k = self.entries@[i].key@;
        assert(self.has_key(k));
        let j = self.index_of(k);
        assert(0 <= j < self.entries@.len() && self.entries@[j].key@ == k);
        if i < j {
            assert(self.entries@[i].key@ != self.entries@[j].key@);
        } else if j < i {
            assert(self.entries@[j].key@ != self.entries@[i].key@);
        }
    }

    fn find(&self, key: &Vec<u8>) -> (r: Option<usize>)
        ensures
            match r {
                Some(i) => i < self.entries@.len() && self.entries@[i as int].key@ == key@,
                None => !self.has_key(key@),
            },
    {
        let mut i: usize = 0;
        while i < self.entries.len()
            invariant
                i <= self.entries@.len(),
                forall|j: int| 0 <= j < i ==> self.entries@[j].key@ != key@,
            decreases self.entries@.len() - i,
        {
            if bytes_eq(&self.entries[i].key, key) {
                return Some(i);
            }
            i = i + 1;
        }
        None
    }

    /// An empty ledger.
    pub fn new() -> (r: Self)
        ensures
            r@ == Map::<Seq<u8>, Seq<OwnerId>>::empty(),
            r.wf(),
            r.entries@.len() == 0,
    {
        let r = CallLedger { entries: Vec::new() };
        proof {
            assert(r@ =~= Map::<Seq<u8>, Seq<OwnerId>>::empty());
        }
        r
    }

    /// The approver sequence recorded under a fingerprint, if any.
    pub fn get(&self, key: &Vec<u8>) -> (r: Option<&Vec<OwnerId>>)
        requires
            self.wf(),
        ensures
            match r {
                Some(v) => self@.contains_key(key@) && v@ == self@[key@],
                None => !self@.contains_key(key@),
            },
    {
        match self.find(key) {
            Some(i) => {
                proof {
                    self.lemma_index_of(i as int);
                }
                Some(&self.entries[i].signers)
            },
            None => None,
        }
    }

    /// Creates or overwrites the entry for a fingerprint.
    pub fn insert_or_replace(&mut self, key: Vec<u8>, signers: Vec<OwnerId>)
        requires
            old(self).wf(),
        ensures
            final(self).wf(),
            final(self)@ == old(self)@.insert(key@, signers@),
    {
        let ghost k = key@;
        let ghost s = signers@;
        match self.find(&key) {
            Some(i) => {
                proof {
                    old(self).lemma_index_of(i as int);
                }
                self.entries[i] = LedgerEntry { key, signers };
                proof {
                    assert forall|p: int, q: int|
                        0 <= p < q < self.entries@.len() implies self.entries@[p].key@
                        != self.entries@[q].key@ by {
                        assert(old(self).entries@[p].key@ != old(self).entries@[q].key@);
                    }
                    assert forall|k2: Seq<u8>| self.has_key(k2) == old(self).has_key(k2) by {
                        if self.has_key(k2) {
                            let w = choose|w: int|
                                0 <= w < self.entries@.len() && self.entries@[w].key@ == k2;
                            assert(old(self).entries@[if w == i as int {
                                i as int
                            } else {
                                w
                            }].key@ == if w == i as int {
                                k
                            } else {
                                k2
                            });
                            assert(old(self).has_key(k2));
                        }
                        if old(self).has_key(k2) {
                            let w = choose|w: int|
                                0 <= w < old(self).entries@.len() && old(self).entries@[w].key@
                                    == k2;
                            if w == i as int {
                                assert(self.entries@[i as int].key@ == k);
                            } else {
                                assert(self.entries@[w].key@ == k2);
                            }
                            assert(self.has_key(k2));
                        }
                    }
                    assert forall|k2: Seq<u8>| #[trigger]
                        self@.contains_key(k2) implies self@[k2] == old(self)@.insert(k, s)[k2] by {
                        let w = self.index_of(k2);
                        self.lemma_index_of(w);
                        if k2 == k {
                            assert(self.entries@[i as int].key@ == k);
                            self.lemma_index_of(i as int);
                        } else {
                            assert(w != i as int);
                            old(self).lemma_index_of(w);
                        }
                    }
                    assert(self@ =~= old(self)@.insert(k, s));
                }
            },
            None => {
                self.entries.push(LedgerEntry { key, signers });
                proof {
                    let n = old(self).entries@.len() as int;
                    assert forall|p: int, q: int|
                        0 <= p < q < self.entries@.len() implies self.entries@[p].key@
                        != self.entries@[q].key@ by {
                        if q < n {
                            assert(old(self).entries@[p].key@ != old(self).entries@[q].key@);
                        } else {
                            assert(self.entries@[q].key@ == k);
                            assert(old(self).entries@[p].key@ != k) by {
                                if old(self).entries@[p].key@ == k {
                                    assert(old(self).has_key(k));
                                }
                            }
                        }
                    }
                    assert forall|k2: Seq<u8>| #[trigger]
                        self@.contains_key(k2) implies old(self)@.insert(k, s).contains_key(
                        k2,
                    ) && self@[k2] == old(self)@.insert(k, s)[k2] by {
                        let w = self.index_of(k2);
                        self.lemma_index_of(w);
                        if w == n {
                            assert(k2 == k);
                        } else {
                            assert(old(self).entries@[w].key@ == k2);
                            assert(old(self).has_key(k2));
                            old(self).lemma_index_of(w);
                            assert(k2 != k);
                        }
                    }
                    assert forall|k2: Seq<u8>| #[trigger]
                        old(self)@.insert(k, s).contains_key(k2) implies self@.contains_key(
                        k2,
                    ) by {
                        if k2 == k {
                            assert(self.entries@[n].key@ == k);
                        } else {
                            let w = old(self).index_of(k2);
                            old(self).lemma_index_of(w);
                            assert(self.entries@[w].key@ == k2);
                        }
                    }
                    assert(self@ =~= old(self)@.insert(k, s));
                }
            },
        }
    }

    /// Removes the entry for a fingerprint, if any.
    pub fn remove(&mut self, key: &Vec<u8>)
        requires
            old(self).wf(),
        ensures
            final(self).wf(),
            final(self)@ == old(self)@.remove(key@),
    {
        let ghost k = key@;
        match self.find(key) {
            Some(i) => {
                proof {
                    old(self).lemma_index_of(i as int);
                }
                self.entries.remove(i);
                proof {
                    let oe = old(self).entries@;
                    assert forall|p: int, q: int|
                        0 <= p < q < self.entries@.len() implies self.entries@[p].key@
                        != self.entries@[q].key@ by {
                        let p2: int = if p < i as int {
                            p
                        } else {
                            p + 1
                        };
                        let q2: int = if q < i as int {
                            q
                        } else {
                            q + 1
                        };
                        assert(self.entries@[p] == oe[p2]);
                        assert(self.entries@[q] == oe[q2]);
                        assert(oe[p2].key@ != oe[q2].key@);
                    }
                    assert forall|k2: Seq<u8>| #[trigger]
                        self@.contains_key(k2) implies old(self)@.remove(k).contains_key(k2)
                        && self@[k2] == old(self)@.remove(k)[k2] by {
                        let w = self.index_of(k2);
                        self.lemma_index_of(w);
                        let w2: int = if w < i as int {
                            w
                        } else {
                            w + 1
                        };
                        assert(self.entries@[w] == oe[w2]);
                        assert(old(self).has_key(k2));
                        old(self).lemma_index_of(w2);
                        assert(k2 != k) by {
                            if k2 == k {
                                old(self).lemma_index_of(i as int);
                            }
                        }
                    }
                    assert forall|k2: Seq<u8>| #[trigger]
                        old(self)@.remove(k).contains_key(k2) implies self@.contains_key(k2) by {
                        let w = old(self).index_of(k2);
                        old(self).lemma_index_of(w);
                        assert(k2 != k);
                        assert(w != i as int);
                        let w2: int = if w < i as int {
                            w
                        } else {
                            w - 1
                        };
                        assert(self.entries@[w2] == oe[w]);
                    }
                    assert(self@ =~= old(self)@.remove(k));
                }
            },
            None => {
                proof {
                    assert forall|k2: Seq<u8>| #[trigger]
                        self@.contains_key(k2) implies k2 != k by {
                        if k2 == k {
                            assert(self.has_key(k));
                        }
                    }
                    assert(self@ =~= old(self)@.remove(k));
                }
            },
        }
    }

    /// Removes every entry at once.
    pub fn clear_all(&mut self)
        ensures
            final(self).wf(),
            final(self)@ == Map::<Seq<u8>, Seq<OwnerId>>::empty(),
            final(self).entries@.len() == 0,
    {
        self.entries.clear();
        proof {
            assert(self@ =~= Map::<Seq<u8>, Seq<OwnerId>>::empty());
        }
    }
}

impl View for CallLedger {
    type V = Map<Seq<u8>, Seq<OwnerId>>;

    open spec fn view(&self) -> Map<Seq<u8>, Seq<OwnerId>> {
        Map::new(
            |k: Seq<u8>| self.has_key(k),
            |k: Seq<u8>| self.entries@[self.index_of(k)].signers@,
        )
    }
}

} // verus!
