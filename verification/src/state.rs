//! The ownership registry and the approval state machine.
//!
//! A group of owners shares authority over guarded calls. A submitted call is
//! fingerprinted; approvals from owners accumulate in the ledger against that
//! fingerprint; the call is released exactly when the accumulated count
//! reaches the configured threshold. Changing the owner set and threshold is
//! itself gated by the same mechanism, and a successful change invalidates
//! every in-flight approval.

use vstd::prelude::*;

verus! {

use crate::OwnerId;
use crate::digest::{fingerprint, fingerprint_of};
use crate::errors::MultiOwnableError;
use crate::ledger::CallLedger;
use crate::sorting::{canonical_order, sort_ids};
use crate::text::{append_dec, dec_rep};

/// The reserved call identifier under which ownership updates are proposed.
/// It is distinct from every recognized business call identifier.
pub open spec fn update_call_name() -> Seq<char> {
    "_"@
}

/// The canonical text of a sorted owner list: each identifier in decimal,
/// each preceded by a separator.
pub open spec fn ids_text(ids: Seq<OwnerId>) -> Seq<char>
    decreases ids.len(),
{
    if ids.len() == 0 {
        Seq::empty()
    } else {
        ids_text(ids.drop_last()) + seq![','] + dec_rep(ids.last() as nat)
    }
}

/// The canonical payload of an update proposal: the new threshold in decimal,
/// then the sorted candidate owners. Semantically identical candidate sets
/// always encode identically, regardless of submission order.
pub open spec fn update_payload(sorted: Seq<OwnerId>, threshold: u32) -> Seq<char> {
    dec_rep(threshold as nat) + ids_text(sorted)
}

/// The fingerprint under which an update proposal accumulates approvals.
pub open spec fn update_key(new_owners: Seq<OwnerId>, new_threshold: u32) -> Seq<u8> {
    fingerprint_of(
        update_call_name(),
        update_payload(canonical_order(new_owners), new_threshold),
    )
}

/// Semantically identical candidate owner sets always fingerprint
/// identically: an update proposal's key depends only on which owners are
/// proposed and how often, never on the order in which they are listed.
pub proof fn lemma_update_key_canonical(a: Seq<OwnerId>, b: Seq<OwnerId>, threshold: u32)
    requires
        a.to_multiset() == b.to_multiset(),
    ensures
        update_key(a, threshold) == update_key(b, threshold),
{
    crate::sorting::lemma_canonical_order_permutation(a, b);
}

/// The ledger entry recorded under one fingerprint, if any.
pub open spec fn map_entry(m: Map<Seq<u8>, Seq<OwnerId>>, k: Seq<u8>) -> Option<Seq<OwnerId>> {
    if m.contains_key(k) {
        Some(m[k])
    } else {
        None
    }
}

/// One submission against one fingerprint's entry: the entry afterwards, and
/// whether the submission dispatches.
///
/// With threshold one the submission dispatches at once and the ledger is
/// never touched. Otherwise a first submission records its caller; a
/// submission that finds the accumulated count one short of the threshold
/// dispatches and consumes the entry; and a submission below that line
/// appends its caller to the tally only when that caller is already recorded.
pub open spec fn key_step(e: Option<Seq<OwnerId>>, threshold: u32, caller: OwnerId) -> (
    Option<Seq<OwnerId>>,
    bool,
) {
    if threshold == 1 {
        (e, true)
    } else {
        match e {
            None => (Some(seq![caller]), false),
            Some(ex) => if ex.len() + 1 >= threshold {
                (None, true)
            } else if ex.contains(caller) {
                (Some(ex.push(caller)), false)
            } else {
                (Some(ex), false)
            },
        }
    }
}

/// Writes one fingerprint's entry back into the ledger.
pub open spec fn store_entry(
    m: Map<Seq<u8>, Seq<OwnerId>>,
    k: Seq<u8>,
    e: Option<Seq<OwnerId>>,
) -> Map<Seq<u8>, Seq<OwnerId>> {
    match e {
        None => m.remove(k),
        Some(v) => m.insert(k, v),
    }
}

/// The whole-ledger effect of one submission: the ledger afterwards, and
/// whether the submission dispatches.
pub open spec fn submit_step(
    m: Map<Seq<u8>, Seq<OwnerId>>,
    threshold: u32,
    caller: OwnerId,
    k: Seq<u8>,
) -> (Map<Seq<u8>, Seq<OwnerId>>, bool) {
    let r = key_step(map_entry(m, k), threshold, caller);
    (store_entry(m, k, r.0), r.1)
}

/// Whether a submission under this fingerprint would dispatch right now.
pub open spec fn crossing(m: Map<Seq<u8>, Seq<OwnerId>>, threshold: u32, k: Seq<u8>) -> bool {
    threshold == 1 || (m.contains_key(k) && m[k].len() + 1 >= threshold)
}

/// An approver sequence with every occurrence of one identity removed,
/// relative order kept.
pub open spec fn remove_id(s: Seq<OwnerId>, caller: OwnerId) -> Seq<OwnerId>
    decreases s.len(),
{
    if s.len() == 0 {
        Seq::empty()
    } else if s.last() == caller {
        remove_id(s.drop_last(), caller)
    } else {
        remove_id(s.drop_last(), caller).push(s.last())
    }
}

/// The owner list after an update: existing owners are preserved, and
/// candidates not yet present are appended in the order given.
pub open spec fn union_append(base: Seq<OwnerId>, add: Seq<OwnerId>) -> Seq<OwnerId>
    decreases add.len(),
{
    if add.len() == 0 {
        base
    } else {
        let b2 = if base.contains(add[0]) {
            base
        } else {
            base.push(add[0])
        };
        union_append(b2, add.drop_first())
    }
}

/// What `union_append` holds: exactly the identities of either side.
pub proof fn lemma_union_append_contains(base: Seq<OwnerId>, add: Seq<OwnerId>)
    ensures
        forall|x: OwnerId| #[trigger]
            union_append(base, add).contains(x) <==> (base.contains(x) || add.contains(x)),
    decreases add.len(),
{
    if add.len() == 0 {
    } else {
        let b2 = if base.contains(add[0]) {
            base
        } else {
            base.push(add[0])
        };
        lemma_union_append_contains(b2, add.drop_first());
        assert forall|x: OwnerId| #[trigger]
            union_append(base, add).contains(x) <==> (base.contains(x) || add.contains(x)) by {
            assert(b2.contains(x) <==> (base.contains(x) || x == add[0])) by {
                if base.contains(add[0]) {
                } else {
                    if b2.contains(x) {
                        let i = choose|i: int| 0 <= i < b2.len() && b2[i] == x;
                        if i < base.len() {
                            assert(base[i] == x);
                        }
                    }
                    if base.contains(x) {
                        let i = choose|i: int| 0 <= i < base.len() && base[i] == x;
                        assert(b2[i] == x);
                    }
                    if x == add[0] {
                        assert(b2[base.len() as int] == x);
                    }
                }
            }
            assert(union_append(base, add) == union_append(b2, add.drop_first()));
            assert(union_append(b2, add.drop_first()).contains(x) <==> (b2.contains(x)
                || add.drop_first().contains(x)));
            assert(add.contains(x) <==> (x == add[0] || add.drop_first().contains(x))) by {
                if add.contains(x) {
                    let i = choose|i: int| 0 <= i < add.len() && add[i] == x;
                    if i > 0 {
                        assert(add.drop_first()[i - 1] == x);
                    }
                }
                if add.drop_first().contains(x) {
                    let i = choose|i: int|
                        0 <= i < add.drop_first().len() && add.drop_first()[i] == x;
                    assert(add[i + 1] == x);
                }
            }
        }
    }
}

/// The outcome of a row of submissions against one fingerprint: the entry
/// afterwards, and how many of the submissions dispatched.
pub open spec fn run_key(e: Option<Seq<OwnerId>>, threshold: u32, callers: Seq<OwnerId>) -> (
    Option<Seq<OwnerId>>,
    nat,
)
    decreases callers.len(),
{
    if callers.len() == 0 {
        (e, 0)
    } else {
        let first = key_step(e, threshold, callers[0]);
        let rest = run_key(first.0, threshold, callers.drop_first());
        (rest.0, rest.1 + if first.1 {
            1nat
        } else {
            0nat
        })
    }
}

/// Threshold-one bypass: under threshold one every submission dispatches at
/// once, and the ledger is left exactly as it was, whatever is pending.
pub proof fn lemma_threshold_one_bypass(m: Map<Seq<u8>, Seq<OwnerId>>, caller: OwnerId, k: Seq<u8>)
    ensures
        submit_step(m, 1, caller, k).1,
        submit_step(m, 1, caller, k).0 == m,
{
    if m.contains_key(k) {
        assert(m.insert(k, m[k]) =~= m);
    } else {
        assert(m.remove(k) =~= m);
    }
}

/// Ledger cleared on success: a submission that crosses a threshold above
/// one consumes the entry under its fingerprint.
pub proof fn lemma_ledger_cleared_on_success(
    m: Map<Seq<u8>, Seq<OwnerId>>,
    threshold: u32,
    caller: OwnerId,
    k: Seq<u8>,
)
    requires
        threshold >= 2,
        submit_step(m, threshold, caller, k).1,
    ensures
        !submit_step(m, threshold, caller, k).0.contains_key(k),
{
}

/// A dispatch consumes its tally: once a submission crosses a threshold
/// above one, an immediately following submission under the same fingerprint
/// opens a fresh round instead of dispatching again.
pub proof fn lemma_dispatch_consumes_tally(
    m: Map<Seq<u8>, Seq<OwnerId>>,
    threshold: u32,
    c1: OwnerId,
    c2: OwnerId,
    k: Seq<u8>,
)
    requires
        threshold >= 2,
        submit_step(m, threshold, c1, k).1,
    ensures
        !submit_step(submit_step(m, threshold, c1, k).0, threshold, c2, k).1,
{
}

/// Exactly-once dispatch at threshold two: from no pending entry, the first
/// submission records its caller without dispatching, and the next
/// submission reaches the accumulated count of two and dispatches, consuming
/// the entry — whoever the two callers are.
pub proof fn lemma_exactly_once_threshold_two(c1: OwnerId, c2: OwnerId)
    ensures
        !key_step(None, 2, c1).1,
        key_step(None, 2, c1).0 == Some(seq![c1]),
        key_step(Some(seq![c1]), 2, c2).1,
        key_step(Some(seq![c1]), 2, c2).0 is None,
        run_key(None, 2, seq![c1, c2]).1 == 1,
{
    let cs = seq![c1, c2];
    assert(cs[0] == c1);
    assert(cs.drop_first() =~= seq![c2]);
    assert(seq![c2].drop_first() =~= Seq::<OwnerId>::empty());
    assert(run_key(None, 2, seq![c2].drop_first()).1 == 0);
    assert(seq![c2][0] == c2);
    assert(run_key(Some(seq![c1]), 2, seq![c2]).1 == 1);
    assert(run_key(None, 2, cs) == run_key(Some(seq![c1]), 2, cs.drop_first()));
}

/// The recorded accumulation rule appends a signer only when that signer is
/// already recorded. So with a threshold above two, a row of submissions by
/// pairwise distinct owners leaves a fresh tally at one approver forever and
/// never dispatches.
pub proof fn lemma_distinct_owners_stall_above_two(
    e: Option<Seq<OwnerId>>,
    threshold: u32,
    callers: Seq<OwnerId>,
)
    requires
        threshold >= 3,
        callers.no_duplicates(),
        e is None || (e matches Some(v) && v.len() == 1 && !callers.contains(v[0])),
    ensures
        run_key(e, threshold, callers).1 == 0,
    decreases callers.len(),
{
    if callers.len() == 0 {
    } else {
        let c0 = callers[0];
        let rest = callers.drop_first();
        assert(rest.no_duplicates()) by {
            assert forall|i: int, j: int| 0 <= i < j < rest.len() implies rest[i] != rest[j] by {
                assert(callers[i + 1] != callers[j + 1]);
            }
        }
        let first = key_step(e, threshold, c0);
        match e {
            None => {
                assert(first.0 == Some(seq![c0]) && !first.1);
                assert(!rest.contains(c0)) by {
                    if rest.contains(c0) {
                        let i = choose|i: int| 0 <= i < rest.len() && rest[i] == c0;
                        assert(callers[i + 1] == callers[0]);
                    }
                }
                assert(seq![c0][0] == c0);
                lemma_distinct_owners_stall_above_two(first.0, threshold, rest);
            },
            Some(v) => {
                assert(v.len() + 1 < threshold);
                assert(!v.contains(c0)) by {
                    if v.contains(c0) {
                        assert(v[0] == c0);
                        assert(callers[0] == v[0]);
                        assert(callers.contains(v[0]));
                    }
                }
                assert(first.0 == e && !first.1);
                assert(!rest.contains(v[0])) by {
                    if rest.contains(v[0]) {
                        let i = choose|i: int| 0 <= i < rest.len() && rest[i] == v[0];
                        assert(callers[i + 1] == v[0]);
                        assert(callers.contains(v[0]));
                    }
                }
                lemma_distinct_owners_stall_above_two(e, threshold, rest);
            },
        }
    }
}

/// Clones a vector of owner identifiers.
fn clone_ids(v: &Vec<OwnerId>) -> (r: Vec<OwnerId>)
    ensures
        r@ == v@,
{
    let mut r: Vec<OwnerId> = Vec::new();
    let mut i: usize = 0;
    while i < v.len()
        invariant
            i <= v@.len(),
            r@ == v@.take(i as int),
        decreases v@.len() - i,
    {
        r.push(v[i]);
        proof {
            assert(v@.take(i as int + 1) =~= v@.take(i as int).push(v@[i as int]));
        }
        i = i + 1;
    }
    proof {
        assert(v@.take(v@.len() as int) =~= v@);
    }
    r
}

/// Whether a vector holds an identifier.
fn contains_id(v: &Vec<OwnerId>, x: OwnerId) -> (r: bool)
    ensures
        r == v@.contains(x),
{
    let mut i: usize = 0;
    while i < v.len()
        invariant
            i <= v@.len(),
            forall|j: int| 0 <= j < i ==> v@[j] != x,
        decreases v@.len() - i,
    {
        if v[i] == x {
            return true;
        }
        i = i + 1;
    }
    false
}

/// Builds the canonical update payload text for a sorted owner list.
fn build_update_payload(sorted: &Vec<OwnerId>, threshold: u32) -> (r: String)
    ensures
        r@ == update_payload(sorted@, threshold),
{
    let mut out = String::new();
    append_dec(&mut out, threshold as u64);
    proof {
        assert(sorted@.take(0) =~= Seq::<OwnerId>::empty());
        assert(out@ =~= dec_rep(threshold as nat) + ids_text(sorted@.take(0)));
    }
    let mut i: usize = 0;
    while i < sorted.len()
        invariant
            i <= sorted@.len(),
            out@ == dec_rep(threshold as nat) + ids_text(sorted@.take(i as int)),
        decreases sorted@.len() - i,
    {
        out.append(",");
        append_dec(&mut out, sorted[i]);
        proof {
            reveal_strlit(",");
            assert(","@ =~= seq![',']);
            let t1 = sorted@.take(i as int + 1);
            assert(t1.drop_last() =~= sorted@.take(i as int));
            assert(t1.last() == sorted@[i as int]);
            assert(out@ =~= dec_rep(threshold as nat) + ids_text(t1));
        }
        i = i + 1;
    }
    proof {
        assert(sorted@.take(sorted@.len() as int) =~= sorted@);
    }
    out
}

/// The registry of owners and threshold, together with the ledger of pending
/// approvals: the whole state of one guarded contract instance.
pub struct MultiOwnableData {
    pub owners: Vec<OwnerId>,
    pub threshold: u32,
    pub calls: CallLedger,
}

impl MultiOwnableData {
    /// The state's invariant: ledger keys are distinct, owners are distinct,
    /// the registry is populated exactly when a threshold is set, and nothing
    /// is pending before initialization.
    pub open spec fn wf(&self) -> bool {
        &&& self.calls.wf()
        &&& self.owners@.no_duplicates()
        &&& (self.threshold >= 1 <==> self.owners@.len() >= 1)
        &&& (self.threshold == 0 ==> self.calls.entries@.len() == 0)
    }

    /// Whether an identity is a current owner.
    pub open spec fn is_owner_spec(&self, caller: OwnerId) -> bool {
        self.owners@.contains(caller)
    }

    /// Arguments a registry accepts: a non-empty owner list, a positive
    /// threshold, and no more owners than the threshold.
    pub open spec fn valid_args(owners: Seq<OwnerId>, threshold: u32) -> bool {
        owners.len() >= 1 && threshold >= 1 && owners.len() <= threshold
    }

    /// An uninitialized state: no owners, threshold zero, nothing pending.
    pub fn new() -> (r: Self)
        ensures
            r.wf(),
            r.owners@ == Seq::<OwnerId>::empty(),
            r.threshold == 0u32,
            r.calls@ == Map::<Seq<u8>, Seq<OwnerId>>::empty(),
    {
        MultiOwnableData { owners: Vec::new(), threshold: 0, calls: CallLedger::new() }
    }

    /// Membership query on the owner set.
    pub fn is_owner(&self, caller: OwnerId) -> (r: bool)
        ensures
            r == self.is_owner_spec(caller),
    {
        contains_id(&self.owners, caller)
    }

    /// The current owners, in registration order.
    pub fn get_owners(&self) -> (r: Vec<OwnerId>)
        ensures
            r@ == self.owners@,
    {
        clone_ids(&self.owners)
    }

    /// The current approval threshold.
    pub fn get_threshold(&self) -> (r: u32)
        ensures
            r == self.threshold,
    {
        self.threshold
    }

    fn check_valid_args(owners: &Vec<OwnerId>, threshold: u32) -> (r: bool)
        ensures
            r == Self::valid_args(owners@, threshold),
    {
        owners.len() >= 1 && threshold >= 1 && owners.len() <= threshold as usize
    }

    /// Unions the given owners into the registry and overwrites the
    /// threshold. Existing owners are never removed.
    fn set_data(&mut self, owners: &Vec<OwnerId>, threshold: u32)
        requires
            old(self).owners@.no_duplicates(),
        ensures
            final(self).owners@ == union_append(old(self).owners@, owners@),
            final(self).owners@.no_duplicates(),
            final(self).threshold == threshold,
            final(self).calls == old(self).calls,
    {
        let mut i: usize = 0;
        proof {
            assert(owners@.skip(0) =~= owners@);
        }
        while i < owners.len()
            invariant
                i <= owners@.len(),
                self.owners@.no_duplicates(),
                self.calls == old(self).calls,
                union_append(self.owners@, owners@.skip(i as int)) == union_append(
                    old(self).owners@,
                    owners@,
                ),
            decreases owners@.len() - i,
        {
            let o = owners[i];
            let ghost before = self.owners@;
            if !contains_id(&self.owners, o) {
                self.owners.push(o);
                proof {
                    assert forall|p: int, q: int|
                        0 <= p < q < self.owners@.len() implies self.owners@[p]
                        != self.owners@[q] by {
                        if q < before.len() {
                            assert(before[p] != before[q]);
                        } else {
                            assert(self.owners@[q] == o);
                            assert(before.contains(self.owners@[p]));
                        }
                    }
                }
            }
            proof {
                let rest = owners@.skip(i as int);
                assert(rest[0] == owners@[i as int]);
                assert(rest.drop_first() =~= owners@.skip(i as int + 1));
                assert(union_append(before, rest) == union_append(
                    self.owners@,
                    owners@.skip(i as int + 1),
                ));
            }
            i = i + 1;
        }
        proof {
            assert(owners@.skip(owners@.len() as int) =~= Seq::<OwnerId>::empty());
        }
        self.threshold = threshold;
    }

    /// One-time setup: validates the arguments and populates the registry.
    pub fn initialize(&mut self, owners: &Vec<OwnerId>, threshold: u32) -> (r: Result<
        (),
        MultiOwnableError,
    >)
        requires
            old(self).wf(),
        ensures
            final(self).wf(),
            r is Ok <==> Self::valid_args(owners@, threshold),
            r is Err ==> *final(self) == *old(self) && r == Err::<(), MultiOwnableError>(
                MultiOwnableError::InvalidArguments,
            ),
            r is Ok ==> final(self).owners@ == union_append(old(self).owners@, owners@)
                && final(self).threshold == threshold && final(self).calls == old(self).calls,
    {
        if !Self::check_valid_args(owners, threshold) {
            return Err(MultiOwnableError::InvalidArguments);
        }
        self.set_data(owners, threshold);
        proof {
            lemma_union_append_contains(old(self).owners@, owners@);
            assert(self.owners@.contains(owners@[0]));
        }
        Ok(())
    }

    /// Whether a submission under this fingerprint would dispatch right now.
    pub fn would_dispatch(&self, key: &Vec<u8>) -> (r: bool)
        requires
            self.wf(),
        ensures
            r == crossing(self.calls@, self.threshold, key@),
    {
        if self.threshold == 1 {
            return true;
        }
        if self.threshold == 0 {
            proof {
                assert(!self.calls.has_key(key@));
            }
            return false;
        }
        match self.calls.get(key) {
            Some(v) => v.len() >= (self.threshold - 1) as usize,
            None => false,
        }
    }

    /// Proposes a call, or approves it if already pending: the protocol core.
    ///
    /// Returns `Ok(true)` exactly when this submission dispatches: at once
    /// under threshold one, or because the accumulated approver count reaches
    /// the threshold, in which case the entry is consumed. Returns
    /// `Ok(false)` when the submission merely records or leaves a pending
    /// tally. A caller who is not a current owner is refused before any
    /// state is touched.
    pub fn propose_or_approve(&mut self, caller: OwnerId, call_name: &str, arguments: &str) -> (r:
        Result<bool, MultiOwnableError>)
        requires
            old(self).wf(),
        ensures
            final(self).wf(),
            final(self).owners == old(self).owners,
            final(self).threshold == old(self).threshold,
            r is Err <==> !old(self).is_owner_spec(caller),
            r is Err ==> *final(self) == *old(self) && r == Err::<bool, MultiOwnableError>(
                MultiOwnableError::AuthorizationError,
            ),
            r matches Ok(approved) ==> ({
                let step = submit_step(
                    old(self).calls@,
                    old(self).threshold,
                    caller,
                    fingerprint_of(call_name@, arguments@),
                );
                final(self).calls@ == step.0 && approved == step.1
            }),
    {
        if !self.is_owner(caller) {
            return Err(MultiOwnableError::AuthorizationError);
        }
        let key = fingerprint(call_name, arguments);
        let ghost m = self.calls@;
        if self.threshold == 1 {
            proof {
                if m.contains_key(key@) {
                    assert(m.insert(key@, m[key@]) =~= m);
                } else {
                    assert(m.remove(key@) =~= m);
                }
            }
            return Ok(true);
        }
        let existing_opt = match self.calls.get(&key) {
            Some(v) => Some(clone_ids(v)),
            None => None,
        };
        match existing_opt {
            None => {
                let mut single: Vec<OwnerId> = Vec::new();
                single.push(caller);
                proof {
                    assert(single@ =~= seq![caller]);
                }
                self.calls.insert_or_replace(key, single);
                Ok(false)
            },
            Some(existing) => {
                if existing.len() >= (self.threshold - 1) as usize {
                    self.calls.remove(&key);
                    Ok(true)
                } else {
                    if contains_id(&existing, caller) {
                        let mut signers = existing;
                        signers.push(caller);
                        self.calls.insert_or_replace(key, signers);
                    } else {
                        proof {
                            assert(m.insert(key@, m[key@]) =~= m);
                        }
                    }
                    Ok(false)
                }
            },
        }
    }

    /// Removes the caller's own approval from a pending fingerprint, writing
    /// back the filtered list. Returns whether an entry existed; an entry
    /// revoked down to empty stays as an empty entry.
    pub fn revoke(&mut self, caller: OwnerId, call_name: &str, arguments: &str) -> (r: Result<
        bool,
        MultiOwnableError,
    >)
        requires
            old(self).wf(),
        ensures
            final(self).wf(),
            final(self).owners == old(self).owners,
            final(self).threshold == old(self).threshold,
            r is Err <==> !old(self).is_owner_spec(caller),
            r is Err ==> *final(self) == *old(self) && r == Err::<bool, MultiOwnableError>(
                MultiOwnableError::AuthorizationError,
            ),
            r matches Ok(found) ==> ({
                let key = fingerprint_of(call_name@, arguments@);
                &&& found == old(self).calls@.contains_key(key)
                &&& (found ==> final(self).calls@ == old(self).calls@.insert(
                    key,
                    remove_id(old(self).calls@[key], caller),
                ))
                &&& (!found ==> *final(self) == *old(self))
            }),
    {
        if !self.is_owner(caller) {
            return Err(MultiOwnableError::AuthorizationError);
        }
        let key = fingerprint(call_name, arguments);
        let existing_opt = match self.calls.get(&key) {
            Some(v) => Some(clone_ids(v)),
            None => None,
        };
        match existing_opt {
            Some(existing) => {
                let mut filtered: Vec<OwnerId> = Vec::new();
                let mut i: usize = 0;
                proof {
                    assert(existing@.take(0) =~= Seq::<OwnerId>::empty());
                }
                while i < existing.len()
                    invariant
                        i <= existing@.len(),
                        filtered@ == remove_id(existing@.take(i as int), caller),
                    decreases existing@.len() - i,
                {
                    proof {
                        let t1 = existing@.take(i as int + 1);
                        assert(t1.drop_last() =~= existing@.take(i as int));
                        assert(t1.last() == existing@[i as int]);
                    }
                    if existing[i] != caller {
                        filtered.push(existing[i]);
                    }
                    i = i + 1;
                }
                proof {
                    assert(existing@.take(existing@.len() as int) =~= existing@);
                }
                self.calls.insert_or_replace(key, filtered);
                Ok(true)
            },
            None => Ok(false),
        }
    }

    /// Proposes a change of owners and threshold, gated by the same
    /// mechanism as any call. The candidate owners are sorted into canonical
    /// order before fingerprinting. On approval the new owners are unioned
    /// into the registry (an update never removes an owner), the threshold is
    /// overwritten, and every pending approval is invalidated.
    pub fn update(&mut self, caller: OwnerId, new_owners: &Vec<OwnerId>, new_threshold: u32) -> (r:
        Result<bool, MultiOwnableError>)
        requires
            old(self).wf(),
        ensures
            final(self).wf(),
            r is Err <==> (!old(self).is_owner_spec(caller) || !Self::valid_args(
                new_owners@,
                new_threshold,
            )),
            r is Err ==> *final(self) == *old(self),
            (r == Err::<bool, MultiOwnableError>(MultiOwnableError::AuthorizationError) <==> !old(
                self,
            ).is_owner_spec(caller)),
            (r == Err::<bool, MultiOwnableError>(MultiOwnableError::InvalidArguments) <==> (old(
                self,
            ).is_owner_spec(caller) && !Self::valid_args(new_owners@, new_threshold))),
            r matches Ok(approved) ==> ({
                let step = submit_step(
                    old(self).calls@,
                    old(self).threshold,
                    caller,
                    update_key(new_owners@, new_threshold),
                );
                &&& approved == step.1
                &&& (approved ==> final(self).owners@ == union_append(
                    old(self).owners@,
                    new_owners@,
                ) && final(self).threshold == new_threshold && final(self).calls@ == Map::<
                    Seq<u8>,
                    Seq<OwnerId>,
                >::empty())
                &&& (!approved ==> final(self).owners == old(self).owners && final(self).threshold
                    == old(self).threshold && final(self).calls@ == step.0)
            }),
    {
        if !self.is_owner(caller) {
            return Err(MultiOwnableError::AuthorizationError);
        }
        if !Self::check_valid_args(new_owners, new_threshold) {
            return Err(MultiOwnableError::InvalidArguments);
        }
        let sorted = sort_ids(new_owners);
        let payload = build_update_payload(&sorted, new_threshold);
        let approved = match self.propose_or_approve(caller, "_", payload.as_str()) {
            Ok(b) => b,
            Err(e) => {
                return Err(e);
            },
        };
        if approved {
            self.set_data(new_owners, new_threshold);
            self.calls.clear_all();
            proof {
                lemma_union_append_contains(old(self).owners@, new_owners@);
                assert(self.owners@.contains(new_owners@[0]));
            }
            Ok(true)
        } else {
            Ok(false)
        }
    }
}

} // verus!
