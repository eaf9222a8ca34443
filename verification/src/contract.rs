//! An integrating contract: a guarded number behind the shared-ownership
//! gate.
//!
//! The contract names its closed set of recognized business calls, validates
//! submitted call identifiers against it, and supplies the dispatch callback
//! that runs once a proposal crosses the threshold. Payloads are validated
//! before any state is touched, so a call whose payload would fail to parse
//! at dispatch leaves the ledger and the registry exactly as they were.

use vstd::prelude::*;
use vstd::string::*;

verus! {

use crate::OwnerId;
use crate::digest::{fingerprint, fingerprint_of};
use crate::errors::MultiOwnableError;
use crate::state::{crossing, remove_id, submit_step, union_append, update_key, MultiOwnableData};
use crate::text::{digit_val, digits_val, is_digit, str_eq};

/// The closed set of recognized business calls.
#[derive(Clone, Copy, Debug, PartialEq, Eq, Structural)]
pub enum MultiOwnableCall {
    UpdateNumber,
    DoSomethingElse,
}

/// The argument payload of an `update_number` call.
#[derive(Clone, Copy, Debug, PartialEq, Eq, Structural)]
pub struct UpdateNumberArgs {
    pub number: u64,
}

/// Which recognized call a call identifier names, if any. The reserved
/// update identifier matches neither name.
pub open spec fn parsed_call(s: Seq<char>) -> Option<MultiOwnableCall> {
    if s == "update_number"@ {
        Some(MultiOwnableCall::UpdateNumber)
    } else if s == "do_something_else"@ {
        Some(MultiOwnableCall::DoSomethingElse)
    } else {
        None
    }
}

/// Maps a call identifier to the recognized call it names.
pub fn parse_call_name(s: &str) -> (r: Option<MultiOwnableCall>)
    ensures
        r == parsed_call(s@),
{
    if str_eq(s, "update_number") {
        Some(MultiOwnableCall::UpdateNumber)
    } else if str_eq(s, "do_something_else") {
        Some(MultiOwnableCall::DoSomethingElse)
    } else {
        None
    }
}

/// The value encoded by an `update_number` payload in its canonical textual
/// form: an opening brace, the quoted field name, a colon, a run of decimal
/// digits whose value fits in 64 bits, and a closing brace.
///
/// Only this compact form is accepted: equivalent encodings that differ in
/// whitespace, sign, or leading zeros written by a general serializer are
/// refused, and a call carrying one aborts with `SerializationError`.
pub open spec fn parse_update_number(s: Seq<char>) -> Option<u64> {
    if s.len() >= 12 && s.subrange(0, 10) == "{\"number\":"@ && s[s.len() - 1] == '}' {
        match digits_val(s.subrange(10, s.len() - 1)) {
            Some(v) => if v <= u64::MAX {
                Some(v as u64)
            } else {
                None
            },
            None => None,
        }
    } else {
        None
    }
}

/// Parses an `update_number` payload. Exactly the compact canonical form
/// `{"number":<digits>}` is accepted; see `parse_update_number`.
pub fn parse_update_number_args(s: &str) -> (r: Option<UpdateNumberArgs>)
    ensures
        match r {
            Some(a) => parse_update_number(s@) == Some(a.number),
            None => parse_update_number(s@) is None,
        },
{
    let n = s.unicode_len();
    if n < 12 {
        return None;
    }
    let prefix = s.substring_char(0, 10);
    if !str_eq(prefix, "{\"number\":") {
        return None;
    }
    if s.get_char(n - 1) != '}' {
        return None;
    }
    let ghost digits = s@.subrange(10, s@.len() - 1);
    let mut acc: u64 = 0;
    let mut i: usize = 10;
    while i < n - 1
        invariant
            10 <= i <= n - 1,
            n == s@.len(),
            12 <= n <= usize::MAX,
            digits == s@.subrange(10, s@.len() - 1),
            i > 10 ==> digits_val(s@.subrange(10, i as int)) == Some(acc as nat),
            i == 10 ==> acc == 0,
        decreases n - 1 - i,
    {
        let c = s.get_char(i);
        let ghost p = s@.subrange(10, i as int + 1);
        proof {
            assert(p.drop_last() =~= s@.subrange(10, i as int));
            assert(p.last() == s@[i as int]);
            assert(digits.take(i as int + 1 - 10) =~= p);
        }
        if !('0' <= c && c <= '9') {
            proof {
                assert(!is_digit(s@[i as int]));
                assert(digits_val(p) is None);
                crate::text::lemma_digits_none_extends(digits, i as int + 1 - 10);
            }
            return None;
        }
        let d = (c as u32 - 48) as u64;
        proof {
            assert('0' as u32 == 48 && '9' as u32 == 57);
            assert(d < 10);
            assert(digit_val(s@[i as int]) == d as nat);
            assert(digits_val(p) == Some((acc as nat) * 10 + (d as nat)));
        }
        if acc > (u64::MAX - d) / 10 {
            proof {
                assert((acc as nat) * 10 + (d as nat) > u64::MAX);
                match digits_val(digits) {
                    Some(v) => {
                        crate::text::lemma_digits_prefix_le(digits, i as int + 1 - 10, v);
                        assert(v > u64::MAX);
                    },
                    None => {},
                }
            }
            return None;
        }
        proof {
            assert((acc as nat) * 10 + (d as nat) <= u64::MAX);
        }
        acc = acc * 10 + d;
        i = i + 1;
    }
    proof {
        assert(i as int == s@.len() - 1);
        assert(s@.subrange(10, i as int) == digits);
        assert(digits_val(digits) == Some(acc as nat));
    }
    Some(UpdateNumberArgs { number: acc })
}

/// The integrating contract: a guarded number together with the
/// shared-ownership state.
pub struct Contract {
    pub multi_ownable: MultiOwnableData,
    pub number: u64,
}

impl Contract {
    /// The contract is well-formed when its ownership state is.
    pub open spec fn wf(&self) -> bool {
        self.multi_ownable.wf()
    }

    /// Whether a payload will parse when the given call dispatches.
    pub open spec fn payload_ok(call: MultiOwnableCall, arguments: Seq<char>) -> bool {
        match call {
            MultiOwnableCall::UpdateNumber => parse_update_number(arguments) is Some,
            MultiOwnableCall::DoSomethingElse => true,
        }
    }

    /// The guarded number after a call dispatches on a payload.
    pub open spec fn number_after(
        number: u64,
        call: MultiOwnableCall,
        arguments: Seq<char>,
    ) -> u64 {
        match call {
            MultiOwnableCall::UpdateNumber => match parse_update_number(arguments) {
                Some(v) => v,
                None => number,
            },
            MultiOwnableCall::DoSomethingElse => number,
        }
    }

    /// A fresh contract guarded by a single owner under threshold one.
    pub fn new(owner_id: OwnerId) -> (r: Self)
        ensures
            r.wf(),
            r.multi_ownable.owners@ == seq![owner_id],
            r.multi_ownable.threshold == 1u32,
            r.multi_ownable.calls@ == Map::<Seq<u8>, Seq<OwnerId>>::empty(),
            r.number == 0u64,
    {
        let mut mo = MultiOwnableData::new();
        let mut initial: Vec<OwnerId> = Vec::new();
        initial.push(owner_id);
        proof {
            assert(initial@ =~= seq![owner_id]);
        }
        let res = mo.initialize(&initial, 1);
        proof {
            assert(res is Ok);
            let s = seq![owner_id];
            assert(!Seq::<OwnerId>::empty().contains(s[0]));
            assert(Seq::<OwnerId>::empty().push(owner_id) =~= s);
            assert(s.drop_first() =~= Seq::<OwnerId>::empty());
            assert(s[0] == owner_id);
            assert(union_append(Seq::<OwnerId>::empty().push(owner_id), s.drop_first())
                == Seq::<OwnerId>::empty().push(owner_id));
            assert(union_append(Seq::<OwnerId>::empty(), s) == s);
        }
        Contract { multi_ownable: mo, number: 0 }
    }

    /// The guarded number.
    pub fn get_number(&self) -> (r: u64)
        ensures
            r == self.number,
    {
        self.number
    }

    /// The current owners, in registration order.
    pub fn get_owners(&self) -> (r: Vec<OwnerId>)
        ensures
            r@ == self.multi_ownable.owners@,
    {
        self.multi_ownable.get_owners()
    }

    /// The current approval threshold.
    pub fn get_threshold(&self) -> (r: u32)
        ensures
            r == self.multi_ownable.threshold,
    {
        self.multi_ownable.get_threshold()
    }

    fn _update_number(&mut self, args: &str) -> (r: Result<(), MultiOwnableError>)
        ensures
            final(self).multi_ownable == old(self).multi_ownable,
            r is Ok <==> parse_update_number(args@) is Some,
            r is Err ==> *final(self) == *old(self) && r == Err::<(), MultiOwnableError>(
                MultiOwnableError::SerializationError,
            ),
            r is Ok ==> parse_update_number(args@) == Some(final(self).number),
    {
        match parse_update_number_args(args) {
            Some(a) => {
                self.number = a.number;
                Ok(())
            },
            None => Err(MultiOwnableError::SerializationError),
        }
    }

    fn _do_something_else(&self, _args: &str) -> (r: Result<(), MultiOwnableError>)
        ensures
            r is Ok,
    {
        Ok(())
    }

    /// The dispatch callback: routes an approved call to its business logic.
    fn on_call(&mut self, call_name: MultiOwnableCall, arguments: &str) -> (r: Result<
        (),
        MultiOwnableError,
    >)
        ensures
            final(self).multi_ownable == old(self).multi_ownable,
            r is Ok <==> Self::payload_ok(call_name, arguments@),
            r is Err ==> *final(self) == *old(self) && r == Err::<(), MultiOwnableError>(
                MultiOwnableError::SerializationError,
            ),
            r is Ok ==> final(self).number == Self::number_after(
                old(self).number,
                call_name,
                arguments@,
            ),
    {
        match call_name {
            MultiOwnableCall::UpdateNumber => self._update_number(arguments),
            MultiOwnableCall::DoSomethingElse => self._do_something_else(arguments),
        }
    }

    /// Submits a recognized call as one of the owners; see
    /// `MultiOwnableData::propose_or_approve` for the approval protocol.
    ///
    /// The caller must be an owner and the identifier a recognized call.
    /// When the submission is due to dispatch, the payload is validated
    /// before any state changes, so a malformed payload aborts the whole
    /// operation with no effect at all.
    pub fn submit_call(&mut self, caller: OwnerId, call_name: String, arguments: String) -> (r:
        Result<bool, MultiOwnableError>)
        requires
            old(self).wf(),
        ensures
            final(self).wf(),
            final(self).multi_ownable.owners == old(self).multi_ownable.owners,
            final(self).multi_ownable.threshold == old(self).multi_ownable.threshold,
            (r == Err::<bool, MultiOwnableError>(MultiOwnableError::AuthorizationError) <==> !old(self).multi_ownable.is_owner_spec(caller)),
            (r == Err::<bool, MultiOwnableError>(MultiOwnableError::UnrecognizedCallError) <==> (
            old(self).multi_ownable.is_owner_spec(caller) && parsed_call(call_name@) is None)),
            r is Err ==> *final(self) == *old(self),
            parsed_call(call_name@) matches Some(kind) ==> old(self).multi_ownable.is_owner_spec(
                caller,
            ) ==> ({
                let step = submit_step(
                    old(self).multi_ownable.calls@,
                    old(self).multi_ownable.threshold,
                    caller,
                    fingerprint_of(call_name@, arguments@),
                );
                &&& ((step.1 && !Self::payload_ok(kind, arguments@)) <==> r == Err::<
                    bool,
                    MultiOwnableError,
                >(MultiOwnableError::SerializationError))
                &&& (!step.1 ==> r == Ok::<bool, MultiOwnableError>(false) && final(self).multi_ownable.calls@ == step.0 && final(self).number == old(self).number)
                &&& ((step.1 && Self::payload_ok(kind, arguments@)) ==> r == Ok::<
                    bool,
                    MultiOwnableError,
                >(true) && final(self).multi_ownable.calls@ == step.0 && final(self).number
                    == Self::number_after(old(self).number, kind, arguments@))
            }),
    {
        if !self.multi_ownable.is_owner(caller) {
            return Err(MultiOwnableError::AuthorizationError);
        }
        let kind = match parse_call_name(call_name.as_str()) {
            Some(k) => k,
            None => {
                return Err(MultiOwnableError::UnrecognizedCallError);
            },
        };
        let key = fingerprint(call_name.as_str(), arguments.as_str());
        let will_dispatch = self.multi_ownable.would_dispatch(&key);
        if will_dispatch {
            let payload_fine = match kind {
                MultiOwnableCall::UpdateNumber => parse_update_number_args(
                    arguments.as_str(),
                ).is_some(),
                MultiOwnableCall::DoSomethingElse => true,
            };
            if !payload_fine {
                return Err(MultiOwnableError::SerializationError);
            }
        }
        let approved = match self.multi_ownable.propose_or_approve(
            caller,
            call_name.as_str(),
            arguments.as_str(),
        ) {
            Ok(b) => b,
            Err(e) => {
                return Err(e);
            },
        };
        proof {
            assert(approved == crossing(
                old(self).multi_ownable.calls@,
                old(self).multi_ownable.threshold,
                key@,
            ));
        }
        if approved {
            match self.on_call(kind, arguments.as_str()) {
                Ok(()) => Ok(true),
                Err(e) => {
                    return Err(e);
                },
            }
        } else {
            Ok(false)
        }
    }

    /// Withdraws the caller's own approval of a recognized pending call.
    pub fn revoke_call(&mut self, caller: OwnerId, call_name: String, arguments: String) -> (r:
        Result<bool, MultiOwnableError>)
        requires
            old(self).wf(),
        ensures
            final(self).wf(),
            final(self).number == old(self).number,
            final(self).multi_ownable.owners == old(self).multi_ownable.owners,
            final(self).multi_ownable.threshold == old(self).multi_ownable.threshold,
            r is Err <==> (!old(self).multi_ownable.is_owner_spec(caller) || parsed_call(
                call_name@,
            ) is None),
            (r == Err::<bool, MultiOwnableError>(MultiOwnableError::AuthorizationError) <==> !old(self).multi_ownable.is_owner_spec(caller)),
            (r == Err::<bool, MultiOwnableError>(MultiOwnableError::UnrecognizedCallError) <==> (
            old(self).multi_ownable.is_owner_spec(caller) && parsed_call(call_name@) is None)),
            r is Err ==> *final(self) == *old(self),
            r matches Ok(found) ==> ({
                let key = fingerprint_of(call_name@, arguments@);
                &&& found == old(self).multi_ownable.calls@.contains_key(key)
                &&& (found ==> final(self).multi_ownable.calls@ == old(self).multi_ownable.calls@.insert(
                    key,
                    remove_id(old(self).multi_ownable.calls@[key], caller),
                ))
                &&& (!found ==> *final(self) == *old(self))
            }),
    {
        if !self.multi_ownable.is_owner(caller) {
            return Err(MultiOwnableError::AuthorizationError);
        }
        match parse_call_name(call_name.as_str()) {
            Some(_) => {},
            None => {
                return Err(MultiOwnableError::UnrecognizedCallError);
            },
        };
        match self.multi_ownable.revoke(caller, call_name.as_str(), arguments.as_str()) {
            Ok(b) => Ok(b),
            Err(e) => {
                return Err(e);
            },
        }
    }

    /// Proposes a change of owners and threshold; see
    /// `MultiOwnableData::update`.
    pub fn update(&mut self, caller: OwnerId, new_owners: &Vec<OwnerId>, new_threshold: u32) -> (r:
        Result<bool, MultiOwnableError>)
        requires
            old(self).wf(),
        ensures
            final(self).wf(),
            final(self).number == old(self).number,
            r is Err <==> (!old(self).multi_ownable.is_owner_spec(caller)
                || !MultiOwnableData::valid_args(new_owners@, new_threshold)),
            r is Err ==> *final(self) == *old(self),
            (r == Err::<bool, MultiOwnableError>(MultiOwnableError::AuthorizationError) <==> !old(self).multi_ownable.is_owner_spec(caller)),
            (r == Err::<bool, MultiOwnableError>(MultiOwnableError::InvalidArguments) <==> (old(self).multi_ownable.is_owner_spec(caller) && !MultiOwnableData::valid_args(
                new_owners@,
                new_threshold,
            ))),
            r matches Ok(approved) ==> ({
                let step = submit_step(
                    old(self).multi_ownable.calls@,
                    old(self).multi_ownable.threshold,
                    caller,
                    update_key(new_owners@, new_threshold),
                );
                &&& approved == step.1
                &&& (approved ==> final(self).multi_ownable.owners@ == union_append(
                    old(self).multi_ownable.owners@,
                    new_owners@,
                ) && final(self).multi_ownable.threshold == new_threshold && final(self).multi_ownable.calls@ == Map::<Seq<u8>, Seq<OwnerId>>::empty())
                &&& (!approved ==> final(self).multi_ownable.owners == old(self).multi_ownable.owners && final(self).multi_ownable.threshold == old(self).multi_ownable.threshold && final(self).multi_ownable.calls@ == step.0)
            }),
    {
        match self.multi_ownable.update(caller, new_owners, new_threshold) {
            Ok(b) => Ok(b),
            Err(e) => Err(e),
        }
    }
}

} // verus!
