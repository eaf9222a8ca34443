use multi_ownable::contract::{parse_call_name, parse_update_number_args, Contract, MultiOwnableCall};
use multi_ownable::digest::fingerprint;
use multi_ownable::errors::MultiOwnableError;
use multi_ownable::state::MultiOwnableData;

const ROOT: u64 = 1;
const ALICE: u64 = 2;
const BOB: u64 = 3;
const OUTSIDER: u64 = 99;

fn number_args(n: u64) -> String {
    format!("{{\"number\":{}}}", n)
}

/// The end-to-end scenario: one owner under threshold one updates the
/// number at once; after widening ownership to two owners under threshold
/// two, the update needs both approvals.
#[test]
fn test_multi_ownable() {
    let mut contract = Contract::new(ROOT);

    let number_1: u64 = 123;
    let r = contract
        .submit_call(ROOT, "update_number".to_string(), number_args(number_1))
        .unwrap();
    assert!(r);

    let owners = contract.get_owners();
    assert!(owners.len() == 1, "wrong number of owners");
    assert_eq!(contract.get_threshold(), 1);
    assert_eq!(number_1, contract.get_number(), "wrong number");

    let r = contract.update(ROOT, &vec![ROOT, ALICE], 2).unwrap();
    assert!(r);
    let owners = contract.get_owners();
    assert!(owners.len() == 2, "wrong number of owners");

    let number_2: u64 = 246;
    // root approves first: pending, number unchanged
    let r = contract
        .submit_call(ROOT, "update_number".to_string(), number_args(number_2))
        .unwrap();
    assert!(!r);
    assert_eq!(number_1, contract.get_number(), "wrong number");
    // alice approves second: dispatched
    let r = contract
        .submit_call(ALICE, "update_number".to_string(), number_args(number_2))
        .unwrap();
    assert!(r);
    assert_eq!(number_2, contract.get_number(), "wrong number");
}

/// Threshold one dispatches immediately and never creates a ledger entry.
#[test]
fn threshold_one_bypass() {
    let mut contract = Contract::new(ROOT);
    let args = number_args(5);
    let r = contract
        .submit_call(ROOT, "update_number".to_string(), args.clone())
        .unwrap();
    assert!(r);
    assert_eq!(contract.get_number(), 5);
    let key = fingerprint("update_number", &args);
    assert!(contract.multi_ownable.calls.get(&key).is_none());
    assert_eq!(contract.multi_ownable.calls.entries.len(), 0);
}

/// Equal inputs always produce equal fingerprints; the digest is 32 bytes
/// and never the input itself.
#[test]
fn fingerprint_deterministic() {
    let a = fingerprint("update_number", "{\"number\":1}");
    let b = fingerprint("update_number", "{\"number\":1}");
    assert_eq!(a, b);
    assert_eq!(a.len(), 32);
    let c = fingerprint("update_number", "{\"number\":2}");
    assert_ne!(a, c);
}

/// The digest sees only the concatenation: splitting the same text
/// differently yields the same key, and the key is the standard 256-bit
/// digest of that text.
#[test]
fn fingerprint_concatenation_and_value() {
    let a = fingerprint("ab", "c");
    let b = fingerprint("a", "bc");
    assert_eq!(a, b);
    let expected: [u8; 32] = [
        0xba, 0x78, 0x16, 0xbf, 0x8f, 0x01, 0xcf, 0xea, 0x41, 0x41, 0x40, 0xde, 0x5d, 0xae, 0x22,
        0x23, 0xb0, 0x03, 0x61, 0xa3, 0x96, 0x17, 0x7a, 0x9c, 0xb4, 0x10, 0xff, 0x61, 0xf2, 0x00,
        0x15, 0xad,
    ];
    assert_eq!(a.as_slice(), expected.as_slice());
}

/// Under threshold two the first submission records its caller, the second
/// crosses the threshold, dispatches once, and clears the entry.
#[test]
fn exactly_once_dispatch_threshold_two() {
    let mut contract = Contract::new(ROOT);
    assert!(contract.update(ROOT, &vec![ROOT, ALICE], 2).unwrap());
    let args = number_args(7);
    let key = fingerprint("update_number", &args);

    let r = contract
        .submit_call(ROOT, "update_number".to_string(), args.clone())
        .unwrap();
    assert!(!r);
    let signers = contract.multi_ownable.calls.get(&key).unwrap();
    assert_eq!(signers.as_slice(), &[ROOT]);

    let r = contract
        .submit_call(ALICE, "update_number".to_string(), args.clone())
        .unwrap();
    assert!(r);
    assert!(contract.multi_ownable.calls.get(&key).is_none());
    assert_eq!(contract.get_number(), 7);
}

/// The crossing check is size-based, not identity-based: the same owner
/// submitting twice under threshold two pushes the tally over the line.
#[test]
fn size_based_crossing_counts_repeat_caller() {
    let mut contract = Contract::new(ROOT);
    assert!(contract.update(ROOT, &vec![ROOT, ALICE], 2).unwrap());
    let args = number_args(11);
    assert!(!contract
        .submit_call(ROOT, "update_number".to_string(), args.clone())
        .unwrap());
    assert!(contract
        .submit_call(ROOT, "update_number".to_string(), args.clone())
        .unwrap());
    assert_eq!(contract.get_number(), 11);
}

/// Under a threshold above two, a fresh approver's identity is not appended
/// to the tally, so distinct owners alone never accumulate to dispatch.
#[test]
fn distinct_owners_stall_above_two() {
    let mut contract = Contract::new(ROOT);
    assert!(contract.update(ROOT, &vec![ROOT, ALICE, BOB], 3).unwrap());
    let args = number_args(13);
    let key = fingerprint("update_number", &args);
    for caller in [ROOT, ALICE, BOB, ALICE, BOB] {
        let r = contract
            .submit_call(caller, "update_number".to_string(), args.clone())
            .unwrap();
        assert!(!r);
        let signers = contract.multi_ownable.calls.get(&key).unwrap();
        assert_eq!(signers.as_slice(), &[ROOT]);
    }
    assert_eq!(contract.get_number(), 0);
}

/// A successful update invalidates every pending approval.
#[test]
fn update_invalidates_pending_approvals() {
    let mut contract = Contract::new(ROOT);
    assert!(contract.update(ROOT, &vec![ROOT, ALICE], 2).unwrap());
    let args = number_args(17);
    let key = fingerprint("update_number", &args);
    assert!(!contract
        .submit_call(ROOT, "update_number".to_string(), args.clone())
        .unwrap());
    assert!(contract.multi_ownable.calls.get(&key).is_some());

    // both owners approve the same ownership change
    assert!(!contract.update(ROOT, &vec![ROOT, ALICE], 2).unwrap());
    assert!(contract.update(ALICE, &vec![ROOT, ALICE], 2).unwrap());

    assert!(contract.multi_ownable.calls.get(&key).is_none());
    assert_eq!(contract.multi_ownable.calls.entries.len(), 0);
}

/// Candidate owner sets fingerprint identically regardless of submission
/// order, so permuted update proposals share one tally.
#[test]
fn update_canonicalizes_owner_order() {
    let mut contract = Contract::new(ROOT);
    assert!(contract.update(ROOT, &vec![ROOT, ALICE], 2).unwrap());
    assert!(!contract.update(ROOT, &vec![BOB, ALICE, ROOT], 3).unwrap());
    assert!(contract.update(ALICE, &vec![ROOT, ALICE, BOB], 3).unwrap());
    assert_eq!(contract.get_threshold(), 3);
    let owners = contract.get_owners();
    assert_eq!(owners.as_slice(), &[ROOT, ALICE, BOB]);
}

/// Revoking a call with no ledger entry returns false and mutates nothing.
#[test]
fn revoke_absent_is_noop() {
    let mut contract = Contract::new(ROOT);
    assert!(contract.update(ROOT, &vec![ROOT, ALICE], 2).unwrap());
    let r = contract
        .revoke_call(ROOT, "update_number".to_string(), number_args(19))
        .unwrap();
    assert!(!r);
    assert_eq!(contract.multi_ownable.calls.entries.len(), 0);
    assert_eq!(contract.get_owners().as_slice(), &[ROOT, ALICE]);
    assert_eq!(contract.get_threshold(), 2);
}

/// A list revoked down to empty stays as an empty entry: storage is only
/// reclaimed on success, not on revoke.
#[test]
fn revoke_to_empty_keeps_entry() {
    let mut contract = Contract::new(ROOT);
    assert!(contract.update(ROOT, &vec![ROOT, ALICE], 2).unwrap());
    let args = number_args(23);
    let key = fingerprint("update_number", &args);
    assert!(!contract
        .submit_call(ROOT, "update_number".to_string(), args.clone())
        .unwrap());
    let r = contract
        .revoke_call(ROOT, "update_number".to_string(), args.clone())
        .unwrap();
    assert!(r);
    let signers = contract.multi_ownable.calls.get(&key).unwrap();
    assert!(signers.is_empty());
}

/// Every mutating operation refuses a caller who is not an owner, before
/// touching any state.
#[test]
fn non_owner_rejected() {
    let mut contract = Contract::new(ROOT);
    let args = number_args(29);

    let r = contract.submit_call(OUTSIDER, "update_number".to_string(), args.clone());
    assert_eq!(r, Err(MultiOwnableError::AuthorizationError));
    let r = contract.revoke_call(OUTSIDER, "update_number".to_string(), args.clone());
    assert_eq!(r, Err(MultiOwnableError::AuthorizationError));
    let r = contract.update(OUTSIDER, &vec![OUTSIDER], 1);
    assert_eq!(r, Err(MultiOwnableError::AuthorizationError));

    assert_eq!(contract.get_owners().as_slice(), &[ROOT]);
    assert_eq!(contract.get_threshold(), 1);
    assert_eq!(contract.get_number(), 0);
    assert_eq!(contract.multi_ownable.calls.entries.len(), 0);
}

/// Update arguments are validated before any mutation: an empty owner list,
/// a zero threshold, or more owners than the threshold are all refused.
#[test]
fn update_rejects_invalid_arguments() {
    let mut contract = Contract::new(ROOT);
    assert_eq!(
        contract.update(ROOT, &vec![], 1),
        Err(MultiOwnableError::InvalidArguments)
    );
    assert_eq!(
        contract.update(ROOT, &vec![ROOT], 0),
        Err(MultiOwnableError::InvalidArguments)
    );
    assert_eq!(
        contract.update(ROOT, &vec![ROOT, ALICE], 1),
        Err(MultiOwnableError::InvalidArguments)
    );
    assert_eq!(contract.get_owners().as_slice(), &[ROOT]);
    assert_eq!(contract.get_threshold(), 1);
}

/// Initialization validates its arguments the same way.
#[test]
fn initialize_validates_arguments() {
    let mut data = MultiOwnableData::new();
    assert_eq!(
        data.initialize(&vec![], 1),
        Err(MultiOwnableError::InvalidArguments)
    );
    assert_eq!(
        data.initialize(&vec![ROOT], 0),
        Err(MultiOwnableError::InvalidArguments)
    );
    assert_eq!(
        data.initialize(&vec![ROOT, ALICE], 1),
        Err(MultiOwnableError::InvalidArguments)
    );
    assert_eq!(data.initialize(&vec![ROOT, ALICE], 2), Ok(()));
    assert_eq!(data.get_owners().as_slice(), &[ROOT, ALICE]);
    assert_eq!(data.get_threshold(), 2);
}

/// An identifier outside the recognized set is refused before
/// fingerprinting, the reserved update identifier included.
#[test]
fn unrecognized_call_rejected() {
    let mut contract = Contract::new(ROOT);
    let r = contract.submit_call(ROOT, "not_a_call".to_string(), "{}".to_string());
    assert_eq!(r, Err(MultiOwnableError::UnrecognizedCallError));
    let r = contract.submit_call(ROOT, "_".to_string(), "1".to_string());
    assert_eq!(r, Err(MultiOwnableError::UnrecognizedCallError));
    let r = contract.revoke_call(ROOT, "nope".to_string(), "{}".to_string());
    assert_eq!(r, Err(MultiOwnableError::UnrecognizedCallError));
    assert_eq!(contract.multi_ownable.calls.entries.len(), 0);
}

/// A payload that cannot be parsed when a call is due to execute aborts the
/// whole operation with no partial effect.
#[test]
fn malformed_payload_aborts_whole_call() {
    let mut contract = Contract::new(ROOT);
    let r = contract.submit_call(ROOT, "update_number".to_string(), "garbage".to_string());
    assert_eq!(r, Err(MultiOwnableError::SerializationError));
    assert_eq!(contract.get_number(), 0);
    assert_eq!(contract.multi_ownable.calls.entries.len(), 0);

    // under threshold two the malformed payload is only rejected when the
    // tally is about to cross
    assert!(contract.update(ROOT, &vec![ROOT, ALICE], 2).unwrap());
    let r = contract
        .submit_call(ROOT, "update_number".to_string(), "garbage".to_string())
        .unwrap();
    assert!(!r);
    let r = contract.submit_call(ALICE, "update_number".to_string(), "garbage".to_string());
    assert_eq!(r, Err(MultiOwnableError::SerializationError));
    let key = fingerprint("update_number", "garbage");
    let signers = contract.multi_ownable.calls.get(&key).unwrap();
    assert_eq!(signers.as_slice(), &[ROOT]);
}

/// The ownership change itself obeys the threshold-one bypass: proposed by
/// the sole owner, it applies immediately and additively.
#[test]
fn update_under_threshold_one_applies_immediately() {
    let mut contract = Contract::new(ROOT);
    let r = contract.update(ROOT, &vec![ROOT, ALICE], 2).unwrap();
    assert!(r);
    assert_eq!(contract.get_owners().as_slice(), &[ROOT, ALICE]);
    assert_eq!(contract.get_threshold(), 2);
    assert_eq!(contract.multi_ownable.calls.entries.len(), 0);
}

/// An update never removes an owner: owners absent from the new list stay.
#[test]
fn update_is_additive_only() {
    let mut contract = Contract::new(ROOT);
    assert!(contract.update(ROOT, &vec![ALICE], 1).unwrap());
    let owners = contract.get_owners();
    assert_eq!(owners.as_slice(), &[ROOT, ALICE]);
}

/// The recognized call identifiers parse to their calls; nothing else does.
#[test]
fn call_name_parsing() {
    assert_eq!(
        parse_call_name("update_number"),
        Some(MultiOwnableCall::UpdateNumber)
    );
    assert_eq!(
        parse_call_name("do_something_else"),
        Some(MultiOwnableCall::DoSomethingElse)
    );
    assert_eq!(parse_call_name("_"), None);
    assert_eq!(parse_call_name(""), None);
    assert_eq!(parse_call_name("Update_Number"), None);
}

/// The payload parser accepts exactly the canonical textual form.
#[test]
fn update_number_payload_parsing() {
    assert_eq!(
        parse_update_number_args("{\"number\":123}").map(|a| a.number),
        Some(123)
    );
    assert_eq!(
        parse_update_number_args("{\"number\":0}").map(|a| a.number),
        Some(0)
    );
    assert_eq!(
        parse_update_number_args("{\"number\":18446744073709551615}").map(|a| a.number),
        Some(u64::MAX)
    );
    // one past the largest value overflows
    assert!(parse_update_number_args("{\"number\":18446744073709551616}").is_none());
    assert!(parse_update_number_args("").is_none());
    assert!(parse_update_number_args("{\"number\":}").is_none());
    assert!(parse_update_number_args("{\"number\":12a}").is_none());
    assert!(parse_update_number_args("{\"number\":12").is_none());
    assert!(parse_update_number_args("{\"Number\":12}").is_none());
}

/// A dispatched `do_something_else` leaves the number alone.
#[test]
fn do_something_else_dispatches_without_effect() {
    let mut contract = Contract::new(ROOT);
    let r = contract
        .submit_call(ROOT, "do_something_else".to_string(), "anything".to_string())
        .unwrap();
    assert!(r);
    assert_eq!(contract.get_number(), 0);
}

/// The state-machine core can be driven directly, without the contract.
#[test]
fn core_propose_and_revoke() {
    let mut data = MultiOwnableData::new();
    assert_eq!(data.get_threshold(), 0);
    assert!(data.get_owners().is_empty());
    assert_eq!(data.initialize(&vec![ROOT, ALICE], 2), Ok(()));
    assert!(data.is_owner(ROOT));
    assert!(!data.is_owner(OUTSIDER));

    let r = data.propose_or_approve(ROOT, "update_number", "{\"number\":1}");
    assert_eq!(r, Ok(false));
    let r = data.revoke(ROOT, "update_number", "{\"number\":1}");
    assert_eq!(r, Ok(true));
    let r = data.revoke(ROOT, "update_number", "{\"number\":2}");
    assert_eq!(r, Ok(false));
    let r = data.propose_or_approve(OUTSIDER, "update_number", "{\"number\":1}");
    assert_eq!(r, Err(MultiOwnableError::AuthorizationError));
}
