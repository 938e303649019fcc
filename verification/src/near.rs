//! Calls into `near-sdk` and `near-contract-standards` that compute on plain
//! values, and what the library builds on them.
use vstd::prelude::*;
use vstd::utf8::encode_utf8;
use crate::error::ContractError;
use crate::state::{Approval, approvals};

verus! {

/// The price of storing one byte, in yoctoNEAR.
pub open spec fn storage_price_per_byte() -> u128 {
    10_000_000_000_000_000_000u128
}

/// `near_sdk::env::storage_byte_cost`: its source returns the constant
/// `STORAGE_PRICE_PER_BYTE`, which is 10^19.
#[verifier::external_body]
pub(crate) fn storage_byte_cost() -> (r: u128)
    ensures
        r == storage_price_per_byte(),
{
    near_sdk::env::storage_byte_cost()
}

/// The storage an approval of `account` takes: its id's bytes, 4 bytes of
/// length and 8 bytes of approval id.
pub open spec fn approval_storage(account: Seq<char>) -> nat {
    encode_utf8(account).len() + 12
}

/// `near_contract_standards::non_fungible_token::bytes_for_approved_account_id`:
/// its source returns the byte length of the account id plus 4 plus the size of a
/// `u64` (8).
#[verifier::external_body]
pub(crate) fn bytes_for_approved_account_id(account_id: &String) -> (r: u64)
    requires
        approval_storage(account_id@) <= u64::MAX,
    ensures
        r == approval_storage(account_id@),
{
    near_contract_standards::non_fungible_token::bytes_for_approved_account_id(account_id)
}

/// A JSON whitespace byte: space, tab, line feed or carriage return.
pub open spec fn json_ws(b: u8) -> bool {
    b == 0x20 || b == 0x09 || b == 0x0a || b == 0x0d
}

/// The bytes are `lit` with nothing but JSON whitespace around it.
pub open spec fn json_padded(bytes: Seq<u8>, lit: Seq<u8>) -> bool {
    exists|a: int|
        0 <= a && a + lit.len() <= bytes.len() && #[trigger] bytes.subrange(a, a + lit.len()) == lit
        && (forall|i: int| 0 <= i < a ==> json_ws(#[trigger] bytes[i]))
        && (forall|i: int| a + lit.len() <= i < bytes.len() ==> json_ws(#[trigger] bytes[i]))
}

/// The bytes of `true`.
pub open spec fn json_true() -> Seq<u8> {
    seq![0x74u8, 0x72u8, 0x75u8, 0x65u8]
}

/// The bytes of `false`.
pub open spec fn json_false() -> Seq<u8> {
    seq![0x66u8, 0x61u8, 0x6cu8, 0x73u8, 0x65u8]
}

/// The boolean that JSON bytes hold, if they hold one.
pub open spec fn json_bool(bytes: Seq<u8>) -> Option<bool> {
    if json_padded(bytes, json_true()) {
        Some(true)
    } else if json_padded(bytes, json_false()) {
        Some(false)
    } else {
        None
    }
}

/// `near_sdk::serde_json::from_slice::<bool>`: after optional whitespace it reads
/// `true` or `false`, then accepts only whitespace up to the end; anything else is
/// an error.
#[verifier::external_body]
fn near_json_bool(bytes: &[u8]) -> (r: Option<bool>)
    ensures
        r == json_bool(bytes@),
{
    match near_sdk::serde_json::from_slice::<bool>(bytes) {
        Ok(b) => Some(b),
        Err(_) => None,
    }
}

/// The outcome of a call the contract waited for.
pub enum PromiseResult {
    NotReady,
    Successful(Vec<u8>),
    Failed,
}

/// Whether a token handed over with a call must come back: when the call
/// failed, or answered anything but the JSON `false`. A result not ready yet is
/// refused.
pub open spec fn must_revert(r: PromiseResult) -> Option<bool> {
    match r {
        PromiseResult::NotReady => None,
        PromiseResult::Successful(bytes) => match json_bool(bytes@) {
            Some(b) => Some(b),
            None => Some(true),
        },
        PromiseResult::Failed => Some(true),
    }
}

/// Decides whether a token handed over with a call must come back.
pub fn must_revert_transfer(r: &PromiseResult) -> (out: Result<bool, ContractError>)
    ensures
        match must_revert(*r) {
            Some(b) => out == Ok::<bool, ContractError>(b),
            None => out == Err::<bool, ContractError>(ContractError::PromiseNotReady),
        },
{
    match r {
        PromiseResult::NotReady => Err(ContractError::PromiseNotReady),
        PromiseResult::Successful(bytes) => match near_json_bool(bytes.as_slice()) {
            Some(b) => Ok(b),
            None => Ok(true),
        },
        PromiseResult::Failed => Ok(true),
    }
}

/// The storage that a token's approvals take, summed over its approvals.
pub open spec fn approvals_storage(a: Seq<(Seq<char>, u64)>) -> nat
    decreases a.len(),
{
    if a.len() == 0 {
        0
    } else {
        approvals_storage(a.drop_last()) + approval_storage(a.last().0)
    }
}

/// What releasing the storage of approvals refunds, if it fits a `u128` (the
/// byte count summed in a `u64`).
pub open spec fn approvals_refund(a: Seq<(Seq<char>, u64)>) -> Option<u128> {
    if approvals_storage(a) <= u64::MAX && approvals_storage(a) * storage_price_per_byte() <= u128::MAX {
        Some((approvals_storage(a) * storage_price_per_byte()) as u128)
    } else {
        None
    }
}

proof fn lemma_approvals_storage_monotone(a: Seq<(Seq<char>, u64)>, i: int)
    requires
        0 <= i <= a.len(),
    ensures
        approvals_storage(a.subrange(0, i)) <= approvals_storage(a),
    decreases a.len() - i,
{
    if i < a.len() {
        lemma_approvals_storage_monotone(a, i + 1);
        assert(a.subrange(0, i + 1).drop_last() =~= a.subrange(0, i));
    } else {
        assert(a.subrange(0, i) =~= a);
    }
}

/// The refund for releasing the storage of `list`
/// (`refund_approved_account_ids` computes it before it sends it).
pub fn refund_for_approvals(list: &Vec<Approval>) -> (r: Result<u128, ContractError>)
    requires
        forall|i: int| 0 <= i < list@.len() ==> approval_storage(#[trigger] list@[i].account_id@) <= u64::MAX,
    ensures
        match approvals_refund(approvals(list@)) {
            Some(x) => r == Ok::<u128, ContractError>(x),
            None => r == Err::<u128, ContractError>(ContractError::ArithmeticOverflow),
        },
{
    let ghost a = approvals(list@);
    let mut total: u64 = 0;
    let mut i: usize = 0;
    assert(a.subrange(0, 0) =~= Seq::<(Seq<char>, u64)>::empty());
    while i < list.len()
        invariant
            i <= list@.len(),
            a == approvals(list@),
            total == approvals_storage(a.subrange(0, i as int)),
            forall|j: int| 0 <= j < list@.len() ==> approval_storage(#[trigger] list@[j].account_id@) <= u64::MAX,
        decreases list.len() - i,
    {
        assert(a.subrange(0, i + 1).drop_last() =~= a.subrange(0, i as int));
        assert(a.subrange(0, i + 1).last() == a[i as int]);
        let bytes = bytes_for_approved_account_id(&list[i].account_id);
        if total > u64::MAX - bytes {
            proof {
                lemma_approvals_storage_monotone(a, i + 1);
            }
            return Err(ContractError::ArithmeticOverflow);
        }
        total = total + bytes;
        i = i + 1;
    }
    assert(a.subrange(0, i as int) =~= a);
    let cost = storage_byte_cost();
    match (total as u128).checked_mul(cost) {
        Some(x) => Ok(x),
        None => Err(ContractError::ArithmeticOverflow),
    }
}

} // verus!
