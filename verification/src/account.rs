//! Account identifiers and their validity rule.
use vstd::prelude::*;
use vstd::utf8::encode_utf8;

verus! {

/// A byte that may stand inside an account id without being a separator.
pub open spec fn is_id_alnum(b: u8) -> bool {
    (0x61 <= b && b <= 0x7a) || (0x30 <= b && b <= 0x39)
}

/// A separator byte: `-`, `_` or `.`.
pub open spec fn is_id_separator(b: u8) -> bool {
    b == 0x2d || b == 0x5f || b == 0x2e
}

/// The rule for account ids: between 2 and 64 bytes, made of lower-case letters,
/// digits and separators, with no separator first, last, or next to another.
pub open spec fn valid_account_bytes(bytes: Seq<u8>) -> bool {
    &&& 2 <= bytes.len() <= 64
    &&& forall|i: int| 0 <= i < bytes.len() ==> is_id_alnum(#[trigger] bytes[i]) || is_id_separator(bytes[i])
    &&& !is_id_separator(bytes[0])
    &&& !is_id_separator(bytes[bytes.len() - 1])
    &&& forall|i: int| 0 <= i < bytes.len() - 1 ==> !(is_id_separator(#[trigger] bytes[i]) && is_id_separator(bytes[i + 1]))
}

/// An account id, given by its characters, that the rule accepts.
pub open spec fn valid_account_id(id: Seq<char>) -> bool {
    valid_account_bytes(encode_utf8(id))
}

/// `near_sdk::env::is_valid_account_id`: says whether the bytes form an account id
/// that the runtime accepts. Its source checks the length (2 to 64 bytes), the
/// allowed bytes, and the placement of separators, which is `valid_account_bytes`.
#[verifier::external_body]
fn near_is_valid_account_id(bytes: &[u8]) -> (r: bool)
    ensures
        r == valid_account_bytes(bytes@),
{
    near_sdk::env::is_valid_account_id(bytes)
}

/// Checks an account id against the runtime's rule.
pub fn is_valid_account_id(account_id: &String) -> (r: bool)
    ensures
        r == valid_account_id(account_id@),
{
    let bytes = account_id.as_str().as_bytes();
    near_is_valid_account_id(bytes)
}

} // verus!
