//! Why a request to the contract is refused.
use vstd::prelude::*;

verus! {

/// The reasons for which the contract refuses a request. A refused request
/// leaves the contract as it was.
#[derive(PartialEq, Eq, Structural, Clone, Copy, Debug)]
pub enum ContractError {
    /// An account id argument breaks the account id rule.
    InvalidAccountId,
    /// The contract metadata does not meet the metadata standard.
    InvalidContractMetadata,
    /// Only the contract owner may do this.
    OwnerOnly,
    /// Only a token metadata admin may do this.
    NotTokenMetadataAdmin,
    /// The account is already a token metadata admin.
    AdminAlreadyRegistered,
    /// The account is not a token metadata admin.
    AdminNotRegistered,
    /// Every collectible has been sold.
    MaxSupplyReached,
    /// The attached deposit is not the price of a collectible.
    WrongDeposit,
    /// A series with the new series id already exists.
    DuplicateTokenSeries,
    /// No series has that id.
    TokenSeriesNotFound,
    /// The series can no longer be minted.
    TokenSeriesNotMintable,
    /// The series has as many tokens as its copies allow.
    SeriesSupplyMaxed,
    /// No token has that id.
    TokenNotFound,
    /// The call needs exactly one yoctoNEAR attached.
    RequiresOneYocto,
    /// The call needs at least one yoctoNEAR attached.
    RequiresAtLeastOneYocto,
    /// The sender neither owns the token nor has approvals to look at.
    Unauthorized,
    /// The sender is not approved for the token.
    SenderNotApproved,
    /// The given approval id is not the sender's.
    ApprovalIdMismatch,
    /// The receiver already owns the token.
    SameOwner,
    /// Only the token's owner may do this.
    NotTokenOwner,
    /// The attached deposit does not cover the storage used.
    NotEnoughStorageDeposit,
    /// The start index is past the end of the list.
    OutOfBounds,
    /// A page of zero items was asked for.
    ZeroLimit,
    /// The series has more royalty receivers than the market can pay.
    TooManyPayoutReceivers,
    /// A payout was asked for without a maximum number of receivers.
    MissingMaxLenPayout,
    /// The royalty shares add up to more than the whole.
    TotalPayoutOverflow,
    /// An amount does not fit its integer type.
    ArithmeticOverflow,
    /// The prepaid gas does not cover the calls that follow.
    NotEnoughGas,
    /// The result of the receiver's call is not ready.
    PromiseNotReady,
}

} // verus!
