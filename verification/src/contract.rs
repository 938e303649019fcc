//! Creating the contract, its settings, and its admins.
use vstd::prelude::*;
use crate::account::{is_valid_account_id, valid_account_id};
use crate::error::ContractError;
use crate::lemmas::lemma_wf_frame;
use crate::lookup::{find_series_fee, find_str};
use crate::views::series_fee;
use crate::metadata::{
    NFTContractMetadata, NFTContractMetadataView, TokenMetadata, TokenMetadataView, empty_token_metadata,
    nft_metadata_spec, nft_metadata_spec_string, valid_contract_metadata,
};
use vstd::string::*;
use crate::state::{
    Contract, ContractView, MarketDataTransactionFee, TransactionFee, key_get, lemma_key_pos, };

verus! {

/// The character between the series id and the edition in a token id.
pub const TOKEN_DELIMETER: char = ':';
/// What stands between a title and an edition number.
pub const TITLE_DELIMETER: &'static str = " #";
/// What stands between an edition number and the number of copies.
pub const EDITION_DELIMETER: &'static str = "/";
/// The contract-wide transaction fee a contract made with the default metadata starts with.
pub const DEFAULT_TRANSACTION_FEE: u16 = 500;

/// The Paras icon, as a data URL.
pub const DATA_IMAGE_SVG_PARAS_ICON: &'static str = "data:image/svg+xml,%3Csvg width='1080' height='1080' viewBox='0 0 1080 1080' fill='none' xmlns='http://www.w3.org/2000/svg'%3E%3Crect width='1080' height='1080' rx='10' fill='%230000BA'/%3E%3Cpath fill-rule='evenodd' clip-rule='evenodd' d='M335.238 896.881L240 184L642.381 255.288C659.486 259.781 675.323 263.392 689.906 266.718C744.744 279.224 781.843 287.684 801.905 323.725C827.302 369.032 840 424.795 840 491.014C840 557.55 827.302 613.471 801.905 658.779C776.508 704.087 723.333 726.74 642.381 726.74H468.095L501.429 896.881H335.238ZM387.619 331.329L604.777 369.407C614.008 371.807 622.555 373.736 630.426 375.513C660.02 382.193 680.042 386.712 690.869 405.963C704.575 430.164 711.428 459.95 711.428 495.321C711.428 530.861 704.575 560.731 690.869 584.932C677.163 609.133 648.466 621.234 604.777 621.234H505.578L445.798 616.481L387.619 331.329Z' fill='white'/%3E%3C/svg%3E";

/// The metadata of the Paras collectibles contract.
pub open spec fn paras_metadata() -> NFTContractMetadataView {
    NFTContractMetadataView {
        spec: nft_metadata_spec(),
        name: "Paras Collectibles"@,
        symbol: "PARAS"@,
        icon: Some(DATA_IMAGE_SVG_PARAS_ICON@),
        base_uri: Some("https://ipfs.fleek.co/ipfs"@),
        reference: None,
        reference_hash: None,
    }
}

/// The metadata new series get in a contract made with the default metadata.
pub open spec fn paras_default_token_metadata() -> TokenMetadataView {
    TokenMetadataView {
        title: Some("Default Title"@),
        description: Some("Default Description"@),
        ..empty_token_metadata()
    }
}

/// The state of a freshly created contract.
pub open spec fn initial_view(
    owner_id: Seq<char>,
    treasury_id: Seq<char>,
    metadata: NFTContractMetadataView,
    current_fee: u16,
    default_token_metadata: TokenMetadataView,
) -> ContractView {
    ContractView {
        owner_id,
        metadata,
        series: Seq::empty(),
        tokens: Seq::empty(),
        tokens_per_owner: Seq::empty(),
        treasury_id,
        transaction_fee: TransactionFee { next_fee: None, start_time: None, current_fee },
        market_fees: Seq::empty(),
        admins: seq![owner_id],
        default_token_metadata,
    }
}

/// The contract's state with another list of admins.
pub open spec fn with_admins(v: ContractView, admins: Seq<Seq<char>>) -> ContractView {
    ContractView { admins, ..v }
}

impl Contract {
    /// Creates the contract. The owner becomes the first token metadata admin.
    pub fn new(
        owner_id: String,
        treasury_id: String,
        metadata: NFTContractMetadata,
        current_fee: u16,
        default_token_metadata: TokenMetadata,
    ) -> (r: Result<Contract, ContractError>)
        ensures
            match r {
                Ok(c) => {
                    &&& valid_account_id(owner_id@)
                    &&& valid_account_id(treasury_id@)
                    &&& valid_contract_metadata(metadata@)
                    &&& c.wf()
                    &&& c@.one_token_per_series()
                    &&& c@ == initial_view(owner_id@, treasury_id@, metadata@, current_fee, default_token_metadata@)
                },
                Err(e) => if !valid_account_id(owner_id@) || !valid_account_id(treasury_id@) {
                    e == ContractError::InvalidAccountId
                } else {
                    !valid_contract_metadata(metadata@) && e == ContractError::InvalidContractMetadata
                },
            },
    {
        if !is_valid_account_id(&owner_id) || !is_valid_account_id(&treasury_id) {
            return Err(ContractError::InvalidAccountId);
        }
        if !metadata.is_valid() {
            return Err(ContractError::InvalidContractMetadata);
        }
        let mut admins: Vec<String> = Vec::new();
        admins.push(owner_id.clone());
        let c = Contract {
            owner_id,
            metadata,
            token_series: Vec::new(),
            tokens: Vec::new(),
            tokens_per_owner: Vec::new(),
            treasury_id,
            transaction_fee: TransactionFee { next_fee: None, start_time: None, current_fee },
            market_data_transaction_fee: MarketDataTransactionFee { transaction_fee: Vec::new() },
            token_metadata_admins: admins,
            default_token_metadata,
        };
        assert(c@.series =~= Seq::empty());
        assert(c@.tokens =~= Seq::empty());
        assert(c@.tokens_per_owner =~= Seq::empty());
        assert(c@.market_fees =~= Seq::empty());
        assert(c@.admins =~= seq![c@.owner_id]);
        Ok(c)
    }

    /// Creates the Paras collectibles contract: its own metadata, a fee of 500
    /// basis points, and default token metadata titled "Default Title".
    pub fn new_default_meta(owner_id: String, treasury_id: String) -> (r: Result<Contract, ContractError>)
        ensures
            match r {
                Ok(c) => {
                    &&& valid_account_id(owner_id@)
                    &&& valid_account_id(treasury_id@)
                    &&& c.wf()
                    &&& c@.one_token_per_series()
                    &&& c@ == initial_view(owner_id@, treasury_id@, paras_metadata(), DEFAULT_TRANSACTION_FEE,
                        paras_default_token_metadata())
                },
                Err(e) => e == ContractError::InvalidAccountId
                    && (!valid_account_id(owner_id@) || !valid_account_id(treasury_id@)),
            },
    {
        let metadata = NFTContractMetadata {
            spec: nft_metadata_spec_string(),
            name: String::from_str("Paras Collectibles"),
            symbol: String::from_str("PARAS"),
            icon: Some(String::from_str(DATA_IMAGE_SVG_PARAS_ICON)),
            base_uri: Some(String::from_str("https://ipfs.fleek.co/ipfs")),
            reference: None,
            reference_hash: None,
        };
        let mut default_token_metadata = TokenMetadata::empty();
        default_token_metadata.title = Some(String::from_str("Default Title"));
        default_token_metadata.description = Some(String::from_str("Default Description"));
        proof {
            reveal_strlit("nft-1.0.0");
            assert(valid_contract_metadata(metadata@));
        }
        Self::new(owner_id, treasury_id, metadata, DEFAULT_TRANSACTION_FEE, default_token_metadata)
    }

    /// The contract-wide transaction fee.
    pub fn get_transaction_fee(&self) -> (r: &TransactionFee)
        ensures
            *r == self@.transaction_fee,
    {
        &self.transaction_fee
    }

    /// The transaction fee of a series: the one recorded for it, or else the
    /// contract's current fee.
    pub fn get_market_data_transaction_fee(&self, token_series_id: &String) -> (r: u128)
        requires
            self.wf(),
        ensures
            r == series_fee(self@, token_series_id@),
    {
        match find_series_fee(&self.market_data_transaction_fee.transaction_fee, token_series_id) {
            Some(j) => {
                proof {
                    lemma_key_pos(self@.market_fees, j as int);
                }
                self.market_data_transaction_fee.transaction_fee[j].fee
            },
            None => {
                assert(!(exists|i: int| 0 <= i < self@.market_fees.len() && #[trigger] self@.market_fees[i].0 == token_series_id@));
                self.transaction_fee.current_fee as u128
            },
        }
    }

    /// The contract owner.
    pub fn get_owner(&self) -> (r: String)
        ensures
            r@ == self@.owner_id,
    {
        self.owner_id.clone()
    }

    /// The contract metadata.
    pub fn nft_metadata(&self) -> (r: NFTContractMetadata)
        ensures
            r@ == self@.metadata,
    {
        self.metadata.copy()
    }

    /// Refuses a caller other than the contract owner.
    fn assert_owner(&self, caller: &String) -> (r: Result<(), ContractError>)
        ensures
            r is Ok <==> caller@ == self@.owner_id,
            r is Err ==> r == Err::<(), ContractError>(ContractError::OwnerOnly),
    {
        if *caller == self.owner_id {
            Ok(())
        } else {
            Err(ContractError::OwnerOnly)
        }
    }

    /// Refuses a caller that is not a token metadata admin.
    pub(crate) fn assert_token_metadata_admin(&self, caller: &String) -> (r: Result<(), ContractError>)
        ensures
            r is Ok <==> self@.admins.contains(caller@),
            r is Err ==> r == Err::<(), ContractError>(ContractError::NotTokenMetadataAdmin),
    {
        match find_str(&self.token_metadata_admins, caller) {
            Some(j) => {
                assert(self@.admins[j as int] == caller@);
                Ok(())
            },
            None => {
                assert(!self@.admins.contains(caller@));
                Err(ContractError::NotTokenMetadataAdmin)
            },
        }
    }

    /// The owner makes `account_id` a token metadata admin.
    pub fn add_token_metadata_admin(&mut self, caller: &String, account_id: String) -> (r: Result<(), ContractError>)
        requires
            old(self).wf(),
        ensures
            final(self).wf(),
            final(self)@.series.len() == old(self)@.series.len(),
            old(self)@.one_token_per_series() ==> final(self)@.one_token_per_series(),
            final(self)@.transaction_fee == old(self)@.transaction_fee,
            old(self)@.creators_kept(final(self)@),
            r == if !valid_account_id(account_id@) {
                Err(ContractError::InvalidAccountId)
            } else if caller@ != old(self)@.owner_id {
                Err(ContractError::OwnerOnly)
            } else if old(self)@.admins.contains(account_id@) {
                Err(ContractError::AdminAlreadyRegistered)
            } else {
                Ok(())
            },
            r is Ok ==> final(self)@ == with_admins(old(self)@, old(self)@.admins.push(account_id@)),
            r is Err ==> final(self)@ == old(self)@,
    {
        if !is_valid_account_id(&account_id) {
            return Err(ContractError::InvalidAccountId);
        }
        self.assert_owner(caller)?;
        match find_str(&self.token_metadata_admins, &account_id) {
            Some(j) => {
                assert(old(self)@.admins[j as int] == account_id@);
                Err(ContractError::AdminAlreadyRegistered)
            },
            None => {
                assert(!old(self)@.admins.contains(account_id@));
                self.token_metadata_admins.push(account_id);
                assert(self@.admins =~= old(self)@.admins.push(account_id@));
                assert(self@ == with_admins(old(self)@, old(self)@.admins.push(account_id@)));
                proof {
                    lemma_wf_frame(old(self)@, self@);
                }
                Ok(())
            },
        }
    }

    /// The owner takes `account_id` off the token metadata admins.
    pub fn remove_token_metadata_admin(&mut self, caller: &String, account_id: String) -> (r: Result<(), ContractError>)
        requires
            old(self).wf(),
        ensures
            final(self).wf(),
            final(self)@.series.len() == old(self)@.series.len(),
            old(self)@.one_token_per_series() ==> final(self)@.one_token_per_series(),
            final(self)@.transaction_fee == old(self)@.transaction_fee,
            old(self)@.creators_kept(final(self)@),
            r == if !valid_account_id(account_id@) {
                Err(ContractError::InvalidAccountId)
            } else if caller@ != old(self)@.owner_id {
                Err(ContractError::OwnerOnly)
            } else if !old(self)@.admins.contains(account_id@) {
                Err(ContractError::AdminNotRegistered)
            } else {
                Ok(())
            },
            r is Ok ==> exists|j: int| 0 <= j < old(self)@.admins.len() && old(self)@.admins[j] == account_id@
                && final(self)@ == with_admins(old(self)@, old(self)@.admins.remove(j)),
            r is Ok ==> !final(self)@.admins.contains(account_id@),
            r is Err ==> final(self)@ == old(self)@,
    {
        if !is_valid_account_id(&account_id) {
            return Err(ContractError::InvalidAccountId);
        }
        self.assert_owner(caller)?;
        match find_str(&self.token_metadata_admins, &account_id) {
            Some(j) => {
                let ghost old_admins = old(self)@.admins;
                assert(old_admins[j as int] == account_id@);
                assert(old_admins.contains(account_id@));
                self.token_metadata_admins.remove(j);
                assert(self@.admins =~= old_admins.remove(j as int));
                assert(self@ == with_admins(old(self)@, old_admins.remove(j as int)));
                assert forall|a: int, b: int| 0 <= a < b < self@.admins.len() implies self@.admins[a] != self@.admins[b] by {
                    let a0 = if a < j { a } else { a + 1 };
                    let b0 = if b < j { b } else { b + 1 };
                    assert(old_admins[a0] != old_admins[b0]);
                }
                assert(!self@.admins.contains(account_id@)) by {
                    if self@.admins.contains(account_id@) {
                        let a = choose|a: int| 0 <= a < self@.admins.len() && self@.admins[a] == account_id@;
                        let a0 = if a < j { a } else { a + 1 };
                        assert(old_admins[a0] == old_admins[j as int]);
                    }
                }
                proof {
                    lemma_wf_frame(old(self)@, self@);
                }
                assert(0 <= j < old_admins.len() && old_admins[j as int] == account_id@
                    && self@ == with_admins(old(self)@, old_admins.remove(j as int)));
                Ok(())
            },
            None => {
                assert(!old(self)@.admins.contains(account_id@));
                Err(ContractError::AdminNotRegistered)
            },
        }
    }

    /// A token metadata admin replaces the metadata given to new series.
    pub fn set_default_token_metadata(&mut self, caller: &String, default_token_metadata: TokenMetadata) -> (r: Result<(), ContractError>)
        requires
            old(self).wf(),
        ensures
            final(self).wf(),
            final(self)@.series.len() == old(self)@.series.len(),
            old(self)@.one_token_per_series() ==> final(self)@.one_token_per_series(),
            final(self)@.transaction_fee == old(self)@.transaction_fee,
            old(self)@.creators_kept(final(self)@),
            r is Ok <==> old(self)@.admins.contains(caller@),
            r is Err ==> r == Err::<(), ContractError>(ContractError::NotTokenMetadataAdmin) && final(self)@ == old(self)@,
            r is Ok ==> final(self)@ == (ContractView { default_token_metadata: default_token_metadata@, ..old(self)@ }),
    {
        self.assert_token_metadata_admin(caller)?;
        self.default_token_metadata = default_token_metadata;
        proof {
            lemma_wf_frame(old(self)@, self@);
        }
        Ok(())
    }
}

} // verus!
