//! The contract's state as plain values, its mathematical view, and the
//! invariant that every operation keeps.
use vstd::prelude::*;
use crate::account::valid_account_id;
use crate::ids::{series_id, token_id};
use crate::metadata::{NFTContractMetadata, NFTContractMetadataView, TokenMetadata, TokenMetadataView};
use crate::order::str_lt;

verus! {

/// Price of one collectible, in yoctoNEAR.
pub const NFT_PRICE: u128 = 3_480_000_000_000_000_000_000_000;
/// Registration fee that comes on top of the price, in yoctoNEAR.
pub const NFT_REGISTRATION_FEE: u128 = 20_000_000_000_000_000_000_000;
/// What a buyer must attach.
pub const NFT_TOTAL_PRICE: u128 = NFT_PRICE + NFT_REGISTRATION_FEE;
/// The most series (one per collectible sold) the contract ever holds.
pub const NFT_MAX_SUPPLY: u128 = 26_800;

/// The contract-wide transaction fee, in basis points.
#[derive(PartialEq, Eq, Structural, Clone, Copy, Debug)]
pub struct TransactionFee {
    pub next_fee: Option<u16>,
    pub start_time: Option<u32>,
    pub current_fee: u16,
}

/// A royalty share of a series: an account and its part of a sale, in basis points.
pub struct RoyaltyShare {
    pub account_id: String,
    pub share: u32,
}

/// An account approved to transfer a token, with the id of its approval.
pub struct Approval {
    pub account_id: String,
    pub approval_id: u64,
}

/// A transaction fee recorded for one series.
pub struct SeriesFee {
    pub token_series_id: String,
    pub fee: u128,
}

/// Transaction fees recorded per series.
pub struct MarketDataTransactionFee {
    pub transaction_fee: Vec<SeriesFee>,
}

/// A series of tokens that share metadata.
pub struct TokenSeries {
    pub token_series_id: String,
    pub metadata: TokenMetadata,
    pub creator_id: String,
    /// The ids of the series' tokens, in the order they were minted.
    pub tokens: Vec<String>,
    pub price: Option<u128>,
    pub is_mintable: bool,
    pub royalty: Vec<RoyaltyShare>,
}

/// One minted token.
pub struct TokenRecord {
    pub token_id: String,
    pub owner_id: String,
    pub metadata: TokenMetadata,
    /// The approved accounts, where the token has an entry for them.
    pub approvals: Option<Vec<Approval>>,
    /// The id the next approval of this token gets, where it has an entry.
    pub next_approval_id: Option<u64>,
    /// Position of the token's series.
    pub series_index: usize,
    /// The token's number within its series, from 1.
    pub edition: u64,
}

/// The tokens of one account, in the order of an unordered set: a new token goes
/// to the end, a removed one is replaced by the last.
pub struct OwnerTokens {
    pub owner_id: String,
    pub token_ids: Vec<String>,
}

/// The contract.
pub struct Contract {
    pub owner_id: String,
    pub metadata: NFTContractMetadata,
    /// Series in the order they were created; the one at position `i` is named `i + 1`.
    pub token_series: Vec<TokenSeries>,
    /// Minted tokens, ordered by id.
    pub tokens: Vec<TokenRecord>,
    pub tokens_per_owner: Vec<OwnerTokens>,
    pub treasury_id: String,
    pub transaction_fee: TransactionFee,
    pub market_data_transaction_fee: MarketDataTransactionFee,
    pub token_metadata_admins: Vec<String>,
    pub default_token_metadata: TokenMetadata,
}

/// The view of a vector of strings.
pub open spec fn strs(v: Seq<String>) -> Seq<Seq<char>> {
    v.map_values(|s: String| s@)
}

impl View for RoyaltyShare {
    type V = (Seq<char>, u32);

    open spec fn view(&self) -> (Seq<char>, u32) {
        (self.account_id@, self.share)
    }
}

impl View for Approval {
    type V = (Seq<char>, u64);

    open spec fn view(&self) -> (Seq<char>, u64) {
        (self.account_id@, self.approval_id)
    }
}

impl View for SeriesFee {
    type V = (Seq<char>, u128);

    open spec fn view(&self) -> (Seq<char>, u128) {
        (self.token_series_id@, self.fee)
    }
}

/// The view of a list of royalty shares.
pub open spec fn shares(v: Seq<RoyaltyShare>) -> Seq<(Seq<char>, u32)> {
    v.map_values(|r: RoyaltyShare| r@)
}

/// The view of a list of approvals.
pub open spec fn approvals(v: Seq<Approval>) -> Seq<(Seq<char>, u64)> {
    v.map_values(|a: Approval| a@)
}

/// The view of optional approvals.
pub open spec fn opt_approvals(o: Option<Vec<Approval>>) -> Option<Seq<(Seq<char>, u64)>> {
    match o {
        Some(v) => Some(approvals(v@)),
        None => None,
    }
}

/// The mathematical value of a series.
pub struct SeriesView {
    pub id: Seq<char>,
    pub metadata: TokenMetadataView,
    pub creator_id: Seq<char>,
    pub tokens: Seq<Seq<char>>,
    pub price: Option<u128>,
    pub is_mintable: bool,
    pub royalty: Seq<(Seq<char>, u32)>,
}

impl View for TokenSeries {
    type V = SeriesView;

    open spec fn view(&self) -> SeriesView {
        SeriesView {
            id: self.token_series_id@,
            metadata: self.metadata@,
            creator_id: self.creator_id@,
            tokens: strs(self.tokens@),
            price: self.price,
            is_mintable: self.is_mintable,
            royalty: shares(self.royalty@),
        }
    }
}

/// The mathematical value of a minted token.
pub struct TokenView {
    pub id: Seq<char>,
    pub owner_id: Seq<char>,
    pub metadata: TokenMetadataView,
    pub approvals: Option<Seq<(Seq<char>, u64)>>,
    pub next_approval_id: Option<u64>,
    pub series_index: int,
    pub edition: nat,
}

impl View for TokenRecord {
    type V = TokenView;

    open spec fn view(&self) -> TokenView {
        TokenView {
            id: self.token_id@,
            owner_id: self.owner_id@,
            metadata: self.metadata@,
            approvals: opt_approvals(self.approvals),
            next_approval_id: self.next_approval_id,
            series_index: self.series_index as int,
            edition: self.edition as nat,
        }
    }
}

impl View for OwnerTokens {
    type V = (Seq<char>, Seq<Seq<char>>);

    open spec fn view(&self) -> (Seq<char>, Seq<Seq<char>>) {
        (self.owner_id@, strs(self.token_ids@))
    }
}

/// The mathematical value of the contract.
pub struct ContractView {
    pub owner_id: Seq<char>,
    pub metadata: NFTContractMetadataView,
    pub series: Seq<SeriesView>,
    pub tokens: Seq<TokenView>,
    pub tokens_per_owner: Seq<(Seq<char>, Seq<Seq<char>>)>,
    pub treasury_id: Seq<char>,
    pub transaction_fee: TransactionFee,
    pub market_fees: Seq<(Seq<char>, u128)>,
    pub admins: Seq<Seq<char>>,
    pub default_token_metadata: TokenMetadataView,
}

impl View for Contract {
    type V = ContractView;

    open spec fn view(&self) -> ContractView {
        ContractView {
            owner_id: self.owner_id@,
            metadata: self.metadata@,
            series: self.token_series@.map_values(|s: TokenSeries| s@),
            tokens: self.tokens@.map_values(|t: TokenRecord| t@),
            tokens_per_owner: self.tokens_per_owner@.map_values(|o: OwnerTokens| o@),
            treasury_id: self.treasury_id@,
            transaction_fee: self.transaction_fee,
            market_fees: self.market_data_transaction_fee.transaction_fee@.map_values(|f: SeriesFee| f@),
            admins: strs(self.token_metadata_admins@),
            default_token_metadata: self.default_token_metadata@,
        }
    }
}

/// Pairs whose first components are pairwise distinct.
pub open spec fn keys_distinct<V>(s: Seq<(Seq<char>, V)>) -> bool {
    forall|i: int, j: int| 0 <= i < s.len() && 0 <= j < s.len() && i != j ==> #[trigger] s[i].0 != #[trigger] s[j].0
}

/// The position of the pair with first component `k`, if there is one.
pub open spec fn key_pos<V>(s: Seq<(Seq<char>, V)>, k: Seq<char>) -> Option<int> {
    if exists|i: int| 0 <= i < s.len() && #[trigger] s[i].0 == k {
        Some(choose|i: int| 0 <= i < s.len() && #[trigger] s[i].0 == k)
    } else {
        None
    }
}

/// The value stored under `k` in a list of pairs.
pub open spec fn key_get<V>(s: Seq<(Seq<char>, V)>, k: Seq<char>) -> Option<V> {
    match key_pos(s, k) {
        Some(i) => Some(s[i].1),
        None => None,
    }
}

/// With distinct keys, the position of a key is where it stands.
pub proof fn lemma_key_pos<V>(s: Seq<(Seq<char>, V)>, i: int)
    requires
        keys_distinct(s),
        0 <= i < s.len(),
    ensures
        key_pos(s, s[i].0) == Some(i),
{
}

/// The position of the series named `id`, if there is one.
pub open spec fn series_pos(series: Seq<SeriesView>, id: Seq<char>) -> Option<int> {
    if exists|i: int| 0 <= i < series.len() && #[trigger] series[i].id == id {
        Some(choose|i: int| 0 <= i < series.len() && #[trigger] series[i].id == id)
    } else {
        None
    }
}

/// The position of the token named `id`, if there is one.
pub open spec fn token_pos(tokens: Seq<TokenView>, id: Seq<char>) -> Option<int> {
    if exists|k: int| 0 <= k < tokens.len() && #[trigger] tokens[k].id == id {
        Some(choose|k: int| 0 <= k < tokens.len() && #[trigger] tokens[k].id == id)
    } else {
        None
    }
}

/// Tokens strictly ordered by id.
pub open spec fn tokens_sorted(tokens: Seq<TokenView>) -> bool {
    forall|a: int, b: int| 0 <= a < b < tokens.len() ==> str_lt(#[trigger] tokens[a].id, #[trigger] tokens[b].id)
}

/// The ids of the tokens that `owner` holds.
pub open spec fn owned_ids(tokens: Seq<TokenView>, owner: Seq<char>) -> Set<Seq<char>> {
    Set::new(|id: Seq<char>| exists|k: int| 0 <= k < tokens.len() && #[trigger] tokens[k].id == id && tokens[k].owner_id == owner)
}

/// Approvals with distinct accounts, each a valid account id.
pub open spec fn approvals_wf(a: Option<Seq<(Seq<char>, u64)>>) -> bool {
    match a {
        Some(s) => keys_distinct(s) && forall|i: int| 0 <= i < s.len() ==> valid_account_id(#[trigger] s[i].0),
        None => true,
    }
}

impl ContractView {
    /// The series at position `i` is named by its position and holds, in order,
    /// the editions 1, 2, ... of its tokens; its royalty accounts are distinct.
    pub open spec fn series_wf(self, i: int) -> bool {
        let s = self.series[i];
        &&& s.id == series_id(i)
        &&& forall|e: int| 0 <= e < s.tokens.len() ==> #[trigger] s.tokens[e] == token_id(series_id(i), (e + 1) as nat)
        &&& s.tokens.len() <= u64::MAX
        &&& (s.is_mintable ==> s.tokens.len() < u64::MAX)
        &&& keys_distinct(s.royalty)
    }

    /// The token at position `k` is an edition of an existing series, named by
    /// that series and its number.
    pub open spec fn token_wf(self, k: int) -> bool {
        let t = self.tokens[k];
        &&& 0 <= t.series_index < self.series.len()
        &&& 1 <= t.edition <= self.series[t.series_index].tokens.len()
        &&& t.id == token_id(series_id(t.series_index), t.edition)
        &&& approvals_wf(t.approvals)
    }

    /// Edition `e` of series `i` was minted.
    pub open spec fn minted(self, i: int, e: nat) -> bool {
        exists|k: int| 0 <= k < self.tokens.len() && #[trigger] self.tokens[k].series_index == i && self.tokens[k].edition == e
    }

    /// The per-owner lists hold exactly the tokens each account owns, without repeats.
    pub open spec fn owners_wf(self) -> bool {
        &&& keys_distinct(self.tokens_per_owner)
        &&& forall|j: int| 0 <= j < self.tokens_per_owner.len() ==> {
            let (o, ids) = #[trigger] self.tokens_per_owner[j];
            &&& ids.len() > 0
            &&& ids.no_duplicates()
            &&& ids.to_set() == owned_ids(self.tokens, o)
        }
        &&& forall|k: int| 0 <= k < self.tokens.len() ==> key_pos(self.tokens_per_owner, #[trigger] self.tokens[k].owner_id) is Some
    }

    /// The invariant of the contract.
    pub open spec fn wf(self) -> bool {
        &&& self.series.len() <= NFT_MAX_SUPPLY
        &&& forall|i: int| 0 <= i < self.series.len() ==> #[trigger] self.series_wf(i)
        &&& tokens_sorted(self.tokens)
        &&& forall|k: int| 0 <= k < self.tokens.len() ==> #[trigger] self.token_wf(k)
        &&& forall|i: int, e: int| 0 <= i < self.series.len() && 1 <= e <= self.series[i].tokens.len()
            ==> #[trigger] self.minted(i, e as nat)
        &&& self.owners_wf()
        &&& self.admins.no_duplicates()
        &&& keys_distinct(self.market_fees)
    }

    /// What every state reached from a new contract through its operations
    /// looks like: each series holds exactly its first edition and no royalty,
    /// there are as many tokens as series, and no fee is recorded for a series.
    pub open spec fn one_token_per_series(self) -> bool {
        &&& forall|i: int| 0 <= i < self.series.len() ==> {
            &&& (#[trigger] self.series[i]).tokens == seq![token_id(series_id(i), 1)]
            &&& self.series[i].royalty.len() == 0
        }
        &&& self.tokens.len() == self.series.len()
        &&& self.market_fees.len() == 0
    }

    /// `later` still has every series of this state, each with the creator it
    /// had here.
    pub open spec fn creators_kept(self, later: ContractView) -> bool {
        &&& self.series.len() <= later.series.len()
        &&& forall|i: int| 0 <= i < self.series.len() ==> #[trigger] later.series[i].creator_id == self.series[i].creator_id
    }

    /// The owner of the token named `id`, if it exists.
    pub open spec fn owner_of(self, id: Seq<char>) -> Option<Seq<char>> {
        match token_pos(self.tokens, id) {
            Some(k) => Some(self.tokens[k].owner_id),
            None => None,
        }
    }

    /// The tokens listed for `account`, empty where it has no list.
    pub open spec fn tokens_of(self, account: Seq<char>) -> Seq<Seq<char>> {
        match key_pos(self.tokens_per_owner, account) {
            Some(j) => self.tokens_per_owner[j].1,
            None => Seq::empty(),
        }
    }
}

impl Contract {
    /// The invariant of the contract.
    pub open spec fn wf(&self) -> bool {
        self@.wf()
    }
}

} // verus!
