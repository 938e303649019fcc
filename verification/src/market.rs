//! Selling collectibles: each sale creates a series and mints its first edition.
use vstd::prelude::*;
use crate::decimal::{decimal, to_decimal};
use crate::error::ContractError;
use crate::ids::{
    lemma_decimal_injective, lemma_decimal_no_delimiter, lemma_token_id_injective, make_series_id, make_token_id,
    series_id, token_id,
};
use crate::lemmas::{lemma_owned_ids_insert, lemma_push_to_set, lemma_series_ids_distinct, lemma_sorted_insert};
use crate::metadata::{TokenMetadata, TokenMetadataView, empty_token_metadata};
use crate::lookup::{find_series, lemma_series_pos};
use crate::owners::{add_token_to_owner, lists_after_add};
use crate::order::{KeyOrder, compare_str, lemma_str_lt_transitive, str_lt};
use crate::state::{
    Contract, ContractView, NFT_MAX_SUPPLY, NFT_PRICE, NFT_TOTAL_PRICE, SeriesView, TokenRecord, TokenSeries,
    TokenView, RoyaltyShare, key_pos, keys_distinct, owned_ids, series_pos, shares, strs, token_pos, tokens_sorted,
};

verus! {

/// The metadata a token is minted with: only the time it was issued.
pub open spec fn minted_metadata(block_timestamp: u64) -> TokenMetadataView {
    TokenMetadataView { issued_at: Some(decimal(block_timestamp as nat)), ..empty_token_metadata() }
}

/// Edition `edition` of series `i`, minted for `owner` at `block_timestamp`.
pub open spec fn new_token(i: int, edition: nat, owner: Seq<char>, block_timestamp: u64) -> TokenView {
    TokenView {
        id: token_id(series_id(i), edition),
        owner_id: owner,
        metadata: minted_metadata(block_timestamp),
        approvals: None,
        next_approval_id: None,
        series_index: i,
        edition,
    }
}

/// How many tokens a series may have: its copies, or no limit below `u64::MAX`.
pub open spec fn max_copies(s: SeriesView) -> nat {
    match s.metadata.copies {
        Some(c) => c as nat,
        None => u64::MAX as nat,
    }
}

/// A series can mint another token.
pub open spec fn can_mint(s: SeriesView) -> bool {
    s.is_mintable && s.tokens.len() < max_copies(s)
}

/// A series after minting the token `id`: when it reaches its copies it stops
/// being mintable and loses its price.
pub open spec fn series_after_mint(s: SeriesView, id: Seq<char>) -> SeriesView {
    if s.tokens.len() + 1 >= max_copies(s) {
        SeriesView { tokens: s.tokens.push(id), is_mintable: false, price: None, ..s }
    } else {
        SeriesView { tokens: s.tokens.push(id), ..s }
    }
}

/// Position `p` is where `id` belongs among tokens ordered by id.
pub open spec fn insert_pos(t: Seq<TokenView>, p: int, id: Seq<char>) -> bool {
    &&& 0 <= p <= t.len()
    &&& forall|j: int| 0 <= j < p ==> str_lt(#[trigger] t[j].id, id)
    &&& forall|j: int| p <= j < t.len() ==> str_lt(id, #[trigger] t[j].id)
}

/// The contract after series `i` mints its next edition for `receiver`, the new
/// token going to position `p`.
pub open spec fn mint_view(v: ContractView, i: int, receiver: Seq<char>, block_timestamp: u64, p: int) -> ContractView {
    let n = v.series[i].tokens.len();
    let t = new_token(i, n + 1, receiver, block_timestamp);
    ContractView {
        series: v.series.update(i, series_after_mint(v.series[i], t.id)),
        tokens: v.tokens.insert(p, t),
        tokens_per_owner: lists_after_add(v.tokens_per_owner, receiver, t.id),
        ..v
    }
}

/// The next edition of a series is not the id of any token yet.
pub proof fn lemma_next_edition_fresh(v: ContractView, i: int)
    requires
        v.wf(),
        0 <= i < v.series.len(),
    ensures
        forall|k: int| 0 <= k < v.tokens.len() ==> #[trigger] v.tokens[k].id != token_id(series_id(i), v.series[i].tokens.len() + 1),
{
    let n = v.series[i].tokens.len();
    assert forall|k: int| 0 <= k < v.tokens.len() implies #[trigger] v.tokens[k].id != token_id(series_id(i), n + 1) by {
        assert(v.token_wf(k));
        let t = v.tokens[k];
        if t.id == token_id(series_id(i), n + 1) {
            lemma_decimal_no_delimiter((t.series_index + 1) as nat);
            lemma_decimal_no_delimiter((i + 1) as nat);
            lemma_token_id_injective(series_id(t.series_index), t.edition, series_id(i), n + 1);
            lemma_decimal_injective((t.series_index + 1) as nat, (i + 1) as nat);
        }
    }
}

/// Minting keeps the invariant.
pub proof fn lemma_mint_wf(v: ContractView, i: int, receiver: Seq<char>, block_timestamp: u64, p: int)
    requires
        v.wf(),
        0 <= i < v.series.len(),
        can_mint(v.series[i]),
        insert_pos(v.tokens, p, token_id(series_id(i), v.series[i].tokens.len() + 1)),
    ensures
        mint_view(v, i, receiver, block_timestamp, p).wf(),
{
    let n = v.series[i].tokens.len();
    let t = new_token(i, n + 1, receiver, block_timestamp);
    let w = mint_view(v, i, receiver, block_timestamp, p);
    lemma_next_edition_fresh(v, i);
    assert(v.series_wf(i));
    // series
    assert forall|a: int| 0 <= a < w.series.len() implies #[trigger] w.series_wf(a) by {
        assert(v.series_wf(a));
        if a == i {
            let s = w.series[a];
            assert forall|e: int| 0 <= e < s.tokens.len() implies #[trigger] s.tokens[e] == token_id(series_id(a), (e + 1) as nat) by {
                if e < n {
                    assert(s.tokens[e] == v.series[a].tokens[e]);
                }
            }
        }
    }
    // order
    lemma_sorted_insert(v.tokens, p, t);
    // tokens
    assert forall|k: int| 0 <= k < w.tokens.len() implies #[trigger] w.token_wf(k) by {
        if k < p {
            assert(w.tokens[k] == v.tokens[k]);
            assert(v.token_wf(k));
        } else if k > p {
            assert(w.tokens[k] == v.tokens[k - 1]);
            assert(v.token_wf(k - 1));
        }
    }
    // every edition minted
    assert forall|a: int, e: int| 0 <= a < w.series.len() && 1 <= e <= w.series[a].tokens.len()
        implies #[trigger] w.minted(a, e as nat) by {
        if a == i && e == n + 1 {
            assert(w.tokens[p] == t);
            assert(w.tokens[p].series_index == a && w.tokens[p].edition == e);
        } else {
            if a != i {
                assert(w.series[a] == v.series[a]);
            }
            assert(v.minted(a, e as nat));
            let k = choose|k: int| 0 <= k < v.tokens.len() && #[trigger] v.tokens[k].series_index == a && v.tokens[k].edition == e;
            if k < p {
                assert(w.tokens[k] == v.tokens[k]);
                assert(w.tokens[k].series_index == a && w.tokens[k].edition == e);
            } else {
                assert(w.tokens[k + 1] == v.tokens[k]);
                assert(w.tokens[k + 1].series_index == a && w.tokens[k + 1].edition == e);
            }
        }
    }
    // owners
    lemma_mint_owners_wf(v, w.tokens, p, t);
}

proof fn lemma_mint_owners_wf(v: ContractView, u: Seq<TokenView>, p: int, t: TokenView)
    requires
        v.owners_wf(),
        0 <= p <= v.tokens.len(),
        u == v.tokens.insert(p, t),
        forall|k: int| 0 <= k < v.tokens.len() ==> #[trigger] v.tokens[k].id != t.id,
    ensures
        (ContractView { tokens: u, tokens_per_owner: lists_after_add(v.tokens_per_owner, t.owner_id, t.id), ..v }).owners_wf(),
{
    let l = v.tokens_per_owner;
    let l2 = lists_after_add(l, t.owner_id, t.id);
    let w = ContractView { tokens: u, tokens_per_owner: l2, ..v };
    assert forall|o: Seq<char>| owned_ids(u, o) == if t.owner_id == o { owned_ids(v.tokens, o).insert(t.id) } else { owned_ids(v.tokens, o) } by {
        lemma_owned_ids_insert(v.tokens, p, t, o);
    }
    match key_pos(l, t.owner_id) {
        Some(j) => {
            assert(l2 == l.update(j, (t.owner_id, l[j].1.push(t.id))));
            assert forall|a: int| 0 <= a < l2.len() implies ({
                let (o, ids) = #[trigger] l2[a];
                &&& ids.len() > 0
                &&& ids.no_duplicates()
                &&& ids.to_set() == owned_ids(u, o)
            }) by {
                if a == j {
                    let ids = l[j].1;
                    assert(!ids.contains(t.id)) by {
                        if ids.contains(t.id) {
                            assert(ids.to_set().contains(t.id));
                            assert(owned_ids(v.tokens, t.owner_id).contains(t.id));
                        }
                    }
                    lemma_push_to_set(ids, t.id);
                    assert forall|x: int, y: int| 0 <= x < ids.push(t.id).len() && 0 <= y < ids.push(t.id).len() && x != y
                        implies ids.push(t.id)[x] != ids.push(t.id)[y] by {
                        if x < ids.len() && y < ids.len() {
                        } else if x < ids.len() {
                            assert(ids.contains(ids[x]));
                        } else {
                            assert(ids.contains(ids[y]));
                        }
                    }
                } else {
                    assert(l2[a] == l[a]);
                    assert(l[a].0 != l[j].0);
                }
            }
            assert forall|k: int| 0 <= k < u.len() implies key_pos(l2, #[trigger] u[k].owner_id) is Some by {
                if k == p {
                    assert(l2[j].0 == t.owner_id);
                } else {
                    let k0 = if k < p { k } else { k - 1 };
                    assert(u[k] == v.tokens[k0]);
                    let jj = key_pos(l, v.tokens[k0].owner_id)->0;
                    assert(l2[jj].0 == l[jj].0);
                }
            }
            assert(keys_distinct(l2)) by {
                assert forall|a: int, b: int| 0 <= a < l2.len() && 0 <= b < l2.len() && a != b implies #[trigger] l2[a].0 != #[trigger] l2[b].0 by {
                    assert(l2[a].0 == l[a].0);
                    assert(l2[b].0 == l[b].0);
                }
            }
        },
        None => {
            assert(l2 == l.push((t.owner_id, seq![t.id])));
            assert(owned_ids(v.tokens, t.owner_id) =~= Set::empty()) by {
                assert forall|id: Seq<char>| !owned_ids(v.tokens, t.owner_id).contains(id) by {
                    if owned_ids(v.tokens, t.owner_id).contains(id) {
                        let k = choose|k: int| 0 <= k < v.tokens.len() && #[trigger] v.tokens[k].id == id && v.tokens[k].owner_id == t.owner_id;
                        assert(key_pos(l, v.tokens[k].owner_id) is Some);
                    }
                }
            }
            assert forall|a: int| 0 <= a < l2.len() implies ({
                let (o, ids) = #[trigger] l2[a];
                &&& ids.len() > 0
                &&& ids.no_duplicates()
                &&& ids.to_set() == owned_ids(u, o)
            }) by {
                if a == l.len() {
                    assert(seq![t.id].to_set() =~= Set::<Seq<char>>::empty().insert(t.id)) by {
                        assert(seq![t.id][0] == t.id);
                    }
                } else {
                    assert(l2[a] == l[a]);
                    assert(l[a].0 != t.owner_id);
                }
            }
            assert forall|k: int| 0 <= k < u.len() implies key_pos(l2, #[trigger] u[k].owner_id) is Some by {
                if k == p {
                    assert(l2[l.len() as int].0 == t.owner_id);
                } else {
                    let k0 = if k < p { k } else { k - 1 };
                    assert(u[k] == v.tokens[k0]);
                    let jj = key_pos(l, v.tokens[k0].owner_id)->0;
                    assert(l2[jj].0 == l[jj].0);
                }
            }
            assert(keys_distinct(l2)) by {
                assert forall|a: int, b: int| 0 <= a < l2.len() && 0 <= b < l2.len() && a != b implies #[trigger] l2[a].0 != #[trigger] l2[b].0 by {
                    if a < l.len() && b < l.len() {
                        assert(l2[a].0 == l[a].0);
                        assert(l2[b].0 == l[b].0);
                    } else if a < l.len() {
                        assert(l2[a].0 == l[a].0);
                    } else {
                        assert(l2[b].0 == l[b].0);
                    }
                }
            }
        },
    }
}

/// Inserts a token where its id belongs in id order; returns the position.
pub fn insert_token_sorted(tokens: &mut Vec<TokenRecord>, rec: TokenRecord) -> (p: usize)
    requires
        tokens_sorted(old(tokens)@.map_values(|t: TokenRecord| t@)),
        forall|k: int| 0 <= k < old(tokens)@.len() ==> #[trigger] old(tokens)@[k]@.id != rec@.id,
    ensures
        p <= old(tokens)@.len(),
        final(tokens)@.map_values(|t: TokenRecord| t@) == old(tokens)@.map_values(|t: TokenRecord| t@).insert(p as int, rec@),
        tokens_sorted(final(tokens)@.map_values(|t: TokenRecord| t@)),
        insert_pos(old(tokens)@.map_values(|t: TokenRecord| t@), p as int, rec@.id),
{
    let ghost v = old(tokens)@.map_values(|t: TokenRecord| t@);
    let mut p: usize = 0;
    while p < tokens.len() && compare_str(&tokens[p].token_id, &rec.token_id) == KeyOrder::Less
        invariant
            p <= tokens@.len(),
            tokens@ == old(tokens)@,
            v == old(tokens)@.map_values(|t: TokenRecord| t@),
            forall|j: int| 0 <= j < p ==> str_lt(#[trigger] v[j].id, rec@.id),
        decreases tokens.len() - p,
    {
        assert(v[p as int] == tokens@[p as int]@);
        p = p + 1;
    }
    proof {
        if p < v.len() {
            assert(v[p as int].id != rec@.id);
            assert(str_lt(rec@.id, v[p as int].id));
            assert forall|j: int| p <= j < v.len() implies str_lt(rec@.id, #[trigger] v[j].id) by {
                if j > p {
                    assert(str_lt(v[p as int].id, v[j].id));
                    lemma_str_lt_transitive(rec@.id, v[p as int].id, v[j].id);
                }
            }
        }
        lemma_sorted_insert(v, p as int, rec@);
    }
    tokens.insert(p, rec);
    assert(tokens@.map_values(|t: TokenRecord| t@) =~= v.insert(p as int, rec@));
    p
}

/// What a sale hands back: the new series and token, and the payment that goes
/// from the contract to the treasury.
pub struct BuyOutcome {
    pub token_series_id: String,
    pub token_id: String,
    pub treasury_id: String,
    pub amount: u128,
}

/// The series a sale creates, at position `n`, for `creator`.
pub open spec fn new_series(n: int, metadata: TokenMetadataView, creator: Seq<char>) -> SeriesView {
    SeriesView {
        id: series_id(n),
        metadata,
        creator_id: creator,
        tokens: Seq::empty(),
        price: Some(NFT_PRICE),
        is_mintable: true,
        royalty: Seq::empty(),
    }
}

/// The contract with the series of a new sale to `creator` added.
pub open spec fn with_new_series(v: ContractView, creator: Seq<char>) -> ContractView {
    ContractView {
        series: v.series.push(new_series(v.series.len() as int, v.default_token_metadata, creator)),
        ..v
    }
}

/// Why a sale is refused, if it is.
pub open spec fn buy_refusal(v: ContractView, attached_deposit: u128) -> Option<ContractError> {
    if v.series.len() >= NFT_MAX_SUPPLY {
        Some(ContractError::MaxSupplyReached)
    } else if attached_deposit != NFT_TOTAL_PRICE {
        Some(ContractError::WrongDeposit)
    } else if v.default_token_metadata.copies == Some(0u64) {
        Some(ContractError::SeriesSupplyMaxed)
    } else {
        None
    }
}

/// Adding a new sale's series keeps the invariant.
pub proof fn lemma_new_series_wf(v: ContractView, creator: Seq<char>)
    requires
        v.wf(),
        v.series.len() < NFT_MAX_SUPPLY,
    ensures
        with_new_series(v, creator).wf(),
{
    let w = with_new_series(v, creator);
    let n = v.series.len() as int;
    assert forall|a: int| 0 <= a < w.series.len() implies #[trigger] w.series_wf(a) by {
        if a < n {
            assert(v.series_wf(a));
            assert(w.series[a] == v.series[a]);
        }
    }
    assert forall|k: int| 0 <= k < w.tokens.len() implies #[trigger] w.token_wf(k) by {
        assert(v.token_wf(k));
        assert(w.series[v.tokens[k].series_index] == v.series[v.tokens[k].series_index]);
    }
    assert forall|a: int, e: int| 0 <= a < w.series.len() && 1 <= e <= w.series[a].tokens.len()
        implies #[trigger] w.minted(a, e as nat) by {
        assert(w.series[a] == v.series[a]);
        assert(v.minted(a, e as nat));
    }
}

impl Contract {
    /// Mints the next edition of the series `token_series_id` for `receiver_id`.
    pub(crate) fn _nft_mint_series(&mut self, token_series_id: String, receiver_id: String, block_timestamp: u64)
        -> (r: Result<String, ContractError>)
        requires
            old(self).wf(),
        ensures
            final(self).wf(),
            match series_pos(old(self)@.series, token_series_id@) {
                None => r == Err::<String, ContractError>(ContractError::TokenSeriesNotFound) && final(self)@ == old(self)@,
                Some(i) => if !old(self)@.series[i].is_mintable {
                    r == Err::<String, ContractError>(ContractError::TokenSeriesNotMintable) && final(self)@ == old(self)@
                } else if !can_mint(old(self)@.series[i]) {
                    r == Err::<String, ContractError>(ContractError::SeriesSupplyMaxed) && final(self)@ == old(self)@
                } else {
                    let id = token_id(series_id(i), old(self)@.series[i].tokens.len() + 1);
                    &&& r is Ok
                    &&& r->Ok_0@ == id
                    &&& token_pos(old(self)@.tokens, id) is None
                    &&& exists|p: int| insert_pos(old(self)@.tokens, p, id)
                        && final(self)@ == mint_view(old(self)@, i, receiver_id@, block_timestamp, p)
                },
            },
    {
        proof {
            lemma_series_ids_distinct(self@);
        }
        let i = match find_series(&self.token_series, &token_series_id) {
            Some(i) => i,
            None => {
                assert(!(exists|i: int| 0 <= i < self@.series.len() && #[trigger] self@.series[i].id == token_series_id@));
                return Err(ContractError::TokenSeriesNotFound);
            },
        };
        proof {
            lemma_series_pos(self@.series, i as int);
        }
        if !self.token_series[i].is_mintable {
            return Err(ContractError::TokenSeriesNotMintable);
        }
        let num_tokens: u64 = self.token_series[i].tokens.len() as u64;
        let max_copies: u64 = match self.token_series[i].metadata.copies {
            Some(c) => c,
            None => u64::MAX,
        };
        if num_tokens >= max_copies {
            return Err(ContractError::SeriesSupplyMaxed);
        }
        let ghost v = self@;
        let ghost old_series = self.token_series@;
        assert(v.series_wf(i as int));
        assert(v.series[i as int] == old_series[i as int]@);
        assert(num_tokens == v.series[i as int].tokens.len());
        assert(max_copies == crate::market::max_copies(v.series[i as int]));
        let token_id = make_token_id(&token_series_id, num_tokens + 1);
        assert(token_id@ == crate::ids::token_id(series_id(i as int), (num_tokens + 1) as nat));
        self.token_series[i].tokens.push(token_id.clone());
        if num_tokens + 1 >= max_copies {
            self.token_series[i].is_mintable = false;
            self.token_series[i].price = None;
        }
        proof {
            let ns = self.token_series@[i as int];
            assert(strs(ns.tokens@) =~= strs(old_series[i as int].tokens@).push(token_id@));
            assert(ns@ == series_after_mint(v.series[i as int], token_id@));
            assert forall|a: int| 0 <= a < self.token_series@.len() && a != i implies self.token_series@[a] == old_series[a] by {}
            assert(self@.series =~= v.series.update(i as int, series_after_mint(v.series[i as int], token_id@)));
            assert(self@.tokens == v.tokens);
        }
        let mut metadata = TokenMetadata::empty();
        metadata.issued_at = Some(to_decimal(block_timestamp));
        let rec = TokenRecord {
            token_id: token_id.clone(),
            owner_id: receiver_id.clone(),
            metadata,
            approvals: None,
            next_approval_id: None,
            series_index: i,
            edition: num_tokens + 1,
        };
        proof {
            lemma_next_edition_fresh(v, i as int);
            assert(rec@ == new_token(i as int, (num_tokens + 1) as nat, receiver_id@, block_timestamp));
            assert forall|k: int| 0 <= k < self.tokens@.len() implies #[trigger] self.tokens@[k]@.id != rec@.id by {
                assert(v.tokens[k] == self.tokens@[k]@);
            }
        }
        let p = insert_token_sorted(&mut self.tokens, rec);
        add_token_to_owner(&mut self.tokens_per_owner, receiver_id, token_id.clone());
        proof {
            lemma_mint_wf(v, i as int, receiver_id@, block_timestamp, p as int);
            assert(self@ =~= mint_view(v, i as int, receiver_id@, block_timestamp, p as int));
        }
        Ok(token_id)
    }

    /// Refuses a sale once every collectible has been sold.
    fn asset_max_supply_limit(&self) -> (r: Result<(), ContractError>)
        ensures
            r is Ok <==> self@.series.len() < NFT_MAX_SUPPLY,
            r is Err ==> r == Err::<(), ContractError>(ContractError::MaxSupplyReached),
    {
        let current_supply = self.token_series.len() as u128;
        if current_supply < NFT_MAX_SUPPLY {
            Ok(())
        } else {
            Err(ContractError::MaxSupplyReached)
        }
    }

    /// `caller` buys a collectible by attaching its total price: a new series,
    /// named by the number of series so far plus one, with the default metadata,
    /// the caller as creator and the collectible's price, and its first edition,
    /// minted for the caller. The price goes to the treasury.
    pub fn nft_buy(&mut self, caller: &String, attached_deposit: u128, block_timestamp: u64)
        -> (r: Result<BuyOutcome, ContractError>)
        requires
            old(self).wf(),
        ensures
            final(self).wf(),
            final(self)@.series.len() == old(self)@.series.len() + if r is Ok { 1int } else { 0int },
            old(self)@.one_token_per_series() ==> final(self)@.one_token_per_series(),
            final(self)@.transaction_fee == old(self)@.transaction_fee,
            old(self)@.creators_kept(final(self)@),
            r is Err <==> buy_refusal(old(self)@, attached_deposit) is Some,
            match r {
                Err(e) => Some(e) == buy_refusal(old(self)@, attached_deposit) && final(self)@ == old(self)@,
                Ok(out) => {
                    let n = old(self)@.series.len() as int;
                    let id = token_id(series_id(n), 1);
                    &&& out.token_series_id@ == series_id(n)
                    &&& out.token_id@ == id
                    &&& final(self)@.series[n].creator_id == caller@
                    &&& token_pos(old(self)@.tokens, id) is None
                    &&& out.treasury_id@ == old(self)@.treasury_id
                    &&& out.amount == NFT_PRICE
                    &&& exists|p: int| insert_pos(old(self)@.tokens, p, id)
                        && final(self)@ == mint_view(with_new_series(old(self)@, caller@), n, caller@, block_timestamp, p)
                },
            },
    {
        self.asset_max_supply_limit()?;
        if attached_deposit != NFT_TOTAL_PRICE {
            return Err(ContractError::WrongDeposit);
        }
        let n = self.token_series.len();
        let token_series_id = make_series_id(n as u64);
        proof {
            lemma_series_ids_distinct(self@);
        }
        match find_series(&self.token_series, &token_series_id) {
            Some(j) => {
                proof {
                    assert(self@.series_wf(j as int));
                    lemma_decimal_injective((j + 1) as nat, (n + 1) as nat);
                }
                return Err(ContractError::DuplicateTokenSeries);
            },
            None => {},
        }
        let ghost v = self@;
        let token_metadata = self.default_token_metadata.copy();
        self.token_series.push(TokenSeries {
            token_series_id: token_series_id.clone(),
            metadata: token_metadata,
            creator_id: caller.clone(),
            tokens: Vec::new(),
            price: Some(NFT_PRICE),
            is_mintable: true,
            royalty: Vec::new(),
        });
        proof {
            assert(strs(Seq::<String>::empty()) =~= Seq::empty());
            assert(shares(Seq::<RoyaltyShare>::empty()) =~= Seq::empty());
            assert(self.token_series@.last()@ == new_series(n as int, v.default_token_metadata, caller@));
            assert(self@.series =~= with_new_series(v, caller@).series);
            assert(self@ == with_new_series(v, caller@));
            lemma_new_series_wf(v, caller@);
            lemma_series_ids_distinct(self@);
            lemma_series_pos(self@.series, n as int);
        }
        let ghost w = self@;
        match self._nft_mint_series(token_series_id.clone(), caller.clone(), block_timestamp) {
            Ok(token_id) => {
                Ok(BuyOutcome { token_series_id, token_id, treasury_id: self.treasury_id.clone(), amount: NFT_PRICE })
            },
            Err(e) => {
                let ghost before = self.token_series@;
                assert(self@.series == w.series);
                self.token_series.pop();
                assert(self.token_series@ =~= before.drop_last());
                assert(self@.series =~= v.series) by {
                    assert forall|a: int| 0 <= a < v.series.len() implies self@.series[a] == v.series[a] by {
                        assert(self@.series[a] == before[a]@);
                        assert(w.series[a] == before[a]@);
                    }
                }
                assert(self@ == v);
                Err(e)
            },
        }
    }
}

} // verus!
