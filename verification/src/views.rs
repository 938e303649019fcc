//! Read-only views of tokens and series, and replacing a series' metadata.
use vstd::prelude::*;
use crate::error::ContractError;
use crate::ids::{lemma_decimal_no_delimiter, lemma_series_part_of_token_id, series_part};
use crate::lemmas::{lemma_series_ids_distinct, lemma_sorted_ids_distinct};
use crate::account::{is_valid_account_id, valid_account_id};
use crate::lookup::{find_owner, find_series, find_token, lemma_series_pos, lemma_token_pos};
use crate::owners::{lemma_owners_wf_iff, list_set};
use crate::metadata::{TokenMetadata, TokenMetadataView, merged_metadata};
use crate::state::{
    Approval, Contract, ContractView, RoyaltyShare, SeriesView, TokenView, approvals, key_get, key_pos, lemma_key_pos,
    opt_approvals, owned_ids, series_pos, shares, token_pos,
};

verus! {

/// A token as the contract shows it (NEP-171 `Token`).
pub struct Token {
    pub token_id: String,
    pub owner_id: String,
    pub metadata: Option<TokenMetadata>,
    pub approved_account_ids: Option<Vec<Approval>>,
}

/// The mathematical value of a shown token.
pub struct TokenJsonView {
    pub token_id: Seq<char>,
    pub owner_id: Seq<char>,
    pub metadata: Option<TokenMetadataView>,
    pub approved_account_ids: Option<Seq<(Seq<char>, u64)>>,
}

impl View for Token {
    type V = TokenJsonView;

    open spec fn view(&self) -> TokenJsonView {
        TokenJsonView {
            token_id: self.token_id@,
            owner_id: self.owner_id@,
            metadata: match self.metadata {
                Some(m) => Some(m@),
                None => None,
            },
            approved_account_ids: opt_approvals(self.approved_account_ids),
        }
    }
}

/// The series a token id names: the one whose id is the part before the delimiter.
pub open spec fn series_of(v: ContractView, token_id: Seq<char>) -> int {
    series_pos(v.series, series_part(token_id))->0
}

/// How the token at position `k` is shown: its own metadata with reference,
/// media, copies and extra from its series and the series' title numbered by
/// the token's edition, and its approvals (none where it has no entry).
pub open spec fn shown_token(v: ContractView, k: int) -> TokenJsonView {
    let t = v.tokens[k];
    TokenJsonView {
        token_id: t.id,
        owner_id: t.owner_id,
        metadata: Some(merged_metadata(t.metadata, v.series[series_of(v, t.id)].metadata, t.edition)),
        approved_account_ids: match t.approvals {
            Some(a) => Some(a),
            None => Some(Seq::empty()),
        },
    }
}

/// The series named by the part of a token's id before the delimiter is the
/// series the token was minted in.
pub proof fn lemma_series_of_token(v: ContractView, k: int)
    requires
        v.wf(),
        0 <= k < v.tokens.len(),
    ensures
        series_pos(v.series, series_part(v.tokens[k].id)) == Some(v.tokens[k].series_index),
{
    assert(v.token_wf(k));
    let t = v.tokens[k];
    lemma_decimal_no_delimiter((t.series_index + 1) as nat);
    lemma_series_part_of_token_id(crate::ids::series_id(t.series_index), t.edition);
    assert(v.series_wf(t.series_index));
    lemma_series_ids_distinct(v);
    lemma_series_pos(v.series, t.series_index);
}

/// Copies a list of approvals.
pub fn copy_approvals(a: &Vec<Approval>) -> (r: Vec<Approval>)
    ensures
        approvals(r@) == approvals(a@),
{
    let mut r: Vec<Approval> = Vec::new();
    let mut i: usize = 0;
    while i < a.len()
        invariant
            i <= a@.len(),
            approvals(r@) == approvals(a@).subrange(0, i as int),
        decreases a.len() - i,
    {
        let ghost prev = r@;
        let item = Approval { account_id: a[i].account_id.clone(), approval_id: a[i].approval_id };
        assert(item@ == a@[i as int]@);
        r.push(item);
        assert(approvals(r@) =~= approvals(prev).push(item@));
        i = i + 1;
        assert(approvals(r@) =~= approvals(a@).subrange(0, i as int));
    }
    assert(approvals(a@).subrange(0, i as int) =~= approvals(a@));
    r
}

impl Contract {
    /// Shows the token at position `k`.
    pub(crate) fn token_at(&self, k: usize) -> (r: Token)
        requires
            self.wf(),
            k < self@.tokens.len(),
        ensures
            r@ == shown_token(self@, k as int),
    {
        proof {
            lemma_series_of_token(self@, k as int);
        }
        let t = &self.tokens[k];
        let series_metadata = &self.token_series[t.series_index].metadata;
        let mut metadata = t.metadata.copy();
        metadata.title = crate::metadata::edition_title_string(&series_metadata.title, t.edition, series_metadata.copies);
        metadata.reference = crate::metadata::clone_opt_str(&series_metadata.reference);
        metadata.media = crate::metadata::clone_opt_str(&series_metadata.media);
        metadata.copies = series_metadata.copies;
        metadata.extra = crate::metadata::clone_opt_str(&series_metadata.extra);
        let approved = match &t.approvals {
            Some(a) => copy_approvals(a),
            None => Vec::new(),
        };
        assert(approvals(approved@) =~= match t@.approvals {
            Some(a) => a,
            None => Seq::empty(),
        });
        Token {
            token_id: t.token_id.clone(),
            owner_id: t.owner_id.clone(),
            metadata: Some(metadata),
            approved_account_ids: Some(approved),
        }
    }

    /// The token named `token_id`, if it exists.
    pub fn nft_token(&self, token_id: String) -> (r: Option<Token>)
        requires
            self.wf(),
        ensures
            match token_pos(self@.tokens, token_id@) {
                None => r is None,
                Some(k) => r matches Some(t) && t@ == shown_token(self@, k),
            },
    {
        proof {
            lemma_sorted_ids_distinct(self@.tokens);
        }
        match find_token(&self.tokens, &token_id) {
            None => {
                assert(!(exists|k: int| 0 <= k < self@.tokens.len() && #[trigger] self@.tokens[k].id == token_id@));
                None
            },
            Some(k) => {
                proof {
                    lemma_token_pos(self@.tokens, k as int);
                }
                Some(self.token_at(k))
            },
        }
    }
}

/// A series as the contract shows it.
pub struct TokenSeriesJson {
    pub token_series_id: String,
    pub metadata: TokenMetadata,
    pub creator_id: String,
    pub royalty: Vec<RoyaltyShare>,
    pub transaction_fee: Option<u128>,
}

/// The mathematical value of a shown series.
pub struct TokenSeriesJsonView {
    pub token_series_id: Seq<char>,
    pub metadata: TokenMetadataView,
    pub creator_id: Seq<char>,
    pub royalty: Seq<(Seq<char>, u32)>,
    pub transaction_fee: Option<u128>,
}

impl View for TokenSeriesJson {
    type V = TokenSeriesJsonView;

    open spec fn view(&self) -> TokenSeriesJsonView {
        TokenSeriesJsonView {
            token_series_id: self.token_series_id@,
            metadata: self.metadata@,
            creator_id: self.creator_id@,
            royalty: shares(self.royalty@),
            transaction_fee: self.transaction_fee,
        }
    }
}

/// How a series is shown, with the given fee.
pub open spec fn shown_series(s: SeriesView, fee: Option<u128>) -> TokenSeriesJsonView {
    TokenSeriesJsonView {
        token_series_id: s.id,
        metadata: s.metadata,
        creator_id: s.creator_id,
        royalty: s.royalty,
        transaction_fee: fee,
    }
}

/// The transaction fee of the series named `id`: the one recorded for it, or else
/// the contract's current fee.
pub open spec fn series_fee(v: ContractView, id: Seq<char>) -> u128 {
    match key_get(v.market_fees, id) {
        Some(fee) => fee,
        None => v.transaction_fee.current_fee as u128,
    }
}

/// Copies royalty shares.
pub fn copy_royalty(r: &Vec<RoyaltyShare>) -> (out: Vec<RoyaltyShare>)
    ensures
        shares(out@) == shares(r@),
{
    let mut out: Vec<RoyaltyShare> = Vec::new();
    let mut i: usize = 0;
    while i < r.len()
        invariant
            i <= r@.len(),
            shares(out@) == shares(r@).subrange(0, i as int),
        decreases r.len() - i,
    {
        let ghost prev = out@;
        let item = RoyaltyShare { account_id: r[i].account_id.clone(), share: r[i].share };
        assert(item@ == r@[i as int]@);
        out.push(item);
        assert(shares(out@) =~= shares(prev).push(item@));
        i = i + 1;
        assert(shares(out@) =~= shares(r@).subrange(0, i as int));
    }
    assert(shares(r@).subrange(0, i as int) =~= shares(r@));
    out
}

/// The part of a list of `len` items that a page asks for: from `from_index`
/// (0 if not given), at most `limit` items (`limit as usize`; no limit if not
/// given). A start past the end, or a limit of 0, is refused; `limit_first`
/// says which is looked at first.
pub open spec fn page_bounds(len: nat, from_index: Option<u128>, limit: Option<u64>, limit_first: bool)
    -> Result<(int, int), ContractError> {
    let start: int = match from_index {
        Some(s) => s as int,
        None => 0,
    };
    let lim: int = match limit {
        Some(l) => (l as usize) as int,
        None => usize::MAX as int,
    };
    let end: int = if start + lim <= len { start + lim } else { len as int };
    if limit_first {
        if lim == 0 {
            Err(ContractError::ZeroLimit)
        } else if len <= start {
            Err(ContractError::OutOfBounds)
        } else {
            Ok((start, end))
        }
    } else {
        if len <= start {
            Err(ContractError::OutOfBounds)
        } else if lim == 0 {
            Err(ContractError::ZeroLimit)
        } else {
            Ok((start, end))
        }
    }
}

/// Works out the part of a list that a page asks for.
pub fn page_range(len: usize, from_index: Option<u128>, limit: Option<u64>, limit_first: bool)
    -> (r: Result<(usize, usize), ContractError>)
    ensures
        match page_bounds(len as nat, from_index, limit, limit_first) {
            Ok((a, b)) => r matches Ok((x, y)) && x == a && y == b && 0 <= a < b <= len,
            Err(e) => r == Err::<(usize, usize), ContractError>(e),
        },
{
    let start: u128 = match from_index {
        Some(s) => s,
        None => 0,
    };
    let lim: usize = match limit {
        Some(l) => l as usize,
        None => usize::MAX,
    };
    if limit_first {
        if lim == 0 {
            return Err(ContractError::ZeroLimit);
        }
        if !((len as u128) > start) {
            return Err(ContractError::OutOfBounds);
        }
    } else {
        if !((len as u128) > start) {
            return Err(ContractError::OutOfBounds);
        }
        if lim == 0 {
            return Err(ContractError::ZeroLimit);
        }
    }
    let s = start as usize;
    let end = if lim <= len - s { s + lim } else { len };
    Ok((s, end))
}

impl Contract {
    /// The series named `token_series_id`, with its transaction fee.
    pub fn nft_get_series_single(&self, token_series_id: String) -> (r: Result<TokenSeriesJson, ContractError>)
        requires
            self.wf(),
        ensures
            match series_pos(self@.series, token_series_id@) {
                None => r == Err::<TokenSeriesJson, ContractError>(ContractError::TokenSeriesNotFound),
                Some(i) => r matches Ok(j)
                    && j@ == shown_series(self@.series[i], Some(series_fee(self@, token_series_id@))),
            },
    {
        proof {
            lemma_series_ids_distinct(self@);
        }
        let i = match find_series(&self.token_series, &token_series_id) {
            None => {
                assert(!(exists|i: int| 0 <= i < self@.series.len() && #[trigger] self@.series[i].id == token_series_id@));
                return Err(ContractError::TokenSeriesNotFound);
            },
            Some(i) => i,
        };
        proof {
            lemma_series_pos(self@.series, i as int);
        }
        let fee = self.get_market_data_transaction_fee(&token_series_id);
        let s = &self.token_series[i];
        Ok(TokenSeriesJson {
            token_series_id,
            metadata: s.metadata.copy(),
            creator_id: s.creator_id.clone(),
            royalty: copy_royalty(&s.royalty),
            transaction_fee: Some(fee),
        })
    }

    /// The characters that token ids and titles are written with: the token
    /// delimiter, the title delimiter and the edition delimiter.
    pub fn nft_get_series_format(&self) -> (r: (char, &'static str, &'static str))
        ensures
            r.0 == crate::ids::delimiter(),
            r.1@ == seq![' ', '#'],
            r.2@ == seq!['/'],
    {
        proof {
            reveal_strlit(" #");
            reveal_strlit("/");
        }
        (':', " #", "/")
    }

    /// The price of the series named `token_series_id`.
    pub fn nft_get_series_price(&self, token_series_id: String) -> (r: Result<Option<u128>, ContractError>)
        requires
            self.wf(),
        ensures
            match series_pos(self@.series, token_series_id@) {
                None => r == Err::<Option<u128>, ContractError>(ContractError::TokenSeriesNotFound),
                Some(i) => r == Ok::<Option<u128>, ContractError>(self@.series[i].price),
            },
    {
        proof {
            lemma_series_ids_distinct(self@);
        }
        match find_series(&self.token_series, &token_series_id) {
            None => {
                assert(!(exists|i: int| 0 <= i < self@.series.len() && #[trigger] self@.series[i].id == token_series_id@));
                Err(ContractError::TokenSeriesNotFound)
            },
            Some(i) => {
                proof {
                    lemma_series_pos(self@.series, i as int);
                }
                Ok(self.token_series[i].price)
            },
        }
    }

    /// How many tokens the series named `token_series_id` has.
    pub fn nft_supply_for_series(&self, token_series_id: String) -> (r: Result<u64, ContractError>)
        requires
            self.wf(),
        ensures
            match series_pos(self@.series, token_series_id@) {
                None => r == Err::<u64, ContractError>(ContractError::TokenSeriesNotFound),
                Some(i) => r == Ok::<u64, ContractError>(self@.series[i].tokens.len() as u64),
            },
    {
        proof {
            lemma_series_ids_distinct(self@);
        }
        match find_series(&self.token_series, &token_series_id) {
            None => {
                assert(!(exists|i: int| 0 <= i < self@.series.len() && #[trigger] self@.series[i].id == token_series_id@));
                Err(ContractError::TokenSeriesNotFound)
            },
            Some(i) => {
                proof {
                    lemma_series_pos(self@.series, i as int);
                }
                Ok(self.token_series[i].tokens.len() as u64)
            },
        }
    }

    /// A page of the series, in the order they were created, without fees.
    pub fn nft_get_series(&self, from_index: Option<u128>, limit: Option<u64>) -> (r: Result<Vec<TokenSeriesJson>, ContractError>)
        requires
            self.wf(),
        ensures
            match page_bounds(self@.series.len(), from_index, limit, false) {
                Err(e) => r == Err::<Vec<TokenSeriesJson>, ContractError>(e),
                Ok((a, b)) => r matches Ok(out) && out@.len() == b - a
                    && forall|j: int| 0 <= j < b - a ==> (#[trigger] out@[j])@ == shown_series(self@.series[a + j], None),
            },
    {
        let (a, b) = page_range(self.token_series.len(), from_index, limit, false)?;
        let mut out: Vec<TokenSeriesJson> = Vec::new();
        let mut i = a;
        while i < b
            invariant
                a <= i <= b <= self@.series.len(),
                out@.len() == i - a,
                forall|j: int| 0 <= j < i - a ==> (#[trigger] out@[j])@ == shown_series(self@.series[a + j], None),
            decreases b - i,
        {
            let s = &self.token_series[i];
            let j = TokenSeriesJson {
                token_series_id: s.token_series_id.clone(),
                metadata: s.metadata.copy(),
                creator_id: s.creator_id.clone(),
                royalty: copy_royalty(&s.royalty),
                transaction_fee: None,
            };
            out.push(j);
            i = i + 1;
        }
        Ok(out)
    }

    /// How many tokens exist.
    pub fn nft_total_supply(&self) -> (r: u128)
        ensures
            r == self@.tokens.len(),
    {
        self.tokens.len() as u128
    }

    /// A page of the tokens, in the order of their ids.
    pub fn nft_tokens(&self, from_index: Option<u128>, limit: Option<u64>) -> (r: Result<Vec<Token>, ContractError>)
        requires
            self.wf(),
        ensures
            match page_bounds(self@.tokens.len(), from_index, limit, false) {
                Err(e) => r == Err::<Vec<Token>, ContractError>(e),
                Ok((a, b)) => r matches Ok(out) && out@.len() == b - a
                    && forall|j: int| 0 <= j < b - a ==> (#[trigger] out@[j])@ == shown_token(self@, a + j),
            },
    {
        let (a, b) = page_range(self.tokens.len(), from_index, limit, false)?;
        let mut out: Vec<Token> = Vec::new();
        let mut i = a;
        while i < b
            invariant
                self.wf(),
                a <= i <= b <= self@.tokens.len(),
                out@.len() == i - a,
                forall|j: int| 0 <= j < i - a ==> (#[trigger] out@[j])@ == shown_token(self@, a + j),
            decreases b - i,
        {
            out.push(self.token_at(i));
            i = i + 1;
        }
        Ok(out)
    }
}

/// Every token a series lists exists.
pub proof fn lemma_series_token_exists(v: ContractView, i: int, e: int)
    requires
        v.wf(),
        0 <= i < v.series.len(),
        0 <= e < v.series[i].tokens.len(),
    ensures
        token_pos(v.tokens, v.series[i].tokens[e]) is Some,
{
    assert(v.minted(i, (e + 1) as nat));
    let k = choose|k: int| 0 <= k < v.tokens.len() && #[trigger] v.tokens[k].series_index == i && v.tokens[k].edition == e + 1;
    assert(v.token_wf(k));
    assert(v.series_wf(i));
    assert(v.tokens[k].id == v.series[i].tokens[e]);
}

/// Every token an owner's list names exists.
pub proof fn lemma_owner_token_exists(v: ContractView, j: int, e: int)
    requires
        v.wf(),
        0 <= j < v.tokens_per_owner.len(),
        0 <= e < v.tokens_per_owner[j].1.len(),
    ensures
        token_pos(v.tokens, v.tokens_per_owner[j].1[e]) is Some,
{
    let (o, ids) = v.tokens_per_owner[j];
    assert(ids.to_set().contains(ids[e]));
    assert(owned_ids(v.tokens, o).contains(ids[e]));
}

/// The contract after the metadata of series `i` and of the token at `k` is replaced.
pub open spec fn set_metadata_view(v: ContractView, i: int, k: int, m: TokenMetadataView) -> ContractView {
    ContractView {
        series: v.series.update(i, SeriesView { metadata: m, ..v.series[i] }),
        tokens: v.tokens.update(k, TokenView { metadata: m, ..v.tokens[k] }),
        ..v
    }
}

/// Replacing metadata keeps the invariant.
pub proof fn lemma_set_metadata_wf(v: ContractView, i: int, k: int, m: TokenMetadataView)
    requires
        v.wf(),
        0 <= i < v.series.len(),
        0 <= k < v.tokens.len(),
    ensures
        set_metadata_view(v, i, k, m).wf(),
{
    let w = set_metadata_view(v, i, k, m);
    assert forall|a: int| 0 <= a < w.series.len() implies #[trigger] w.series_wf(a) by {
        assert(v.series_wf(a));
    }
    assert(crate::state::tokens_sorted(w.tokens)) by {
        assert forall|x: int, y: int| 0 <= x < y < w.tokens.len() implies crate::order::str_lt(#[trigger] w.tokens[x].id, #[trigger] w.tokens[y].id) by {
            assert(w.tokens[x].id == v.tokens[x].id);
            assert(w.tokens[y].id == v.tokens[y].id);
        }
    }
    assert forall|j: int| 0 <= j < w.tokens.len() implies #[trigger] w.token_wf(j) by {
        assert(v.token_wf(j));
    }
    assert forall|a: int, e: int| 0 <= a < w.series.len() && 1 <= e <= w.series[a].tokens.len()
        implies #[trigger] w.minted(a, e as nat) by {
        assert(v.minted(a, e as nat));
        let j = choose|j: int| 0 <= j < v.tokens.len() && #[trigger] v.tokens[j].series_index == a && v.tokens[j].edition == e;
        assert(w.tokens[j].series_index == a && w.tokens[j].edition == e);
    }
    lemma_owners_wf_iff(v);
    assert forall|x: Seq<char>| #[trigger] list_set(w.tokens_per_owner, x) == owned_ids(w.tokens, x) by {
        assert forall|id: Seq<char>| owned_ids(w.tokens, x).contains(id) <==> owned_ids(v.tokens, x).contains(id) by {
            if owned_ids(w.tokens, x).contains(id) {
                let j = choose|j: int| 0 <= j < w.tokens.len() && #[trigger] w.tokens[j].id == id && w.tokens[j].owner_id == x;
                assert(v.tokens[j].id == id && v.tokens[j].owner_id == x);
            }
            if owned_ids(v.tokens, x).contains(id) {
                let j = choose|j: int| 0 <= j < v.tokens.len() && #[trigger] v.tokens[j].id == id && v.tokens[j].owner_id == x;
                assert(w.tokens[j].id == id && w.tokens[j].owner_id == x);
            }
        }
        assert(owned_ids(w.tokens, x) =~= owned_ids(v.tokens, x));
    }
    lemma_owners_wf_iff(w);
}

impl Contract {
    /// Shows the token named `id`, which must exist.
    fn existing_token(&self, id: &String) -> (r: Token)
        requires
            self.wf(),
            token_pos(self@.tokens, id@) is Some,
        ensures
            r@ == shown_token(self@, token_pos(self@.tokens, id@)->0),
    {
        proof {
            lemma_sorted_ids_distinct(self@.tokens);
        }
        match find_token(&self.tokens, id) {
            Some(k) => {
                proof {
                    lemma_token_pos(self@.tokens, k as int);
                }
                self.token_at(k)
            },
            None => {
                proof {
                    let k = token_pos(self@.tokens, id@)->0;
                    assert(self@.tokens[k].id == id@);
                }
                self.token_at(0)
            },
        }
    }

    /// A page of the tokens of the series named `token_series_id`, in the order
    /// they were minted.
    pub fn nft_tokens_by_series(&self, token_series_id: String, from_index: Option<u128>, limit: Option<u64>)
        -> (r: Result<Vec<Token>, ContractError>)
        requires
            self.wf(),
        ensures
            match series_pos(self@.series, token_series_id@) {
                None => r == Err::<Vec<Token>, ContractError>(ContractError::TokenSeriesNotFound),
                Some(i) => match page_bounds(self@.series[i].tokens.len(), from_index, limit, false) {
                    Err(e) => r == Err::<Vec<Token>, ContractError>(e),
                    Ok((a, b)) => r matches Ok(out) && out@.len() == b - a
                        && forall|j: int| 0 <= j < b - a ==> (#[trigger] out@[j])@
                            == shown_token(self@, token_pos(self@.tokens, self@.series[i].tokens[a + j])->0),
                },
            },
    {
        proof {
            lemma_series_ids_distinct(self@);
        }
        let i = match find_series(&self.token_series, &token_series_id) {
            None => {
                assert(!(exists|i: int| 0 <= i < self@.series.len() && #[trigger] self@.series[i].id == token_series_id@));
                return Err(ContractError::TokenSeriesNotFound);
            },
            Some(i) => i,
        };
        proof {
            lemma_series_pos(self@.series, i as int);
        }
        let ids = &self.token_series[i].tokens;
        let (a, b) = page_range(ids.len(), from_index, limit, false)?;
        let mut out: Vec<Token> = Vec::new();
        let mut x = a;
        while x < b
            invariant
                self.wf(),
                i < self@.series.len(),
                ids == &self.token_series@[i as int].tokens,
                a <= x <= b <= self@.series[i as int].tokens.len(),
                out@.len() == x - a,
                forall|j: int| 0 <= j < x - a ==> (#[trigger] out@[j])@
                    == shown_token(self@, token_pos(self@.tokens, self@.series[i as int].tokens[a + j])->0),
            decreases b - x,
        {
            proof {
                lemma_series_token_exists(self@, i as int, x as int);
                assert(ids@[x as int]@ == self@.series[i as int].tokens[x as int]);
            }
            out.push(self.existing_token(&ids[x]));
            x = x + 1;
        }
        Ok(out)
    }

    /// How many tokens `account_id` owns, by its list.
    pub fn nft_supply_for_owner(&self, account_id: String) -> (r: Result<u128, ContractError>)
        requires
            self.wf(),
        ensures
            if !valid_account_id(account_id@) {
                r == Err::<u128, ContractError>(ContractError::InvalidAccountId)
            } else {
                r == Ok::<u128, ContractError>(self@.tokens_of(account_id@).len() as u128)
            },
    {
        if !is_valid_account_id(&account_id) {
            return Err(ContractError::InvalidAccountId);
        }
        match find_owner(&self.tokens_per_owner, &account_id) {
            Some(j) => {
                proof {
                    lemma_key_pos(self@.tokens_per_owner, j as int);
                }
                Ok(self.tokens_per_owner[j].token_ids.len() as u128)
            },
            None => {
                assert(!(exists|j: int| 0 <= j < self@.tokens_per_owner.len() && #[trigger] self@.tokens_per_owner[j].0 == account_id@));
                Ok(0)
            },
        }
    }

    /// A page of the tokens of `account_id`, in the order of its list; nothing
    /// where it has no list.
    pub fn nft_tokens_for_owner(&self, account_id: String, from_index: Option<u128>, limit: Option<u64>)
        -> (r: Result<Vec<Token>, ContractError>)
        requires
            self.wf(),
        ensures
            if !valid_account_id(account_id@) {
                r == Err::<Vec<Token>, ContractError>(ContractError::InvalidAccountId)
            } else {
                match key_pos(self@.tokens_per_owner, account_id@) {
                    None => r matches Ok(out) && out@.len() == 0,
                    Some(o) => match page_bounds(self@.tokens_per_owner[o].1.len(), from_index, limit, true) {
                        Err(e) => r == Err::<Vec<Token>, ContractError>(e),
                        Ok((a, b)) => r matches Ok(out) && out@.len() == b - a
                            && forall|j: int| 0 <= j < b - a ==> (#[trigger] out@[j])@
                                == shown_token(self@, token_pos(self@.tokens, self@.tokens_per_owner[o].1[a + j])->0),
                    },
                }
            },
    {
        if !is_valid_account_id(&account_id) {
            return Err(ContractError::InvalidAccountId);
        }
        let o = match find_owner(&self.tokens_per_owner, &account_id) {
            Some(o) => o,
            None => {
                assert(!(exists|j: int| 0 <= j < self@.tokens_per_owner.len() && #[trigger] self@.tokens_per_owner[j].0 == account_id@));
                return Ok(Vec::new());
            },
        };
        proof {
            lemma_key_pos(self@.tokens_per_owner, o as int);
        }
        let ids = &self.tokens_per_owner[o].token_ids;
        let (a, b) = page_range(ids.len(), from_index, limit, true)?;
        let mut out: Vec<Token> = Vec::new();
        let mut x = a;
        while x < b
            invariant
                self.wf(),
                o < self@.tokens_per_owner.len(),
                ids == &self.tokens_per_owner@[o as int].token_ids,
                a <= x <= b <= self@.tokens_per_owner[o as int].1.len(),
                out@.len() == x - a,
                forall|j: int| 0 <= j < x - a ==> (#[trigger] out@[j])@
                    == shown_token(self@, token_pos(self@.tokens, self@.tokens_per_owner[o as int].1[a + j])->0),
            decreases b - x,
        {
            proof {
                lemma_owner_token_exists(self@, o as int, x as int);
                assert(ids@[x as int]@ == self@.tokens_per_owner[o as int].1[x as int]);
            }
            out.push(self.existing_token(&ids[x]));
            x = x + 1;
        }
        Ok(out)
    }

    /// A token metadata admin replaces the metadata of the token `token_id` and
    /// of its series.
    pub fn nft_set_metadata(&mut self, caller: &String, token_id: String, token_metadata: TokenMetadata)
        -> (r: Result<(), ContractError>)
        requires
            old(self).wf(),
        ensures
            final(self).wf(),
            final(self)@.series.len() == old(self)@.series.len(),
            old(self)@.one_token_per_series() ==> final(self)@.one_token_per_series(),
            final(self)@.transaction_fee == old(self)@.transaction_fee,
            old(self)@.creators_kept(final(self)@),
            if !old(self)@.admins.contains(caller@) {
                r == Err::<(), ContractError>(ContractError::NotTokenMetadataAdmin) && final(self)@ == old(self)@
            } else {
                match token_pos(old(self)@.tokens, token_id@) {
                    None => r == Err::<(), ContractError>(ContractError::TokenNotFound) && final(self)@ == old(self)@,
                    Some(k) => r is Ok && final(self)@ == set_metadata_view(
                        old(self)@, series_of(old(self)@, token_id@), k, token_metadata@),
                }
            },
    {
        self.assert_token_metadata_admin(caller)?;
        proof {
            lemma_sorted_ids_distinct(self@.tokens);
        }
        let k = match find_token(&self.tokens, &token_id) {
            None => {
                assert(!(exists|k: int| 0 <= k < self@.tokens.len() && #[trigger] self@.tokens[k].id == token_id@));
                return Err(ContractError::TokenNotFound);
            },
            Some(k) => k,
        };
        proof {
            lemma_token_pos(self@.tokens, k as int);
            lemma_series_of_token(self@, k as int);
            assert(self@.token_wf(k as int));
            lemma_set_metadata_wf(self@, self@.tokens[k as int].series_index, k as int, token_metadata@);
        }
        let ghost v = self@;
        let i = self.tokens[k].series_index;
        self.token_series[i].metadata = token_metadata.copy();
        self.tokens[k].metadata = token_metadata;
        assert(self@.series =~= set_metadata_view(v, i as int, k as int, self@.tokens[k as int].metadata).series);
        assert(self@.tokens =~= set_metadata_view(v, i as int, k as int, self@.tokens[k as int].metadata).tokens);
        Ok(())
    }
}

} // verus!
