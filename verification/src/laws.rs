//! What holds of the contract across its operations.
use vstd::prelude::*;
use crate::approval::{approve_view, approvals_after_insert, is_approved, revoke_view};
use crate::contract::with_admins;
use crate::decimal::decimal;
use crate::ids::{lemma_decimal_injective, lemma_decimal_no_delimiter, lemma_token_id_injective, series_id, token_id};
use crate::lemmas::{lemma_owned_ids_update, lemma_sorted_ids_distinct};
use crate::lookup::lemma_token_pos;
use crate::market::{insert_pos, mint_view, new_token, with_new_series};
use crate::near::{PromiseResult, must_revert};
use crate::owners::{lemma_owners_wf_iff, list_set};
use crate::payout::{others_payout, others_total, payout_spec, share_of};
use crate::state::{ContractView, NFT_MAX_SUPPLY, key_get, key_pos, owned_ids, token_pos};
use crate::transfer::{nft_transfer_check, resolve_spec, transfer_check, transfer_view};
use crate::views::{lemma_series_of_token, page_bounds, series_fee, series_of, set_metadata_view, shown_token};
use crate::metadata::TokenMetadataView;

verus! {

/// Different editions, or editions of different series, have different ids.
pub proof fn law_token_ids_unique(i1: nat, e1: nat, i2: nat, e2: nat)
    ensures
        token_id(series_id(i1 as int), e1) == token_id(series_id(i2 as int), e2) ==> i1 == i2 && e1 == e2,
{
    if token_id(series_id(i1 as int), e1) == token_id(series_id(i2 as int), e2) {
        lemma_decimal_no_delimiter(i1 + 1);
        lemma_decimal_no_delimiter(i2 + 1);
        lemma_token_id_injective(series_id(i1 as int), e1, series_id(i2 as int), e2);
        lemma_decimal_injective(i1 + 1, i2 + 1);
    }
}

/// A sale adds exactly one series, named by the count of series so far plus one,
/// created by the buyer, and exactly one token, its first edition, owned by the
/// buyer and listed among the buyer's tokens; and the contract stays well formed.
pub proof fn law_buy_adds_one_series_and_one_token(v: ContractView, buyer: Seq<char>, block_timestamp: u64, p: int)
    requires
        v.wf(),
        v.series.len() < NFT_MAX_SUPPLY,
        v.default_token_metadata.copies != Some(0u64),
        insert_pos(v.tokens, p, token_id(series_id(v.series.len() as int), 1)),
    ensures
        ({
            let n = v.series.len() as int;
            let id = token_id(series_id(n), 1);
            let w = mint_view(with_new_series(v, buyer), n, buyer, block_timestamp, p);
            &&& w.wf()
            &&& w.series.len() == v.series.len() + 1
            &&& w.series[n].id == series_id(n)
            &&& w.series[n].creator_id == buyer
            &&& w.series[n].metadata == v.default_token_metadata
            &&& w.series[n].royalty.len() == 0
            &&& (v.default_token_metadata.copies == Some(1u64) ==> w.series[n].price is None && !w.series[n].is_mintable)
            &&& (v.default_token_metadata.copies != Some(1u64) ==> w.series[n].price == Some(crate::state::NFT_PRICE) && w.series[n].is_mintable)
            &&& w.tokens[p].id == id
            &&& w.tokens[p].metadata.issued_at == Some(decimal(block_timestamp as nat))
            &&& w.tokens[p].metadata.title is None && w.tokens[p].metadata.description is None
            &&& w.series[n].tokens == seq![id]
            &&& w.tokens.len() == v.tokens.len() + 1
            &&& w.owner_of(id) == Some(buyer)
            &&& w.tokens_of(buyer).contains(id)
            &&& forall|a: Seq<char>| a != buyer ==> #[trigger] owned_ids(w.tokens, a) == owned_ids(v.tokens, a)
        }),
{
    let n = v.series.len() as int;
    let id = token_id(series_id(n), 1);
    let u = with_new_series(v, buyer);
    crate::market::lemma_new_series_wf(v, buyer);
    assert(u.series[n].tokens.len() == 0);
    crate::market::lemma_mint_wf(u, n, buyer, block_timestamp, p);
    let w = mint_view(u, n, buyer, block_timestamp, p);
    assert(w.series[n].tokens =~= seq![id]);
    let t = new_token(n, 1, buyer, block_timestamp);
    assert(w.tokens[p] == t);
    lemma_sorted_ids_distinct(w.tokens);
    lemma_token_pos(w.tokens, p);
    lemma_owners_wf_iff(w);
    assert(owned_ids(w.tokens, buyer).contains(id));
    assert(list_set(w.tokens_per_owner, buyer).contains(id));
    assert forall|a: Seq<char>| a != buyer implies #[trigger] owned_ids(w.tokens, a) == owned_ids(v.tokens, a) by {
        crate::lemmas::lemma_owned_ids_insert(v.tokens, p, t, a);
    }
}

/// Every state the operations reach from a new contract has one token per
/// series (`new` and `new_default_meta` give such a state, and every operation
/// keeps it). In such a state the series are named "1" to "n" in the order they
/// were sold, with n at most 26,800; each holds exactly its first edition, which
/// exists, and no royalty; every token is the first edition of its series; and
/// the total supply is the number of series.
pub proof fn law_one_token_per_sale(v: ContractView)
    requires
        v.wf(),
        v.one_token_per_series(),
    ensures
        v.series.len() <= NFT_MAX_SUPPLY,
        v.tokens.len() == v.series.len(),
        forall|i: int| 0 <= i < v.series.len() ==> #[trigger] v.series[i].id == decimal((i + 1) as nat),
        forall|i: int| 0 <= i < v.series.len() ==> {
            &&& (#[trigger] v.series[i]).tokens == seq![token_id(series_id(i), 1)]
            &&& v.series[i].royalty.len() == 0
            &&& v.owner_of(token_id(series_id(i), 1)) is Some
        },
        forall|k: int| 0 <= k < v.tokens.len() ==> {
            &&& (#[trigger] v.tokens[k]).edition == 1
            &&& v.tokens[k].id == token_id(series_id(v.tokens[k].series_index), 1)
        },
{
    assert forall|i: int| 0 <= i < v.series.len() implies #[trigger] v.series[i].id == decimal((i + 1) as nat) by {
        assert(v.series_wf(i));
    }
    assert forall|i: int| 0 <= i < v.series.len() implies v.owner_of(token_id(series_id(i), 1)) is Some by {
        assert(v.series[i].tokens.len() == 1);
        assert(v.minted(i, 1));
        let k = choose|k: int| 0 <= k < v.tokens.len() && #[trigger] v.tokens[k].series_index == i && v.tokens[k].edition == 1;
        assert(v.token_wf(k));
        assert(v.tokens[k].id == token_id(series_id(i), 1));
    }
    assert forall|k: int| 0 <= k < v.tokens.len() implies {
        &&& (#[trigger] v.tokens[k]).edition == 1
        &&& v.tokens[k].id == token_id(series_id(v.tokens[k].series_index), 1)
    } by {
        assert(v.token_wf(k));
        assert(v.series[v.tokens[k].series_index].tokens.len() == 1);
    }
}

/// No operation records a fee for a series, and none changes the contract's
/// fee; so in every state the operations reach from a new contract (one with one
/// token per series), the transaction fee of any series, named or not, is the
/// contract's current fee, the one it was created with.
pub proof fn law_series_fee_is_current_fee(v: ContractView, token_series_id: Seq<char>)
    requires
        v.one_token_per_series(),
    ensures
        series_fee(v, token_series_id) == v.transaction_fee.current_fee as u128,
{
}

/// A token is shown with the media, reference, copies and extra of its series'
/// metadata and the rest of its own, and titled with its series' title followed
/// by " #" and its edition number, then "/" and the number of copies where the
/// series sets one (no title where the series has none). So `nft_token` shows
/// the same media, reference, copies and extra as `nft_get_series_single` shows
/// for the token's series.
pub proof fn law_token_shown_with_series_metadata(v: ContractView, k: int)
    requires
        v.wf(),
        0 <= k < v.tokens.len(),
    ensures
        ({
            let t = v.tokens[k];
            let s = v.series[t.series_index].metadata;
            let shown = shown_token(v, k).metadata;
            &&& shown is Some
            &&& shown->0.media == s.media
            &&& shown->0.reference == s.reference
            &&& shown->0.copies == s.copies
            &&& shown->0.extra == s.extra
            &&& shown->0.description == t.metadata.description
            &&& shown->0.media_hash == t.metadata.media_hash
            &&& shown->0.issued_at == t.metadata.issued_at
            &&& shown->0.expires_at == t.metadata.expires_at
            &&& shown->0.starts_at == t.metadata.starts_at
            &&& shown->0.updated_at == t.metadata.updated_at
            &&& shown->0.reference_hash == t.metadata.reference_hash
            &&& s.title is None ==> shown->0.title is None
            &&& s.title matches Some(st) ==> shown->0.title == Some(
                st + seq![' ', '#'] + decimal(t.edition) + match s.copies {
                    Some(c) => seq!['/'] + decimal(c as nat),
                    None => Seq::<char>::empty(),
                })
        }),
{
    lemma_series_of_token(v, k);
}

/// An admin's new metadata for a token replaces, whole, the metadata of the
/// token and of its series; other series keep theirs; and the token is then
/// shown with the new media, reference, copies, extra and description.
pub proof fn law_set_metadata_replaces_metadata(v: ContractView, k: int, m: TokenMetadataView)
    requires
        v.wf(),
        0 <= k < v.tokens.len(),
    ensures
        ({
            let t = v.tokens[k];
            let w = set_metadata_view(v, series_of(v, t.id), k, m);
            &&& w.wf()
            &&& w.series[t.series_index].metadata == m
            &&& w.tokens[k].metadata == m
            &&& forall|i: int| 0 <= i < v.series.len() && i != t.series_index ==> #[trigger] w.series[i] == v.series[i]
            &&& shown_token(w, k).metadata matches Some(shown)
                && shown.media == m.media && shown.reference == m.reference && shown.copies == m.copies
                && shown.extra == m.extra && shown.description == m.description
        }),
{
    let t = v.tokens[k];
    lemma_series_of_token(v, k);
    assert(v.token_wf(k));
    crate::views::lemma_set_metadata_wf(v, t.series_index, k, m);
    let w = set_metadata_view(v, t.series_index, k, m);
    law_token_shown_with_series_metadata(w, k);
}

/// Who may move a token: its owner, or an account approved for it, which may
/// give the id of its approval (then it must be the current one) or give none.
/// Moving it to its owner is refused. Nothing else decides.
pub proof fn law_transfer_allowed_iff(
    v: ContractView,
    k: int,
    sender: Seq<char>,
    receiver: Seq<char>,
    approval_id: Option<u64>,
)
    requires
        v.wf(),
        0 <= k < v.tokens.len(),
    ensures
        ({
            let t = v.tokens[k];
            &&& transfer_check(v, sender, receiver, t.id, approval_id) is Ok
                <==> (sender == t.owner_id || is_approved(v, k, sender, approval_id)) && receiver != t.owner_id
            &&& transfer_check(v, sender, receiver, t.id, approval_id) is Ok
                ==> transfer_check(v, sender, receiver, t.id, approval_id) == Ok::<int, crate::error::ContractError>(k)
            &&& is_approved(v, k, sender, None) && receiver != t.owner_id
                ==> transfer_check(v, sender, receiver, t.id, None) == Ok::<int, crate::error::ContractError>(k)
        }),
{
    lemma_sorted_ids_distinct(v.tokens);
    lemma_token_pos(v.tokens, k);
}

/// `nft_transfer` with a valid receiver other than the owner and one yoctoNEAR
/// attached succeeds exactly when the sender is the owner or is approved for the
/// token (with the current approval id, where it gives one).
pub proof fn law_nft_transfer_succeeds_iff(
    v: ContractView,
    k: int,
    sender: Seq<char>,
    receiver: Seq<char>,
    approval_id: Option<u64>,
)
    requires
        v.wf(),
        0 <= k < v.tokens.len(),
        crate::account::valid_account_id(receiver),
        receiver != v.tokens[k].owner_id,
    ensures
        nft_transfer_check(v, sender, 1, receiver, v.tokens[k].id, approval_id) is Ok
            <==> sender == v.tokens[k].owner_id || is_approved(v, k, sender, approval_id),
        nft_transfer_check(v, sender, 1, receiver, v.tokens[k].id, approval_id) is Ok
            ==> nft_transfer_check(v, sender, 1, receiver, v.tokens[k].id, approval_id) == Ok::<int, crate::error::ContractError>(k),
{
    lemma_sorted_ids_distinct(v.tokens);
    lemma_token_pos(v.tokens, k);
    law_transfer_allowed_iff(v, k, sender, receiver, approval_id);
}

/// A page that starts inside the list and asks for at least one item is given,
/// never refused: it starts where asked (at 0 where no start is given) and holds
/// as many items as asked for, or all that are left where fewer are.
pub proof fn law_page_within_list(len: nat, from_index: Option<u128>, limit: Option<u64>, limit_first: bool)
    requires
        (match from_index {
            Some(s) => s < len,
            None => 0 < len,
        }),
        (match limit {
            Some(l) => 0 < l <= usize::MAX,
            None => true,
        }),
    ensures
        ({
            let s: int = match from_index {
                Some(s) => s as int,
                None => 0,
            };
            let wanted: int = match limit {
                Some(l) => l as int,
                None => usize::MAX as int,
            };
            page_bounds(len, from_index, limit, limit_first) == Ok::<(int, int), crate::error::ContractError>(
                (s, if s + wanted <= len { s + wanted } else { len as int }))
        }),
{
}

/// A page is refused exactly when it starts at or past the end of the list or
/// asks for no items; where both hold, `limit_first` says which refusal comes.
pub proof fn law_page_refused_iff(len: nat, from_index: Option<u128>, limit: Option<u64>, limit_first: bool)
    requires
        (match limit {
            Some(l) => l <= usize::MAX,
            None => true,
        }),
    ensures
        ({
            let past_end: bool = match from_index {
                Some(s) => len <= s,
                None => len == 0,
            };
            let no_items: bool = limit == Some(0u64);
            &&& page_bounds(len, from_index, limit, limit_first) is Err <==> past_end || no_items
            &&& no_items && (limit_first || !past_end) ==> page_bounds(len, from_index, limit, limit_first)
                == Err::<(int, int), crate::error::ContractError>(crate::error::ContractError::ZeroLimit)
            &&& past_end && (!limit_first || !no_items) ==> page_bounds(len, from_index, limit, limit_first)
                == Err::<(int, int), crate::error::ContractError>(crate::error::ContractError::OutOfBounds)
        }),
{
}

/// Every token is listed among its owner's tokens and among nobody else's.
pub proof fn law_token_listed_for_its_owner_only(v: ContractView, k: int, a: Seq<char>)
    requires
        v.wf(),
        0 <= k < v.tokens.len(),
    ensures
        v.tokens_of(v.tokens[k].owner_id).contains(v.tokens[k].id),
        a != v.tokens[k].owner_id ==> !v.tokens_of(a).contains(v.tokens[k].id),
{
    lemma_owners_wf_iff(v);
    lemma_sorted_ids_distinct(v.tokens);
    let t = v.tokens[k];
    assert(owned_ids(v.tokens, t.owner_id).contains(t.id));
    assert(list_set(v.tokens_per_owner, t.owner_id).contains(t.id));
    if a != t.owner_id && v.tokens_of(a).contains(t.id) {
        assert(list_set(v.tokens_per_owner, a).contains(t.id));
        let j = choose|j: int| 0 <= j < v.tokens.len() && #[trigger] v.tokens[j].id == t.id && v.tokens[j].owner_id == a;
    }
}

/// The tokens listed for an account are exactly those it owns, each once, so
/// their number is the number it owns.
pub proof fn law_supply_for_owner_counts_owned(v: ContractView, a: Seq<char>)
    requires
        v.wf(),
    ensures
        owned_ids(v.tokens, a).finite(),
        v.tokens_of(a).len() == owned_ids(v.tokens, a).len(),
        v.tokens_of(a).no_duplicates(),
        v.tokens_of(a).to_set() == owned_ids(v.tokens, a),
{
    lemma_owners_wf_iff(v);
    assert(list_set(v.tokens_per_owner, a) == owned_ids(v.tokens, a));
    match key_pos(v.tokens_per_owner, a) {
        Some(j) => {
            let ids = v.tokens_per_owner[j].1;
            assert(ids.no_duplicates());
            ids.unique_seq_to_set();
        },
        None => {},
    }
}

/// A transfer gives the token to the receiver and takes it from its owner: only
/// those two accounts' holdings change, the token's approvals are cleared, and
/// no token or series appears or goes.
pub proof fn law_transfer_moves_token(v: ContractView, k: int, receiver: Seq<char>)
    requires
        v.wf(),
        0 <= k < v.tokens.len(),
        receiver != v.tokens[k].owner_id,
    ensures
        ({
            let t = v.tokens[k];
            let w = transfer_view(v, k, receiver);
            &&& w.wf()
            &&& w.owner_of(t.id) == Some(receiver)
            &&& w.tokens[k].approvals is None
            &&& owned_ids(w.tokens, receiver) == owned_ids(v.tokens, receiver).insert(t.id)
            &&& owned_ids(w.tokens, t.owner_id) == owned_ids(v.tokens, t.owner_id).remove(t.id)
            &&& forall|a: Seq<char>| a != receiver && a != t.owner_id ==> #[trigger] owned_ids(w.tokens, a) == owned_ids(v.tokens, a)
            &&& w.tokens.len() == v.tokens.len()
            &&& w.series == v.series
        }),
{
    let t = v.tokens[k];
    let v1 = crate::transfer::set_approvals_view(v, k, None);
    crate::transfer::lemma_set_approvals_wf(v, k, None);
    crate::transfer::lemma_move_wf(v1, k, receiver);
    let w = transfer_view(v, k, receiver);
    lemma_sorted_ids_distinct(v.tokens);
    lemma_sorted_ids_distinct(w.tokens);
    lemma_token_pos(w.tokens, k);
    let nt = w.tokens[k];
    assert forall|a: Seq<char>| #[trigger] owned_ids(w.tokens, a) == if a == receiver {
        owned_ids(v.tokens, a).insert(t.id)
    } else {
        owned_ids(v.tokens, a).remove(t.id)
    } by {
        assert(v1.tokens == v.tokens.update(k, crate::state::TokenView { approvals: None, ..t }));
        assert(w.tokens =~= v.tokens.update(k, nt));
        lemma_owned_ids_update(v.tokens, k, nt, a);
    }
    assert forall|a: Seq<char>| a != receiver && a != t.owner_id implies #[trigger] owned_ids(w.tokens, a) == owned_ids(v.tokens, a) by {
        assert(!owned_ids(v.tokens, a).contains(t.id)) by {
            if owned_ids(v.tokens, a).contains(t.id) {
                let j = choose|j: int| 0 <= j < v.tokens.len() && #[trigger] v.tokens[j].id == t.id && v.tokens[j].owner_id == a;
            }
        }
        assert(owned_ids(v.tokens, a).remove(t.id) =~= owned_ids(v.tokens, a));
    }
}

/// When the receiver of a transfer with a call asks for the token back (or its
/// call fails), the callback puts every token back as it was: the previous owner
/// owns it again with the approvals it had, and nothing is refunded.
pub proof fn law_refused_transfer_call_is_undone(v: ContractView, k: int, receiver: Seq<char>, promise: PromiseResult)
    requires
        v.wf(),
        0 <= k < v.tokens.len(),
        receiver != v.tokens[k].owner_id,
        must_revert(promise) == Some(true),
    ensures
        ({
            let t = v.tokens[k];
            let w = transfer_view(v, k, receiver);
            resolve_spec(w, t.owner_id, receiver, t.id, t.approvals, promise) matches Ok((transferred, refunds, w2))
                && !transferred && refunds.len() == 0 && w2.tokens == v.tokens && w2.series == v.series
                && w2.wf()
                && forall|a: Seq<char>| #[trigger] owned_ids(w2.tokens, a) == owned_ids(v.tokens, a)
        }),
{
    let t = v.tokens[k];
    law_transfer_moves_token(v, k, receiver);
    let w = transfer_view(v, k, receiver);
    lemma_sorted_ids_distinct(w.tokens);
    lemma_token_pos(w.tokens, k);
    assert(token_pos(w.tokens, t.id) == Some(k));
    crate::transfer::lemma_move_wf(w, k, t.owner_id);
    let moved = crate::transfer::move_view(w, k, t.owner_id);
    let w2 = match t.approvals {
        Some(pa) => crate::transfer::set_approvals_view(moved, k, Some(pa)),
        None => moved,
    };
    assert(v.token_wf(k));
    match t.approvals {
        Some(pa) => {
            crate::transfer::lemma_set_approvals_wf(moved, k, Some(pa));
        },
        None => {},
    }
    assert(w2.tokens =~= v.tokens);
}

/// After an owner approves `account` with approval id `id`, `account` is approved
/// for the token, with that id.
pub proof fn law_approve_then_approved(v: ContractView, k: int, account: Seq<char>, id: u64)
    requires
        v.wf(),
        0 <= k < v.tokens.len(),
        id < u64::MAX,
    ensures
        is_approved(approve_view(v, k, account, id), k, account, Some(id)),
        is_approved(approve_view(v, k, account, id), k, account, None),
{
    assert(v.token_wf(k));
    let a = match v.tokens[k].approvals {
        Some(a) => a,
        None => Seq::empty(),
    };
    let b = approvals_after_insert(a, account, id);
    match key_pos(a, account) {
        Some(j) => {
            assert(b[j].0 == account);
            assert forall|x: int, y: int| 0 <= x < b.len() && 0 <= y < b.len() && x != y implies #[trigger] b[x].0 != #[trigger] b[y].0 by {
                assert(b[x].0 == a[x].0);
                assert(b[y].0 == a[y].0);
            }
            crate::state::lemma_key_pos(b, j);
        },
        None => {
            let j = a.len() as int;
            assert(b[j].0 == account);
            assert forall|x: int, y: int| 0 <= x < b.len() && 0 <= y < b.len() && x != y implies #[trigger] b[x].0 != #[trigger] b[y].0 by {
                if x < a.len() {
                    assert(b[x].0 == a[x].0);
                }
                if y < a.len() {
                    assert(b[y].0 == a[y].0);
                }
            }
            crate::state::lemma_key_pos(b, j);
        },
    }
    assert(key_get(b, account) == Some(id));
}

/// The sum of the amounts of a payout.
pub open spec fn payout_sum(p: Seq<(Seq<char>, u128)>) -> nat
    decreases p.len(),
{
    if p.len() == 0 {
        0
    } else {
        payout_sum(p.drop_last()) + p.last().1 as nat
    }
}

proof fn lemma_floor_share(a: nat, b: nat)
    ensures
        share_of(a, b) * 10_000 <= a * b,
{
    assert((a * b / 10_000) * 10_000 <= a * b) by (nonlinear_arith);
}

proof fn lemma_others_within(r: Seq<(Seq<char>, u32)>, owner: Seq<char>, b: nat)
    requires
        forall|i: int| 0 <= i < r.len() && (#[trigger] r[i]).0 != owner ==> r[i].1 * b <= u128::MAX,
    ensures
        payout_sum(others_payout(r, owner, b)) * 10_000 <= others_total(r, owner) * b,
    decreases r.len(),
{
    if r.len() > 0 {
        let rest = r.drop_last();
        assert forall|i: int| 0 <= i < rest.len() && (#[trigger] rest[i]).0 != owner implies rest[i].1 * b <= u128::MAX by {
            assert(rest[i] == r[i]);
        }
        lemma_others_within(rest, owner, b);
        let e = r.last();
        let s0 = payout_sum(others_payout(rest, owner, b));
        let t0 = others_total(rest, owner);
        if e.0 != owner {
            assert(r[r.len() - 1] == e);
            lemma_floor_share(e.1 as nat, b);
            let x = share_of(e.1 as nat, b);
            assert(x <= u128::MAX) by {
                assert(x * 10_000 <= e.1 * b);
            }
            let q = others_payout(r, owner, b);
            assert(q == others_payout(rest, owner, b).push((e.0, x as u128)));
            assert(q.drop_last() =~= others_payout(rest, owner, b));
            assert(payout_sum(q) == s0 + x);
            assert((s0 + x) * 10_000 == s0 * 10_000 + x * 10_000) by (nonlinear_arith);
            assert((t0 + e.1) * b == t0 * b + e.1 * b) by (nonlinear_arith);
        } else {
            assert(others_payout(r, owner, b) == others_payout(rest, owner, b));
        }
    }
}

/// A payout never hands out more than the balance it splits.
pub proof fn law_payout_within_balance(r: Seq<(Seq<char>, u32)>, owner: Seq<char>, balance: u128, capped: bool)
    requires
        payout_spec(r, owner, balance, capped) is Ok,
    ensures
        payout_sum(payout_spec(r, owner, balance, capped)->Ok_0) <= balance,
{
    let b = balance as nat;
    let t = others_total(r, owner);
    lemma_others_within(r, owner, b);
    let s0 = payout_sum(others_payout(r, owner, b));
    let rest = (10_000 - t) as nat;
    lemma_floor_share(rest, b);
    let x = share_of(rest, b);
    assert(x <= u128::MAX) by {
        assert(x * 10_000 <= rest * b);
    }
    let p = others_payout(r, owner, b).push((owner, x as u128));
    assert(p.drop_last() == others_payout(r, owner, b));
    assert(payout_sum(p) == s0 + x);
    assert((s0 + x) * 10_000 <= t * b + rest * b);
    assert(t * b + rest * b == 10_000 * b) by (nonlinear_arith)
        requires
            rest == 10_000 - t,
    ;
    assert(s0 + x <= b) by (nonlinear_arith)
        requires
            (s0 + x) * 10_000 <= 10_000 * b,
    ;
}

/// With no royalty, which is how every sale creates a series, the owner gets
/// the whole balance.
pub proof fn law_payout_without_royalty(owner: Seq<char>, balance: u128, capped: bool)
    requires
        10_000 * balance <= u128::MAX,
    ensures
        payout_spec(Seq::empty(), owner, balance, capped) == Ok::<Seq<(Seq<char>, u128)>, crate::error::ContractError>(
            seq![(owner, balance)],
        ),
{
    let r = Seq::<(Seq<char>, u32)>::empty();
    assert(others_total(r, owner) == 0);
    assert(share_of(10_000, balance as nat) == balance) by (nonlinear_arith);
    assert(others_payout(r, owner, balance as nat).push((owner, balance)) =~= seq![(owner, balance)]);
}

/// Withdrawing an approval that was just given to an account that had none
/// puts the token's approvals back as they were.
pub proof fn law_revoke_undoes_new_approval(v: ContractView, k: int, account: Seq<char>, id: u64)
    requires
        v.wf(),
        0 <= k < v.tokens.len(),
        id < u64::MAX,
        match v.tokens[k].approvals {
            Some(a) => a.len() > 0 && key_pos(a, account) is None,
            None => true,
        },
    ensures
        ({
            let w = approve_view(v, k, account, id);
            &&& w.tokens[k].approvals is Some
            &&& key_pos(w.tokens[k].approvals->0, account) == Some(w.tokens[k].approvals->0.len() - 1)
            &&& revoke_view(w, k, w.tokens[k].approvals->0.len() - 1).tokens[k].approvals == v.tokens[k].approvals
        }),
{
    assert(v.token_wf(k));
    let a = match v.tokens[k].approvals {
        Some(a) => a,
        None => Seq::empty(),
    };
    let b = approvals_after_insert(a, account, id);
    assert(b == a.push((account, id)));
    let j = a.len() as int;
    assert forall|x: int, y: int| 0 <= x < b.len() && 0 <= y < b.len() && x != y implies #[trigger] b[x].0 != #[trigger] b[y].0 by {
        if x < a.len() {
            assert(b[x].0 == a[x].0);
        }
        if y < a.len() {
            assert(b[y].0 == a[y].0);
        }
        if x < a.len() && y == j {
            assert(a[x].0 != account);
        }
        if y < a.len() && x == j {
            assert(a[y].0 != account);
        }
    }
    crate::state::lemma_key_pos(b, j);
    assert(b.remove(j) =~= a);
    let w = approve_view(v, k, account, id);
    let r = revoke_view(w, k, j);
    assert(w.tokens[k].approvals == Some(b));
    assert(r.tokens[k].approvals == v.tokens[k].approvals) by {
        match v.tokens[k].approvals {
            Some(a0) => {
                assert(a0 == a);
            },
            None => {
                assert(a.len() == 0);
            },
        }
    }
}

/// Taking off an admin that was just added gives back the admins there were:
/// wherever the account stands in the list after the addition, removing it
/// there restores the state before.
pub proof fn law_remove_undoes_add_admin(v: ContractView, account: Seq<char>)
    requires
        !v.admins.contains(account),
    ensures
        ({
            let w = with_admins(v, v.admins.push(account));
            &&& w.admins[w.admins.len() - 1] == account
            &&& forall|j: int| 0 <= j < w.admins.len() && w.admins[j] == account
                ==> #[trigger] with_admins(w, w.admins.remove(j)) == v
        }),
{
    let w = with_admins(v, v.admins.push(account));
    assert forall|j: int| 0 <= j < w.admins.len() && w.admins[j] == account
        implies #[trigger] with_admins(w, w.admins.remove(j)) == v by {
        if j < v.admins.len() {
            assert(v.admins[j] == account);
        }
        assert(w.admins.remove(j) =~= v.admins);
    }
}

/// Every operation keeps each series with the creator it had (each states
/// `creators_kept` between the state before and after it), and a sale gives its
/// new series the buyer as creator. Since keeping creators carries over from
/// call to call, a series' creator stays, across any sequence of calls, the
/// buyer that created it.
pub proof fn law_creators_kept_across_calls(a: ContractView, b: ContractView, c: ContractView)
    requires
        a.creators_kept(b),
        b.creators_kept(c),
    ensures
        a.creators_kept(c),
{
    assert forall|i: int| 0 <= i < a.series.len() implies #[trigger] c.series[i].creator_id == a.series[i].creator_id by {
        assert(b.series[i].creator_id == a.series[i].creator_id);
    }
}

} // verus!
