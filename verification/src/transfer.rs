//! Moving tokens between accounts (NEP-171 core): plain transfers, transfers
//! with a call to the receiver, and the callback that may hand a token back.
use vstd::prelude::*;
use crate::account::{is_valid_account_id, valid_account_id};
use crate::error::ContractError;
use crate::metadata::opt_str;
use crate::near::{PromiseResult, approvals_refund, must_revert, must_revert_transfer, refund_for_approvals};
use crate::lemmas::{lemma_owned_ids_update, lemma_sorted_ids_distinct};
use crate::lookup::{find_approval, find_token, lemma_token_pos};
use crate::owners::{
    add_token_to_owner, lemma_lists_after_add, lemma_lists_after_remove, lemma_owners_wf_iff, list_set,
    lists_after_add, lists_after_remove, remove_token_from_owner,
};
use crate::state::{
    Approval, approvals, approvals_wf, Contract, ContractView, TokenView, key_get, lemma_key_pos, opt_approvals, owned_ids, token_pos,
    tokens_sorted,
};

verus! {

/// The contract after the token at position `k` passes to `to`: its owner
/// changes and its id moves from the old owner's list to the new owner's.
pub open spec fn move_view(v: ContractView, k: int, to: Seq<char>) -> ContractView {
    let t = v.tokens[k];
    ContractView {
        tokens: v.tokens.update(k, TokenView { owner_id: to, ..t }),
        tokens_per_owner: lists_after_add(lists_after_remove(v.tokens_per_owner, t.owner_id, t.id), to, t.id),
        ..v
    }
}

/// The contract with the approvals of the token at position `k` set to `a`.
pub open spec fn set_approvals_view(v: ContractView, k: int, a: Option<Seq<(Seq<char>, u64)>>) -> ContractView {
    ContractView { tokens: v.tokens.update(k, TokenView { approvals: a, ..v.tokens[k] }), ..v }
}

/// Whether `sender` may move the token named `token_id` to `receiver`, and if
/// so, where the token stands.
pub open spec fn transfer_check(
    v: ContractView,
    sender: Seq<char>,
    receiver: Seq<char>,
    token_id: Seq<char>,
    approval_id: Option<u64>,
) -> Result<int, ContractError> {
    match token_pos(v.tokens, token_id) {
        None => Err(ContractError::TokenNotFound),
        Some(k) => {
            let t = v.tokens[k];
            let authorized = if sender == t.owner_id {
                Ok(())
            } else {
                match t.approvals {
                    None => Err(ContractError::Unauthorized),
                    Some(a) => match key_get(a, sender) {
                        None => Err(ContractError::SenderNotApproved),
                        Some(actual) => match approval_id {
                            Some(given) => if given == actual {
                                Ok(())
                            } else {
                                Err(ContractError::ApprovalIdMismatch)
                            },
                            None => Ok(()),
                        },
                    },
                }
            };
            match authorized {
                Err(e) => Err(e),
                Ok(()) => if t.owner_id == receiver {
                    Err(ContractError::SameOwner)
                } else {
                    Ok(k)
                },
            }
        },
    }
}

/// Moving a token keeps the invariant.
pub proof fn lemma_move_wf(v: ContractView, k: int, to: Seq<char>)
    requires
        v.wf(),
        0 <= k < v.tokens.len(),
    ensures
        move_view(v, k, to).wf(),
{
    let w = move_view(v, k, to);
    let t = v.tokens[k];
    let nt = TokenView { owner_id: to, ..t };
    lemma_sorted_ids_distinct(v.tokens);
    assert forall|i: int| 0 <= i < w.series.len() implies #[trigger] w.series_wf(i) by {
        assert(v.series_wf(i));
    }
    assert(tokens_sorted(w.tokens)) by {
        assert forall|a: int, b: int| 0 <= a < b < w.tokens.len() implies crate::order::str_lt(#[trigger] w.tokens[a].id, #[trigger] w.tokens[b].id) by {
            assert(w.tokens[a].id == v.tokens[a].id);
            assert(w.tokens[b].id == v.tokens[b].id);
        }
    }
    assert forall|j: int| 0 <= j < w.tokens.len() implies #[trigger] w.token_wf(j) by {
        assert(v.token_wf(j));
    }
    assert forall|i: int, e: int| 0 <= i < w.series.len() && 1 <= e <= w.series[i].tokens.len()
        implies #[trigger] w.minted(i, e as nat) by {
        assert(v.minted(i, e as nat));
        let j = choose|j: int| 0 <= j < v.tokens.len() && #[trigger] v.tokens[j].series_index == i && v.tokens[j].edition == e;
        assert(w.tokens[j].series_index == i && w.tokens[j].edition == e);
    }
    // owners
    lemma_owners_wf_iff(v);
    let l = v.tokens_per_owner;
    let from = t.owner_id;
    assert(owned_ids(v.tokens, from).contains(t.id));
    lemma_lists_after_remove(l, from, t.id);
    let l1 = lists_after_remove(l, from, t.id);
    assert(!list_set(l1, to).contains(t.id)) by {
        if to != from && list_set(l1, to).contains(t.id) {
            assert(owned_ids(v.tokens, to).contains(t.id));
            let j = choose|j: int| 0 <= j < v.tokens.len() && #[trigger] v.tokens[j].id == t.id && v.tokens[j].owner_id == to;
        }
    }
    lemma_lists_after_add(l1, to, t.id);
    let l2 = lists_after_add(l1, to, t.id);
    assert forall|x: Seq<char>| #[trigger] list_set(l2, x) == owned_ids(w.tokens, x) by {
        lemma_owned_ids_update(v.tokens, k, nt, x);
        if x == to {
            assert(list_set(l2, x) =~= owned_ids(w.tokens, x));
        } else if x == from {
            assert(list_set(l2, x) =~= owned_ids(w.tokens, x));
        } else {
            assert(!owned_ids(v.tokens, x).contains(t.id)) by {
                if owned_ids(v.tokens, x).contains(t.id) {
                    let j = choose|j: int| 0 <= j < v.tokens.len() && #[trigger] v.tokens[j].id == t.id && v.tokens[j].owner_id == x;
                }
            }
            assert(list_set(l2, x) =~= owned_ids(w.tokens, x));
        }
    }
    lemma_owners_wf_iff(w);
}

/// Setting a token's approvals keeps the invariant when they are well formed.
pub proof fn lemma_set_approvals_wf(v: ContractView, k: int, a: Option<Seq<(Seq<char>, u64)>>)
    requires
        v.wf(),
        0 <= k < v.tokens.len(),
        crate::state::approvals_wf(a),
    ensures
        set_approvals_view(v, k, a).wf(),
{
    let w = set_approvals_view(v, k, a);
    assert forall|i: int| 0 <= i < w.series.len() implies #[trigger] w.series_wf(i) by {
        assert(v.series_wf(i));
    }
    assert(tokens_sorted(w.tokens)) by {
        assert forall|x: int, y: int| 0 <= x < y < w.tokens.len() implies crate::order::str_lt(#[trigger] w.tokens[x].id, #[trigger] w.tokens[y].id) by {
            assert(w.tokens[x].id == v.tokens[x].id);
            assert(w.tokens[y].id == v.tokens[y].id);
        }
    }
    assert forall|j: int| 0 <= j < w.tokens.len() implies #[trigger] w.token_wf(j) by {
        assert(v.token_wf(j));
    }
    assert forall|i: int, e: int| 0 <= i < w.series.len() && 1 <= e <= w.series[i].tokens.len()
        implies #[trigger] w.minted(i, e as nat) by {
        assert(v.minted(i, e as nat));
        let j = choose|j: int| 0 <= j < v.tokens.len() && #[trigger] v.tokens[j].series_index == i && v.tokens[j].edition == e;
        assert(w.tokens[j].series_index == i && w.tokens[j].edition == e);
    }
    lemma_owners_wf_iff(v);
    assert forall|x: Seq<char>| #[trigger] list_set(w.tokens_per_owner, x) == owned_ids(w.tokens, x) by {
        assert(owned_ids(w.tokens, x) =~= owned_ids(v.tokens, x)) by {
            assert forall|id: Seq<char>| owned_ids(w.tokens, x).contains(id) <==> owned_ids(v.tokens, x).contains(id) by {
                if owned_ids(w.tokens, x).contains(id) {
                    let j = choose|j: int| 0 <= j < w.tokens.len() && #[trigger] w.tokens[j].id == id && w.tokens[j].owner_id == x;
                    assert(v.tokens[j].id == id && v.tokens[j].owner_id == x);
                }
                if owned_ids(v.tokens, x).contains(id) {
                    let j = choose|j: int| 0 <= j < v.tokens.len() && #[trigger] v.tokens[j].id == id && v.tokens[j].owner_id == x;
                    assert(w.tokens[j].id == id && w.tokens[j].owner_id == x);
                }
            }
        }
    }
    lemma_owners_wf_iff(w);
}

impl Contract {
    /// Moves the token at position `k` to `to`, without any check
    /// (`internal_transfer_unguarded`).
    pub(crate) fn internal_transfer_unguarded(&mut self, k: usize, to: String)
        requires
            old(self).wf(),
            k < old(self)@.tokens.len(),
        ensures
            final(self).wf(),
            final(self)@ == move_view(old(self)@, k as int, to@),
    {
        let ghost v = self@;
        proof {
            lemma_owners_wf_iff(v);
            assert(owned_ids(v.tokens, v.tokens[k as int].owner_id).contains(v.tokens[k as int].id));
            lemma_move_wf(v, k as int, to@);
            lemma_lists_after_remove(v.tokens_per_owner, v.tokens[k as int].owner_id, v.tokens[k as int].id);
        }
        let from = self.tokens[k].owner_id.clone();
        let id = self.tokens[k].token_id.clone();
        self.tokens[k].owner_id = to.clone();
        remove_token_from_owner(&mut self.tokens_per_owner, &from, &id);
        add_token_to_owner(&mut self.tokens_per_owner, to, id);
        assert(self@.tokens =~= move_view(v, k as int, to@).tokens);
        assert(self@ == move_view(v, k as int, to@));
    }

    /// Decides whether `sender` may move the token named `token_id` to
    /// `receiver`; gives the token's position.
    pub(crate) fn check_transfer(&self, sender: &String, receiver: &String, token_id: &String, approval_id: Option<u64>)
        -> (r: Result<usize, ContractError>)
        requires
            self.wf(),
        ensures
            match r {
                Ok(k) => transfer_check(self@, sender@, receiver@, token_id@, approval_id) == Ok::<int, ContractError>(k as int),
                Err(e) => transfer_check(self@, sender@, receiver@, token_id@, approval_id) == Err::<int, ContractError>(e),
            },
    {
        proof {
            lemma_sorted_ids_distinct(self@.tokens);
        }
        let k = match find_token(&self.tokens, token_id) {
            Some(k) => k,
            None => {
                assert(!(exists|k: int| 0 <= k < self@.tokens.len() && #[trigger] self@.tokens[k].id == token_id@));
                return Err(ContractError::TokenNotFound);
            },
        };
        proof {
            lemma_token_pos(self@.tokens, k as int);
            assert(self@.token_wf(k as int));
        }
        let t = &self.tokens[k];
        if *sender != t.owner_id {
            match &t.approvals {
                None => {
                    return Err(ContractError::Unauthorized);
                },
                Some(a) => {
                    match find_approval(a, sender) {
                        None => {
                            assert(!(exists|i: int| 0 <= i < crate::state::approvals(a@).len()
                                && #[trigger] crate::state::approvals(a@)[i].0 == sender@));
                            return Err(ContractError::SenderNotApproved);
                        },
                        Some(i) => {
                            proof {
                                lemma_key_pos(crate::state::approvals(a@), i as int);
                            }
                            match approval_id {
                                Some(given) => {
                                    if given != a[i].approval_id {
                                        return Err(ContractError::ApprovalIdMismatch);
                                    }
                                },
                                None => {},
                            }
                        },
                    }
                },
            }
        }
        if t.owner_id == *receiver {
            return Err(ContractError::SameOwner);
        }
        Ok(k)
    }

    /// `sender` moves the token named `token_id` to `receiver`; the token's
    /// approvals are cleared. Gives the previous owner and the approvals.
    pub fn internal_transfer(&mut self, sender: &String, receiver: &String, token_id: &String, approval_id: Option<u64>)
        -> (r: Result<(String, Option<Vec<Approval>>), ContractError>)
        requires
            old(self).wf(),
        ensures
            final(self).wf(),
            final(self)@.series.len() == old(self)@.series.len(),
            old(self)@.one_token_per_series() ==> final(self)@.one_token_per_series(),
            final(self)@.transaction_fee == old(self)@.transaction_fee,
            old(self)@.creators_kept(final(self)@),
            match transfer_check(old(self)@, sender@, receiver@, token_id@, approval_id) {
                Err(e) => r == Err::<(String, Option<Vec<Approval>>), ContractError>(e) && final(self)@ == old(self)@,
                Ok(k) => r matches Ok((prev, approvals)) && prev@ == old(self)@.tokens[k].owner_id
                    && opt_approvals(approvals) == old(self)@.tokens[k].approvals
                    && final(self)@ == move_view(set_approvals_view(old(self)@, k, None), k, receiver@),
            },
    {
        let k = self.check_transfer(sender, receiver, token_id, approval_id)?;
        let ghost v = self@;
        let approvals = self.tokens[k].approvals.take();
        proof {
            assert(self@.tokens =~= set_approvals_view(v, k as int, None).tokens);
            lemma_set_approvals_wf(v, k as int, None);
        }
        let prev = self.tokens[k].owner_id.clone();
        self.internal_transfer_unguarded(k, receiver.clone());
        Ok((prev, approvals))
    }
}

/// Gas kept for the callback after a transfer with a call.
pub const GAS_FOR_RESOLVE_TRANSFER: u64 = 10_000_000_000_000;
/// Gas that a transfer with a call keeps for itself and its callback.
pub const GAS_FOR_NFT_TRANSFER_CALL: u64 = 30_000_000_000_000 + GAS_FOR_RESOLVE_TRANSFER;

/// A payment of NEAR from the contract to an account.
pub struct NativeTransfer {
    pub receiver_id: String,
    pub amount: u128,
}

/// The NEP-171 event of a transfer.
pub struct NftTransferEvent {
    pub old_owner_id: String,
    pub new_owner_id: String,
    pub token_ids: Vec<String>,
    pub memo: Option<String>,
    pub authorized_id: Option<String>,
}

/// What a transfer with a call hands on: the event, the approvals the token had
/// (for the callback), and the gas for the receiver's call and for the callback.
pub struct TransferCallOutcome {
    pub event: NftTransferEvent,
    pub previous_approvals: Option<Vec<Approval>>,
    pub receiver_gas: u64,
    pub resolve_gas: u64,
}

/// What the callback after a transfer with a call hands back: whether the token
/// stayed with the receiver, and the storage refunds it pays.
pub struct ResolveOutcome {
    pub transferred: bool,
    pub refunds: Vec<NativeTransfer>,
}

/// The transfer event says who had the token, who has it, which token, the memo,
/// and the sender where it is not the old owner.
pub open spec fn transfer_event_ok(
    ev: NftTransferEvent,
    sender: Seq<char>,
    old_owner: Seq<char>,
    receiver: Seq<char>,
    token_id: Seq<char>,
    memo: Option<Seq<char>>,
) -> bool {
    &&& ev.old_owner_id@ == old_owner
    &&& ev.new_owner_id@ == receiver
    &&& ev.token_ids@.len() == 1 && ev.token_ids@[0]@ == token_id
    &&& opt_str(ev.memo) == memo
    &&& opt_str(ev.authorized_id) == if sender != old_owner { Some(sender) } else { None }
}

/// Why a transfer (`nft_transfer`) is refused, if it is; else the token's position.
pub open spec fn nft_transfer_check(
    v: ContractView,
    caller: Seq<char>,
    attached_deposit: u128,
    receiver: Seq<char>,
    token_id: Seq<char>,
    approval_id: Option<u64>,
) -> Result<int, ContractError> {
    if !valid_account_id(receiver) {
        Err(ContractError::InvalidAccountId)
    } else if token_pos(v.tokens, token_id) is None {
        Err(ContractError::TokenNotFound)
    } else if attached_deposit != 1 {
        Err(ContractError::RequiresOneYocto)
    } else {
        transfer_check(v, caller, receiver, token_id, approval_id)
    }
}

/// Why a transfer with a call is refused, if it is; else the token's position.
pub open spec fn nft_transfer_call_check(
    v: ContractView,
    caller: Seq<char>,
    attached_deposit: u128,
    prepaid_gas: u64,
    receiver: Seq<char>,
    token_id: Seq<char>,
    approval_id: Option<u64>,
) -> Result<int, ContractError> {
    if !valid_account_id(receiver) {
        Err(ContractError::InvalidAccountId)
    } else if attached_deposit != 1 {
        Err(ContractError::RequiresOneYocto)
    } else {
        match transfer_check(v, caller, receiver, token_id, approval_id) {
            Err(e) => Err(e),
            Ok(k) => if prepaid_gas < GAS_FOR_NFT_TRANSFER_CALL {
                Err(ContractError::NotEnoughGas)
            } else {
                Ok(k)
            },
        }
    }
}

/// The contract after the token at position `k` is transferred to `receiver`:
/// approvals cleared, owner and owner lists updated.
pub open spec fn transfer_view(v: ContractView, k: int, receiver: Seq<char>) -> ContractView {
    move_view(set_approvals_view(v, k, None), k, receiver)
}

/// The callback after a transfer with a call, over the state it finds: whether
/// it leaves the token with the receiver, the refunds it pays as
/// (account, amount) pairs, and the state it leaves; `None` where it is refused.
pub open spec fn resolve_spec(
    v: ContractView,
    previous_owner: Seq<char>,
    receiver: Seq<char>,
    token_id: Seq<char>,
    previous_approvals: Option<Seq<(Seq<char>, u64)>>,
    promise: PromiseResult,
) -> Result<(bool, Seq<(Seq<char>, u128)>, ContractView), ContractError> {
    match must_revert(promise) {
        None => Err(ContractError::PromiseNotReady),
        Some(false) => Ok((true, Seq::empty(), v)),
        Some(true) => match token_pos(v.tokens, token_id) {
            None => match previous_approvals {
                None => Ok((true, Seq::empty(), v)),
                Some(a) => match approvals_refund(a) {
                    None => Err(ContractError::ArithmeticOverflow),
                    Some(x) => Ok((true, seq![(previous_owner, x)], v)),
                },
            },
            Some(k) => if v.tokens[k].owner_id != receiver {
                Ok((true, Seq::empty(), v))
            } else {
                let refund: Result<Seq<(Seq<char>, u128)>, ContractError> = match v.tokens[k].approvals {
                    None => Ok(Seq::empty()),
                    Some(ra) => match approvals_refund(ra) {
                        None => Err(ContractError::ArithmeticOverflow),
                        Some(x) => Ok(seq![(receiver, x)]),
                    },
                };
                match refund {
                    Err(e) => Err(e),
                    Ok(refunds) => {
                        let moved = move_view(v, k, previous_owner);
                        let w = match previous_approvals {
                            Some(pa) => set_approvals_view(moved, k, Some(pa)),
                            None => moved,
                        };
                        Ok((false, refunds, w))
                    },
                }
            },
        },
    }
}

/// The view of a list of payments, as (account, amount) pairs.
pub open spec fn payments(v: Seq<NativeTransfer>) -> Seq<(Seq<char>, u128)> {
    v.map_values(|t: NativeTransfer| (t.receiver_id@, t.amount))
}

impl Contract {
    pub(crate) fn transfer_event(caller: &String, previous_owner_id: String, receiver_id: String, token_id: String, memo: Option<String>)
        -> (ev: NftTransferEvent)
        ensures
            transfer_event_ok(ev, caller@, previous_owner_id@, receiver_id@, token_id@, opt_str(memo)),
    {
        let authorized_id = if *caller != previous_owner_id {
            Some(caller.clone())
        } else {
            None
        };
        let mut token_ids: Vec<String> = Vec::new();
        token_ids.push(token_id);
        NftTransferEvent { old_owner_id: previous_owner_id, new_owner_id: receiver_id, token_ids, memo, authorized_id }
    }

    /// `caller`, attaching one yoctoNEAR, transfers the token `token_id` to
    /// `receiver_id`: the owner, or an approved account (with its approval id,
    /// where one is given). The token's approvals are cleared.
    pub fn nft_transfer(
        &mut self,
        caller: &String,
        attached_deposit: u128,
        receiver_id: String,
        token_id: String,
        approval_id: Option<u64>,
        memo: Option<String>,
    ) -> (r: Result<NftTransferEvent, ContractError>)
        requires
            old(self).wf(),
        ensures
            final(self).wf(),
            final(self)@.series.len() == old(self)@.series.len(),
            old(self)@.one_token_per_series() ==> final(self)@.one_token_per_series(),
            final(self)@.transaction_fee == old(self)@.transaction_fee,
            old(self)@.creators_kept(final(self)@),
            match nft_transfer_check(old(self)@, caller@, attached_deposit, receiver_id@, token_id@, approval_id) {
                Err(e) => r == Err::<NftTransferEvent, ContractError>(e) && final(self)@ == old(self)@,
                Ok(k) => r matches Ok(ev) && transfer_event_ok(
                    ev, caller@, old(self)@.tokens[k].owner_id, receiver_id@, token_id@, opt_str(memo))
                    && final(self)@ == transfer_view(old(self)@, k, receiver_id@),
            },
    {
        if !is_valid_account_id(&receiver_id) {
            return Err(ContractError::InvalidAccountId);
        }
        proof {
            lemma_sorted_ids_distinct(self@.tokens);
        }
        match find_token(&self.tokens, &token_id) {
            None => {
                assert(!(exists|k: int| 0 <= k < self@.tokens.len() && #[trigger] self@.tokens[k].id == token_id@));
                return Err(ContractError::TokenNotFound);
            },
            Some(k) => {
                proof {
                    lemma_token_pos(self@.tokens, k as int);
                }
            },
        }
        if attached_deposit != 1 {
            return Err(ContractError::RequiresOneYocto);
        }
        let (previous_owner_id, _approvals) = self.internal_transfer(caller, &receiver_id, &token_id, approval_id)?;
        Ok(Self::transfer_event(caller, previous_owner_id, receiver_id, token_id, memo))
    }

    /// `caller`, attaching one yoctoNEAR, transfers the token `token_id` to
    /// `receiver_id` and asks the receiver to be told (`nft_on_transfer`), with a
    /// callback that may hand the token back.
    pub fn nft_transfer_call(
        &mut self,
        caller: &String,
        attached_deposit: u128,
        prepaid_gas: u64,
        receiver_id: String,
        token_id: String,
        approval_id: Option<u64>,
        memo: Option<String>,
    ) -> (r: Result<TransferCallOutcome, ContractError>)
        requires
            old(self).wf(),
        ensures
            final(self).wf(),
            final(self)@.series.len() == old(self)@.series.len(),
            old(self)@.one_token_per_series() ==> final(self)@.one_token_per_series(),
            final(self)@.transaction_fee == old(self)@.transaction_fee,
            old(self)@.creators_kept(final(self)@),
            match nft_transfer_call_check(old(self)@, caller@, attached_deposit, prepaid_gas, receiver_id@, token_id@, approval_id) {
                Err(e) => r == Err::<TransferCallOutcome, ContractError>(e) && final(self)@ == old(self)@,
                Ok(k) => r matches Ok(out) && transfer_event_ok(
                    out.event, caller@, old(self)@.tokens[k].owner_id, receiver_id@, token_id@, opt_str(memo))
                    && opt_approvals(out.previous_approvals) == old(self)@.tokens[k].approvals
                    && out.receiver_gas == prepaid_gas - GAS_FOR_NFT_TRANSFER_CALL
                    && out.resolve_gas == GAS_FOR_RESOLVE_TRANSFER
                    && final(self)@ == transfer_view(old(self)@, k, receiver_id@),
            },
    {
        if !is_valid_account_id(&receiver_id) {
            return Err(ContractError::InvalidAccountId);
        }
        if attached_deposit != 1 {
            return Err(ContractError::RequiresOneYocto);
        }
        let _k = self.check_transfer(caller, &receiver_id, &token_id, approval_id)?;
        if prepaid_gas < GAS_FOR_NFT_TRANSFER_CALL {
            return Err(ContractError::NotEnoughGas);
        }
        let (previous_owner_id, previous_approvals) = self.internal_transfer(caller, &receiver_id, &token_id, approval_id)?;
        let event = Self::transfer_event(caller, previous_owner_id, receiver_id, token_id, memo);
        Ok(TransferCallOutcome {
            event,
            previous_approvals,
            receiver_gas: prepaid_gas - GAS_FOR_NFT_TRANSFER_CALL,
            resolve_gas: GAS_FOR_RESOLVE_TRANSFER,
        })
    }

    /// The callback after a transfer with a call. Where the receiver's call
    /// failed or asked for it, and the receiver still owns the token, the token
    /// goes back to `previous_owner_id` with the approvals it had; approvals the
    /// receiver set are refunded to it. Returns whether the token stayed with the
    /// receiver.
    pub fn nft_resolve_transfer(
        &mut self,
        previous_owner_id: String,
        receiver_id: String,
        token_id: String,
        approved_account_ids: Option<Vec<Approval>>,
        promise_result: PromiseResult,
    ) -> (r: Result<ResolveOutcome, ContractError>)
        requires
            old(self).wf(),
            approvals_wf(opt_approvals(approved_account_ids)),
        ensures
            final(self).wf(),
            final(self)@.series.len() == old(self)@.series.len(),
            old(self)@.one_token_per_series() ==> final(self)@.one_token_per_series(),
            final(self)@.transaction_fee == old(self)@.transaction_fee,
            old(self)@.creators_kept(final(self)@),
            match resolve_spec(old(self)@, previous_owner_id@, receiver_id@, token_id@, opt_approvals(approved_account_ids), promise_result) {
                Err(e) => r == Err::<ResolveOutcome, ContractError>(e) && final(self)@ == old(self)@,
                Ok((transferred, refunds, w)) => r matches Ok(out) && out.transferred == transferred
                    && payments(out.refunds@) == refunds && final(self)@ == w,
            },
    {
        let revert = match must_revert_transfer(&promise_result) {
            Ok(b) => b,
            Err(e) => {
                return Err(e);
            },
        };
        let mut refunds: Vec<NativeTransfer> = Vec::new();
        if !revert {
            assert(payments(refunds@) =~= Seq::empty());
            return Ok(ResolveOutcome { transferred: true, refunds });
        }
        proof {
            lemma_sorted_ids_distinct(self@.tokens);
        }
        let k = match find_token(&self.tokens, &token_id) {
            None => {
                assert(!(exists|k: int| 0 <= k < self@.tokens.len() && #[trigger] self@.tokens[k].id == token_id@));
                match &approved_account_ids {
                    Some(a) => {
                        proof { lemma_storage_bound(approvals(a@), a@); }
                        let amount = refund_for_approvals(a)?;
                        refunds.push(NativeTransfer { receiver_id: previous_owner_id, amount });
                        assert(payments(refunds@) =~= seq![(previous_owner_id@, amount)]);
                    },
                    None => {
                        assert(payments(refunds@) =~= Seq::empty());
                    },
                }
                return Ok(ResolveOutcome { transferred: true, refunds });
            },
            Some(k) => k,
        };
        proof {
            lemma_token_pos(self@.tokens, k as int);
            assert(self@.token_wf(k as int));
        }
        if self.tokens[k].owner_id != receiver_id {
            assert(payments(refunds@) =~= Seq::empty());
            return Ok(ResolveOutcome { transferred: true, refunds });
        }
        match &self.tokens[k].approvals {
            Some(ra) => {
                proof { lemma_storage_bound(approvals(ra@), ra@); }
                let amount = refund_for_approvals(ra)?;
                refunds.push(NativeTransfer { receiver_id: receiver_id.clone(), amount });
                assert(payments(refunds@) =~= seq![(receiver_id@, amount)]);
            },
            None => {
                assert(payments(refunds@) =~= Seq::empty());
            },
        }
        let ghost v = self@;
        self.internal_transfer_unguarded(k, previous_owner_id);
        let ghost moved = self@;
        match approved_account_ids {
            Some(pa) => {
                proof {
                    lemma_set_approvals_wf(moved, k as int, Some(approvals(pa@)));
                }
                self.tokens[k].approvals = Some(pa);
                assert(self@.tokens =~= set_approvals_view(moved, k as int, Some(approvals(pa@))).tokens);
            },
            None => {},
        }
        Ok(ResolveOutcome { transferred: false, refunds })
    }
}

/// Well-formed approvals take at most 76 bytes each.
pub proof fn lemma_storage_bound(a: Seq<(Seq<char>, u64)>, list: Seq<Approval>)
    requires
        a == approvals(list),
        approvals_wf(Some(a)),
    ensures
        forall|i: int| 0 <= i < list.len() ==> crate::near::approval_storage(#[trigger] list[i].account_id@) <= 76,
{
    assert forall|i: int| 0 <= i < list.len() implies crate::near::approval_storage(#[trigger] list[i].account_id@) <= 76 by {
        assert(a[i].0 == list[i].account_id@);
        assert(valid_account_id(a[i].0));
    }
}

} // verus!
