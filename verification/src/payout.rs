//! Royalty payouts (NEP-199): how the proceeds of a sale are split between the
//! series' royalty accounts and the token's owner.
use vstd::prelude::*;
use crate::account::{is_valid_account_id, valid_account_id};
use crate::error::ContractError;
use crate::lemmas::lemma_sorted_ids_distinct;
use crate::lookup::{find_token, lemma_token_pos};
use crate::state::{Contract, ContractView, RoyaltyShare, shares, token_pos};
use crate::transfer::{NftTransferEvent, transfer_check, transfer_event_ok, transfer_view};

verus! {

/// Basis points in the whole of a sale.
pub const ROYALTY_BASE: u128 = 10_000;

/// One account's part of a payout.
pub struct PayoutEntry {
    pub account_id: String,
    pub amount: u128,
}

/// A payout: who gets what of a sale.
pub struct Payout {
    pub payout: Vec<PayoutEntry>,
}

/// The view of a payout, as (account, amount) pairs.
pub open spec fn payout_view(p: Seq<PayoutEntry>) -> Seq<(Seq<char>, u128)> {
    p.map_values(|e: PayoutEntry| (e.account_id@, e.amount))
}

/// The amount a share of `a` basis points gets of `b`.
pub open spec fn share_of(a: nat, b: nat) -> nat {
    a * b / 10_000
}

/// The part of `b` that `a` basis points make (`a * b / 10_000`).
pub fn royalty_to_payout(a: u32, b: u128) -> (r: u128)
    requires
        a * b <= u128::MAX,
    ensures
        r == share_of(a as nat, b as nat),
{
    (a as u128) * b / ROYALTY_BASE
}

/// The royalty shares of accounts other than `owner`, summed.
pub open spec fn others_total(r: Seq<(Seq<char>, u32)>, owner: Seq<char>) -> nat
    decreases r.len(),
{
    if r.len() == 0 {
        0
    } else {
        others_total(r.drop_last(), owner) + if r.last().0 != owner { r.last().1 as nat } else { 0 }
    }
}

/// The payout entries of accounts other than `owner`, in royalty order.
pub open spec fn others_payout(r: Seq<(Seq<char>, u32)>, owner: Seq<char>, b: nat) -> Seq<(Seq<char>, u128)>
    decreases r.len(),
{
    if r.len() == 0 {
        Seq::empty()
    } else if r.last().0 != owner {
        others_payout(r.drop_last(), owner, b).push((r.last().0, share_of(r.last().1 as nat, b) as u128))
    } else {
        others_payout(r.drop_last(), owner, b)
    }
}

/// Every share of another account times `b` fits a `u128`, and their sum fits a `u32`.
pub open spec fn others_fit(r: Seq<(Seq<char>, u32)>, owner: Seq<char>, b: nat) -> bool {
    &&& forall|i: int| 0 <= i < r.len() && (#[trigger] r[i]).0 != owner ==> r[i].1 * b <= u128::MAX
    &&& others_total(r, owner) <= u32::MAX
}

proof fn lemma_others_total_prefix(r: Seq<(Seq<char>, u32)>, owner: Seq<char>, i: int)
    requires
        0 <= i <= r.len(),
    ensures
        others_total(r.subrange(0, i), owner) <= others_total(r, owner),
    decreases r.len() - i,
{
    if i < r.len() {
        lemma_others_total_prefix(r, owner, i + 1);
        assert(r.subrange(0, i + 1).drop_last() =~= r.subrange(0, i));
    } else {
        assert(r.subrange(0, i) =~= r);
    }
}

/// Pays the royalty accounts other than `owner`; gives their entries and the sum
/// of their shares.
pub fn pay_others(royalty: &Vec<RoyaltyShare>, owner: &String, balance: u128)
    -> (r: Result<(Vec<PayoutEntry>, u32), ContractError>)
    ensures
        match r {
            Ok((entries, total)) => others_fit(shares(royalty@), owner@, balance as nat)
                && payout_view(entries@) == others_payout(shares(royalty@), owner@, balance as nat)
                && total == others_total(shares(royalty@), owner@),
            Err(e) => !others_fit(shares(royalty@), owner@, balance as nat) && e == ContractError::ArithmeticOverflow,
        },
{
    let ghost rs = shares(royalty@);
    let mut entries: Vec<PayoutEntry> = Vec::new();
    let mut total: u32 = 0;
    let mut i: usize = 0;
    assert(rs.subrange(0, 0) =~= Seq::<(Seq<char>, u32)>::empty());
    assert(payout_view(entries@) =~= Seq::empty());
    while i < royalty.len()
        invariant
            i <= royalty@.len(),
            rs == shares(royalty@),
            payout_view(entries@) == others_payout(rs.subrange(0, i as int), owner@, balance as nat),
            total == others_total(rs.subrange(0, i as int), owner@),
            forall|j: int| 0 <= j < i && (#[trigger] rs[j]).0 != owner@ ==> rs[j].1 * balance <= u128::MAX,
        decreases royalty.len() - i,
    {
        let ghost pre = rs.subrange(0, i as int);
        let ghost post = rs.subrange(0, i + 1);
        assert(post.drop_last() =~= pre);
        assert(post.last() == rs[i as int]);
        assert(rs[i as int] == royalty@[i as int]@);
        if royalty[i].account_id != *owner {
            let share = royalty[i].share;
            let product = match (share as u128).checked_mul(balance) {
                Some(x) => x,
                None => {
                    return Err(ContractError::ArithmeticOverflow);
                },
            };
            if total > u32::MAX - share {
                proof {
                    lemma_others_total_prefix(rs, owner@, i + 1);
                }
                return Err(ContractError::ArithmeticOverflow);
            }
            let amount = royalty_to_payout(share, balance);
            entries.push(PayoutEntry { account_id: royalty[i].account_id.clone(), amount });
            total = total + share;
            assert(payout_view(entries@) =~= others_payout(post, owner@, balance as nat));
        }
        i = i + 1;
    }
    assert(rs.subrange(0, i as int) =~= rs);
    Ok((entries, total))
}

/// Why a payout for the token at position `k` is refused, if it is; else the
/// payout, as (account, amount) pairs. `capped` selects the explicit refusal of
/// shares summing over the whole (`nft_transfer_payout`) over the failing
/// subtraction (`nft_payout`).
pub open spec fn payout_spec(
    r: Seq<(Seq<char>, u32)>,
    owner: Seq<char>,
    balance: u128,
    capped: bool,
) -> Result<Seq<(Seq<char>, u128)>, ContractError> {
    if !others_fit(r, owner, balance as nat) {
        Err(ContractError::ArithmeticOverflow)
    } else if others_total(r, owner) > 10_000 {
        if capped {
            Err(ContractError::TotalPayoutOverflow)
        } else {
            Err(ContractError::ArithmeticOverflow)
        }
    } else if (10_000 - others_total(r, owner)) * balance > u128::MAX {
        Err(ContractError::ArithmeticOverflow)
    } else {
        Ok(others_payout(r, owner, balance as nat).push(
            (owner, share_of((10_000 - others_total(r, owner)) as nat, balance as nat) as u128),
        ))
    }
}

/// Computes a payout of `balance` among `royalty`, the rest going to `owner`.
pub fn compute_payout(royalty: &Vec<RoyaltyShare>, owner: &String, balance: u128, capped: bool)
    -> (r: Result<Payout, ContractError>)
    ensures
        match payout_spec(shares(royalty@), owner@, balance, capped) {
            Ok(p) => r matches Ok(out) && payout_view(out.payout@) == p,
            Err(e) => r == Err::<Payout, ContractError>(e),
        },
{
    let (mut entries, total) = pay_others(royalty, owner, balance)?;
    if total > 10_000 {
        if capped {
            return Err(ContractError::TotalPayoutOverflow);
        } else {
            return Err(ContractError::ArithmeticOverflow);
        }
    }
    let rest: u32 = 10_000 - total;
    match (rest as u128).checked_mul(balance) {
        Some(_) => {},
        None => {
            return Err(ContractError::ArithmeticOverflow);
        },
    }
    let ghost before = payout_view(entries@);
    entries.push(PayoutEntry { account_id: owner.clone(), amount: royalty_to_payout(rest, balance) });
    assert(payout_view(entries@) =~= before.push((owner@, share_of(rest as nat, balance as nat) as u128)));
    Ok(Payout { payout: entries })
}

/// The royalty of the series of the token at position `k`.
pub open spec fn token_royalty(v: ContractView, k: int) -> Seq<(Seq<char>, u32)> {
    v.series[v.tokens[k].series_index].royalty
}

/// The payout (`nft_payout`) of the token named `token_id`.
pub open spec fn nft_payout_spec(v: ContractView, token_id: Seq<char>, balance: u128, max_len_payout: u32)
    -> Result<Seq<(Seq<char>, u128)>, ContractError> {
    match token_pos(v.tokens, token_id) {
        None => Err(ContractError::TokenNotFound),
        Some(k) => if (token_royalty(v, k).len() as u32) > max_len_payout {
            Err(ContractError::TooManyPayoutReceivers)
        } else {
            payout_spec(token_royalty(v, k), v.tokens[k].owner_id, balance, false)
        },
    }
}

/// Why a transfer with payout is refused, if it is; else the token's position.
pub open spec fn transfer_payout_check(
    v: ContractView,
    caller: Seq<char>,
    attached_deposit: u128,
    receiver: Seq<char>,
    token_id: Seq<char>,
    approval_id: Option<u64>,
    balance: Option<u128>,
    max_len_payout: Option<u32>,
) -> Result<int, ContractError> {
    if !valid_account_id(receiver) {
        Err(ContractError::InvalidAccountId)
    } else if attached_deposit != 1 {
        Err(ContractError::RequiresOneYocto)
    } else {
        match transfer_check(v, caller, receiver, token_id, approval_id) {
            Err(e) => Err(e),
            Ok(k) => match balance {
                None => Ok(k),
                Some(b) => match max_len_payout {
                    None => Err(ContractError::MissingMaxLenPayout),
                    Some(m) => if (token_royalty(v, k).len() as u32) > m {
                        Err(ContractError::TooManyPayoutReceivers)
                    } else {
                        match payout_spec(token_royalty(v, k), v.tokens[k].owner_id, b, true) {
                            Err(e) => Err(e),
                            Ok(_) => Ok(k),
                        }
                    },
                },
            },
        }
    }
}

impl Contract {
    /// How a sale of `balance` for the token `token_id` is paid out: each royalty
    /// account other than the owner gets its share, the owner the rest.
    pub fn nft_payout(&self, token_id: String, balance: u128, max_len_payout: u32) -> (r: Result<Payout, ContractError>)
        requires
            self.wf(),
        ensures
            match nft_payout_spec(self@, token_id@, balance, max_len_payout) {
                Ok(p) => r matches Ok(out) && payout_view(out.payout@) == p,
                Err(e) => r == Err::<Payout, ContractError>(e),
            },
    {
        proof {
            lemma_sorted_ids_distinct(self@.tokens);
        }
        let k = match find_token(&self.tokens, &token_id) {
            None => {
                assert(!(exists|k: int| 0 <= k < self@.tokens.len() && #[trigger] self@.tokens[k].id == token_id@));
                return Err(ContractError::TokenNotFound);
            },
            Some(k) => k,
        };
        proof {
            lemma_token_pos(self@.tokens, k as int);
            assert(self@.token_wf(k as int));
        }
        let s = self.tokens[k].series_index;
        let royalty = &self.token_series[s].royalty;
        if royalty.len() as u32 > max_len_payout {
            return Err(ContractError::TooManyPayoutReceivers);
        }
        compute_payout(royalty, &self.tokens[k].owner_id, balance, false)
    }

    /// `caller`, attaching one yoctoNEAR, transfers the token `token_id` to
    /// `receiver_id` as `nft_transfer` does, and, where a `balance` is given,
    /// says how it is paid out among the royalty accounts and the previous owner.
    pub fn nft_transfer_payout(
        &mut self,
        caller: &String,
        attached_deposit: u128,
        receiver_id: String,
        token_id: String,
        approval_id: Option<u64>,
        balance: Option<u128>,
        max_len_payout: Option<u32>,
    ) -> (r: Result<(Option<Payout>, NftTransferEvent), ContractError>)
        requires
            old(self).wf(),
        ensures
            final(self).wf(),
            final(self)@.series.len() == old(self)@.series.len(),
            old(self)@.one_token_per_series() ==> final(self)@.one_token_per_series(),
            final(self)@.transaction_fee == old(self)@.transaction_fee,
            old(self)@.creators_kept(final(self)@),
            match transfer_payout_check(old(self)@, caller@, attached_deposit, receiver_id@, token_id@, approval_id, balance, max_len_payout) {
                Err(e) => r == Err::<(Option<Payout>, NftTransferEvent), ContractError>(e) && final(self)@ == old(self)@,
                Ok(k) => r matches Ok((p, ev))
                    && transfer_event_ok(ev, caller@, old(self)@.tokens[k].owner_id, receiver_id@, token_id@, None)
                    && final(self)@ == transfer_view(old(self)@, k, receiver_id@)
                    && match balance {
                        None => p is None,
                        Some(b) => p matches Some(payout) && Ok::<Seq<(Seq<char>, u128)>, ContractError>(payout_view(payout.payout@)) == payout_spec(
                            token_royalty(old(self)@, k), old(self)@.tokens[k].owner_id, b, true),
                    },
            },
    {
        if !is_valid_account_id(&receiver_id) {
            return Err(ContractError::InvalidAccountId);
        }
        if attached_deposit != 1 {
            return Err(ContractError::RequiresOneYocto);
        }
        let k = self.check_transfer(caller, &receiver_id, &token_id, approval_id)?;
        proof {
            assert(self@.token_wf(k as int));
        }
        let payout = match balance {
            None => None,
            Some(b) => {
                let max_len = match max_len_payout {
                    None => {
                        return Err(ContractError::MissingMaxLenPayout);
                    },
                    Some(m) => m,
                };
                let s = self.tokens[k].series_index;
                if self.token_series[s].royalty.len() as u32 > max_len {
                    return Err(ContractError::TooManyPayoutReceivers);
                }
                Some(compute_payout(&self.token_series[s].royalty, &self.tokens[k].owner_id, b, true)?)
            },
        };
        let (previous_owner_id, _approvals) = self.internal_transfer(caller, &receiver_id, &token_id, approval_id)?;
        let ev = Self::transfer_event(caller, previous_owner_id, receiver_id, token_id, None);
        Ok((payout, ev))
    }
}

} // verus!
