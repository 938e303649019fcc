//! Approval management (NEP-178): owners let other accounts transfer their tokens.
use vstd::prelude::*;
use crate::account::{is_valid_account_id, valid_account_id};
use crate::error::ContractError;
use crate::lemmas::lemma_sorted_ids_distinct;
use crate::lookup::{find_approval, find_token, lemma_token_pos};
use crate::near::{approval_storage, approvals_refund, refund_for_approvals, storage_price_per_byte};
use crate::state::{
    Approval, Contract, ContractView, approvals, approvals_wf, key_get, key_pos, lemma_key_pos,
    token_pos, TokenView,
};
use crate::transfer::{NativeTransfer, lemma_set_approvals_wf, lemma_storage_bound, set_approvals_view};

verus! {

/// Gas that an approval with a message keeps for itself.
pub const GAS_FOR_NFT_APPROVE: u64 = 10_000_000_000_000;

/// What an approval hands back: the approval's id, the refund of the deposit
/// left after paying for storage (when more than one yoctoNEAR), and, where a
/// message was given, the gas for telling the approved account.
pub struct ApproveOutcome {
    pub approval_id: u64,
    pub refund: Option<NativeTransfer>,
    pub on_approve_gas: Option<u64>,
}

/// Approvals after `account` gets approval id `id`: its entry is replaced, or added.
pub open spec fn approvals_after_insert(a: Seq<(Seq<char>, u64)>, account: Seq<char>, id: u64) -> Seq<(Seq<char>, u64)> {
    match key_pos(a, account) {
        Some(j) => a.update(j, (account, id)),
        None => a.push((account, id)),
    }
}

/// The contract after the token at `k` approves `account` with id `id` and its
/// next approval id becomes `id + 1`.
pub open spec fn approve_view(v: ContractView, k: int, account: Seq<char>, id: u64) -> ContractView {
    let t = v.tokens[k];
    let a = match t.approvals {
        Some(a) => a,
        None => Seq::empty(),
    };
    ContractView {
        tokens: v.tokens.update(k, TokenView {
            approvals: Some(approvals_after_insert(a, account, id)),
            next_approval_id: Some((id + 1) as u64),
            ..t
        }),
        ..v
    }
}

/// The approval id the token at `k` gives next.
pub open spec fn next_approval_id(v: ContractView, k: int) -> u64 {
    match v.tokens[k].next_approval_id {
        Some(n) => n,
        None => 1,
    }
}

/// The storage a new approval of `account` on the token at `k` takes: none
/// where it replaces one.
pub open spec fn approve_storage(v: ContractView, k: int, account: Seq<char>) -> nat {
    let known = match v.tokens[k].approvals {
        Some(a) => key_pos(a, account) is Some,
        None => false,
    };
    if known { 0 } else { approval_storage(account) }
}

/// Why an approval is refused, if it is; else the token's position.
pub open spec fn approve_check(
    v: ContractView,
    caller: Seq<char>,
    attached_deposit: u128,
    prepaid_gas: u64,
    token_id: Seq<char>,
    account: Seq<char>,
    with_msg: bool,
) -> Result<int, ContractError> {
    if !valid_account_id(account) {
        Err(ContractError::InvalidAccountId)
    } else if attached_deposit < 1 {
        Err(ContractError::RequiresAtLeastOneYocto)
    } else {
        match token_pos(v.tokens, token_id) {
            None => Err(ContractError::TokenNotFound),
            Some(k) => if caller != v.tokens[k].owner_id {
                Err(ContractError::NotTokenOwner)
            } else if next_approval_id(v, k) == u64::MAX {
                Err(ContractError::ArithmeticOverflow)
            } else if approve_storage(v, k, account) * storage_price_per_byte() > attached_deposit {
                Err(ContractError::NotEnoughStorageDeposit)
            } else if with_msg && prepaid_gas < GAS_FOR_NFT_APPROVE {
                Err(ContractError::NotEnoughGas)
            } else {
                Ok(k)
            },
        }
    }
}

/// Whether `account` is approved for the token at `k` (with `approval_id`, where given).
pub open spec fn is_approved(v: ContractView, k: int, account: Seq<char>, approval_id: Option<u64>) -> bool {
    match v.tokens[k].approvals {
        None => false,
        Some(a) => match key_get(a, account) {
            None => false,
            Some(actual) => match approval_id {
                Some(given) => given == actual,
                None => true,
            },
        },
    }
}

/// Approving keeps the invariant.
pub proof fn lemma_approve_wf(v: ContractView, k: int, account: Seq<char>, id: u64)
    requires
        v.wf(),
        0 <= k < v.tokens.len(),
        valid_account_id(account),
        id < u64::MAX,
    ensures
        approve_view(v, k, account, id).wf(),
{
    let a = match v.tokens[k].approvals {
        Some(a) => a,
        None => Seq::empty(),
    };
    assert(v.token_wf(k));
    let b = approvals_after_insert(a, account, id);
    assert(approvals_wf(Some(b))) by {
        match key_pos(a, account) {
            Some(j) => {
                assert forall|x: int, y: int| 0 <= x < b.len() && 0 <= y < b.len() && x != y implies #[trigger] b[x].0 != #[trigger] b[y].0 by {
                    assert(b[x].0 == a[x].0);
                    assert(b[y].0 == a[y].0);
                }
                assert forall|x: int| 0 <= x < b.len() implies valid_account_id(#[trigger] b[x].0) by {
                    assert(b[x].0 == a[x].0);
                }
            },
            None => {
                assert forall|x: int, y: int| 0 <= x < b.len() && 0 <= y < b.len() && x != y implies #[trigger] b[x].0 != #[trigger] b[y].0 by {
                    if x < a.len() {
                        assert(b[x].0 == a[x].0);
                    }
                    if y < a.len() {
                        assert(b[y].0 == a[y].0);
                    }
                }
                assert forall|x: int| 0 <= x < b.len() implies valid_account_id(#[trigger] b[x].0) by {
                    if x < a.len() {
                        assert(b[x].0 == a[x].0);
                    }
                }
            },
        }
    }
    let w1 = set_approvals_view(v, k, Some(b));
    lemma_set_approvals_wf(v, k, Some(b));
    let w = approve_view(v, k, account, id);
    assert(w.tokens == w1.tokens.update(k, TokenView { next_approval_id: Some((id + 1) as u64), ..w1.tokens[k] }));
    lemma_next_id_wf(w1, k, Some((id + 1) as u64));
}

/// Changing a token's next approval id keeps the invariant.
pub proof fn lemma_next_id_wf(v: ContractView, k: int, n: Option<u64>)
    requires
        v.wf(),
        0 <= k < v.tokens.len(),
    ensures
        (ContractView { tokens: v.tokens.update(k, TokenView { next_approval_id: n, ..v.tokens[k] }), ..v }).wf(),
{
    let w = ContractView { tokens: v.tokens.update(k, TokenView { next_approval_id: n, ..v.tokens[k] }), ..v };
    assert forall|a: int| 0 <= a < w.series.len() implies #[trigger] w.series_wf(a) by {
        assert(v.series_wf(a));
    }
    assert(crate::state::tokens_sorted(w.tokens)) by {
        assert forall|x: int, y: int| 0 <= x < y < w.tokens.len() implies crate::order::str_lt(#[trigger] w.tokens[x].id, #[trigger] w.tokens[y].id) by {
            assert(w.tokens[x].id == v.tokens[x].id);
            assert(w.tokens[y].id == v.tokens[y].id);
        }
    }
    assert forall|j: int| 0 <= j < w.tokens.len() implies #[trigger] w.token_wf(j) by {
        assert(v.token_wf(j));
    }
    assert forall|a: int, e: int| 0 <= a < w.series.len() && 1 <= e <= w.series[a].tokens.len()
        implies #[trigger] w.minted(a, e as nat) by {
        assert(v.minted(a, e as nat));
        let j = choose|j: int| 0 <= j < v.tokens.len() && #[trigger] v.tokens[j].series_index == a && v.tokens[j].edition == e;
        assert(w.tokens[j].series_index == a && w.tokens[j].edition == e);
    }
    crate::owners::lemma_owners_wf_iff(v);
    assert forall|x: Seq<char>| #[trigger] crate::owners::list_set(w.tokens_per_owner, x) == crate::state::owned_ids(w.tokens, x) by {
        assert forall|id: Seq<char>| crate::state::owned_ids(w.tokens, x).contains(id) <==> crate::state::owned_ids(v.tokens, x).contains(id) by {
            if crate::state::owned_ids(w.tokens, x).contains(id) {
                let j = choose|j: int| 0 <= j < w.tokens.len() && #[trigger] w.tokens[j].id == id && w.tokens[j].owner_id == x;
                assert(v.tokens[j].id == id && v.tokens[j].owner_id == x);
            }
            if crate::state::owned_ids(v.tokens, x).contains(id) {
                let j = choose|j: int| 0 <= j < v.tokens.len() && #[trigger] v.tokens[j].id == id && v.tokens[j].owner_id == x;
                assert(w.tokens[j].id == id && w.tokens[j].owner_id == x);
            }
        }
        assert(crate::state::owned_ids(w.tokens, x) =~= crate::state::owned_ids(v.tokens, x));
    }
    crate::owners::lemma_owners_wf_iff(w);
}

/// The storage byte cost times a byte count, as `refund_deposit` computes it.
fn storage_cost(bytes: u64) -> (r: u128)
    requires
        bytes <= 76,
    ensures
        r == bytes * storage_price_per_byte(),
{
    let cost = crate::near::storage_byte_cost();
    cost * (bytes as u128)
}

impl Contract {
    /// The token's owner `caller`, attaching at least one yoctoNEAR, approves
    /// `account_id` to transfer the token `token_id`. The approval gets the
    /// token's next approval id; a new approval's storage is paid from the
    /// deposit and the rest refunded.
    pub fn nft_approve(
        &mut self,
        caller: &String,
        attached_deposit: u128,
        prepaid_gas: u64,
        token_id: String,
        account_id: String,
        msg: &Option<String>,
    ) -> (r: Result<ApproveOutcome, ContractError>)
        requires
            old(self).wf(),
        ensures
            final(self).wf(),
            final(self)@.series.len() == old(self)@.series.len(),
            old(self)@.one_token_per_series() ==> final(self)@.one_token_per_series(),
            final(self)@.transaction_fee == old(self)@.transaction_fee,
            old(self)@.creators_kept(final(self)@),
            match approve_check(old(self)@, caller@, attached_deposit, prepaid_gas, token_id@, account_id@, msg.is_some()) {
                Err(e) => r == Err::<ApproveOutcome, ContractError>(e) && final(self)@ == old(self)@,
                Ok(k) => r matches Ok(out) && {
                    let id = next_approval_id(old(self)@, k);
                    let left = attached_deposit - approve_storage(old(self)@, k, account_id@) * storage_price_per_byte();
                    &&& out.approval_id == id
                    &&& final(self)@ == approve_view(old(self)@, k, account_id@, id)
                    &&& match out.refund {
                        Some(t) => left > 1 && t.receiver_id@ == caller@ && t.amount == left,
                        None => left <= 1,
                    }
                    &&& out.on_approve_gas == if msg.is_some() { Some((prepaid_gas - GAS_FOR_NFT_APPROVE) as u64) } else { None }
                },
            },
    {
        let with_msg = msg.is_some();
        if !is_valid_account_id(&account_id) {
            return Err(ContractError::InvalidAccountId);
        }
        if attached_deposit < 1 {
            return Err(ContractError::RequiresAtLeastOneYocto);
        }
        proof {
            lemma_sorted_ids_distinct(self@.tokens);
        }
        let k = match find_token(&self.tokens, &token_id) {
            None => {
                assert(!(exists|k: int| 0 <= k < self@.tokens.len() && #[trigger] self@.tokens[k].id == token_id@));
                return Err(ContractError::TokenNotFound);
            },
            Some(k) => k,
        };
        proof {
            lemma_token_pos(self@.tokens, k as int);
            assert(self@.token_wf(k as int));
        }
        if *caller != self.tokens[k].owner_id {
            return Err(ContractError::NotTokenOwner);
        }
        let approval_id: u64 = match self.tokens[k].next_approval_id {
            Some(n) => n,
            None => 1,
        };
        if approval_id == u64::MAX {
            return Err(ContractError::ArithmeticOverflow);
        }
        let existing: Option<usize> = match &self.tokens[k].approvals {
            Some(a) => find_approval(a, &account_id),
            None => None,
        };
        proof {
            match self@.tokens[k as int].approvals {
                Some(a) => {
                    match existing {
                        Some(j) => {
                            lemma_key_pos(a, j as int);
                        },
                        None => {
                            assert(!(exists|j: int| 0 <= j < a.len() && #[trigger] a[j].0 == account_id@));
                        },
                    }
                },
                None => {},
            }
        }
        let storage_used: u64 = match existing {
            Some(_) => 0,
            None => crate::near::bytes_for_approved_account_id(&account_id),
        };
        let required = storage_cost(storage_used);
        if required > attached_deposit {
            return Err(ContractError::NotEnoughStorageDeposit);
        }
        if with_msg && prepaid_gas < GAS_FOR_NFT_APPROVE {
            return Err(ContractError::NotEnoughGas);
        }
        let ghost v = self@;
        let mut list: Vec<Approval> = match self.tokens[k].approvals.take() {
            Some(a) => a,
            None => Vec::new(),
        };
        let ghost before = approvals(list@);
        let ghost a0 = match v.tokens[k as int].approvals {
            Some(a) => a,
            None => Seq::<(Seq<char>, u64)>::empty(),
        };
        assert(before == a0) by {
            if v.tokens[k as int].approvals is None {
                assert(before =~= Seq::<(Seq<char>, u64)>::empty());
            }
        }
        match existing {
            Some(j) => {
                list[j].approval_id = approval_id;
                assert(approvals(list@) =~= before.update(j as int, (account_id@, approval_id)));
                assert(approvals(list@) == approvals_after_insert(a0, account_id@, approval_id));
            },
            None => {
                list.push(Approval { account_id: account_id.clone(), approval_id });
                assert(approvals(list@) =~= before.push((account_id@, approval_id)));
                assert(key_pos(a0, account_id@) is None);
                assert(approvals(list@) == approvals_after_insert(a0, account_id@, approval_id));
            },
        }
        self.tokens[k].approvals = Some(list);
        self.tokens[k].next_approval_id = Some(approval_id + 1);
        proof {
            lemma_approve_wf(v, k as int, account_id@, approval_id);
            assert(self@.tokens =~= approve_view(v, k as int, account_id@, approval_id).tokens);
        }
        let left = attached_deposit - required;
        let refund = if left > 1 {
            Some(NativeTransfer { receiver_id: caller.clone(), amount: left })
        } else {
            None
        };
        let on_approve_gas = if with_msg {
            Some(prepaid_gas - GAS_FOR_NFT_APPROVE)
        } else {
            None
        };
        Ok(ApproveOutcome { approval_id, refund, on_approve_gas })
    }
}

/// The contract after the approval at `j` of the token at `k` is withdrawn; an
/// empty list of approvals goes.
pub open spec fn revoke_view(v: ContractView, k: int, j: int) -> ContractView {
    let a = v.tokens[k].approvals->0.remove(j);
    set_approvals_view(v, k, if a.len() == 0 { None } else { Some(a) })
}

/// Why a revocation is refused, if it is; else the token's position.
pub open spec fn revoke_check(v: ContractView, caller: Seq<char>, attached_deposit: u128, token_id: Seq<char>)
    -> Result<int, ContractError> {
    if attached_deposit != 1 {
        Err(ContractError::RequiresOneYocto)
    } else {
        match token_pos(v.tokens, token_id) {
            None => Err(ContractError::TokenNotFound),
            Some(k) => if caller != v.tokens[k].owner_id {
                Err(ContractError::NotTokenOwner)
            } else {
                Ok(k)
            },
        }
    }
}

impl Contract {
    fn owned_token(&self, caller: &String, attached_deposit: u128, token_id: &String) -> (r: Result<usize, ContractError>)
        requires
            self.wf(),
        ensures
            match r {
                Ok(k) => revoke_check(self@, caller@, attached_deposit, token_id@) == Ok::<int, ContractError>(k as int)
                    && k < self@.tokens.len(),
                Err(e) => revoke_check(self@, caller@, attached_deposit, token_id@) == Err::<int, ContractError>(e),
            },
    {
        if attached_deposit != 1 {
            return Err(ContractError::RequiresOneYocto);
        }
        proof {
            lemma_sorted_ids_distinct(self@.tokens);
        }
        let k = match find_token(&self.tokens, token_id) {
            None => {
                assert(!(exists|k: int| 0 <= k < self@.tokens.len() && #[trigger] self@.tokens[k].id == token_id@));
                return Err(ContractError::TokenNotFound);
            },
            Some(k) => k,
        };
        proof {
            lemma_token_pos(self@.tokens, k as int);
        }
        if *caller != self.tokens[k].owner_id {
            return Err(ContractError::NotTokenOwner);
        }
        Ok(k)
    }

    /// The token's owner `caller`, attaching one yoctoNEAR, withdraws the
    /// approval of `account_id` on the token `token_id`, and gets its storage back.
    pub fn nft_revoke(&mut self, caller: &String, attached_deposit: u128, token_id: String, account_id: String)
        -> (r: Result<Option<NativeTransfer>, ContractError>)
        requires
            old(self).wf(),
        ensures
            final(self).wf(),
            final(self)@.series.len() == old(self)@.series.len(),
            old(self)@.one_token_per_series() ==> final(self)@.one_token_per_series(),
            final(self)@.transaction_fee == old(self)@.transaction_fee,
            old(self)@.creators_kept(final(self)@),
            !valid_account_id(account_id@) ==> r == Err::<Option<NativeTransfer>, ContractError>(ContractError::InvalidAccountId)
                && final(self)@ == old(self)@,
            valid_account_id(account_id@) ==> match revoke_check(old(self)@, caller@, attached_deposit, token_id@) {
                Err(e) => r == Err::<Option<NativeTransfer>, ContractError>(e) && final(self)@ == old(self)@,
                Ok(k) => match old(self)@.tokens[k].approvals {
                    Some(a) => match key_pos(a, account_id@) {
                        Some(j) => r matches Ok(Some(t)) && t.receiver_id@ == caller@
                            && t.amount == approval_storage(account_id@) * storage_price_per_byte()
                            && final(self)@ == revoke_view(old(self)@, k, j),
                        None => r matches Ok(None) && final(self)@ == old(self)@,
                    },
                    None => r matches Ok(None) && final(self)@ == old(self)@,
                },
            },
    {
        if !is_valid_account_id(&account_id) {
            return Err(ContractError::InvalidAccountId);
        }
        let k = self.owned_token(caller, attached_deposit, &token_id)?;
        proof {
            assert(self@.token_wf(k as int));
        }
        let found: Option<usize> = match &self.tokens[k].approvals {
            Some(a) => find_approval(a, &account_id),
            None => None,
        };
        let j = match found {
            None => {
                proof {
                    match self@.tokens[k as int].approvals {
                        Some(a) => {
                            assert(!(exists|j: int| 0 <= j < a.len() && #[trigger] a[j].0 == account_id@));
                        },
                        None => {},
                    }
                }
                return Ok(None);
            },
            Some(j) => j,
        };
        proof {
            lemma_key_pos(self@.tokens[k as int].approvals->0, j as int);
        }
        let bytes = crate::near::bytes_for_approved_account_id(&account_id);
        let amount = storage_cost(bytes);
        let ghost v = self@;
        let mut list: Vec<Approval> = match self.tokens[k].approvals.take() {
            Some(a) => a,
            None => Vec::new(),
        };
        let ghost before = approvals(list@);
        assert(before == v.tokens[k as int].approvals->0);
        list.remove(j);
        assert(approvals(list@) =~= before.remove(j as int));
        let new_approvals = if list.len() == 0 {
            None
        } else {
            Some(list)
        };
        proof {
            let a2 = before.remove(j as int);
            assert(approvals_wf(if a2.len() == 0 { None } else { Some(a2) })) by {
                assert forall|x: int, y: int| 0 <= x < a2.len() && 0 <= y < a2.len() && x != y implies #[trigger] a2[x].0 != #[trigger] a2[y].0 by {
                    let x0 = if x < j { x } else { x + 1 };
                    let y0 = if y < j { y } else { y + 1 };
                    assert(a2[x] == before[x0]);
                    assert(a2[y] == before[y0]);
                }
                assert forall|x: int| 0 <= x < a2.len() implies valid_account_id(#[trigger] a2[x].0) by {
                    let x0 = if x < j { x } else { x + 1 };
                    assert(a2[x] == before[x0]);
                }
            }
            lemma_set_approvals_wf(v, k as int, if a2.len() == 0 { None } else { Some(a2) });
        }
        self.tokens[k].approvals = new_approvals;
        assert(self@.tokens =~= revoke_view(v, k as int, j as int).tokens);
        Ok(Some(NativeTransfer { receiver_id: caller.clone(), amount }))
    }

    /// The token's owner `caller`, attaching one yoctoNEAR, withdraws every
    /// approval on the token `token_id`, and gets their storage back.
    pub fn nft_revoke_all(&mut self, caller: &String, attached_deposit: u128, token_id: String)
        -> (r: Result<Option<NativeTransfer>, ContractError>)
        requires
            old(self).wf(),
        ensures
            final(self).wf(),
            final(self)@.series.len() == old(self)@.series.len(),
            old(self)@.one_token_per_series() ==> final(self)@.one_token_per_series(),
            final(self)@.transaction_fee == old(self)@.transaction_fee,
            old(self)@.creators_kept(final(self)@),
            match revoke_check(old(self)@, caller@, attached_deposit, token_id@) {
                Err(e) => r == Err::<Option<NativeTransfer>, ContractError>(e) && final(self)@ == old(self)@,
                Ok(k) => match old(self)@.tokens[k].approvals {
                    None => r matches Ok(None) && final(self)@ == old(self)@,
                    Some(a) => match approvals_refund(a) {
                        None => r == Err::<Option<NativeTransfer>, ContractError>(ContractError::ArithmeticOverflow)
                            && final(self)@ == old(self)@,
                        Some(x) => r matches Ok(Some(t)) && t.receiver_id@ == caller@ && t.amount == x
                            && final(self)@ == set_approvals_view(old(self)@, k, None),
                    },
                },
            },
    {
        let k = self.owned_token(caller, attached_deposit, &token_id)?;
        proof {
            assert(self@.token_wf(k as int));
        }
        let amount = match &self.tokens[k].approvals {
            None => {
                return Ok(None);
            },
            Some(a) => {
                proof {
                    lemma_storage_bound(approvals(a@), a@);
                }
                refund_for_approvals(a)?
            },
        };
        let ghost v = self@;
        proof {
            lemma_set_approvals_wf(v, k as int, None);
        }
        self.tokens[k].approvals = None;
        assert(self@.tokens =~= set_approvals_view(v, k as int, None).tokens);
        Ok(Some(NativeTransfer { receiver_id: caller.clone(), amount }))
    }

    /// Whether `approved_account_id` may transfer the token `token_id` (with
    /// `approval_id`, where one is given).
    pub fn nft_is_approved(&self, token_id: String, approved_account_id: String, approval_id: Option<u64>)
        -> (r: Result<bool, ContractError>)
        requires
            self.wf(),
        ensures
            if !valid_account_id(approved_account_id@) {
                r == Err::<bool, ContractError>(ContractError::InvalidAccountId)
            } else {
                match token_pos(self@.tokens, token_id@) {
                    None => r == Err::<bool, ContractError>(ContractError::TokenNotFound),
                    Some(k) => r == Ok::<bool, ContractError>(is_approved(self@, k, approved_account_id@, approval_id)),
                }
            },
    {
        if !is_valid_account_id(&approved_account_id) {
            return Err(ContractError::InvalidAccountId);
        }
        proof {
            lemma_sorted_ids_distinct(self@.tokens);
        }
        let k = match find_token(&self.tokens, &token_id) {
            None => {
                assert(!(exists|k: int| 0 <= k < self@.tokens.len() && #[trigger] self@.tokens[k].id == token_id@));
                return Err(ContractError::TokenNotFound);
            },
            Some(k) => k,
        };
        proof {
            lemma_token_pos(self@.tokens, k as int);
            assert(self@.token_wf(k as int));
        }
        match &self.tokens[k].approvals {
            None => Ok(false),
            Some(a) => match find_approval(a, &approved_account_id) {
                None => {
                    assert(!(exists|j: int| 0 <= j < approvals(a@).len() && #[trigger] approvals(a@)[j].0 == approved_account_id@));
                    Ok(false)
                },
                Some(j) => {
                    proof {
                        lemma_key_pos(approvals(a@), j as int);
                    }
                    match approval_id {
                        Some(given) => Ok(given == a[j].approval_id),
                        None => Ok(true),
                    }
                },
            },
        }
    }
}

} // verus!
