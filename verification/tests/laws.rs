use paras_nft_contract::error::ContractError;
use paras_nft_contract::metadata::TokenMetadata;
use paras_nft_contract::near::PromiseResult;
use paras_nft_contract::state::{Contract, RoyaltyShare, TokenSeries, NFT_TOTAL_PRICE};

fn s(x: &str) -> String {
    x.to_string()
}

fn setup() -> Contract {
    Contract::new_default_meta(s("owner.near"), s("treasury.near")).unwrap()
}

const DEPOSIT: u128 = 1_000_000_000_000_000_000_000;

#[test]
fn test_refused_transfer_call_restores_approvals() {
    let mut c = setup();
    c.nft_buy(&s("alice.near"), NFT_TOTAL_PRICE, 1).unwrap();
    c.nft_approve(&s("alice.near"), DEPOSIT, 0, s("1:1"), s("market.near"), &None).unwrap();
    let out = c.nft_transfer_call(&s("alice.near"), 1, 100_000_000_000_000, s("bob.near"), s("1:1"), None, None).unwrap();
    assert_eq!(c.nft_is_approved(s("1:1"), s("market.near"), None).unwrap(), false);
    let prev = out.previous_approvals.unwrap();
    assert_eq!(prev.len(), 1);
    assert_eq!(prev[0].account_id, "market.near");
    let res = c
        .nft_resolve_transfer(s("alice.near"), s("bob.near"), s("1:1"), Some(prev), PromiseResult::Successful(b"true".to_vec()))
        .unwrap();
    assert_eq!(res.transferred, false);
    assert_eq!(c.nft_token(s("1:1")).unwrap().owner_id, "alice.near");
    assert_eq!(c.nft_is_approved(s("1:1"), s("market.near"), Some(1)).unwrap(), true);
}

#[test]
fn test_resolve_refunds_receiver_approvals() {
    let mut c = setup();
    c.nft_buy(&s("alice.near"), NFT_TOTAL_PRICE, 1).unwrap();
    let out = c.nft_transfer_call(&s("alice.near"), 1, 100_000_000_000_000, s("bob.near"), s("1:1"), None, None).unwrap();
    c.nft_approve(&s("bob.near"), DEPOSIT, 0, s("1:1"), s("shop.near"), &None).unwrap();
    let res = c.nft_resolve_transfer(s("alice.near"), s("bob.near"), s("1:1"), out.previous_approvals, PromiseResult::Failed).unwrap();
    assert_eq!(res.transferred, false);
    assert_eq!(res.refunds.len(), 1);
    assert_eq!(res.refunds[0].receiver_id, "bob.near");
    assert_eq!(res.refunds[0].amount, 21 * 10_000_000_000_000_000_000u128);
    assert_eq!(c.nft_is_approved(s("1:1"), s("shop.near"), None).unwrap(), true);
}

#[test]
fn test_resolve_after_token_moved_on_keeps_it() {
    let mut c = setup();
    c.nft_buy(&s("alice.near"), NFT_TOTAL_PRICE, 1).unwrap();
    let out = c.nft_transfer_call(&s("alice.near"), 1, 100_000_000_000_000, s("bob.near"), s("1:1"), None, None).unwrap();
    c.nft_transfer(&s("bob.near"), 1, s("carol.near"), s("1:1"), None, None).unwrap();
    let res = c.nft_resolve_transfer(s("alice.near"), s("bob.near"), s("1:1"), out.previous_approvals, PromiseResult::Failed).unwrap();
    assert_eq!(res.transferred, true);
    assert_eq!(c.nft_token(s("1:1")).unwrap().owner_id, "carol.near");
}

#[test]
fn test_token_listed_for_its_owner_only() {
    let mut c = setup();
    c.nft_buy(&s("alice.near"), NFT_TOTAL_PRICE, 1).unwrap();
    c.nft_buy(&s("alice.near"), NFT_TOTAL_PRICE, 2).unwrap();
    c.nft_buy(&s("alice.near"), NFT_TOTAL_PRICE, 3).unwrap();
    c.nft_transfer(&s("alice.near"), 1, s("bob.near"), s("1:1"), None, None).unwrap();
    let alice: Vec<String> = c.nft_tokens_for_owner(s("alice.near"), None, None).unwrap().into_iter().map(|t| t.token_id).collect();
    assert_eq!(alice, vec![s("3:1"), s("2:1")]);
    let bob: Vec<String> = c.nft_tokens_for_owner(s("bob.near"), None, None).unwrap().into_iter().map(|t| t.token_id).collect();
    assert_eq!(bob, vec![s("1:1")]);
    assert_eq!(c.nft_supply_for_owner(s("alice.near")).unwrap(), 2);
    assert_eq!(c.nft_supply_for_owner(s("bob.near")).unwrap(), 1);
    assert_eq!(c.nft_supply_for_owner(s("carol.near")).unwrap(), 0);
    assert_eq!(c.nft_total_supply(), 3);
}

#[test]
fn test_payout_stays_within_balance() {
    let mut c = setup();
    c.nft_buy(&s("alice.near"), NFT_TOTAL_PRICE, 1).unwrap();
    c.token_series[0].royalty.push(RoyaltyShare { account_id: s("a.near"), share: 3333 });
    c.token_series[0].royalty.push(RoyaltyShare { account_id: s("b.near"), share: 3333 });
    c.token_series[0].royalty.push(RoyaltyShare { account_id: s("alice.near"), share: 500 });
    let p = c.nft_payout(s("1:1"), 10, 10).unwrap();
    assert_eq!(p.payout.len(), 3);
    assert_eq!(p.payout[0].amount, 3);
    assert_eq!(p.payout[1].amount, 3);
    assert_eq!(p.payout[2].account_id, "alice.near");
    assert_eq!(p.payout[2].amount, 3);
    let total: u128 = p.payout.iter().map(|e| e.amount).sum();
    assert!(total <= 10);
    assert!(matches!(c.nft_payout(s("1:1"), 10, 2), Err(ContractError::TooManyPayoutReceivers)));
    assert!(matches!(c.nft_payout(s("1:1"), u128::MAX, 10), Err(ContractError::ArithmeticOverflow)));
}

#[test]
fn test_supply_cap() {
    let mut c = setup();
    for i in 0..26_800u64 {
        c.token_series.push(TokenSeries {
            token_series_id: (i + 1).to_string(),
            metadata: TokenMetadata::empty(),
            creator_id: s("alice.near"),
            tokens: Vec::new(),
            price: None,
            is_mintable: false,
            royalty: Vec::new(),
        });
    }
    let r = c.nft_buy(&s("alice.near"), NFT_TOTAL_PRICE, 1);
    assert!(matches!(r, Err(ContractError::MaxSupplyReached)));
    let r = c.nft_buy(&s("alice.near"), 1, 1);
    assert!(matches!(r, Err(ContractError::MaxSupplyReached)));
    assert_eq!(c.nft_total_supply(), 0);
}

#[test]
fn test_revoke_undoes_new_approval() {
    let mut c = setup();
    c.nft_buy(&s("alice.near"), NFT_TOTAL_PRICE, 1).unwrap();
    c.nft_approve(&s("alice.near"), DEPOSIT, 0, s("1:1"), s("a1.near"), &None).unwrap();
    c.nft_approve(&s("alice.near"), DEPOSIT, 0, s("1:1"), s("b2.near"), &None).unwrap();
    c.nft_revoke(&s("alice.near"), 1, s("1:1"), s("b2.near")).unwrap();
    let t = c.nft_token(s("1:1")).unwrap();
    let approvals = t.approved_account_ids.unwrap();
    assert_eq!(approvals.len(), 1);
    assert_eq!(approvals[0].account_id, "a1.near");
    assert_eq!(approvals[0].approval_id, 1);
    let r = c.nft_revoke(&s("bob.near"), 1, s("1:1"), s("a1.near"));
    assert!(matches!(r, Err(ContractError::NotTokenOwner)));
    let r = c.nft_revoke(&s("alice.near"), 2, s("1:1"), s("a1.near"));
    assert!(matches!(r, Err(ContractError::RequiresOneYocto)));
}

#[test]
fn test_remove_undoes_add_admin() {
    let mut c = setup();
    c.add_token_metadata_admin(&s("owner.near"), s("carol.near")).unwrap();
    c.remove_token_metadata_admin(&s("owner.near"), s("carol.near")).unwrap();
    assert_eq!(c.token_metadata_admins, vec![s("owner.near")]);
}

#[test]
fn test_token_ids_unique_across_series() {
    let mut c = setup();
    let mut ids = Vec::new();
    for i in 0..25u64 {
        ids.push(c.nft_buy(&s("alice.near"), NFT_TOTAL_PRICE, i).unwrap().token_id);
    }
    let mut sorted = ids.clone();
    sorted.sort();
    sorted.dedup();
    assert_eq!(sorted.len(), 25);
    assert_eq!(c.nft_total_supply(), 25);
}

#[test]
fn test_one_token_per_sale_after_many_calls() {
    let mut c = setup();
    c.nft_buy(&s("alice.near"), NFT_TOTAL_PRICE, 1).unwrap();
    assert!(c.nft_buy(&s("bob.near"), 1, 2).is_err());
    c.nft_buy(&s("bob.near"), NFT_TOTAL_PRICE, 3).unwrap();
    c.nft_transfer(&s("alice.near"), 1, s("carol.near"), s("1:1"), None, None).unwrap();
    c.add_token_metadata_admin(&s("owner.near"), s("dave.near")).unwrap();
    let mut m = TokenMetadata::empty();
    m.title = Some(s("Renamed"));
    c.nft_set_metadata(&s("dave.near"), s("2:1"), m).unwrap();
    c.nft_approve(&s("bob.near"), DEPOSIT, 0, s("2:1"), s("market.near"), &None).unwrap();
    c.nft_buy(&s("erin.near"), NFT_TOTAL_PRICE, 4).unwrap();
    assert_eq!(c.nft_total_supply(), 3);
    assert_eq!(c.token_series.len(), 3);
    for (i, series) in c.token_series.iter().enumerate() {
        let id = format!("{}", i + 1);
        assert_eq!(series.token_series_id, id);
        assert_eq!(series.tokens, vec![format!("{}:1", id)]);
        assert_eq!(series.royalty.len(), 0);
        assert_eq!(c.nft_supply_for_series(id.clone()).unwrap(), 1);
    }
    assert_eq!(c.token_series[0].creator_id, "alice.near");
    assert_eq!(c.token_series[2].creator_id, "erin.near");
}

#[test]
fn test_series_fee_is_current_fee() {
    let mut c = setup();
    c.nft_buy(&s("alice.near"), NFT_TOTAL_PRICE, 1).unwrap();
    c.nft_transfer(&s("alice.near"), 1, s("bob.near"), s("1:1"), None, None).unwrap();
    assert_eq!(c.get_market_data_transaction_fee(&s("1")), 500);
    assert_eq!(c.get_market_data_transaction_fee(&s("2")), 500);
    assert_eq!(c.nft_get_series_single(s("1")).unwrap().transaction_fee, Some(500));
}
