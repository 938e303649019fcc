use paras_nft_contract::contract::{DATA_IMAGE_SVG_PARAS_ICON, DEFAULT_TRANSACTION_FEE};
use paras_nft_contract::error::ContractError;
use paras_nft_contract::metadata::{NFTContractMetadata, TokenMetadata};
use paras_nft_contract::near::PromiseResult;
use paras_nft_contract::state::{Contract, RoyaltyShare, NFT_PRICE, NFT_TOTAL_PRICE};

fn s(x: &str) -> String {
    x.to_string()
}

fn setup() -> Contract {
    Contract::new_default_meta(s("owner.near"), s("treasury.near")).unwrap()
}

fn owner_of(c: &Contract, token_id: &str) -> Option<String> {
    c.nft_token(s(token_id)).map(|t| t.owner_id)
}

#[test]
fn test_new_default_meta() {
    let c = setup();
    assert_eq!(c.get_owner(), "owner.near");
    let m = c.nft_metadata();
    assert_eq!(m.spec, "nft-1.0.0");
    assert_eq!(m.name, "Paras Collectibles");
    assert_eq!(m.symbol, "PARAS");
    assert_eq!(m.icon.unwrap(), DATA_IMAGE_SVG_PARAS_ICON);
    assert_eq!(m.base_uri.unwrap(), "https://ipfs.fleek.co/ipfs");
    assert_eq!(c.get_transaction_fee().current_fee, DEFAULT_TRANSACTION_FEE);
    assert_eq!(c.get_transaction_fee().next_fee, None);
    assert_eq!(c.get_transaction_fee().start_time, None);
    assert_eq!(c.nft_total_supply(), 0);
}

#[test]
fn test_new_rejects_invalid_input() {
    let meta = NFTContractMetadata {
        spec: s("nft-1.0.0"),
        name: s("Triple Triad"),
        symbol: s("TRIAD"),
        icon: None,
        base_uri: Some(s("https://ipfs.fleek.co/ipfs/")),
        reference: None,
        reference_hash: None,
    };
    let r = Contract::new(s("Owner"), s("treasury.near"), meta, 500, TokenMetadata::empty());
    assert!(matches!(r, Err(ContractError::InvalidAccountId)));
    let bad = NFTContractMetadata {
        spec: s("nft-2.0.0"),
        name: s("x"),
        symbol: s("X"),
        icon: None,
        base_uri: None,
        reference: None,
        reference_hash: None,
    };
    let r = Contract::new(s("owner.near"), s("treasury.near"), bad, 500, TokenMetadata::empty());
    assert!(matches!(r, Err(ContractError::InvalidContractMetadata)));
    let unmatched = NFTContractMetadata {
        spec: s("nft-1.0.0"),
        name: s("x"),
        symbol: s("X"),
        icon: None,
        base_uri: None,
        reference: Some(s("ref")),
        reference_hash: None,
    };
    let r = Contract::new(s("owner.near"), s("treasury.near"), unmatched, 500, TokenMetadata::empty());
    assert!(matches!(r, Err(ContractError::InvalidContractMetadata)));
}

#[test]
fn test_buy() {
    let mut c = setup();
    let out = c.nft_buy(&s("alice.near"), NFT_TOTAL_PRICE, 1_618_109_122_863_866_400).unwrap();
    assert_eq!(out.token_series_id, "1");
    assert_eq!(out.token_id, "1:1");
    assert_eq!(out.treasury_id, "treasury.near");
    assert_eq!(out.amount, NFT_PRICE);
    let token = c.nft_token(s("1:1")).unwrap();
    assert_eq!(token.owner_id, "alice.near");
    let md = token.metadata.unwrap();
    assert_eq!(md.title.unwrap(), "Default Title #1");
    assert_eq!(md.issued_at.unwrap(), "1618109122863866400");
    assert_eq!(md.description, None);
    assert_eq!(token.approved_account_ids.unwrap().len(), 0);
    let series = c.nft_get_series_single(s("1")).unwrap();
    assert_eq!(series.creator_id, "alice.near");
    assert_eq!(series.token_series_id, "1");
    assert_eq!(series.royalty.len(), 0);
    assert_eq!(series.transaction_fee, Some(500));
    assert_eq!(series.metadata.description.unwrap(), "Default Description");
    assert_eq!(c.nft_get_series_price(s("1")).unwrap(), Some(NFT_PRICE));
    assert_eq!(c.nft_supply_for_series(s("1")).unwrap(), 1);
    assert_eq!(c.nft_total_supply(), 1);
    assert_eq!(c.nft_supply_for_owner(s("alice.near")).unwrap(), 1);
}

#[test]
fn test_buy_wrong_deposit_is_refused() {
    let mut c = setup();
    let r = c.nft_buy(&s("alice.near"), NFT_PRICE, 1);
    assert!(matches!(r, Err(ContractError::WrongDeposit)));
    assert_eq!(c.nft_total_supply(), 0);
    assert!(matches!(c.nft_get_series_single(s("1")), Err(ContractError::TokenSeriesNotFound)));
}

#[test]
fn test_buy_names_series_in_order_and_lists_tokens_by_id() {
    let mut c = setup();
    for i in 0..12u64 {
        let out = c.nft_buy(&s("alice.near"), NFT_TOTAL_PRICE, i).unwrap();
        assert_eq!(out.token_series_id, (i + 1).to_string());
        assert_eq!(out.token_id, format!("{}:1", i + 1));
    }
    let all = c.nft_tokens(None, None).unwrap();
    let ids: Vec<String> = all.iter().map(|t| t.token_id.clone()).collect();
    assert_eq!(ids, vec!["10:1", "11:1", "12:1", "1:1", "2:1", "3:1", "4:1", "5:1", "6:1", "7:1", "8:1", "9:1"]);
    let page = c.nft_tokens(Some(3), Some(2)).unwrap();
    assert_eq!(page.len(), 2);
    assert_eq!(page[0].token_id, "1:1");
    assert_eq!(page[1].token_id, "2:1");
    let series = c.nft_get_series(Some(10), None).unwrap();
    assert_eq!(series.len(), 2);
    assert_eq!(series[0].token_series_id, "11");
    assert_eq!(series[1].transaction_fee, None);
    let mine = c.nft_tokens_for_owner(s("alice.near"), Some(0), Some(3)).unwrap();
    let mine: Vec<String> = mine.iter().map(|t| t.token_id.clone()).collect();
    assert_eq!(mine, vec!["1:1", "2:1", "3:1"]);
}

#[test]
fn test_pagination_refusals() {
    let mut c = setup();
    assert!(matches!(c.nft_tokens(None, None), Err(ContractError::OutOfBounds)));
    c.nft_buy(&s("alice.near"), NFT_TOTAL_PRICE, 1).unwrap();
    assert!(matches!(c.nft_tokens(Some(1), None), Err(ContractError::OutOfBounds)));
    assert!(matches!(c.nft_tokens(None, Some(0)), Err(ContractError::ZeroLimit)));
    assert!(matches!(c.nft_get_series(Some(5), Some(0)), Err(ContractError::OutOfBounds)));
    assert!(matches!(c.nft_tokens_for_owner(s("alice.near"), Some(5), Some(0)), Err(ContractError::ZeroLimit)));
    assert!(matches!(c.nft_tokens_for_owner(s("alice.near"), Some(5), None), Err(ContractError::OutOfBounds)));
    assert_eq!(c.nft_tokens_for_owner(s("bob.near"), Some(5), Some(0)).unwrap().len(), 0);
    assert!(matches!(c.nft_tokens_by_series(s("1"), None, Some(0)), Err(ContractError::ZeroLimit)));
    assert!(matches!(c.nft_tokens_by_series(s("2"), None, None), Err(ContractError::TokenSeriesNotFound)));
    assert_eq!(c.nft_tokens_by_series(s("1"), None, None).unwrap()[0].token_id, "1:1");
}

#[test]
fn test_nft_transfer() {
    let mut c = setup();
    c.nft_buy(&s("alice.near"), NFT_TOTAL_PRICE, 1).unwrap();
    let r = c.nft_transfer(&s("alice.near"), 0, s("bob.near"), s("1:1"), None, None);
    assert!(matches!(r, Err(ContractError::RequiresOneYocto)));
    let ev = c.nft_transfer(&s("alice.near"), 1, s("bob.near"), s("1:1"), None, Some(s("gift"))).unwrap();
    assert_eq!(ev.old_owner_id, "alice.near");
    assert_eq!(ev.new_owner_id, "bob.near");
    assert_eq!(ev.token_ids, vec![s("1:1")]);
    assert_eq!(ev.memo, Some(s("gift")));
    assert_eq!(ev.authorized_id, None);
    assert_eq!(owner_of(&c, "1:1").unwrap(), "bob.near");
    assert_eq!(c.nft_supply_for_owner(s("alice.near")).unwrap(), 0);
    assert_eq!(c.nft_supply_for_owner(s("bob.near")).unwrap(), 1);
    assert_eq!(c.nft_tokens_for_owner(s("alice.near"), None, None).unwrap().len(), 0);
}

#[test]
fn test_nft_transfer_refusals() {
    let mut c = setup();
    c.nft_buy(&s("alice.near"), NFT_TOTAL_PRICE, 1).unwrap();
    let r = c.nft_transfer(&s("bob.near"), 1, s("carol.near"), s("1:1"), None, None);
    assert!(matches!(r, Err(ContractError::Unauthorized)));
    let r = c.nft_transfer(&s("alice.near"), 1, s("alice.near"), s("1:1"), None, None);
    assert!(matches!(r, Err(ContractError::SameOwner)));
    let r = c.nft_transfer(&s("alice.near"), 1, s("Bob"), s("1:1"), None, None);
    assert!(matches!(r, Err(ContractError::InvalidAccountId)));
    let r = c.nft_transfer(&s("alice.near"), 1, s("bob.near"), s("1:2"), None, None);
    assert!(matches!(r, Err(ContractError::TokenNotFound)));
    assert_eq!(owner_of(&c, "1:1").unwrap(), "alice.near");
}

#[test]
fn test_approve_and_transfer_by_approved_account() {
    let mut c = setup();
    c.nft_buy(&s("alice.near"), NFT_TOTAL_PRICE, 1).unwrap();
    let deposit: u128 = 1_000_000_000_000_000_000_000;
    let out = c.nft_approve(&s("alice.near"), deposit, 0, s("1:1"), s("market.near"), &None).unwrap();
    assert_eq!(out.approval_id, 1);
    let used = (("market.near".len() as u128) + 12) * 10_000_000_000_000_000_000u128;
    let refund = out.refund.unwrap();
    assert_eq!(refund.receiver_id, "alice.near");
    assert_eq!(refund.amount, deposit - used);
    assert_eq!(out.on_approve_gas, None);
    assert_eq!(c.nft_is_approved(s("1:1"), s("market.near"), None).unwrap(), true);
    assert_eq!(c.nft_is_approved(s("1:1"), s("market.near"), Some(1)).unwrap(), true);
    assert_eq!(c.nft_is_approved(s("1:1"), s("market.near"), Some(2)).unwrap(), false);
    assert_eq!(c.nft_is_approved(s("1:1"), s("other.near"), None).unwrap(), false);
    let r = c.nft_transfer(&s("market.near"), 1, s("bob.near"), s("1:1"), Some(7), None);
    assert!(matches!(r, Err(ContractError::ApprovalIdMismatch)));
    let r = c.nft_transfer(&s("other.near"), 1, s("bob.near"), s("1:1"), None, None);
    assert!(matches!(r, Err(ContractError::SenderNotApproved)));
    let ev = c.nft_transfer(&s("market.near"), 1, s("bob.near"), s("1:1"), Some(1), None).unwrap();
    assert_eq!(ev.authorized_id, Some(s("market.near")));
    assert_eq!(owner_of(&c, "1:1").unwrap(), "bob.near");
    assert_eq!(c.nft_is_approved(s("1:1"), s("market.near"), None).unwrap(), false);
}

#[test]
fn test_approve_refusals_and_revoke() {
    let mut c = setup();
    c.nft_buy(&s("alice.near"), NFT_TOTAL_PRICE, 1).unwrap();
    let r = c.nft_approve(&s("alice.near"), 0, 0, s("1:1"), s("market.near"), &None);
    assert!(matches!(r, Err(ContractError::RequiresAtLeastOneYocto)));
    let r = c.nft_approve(&s("alice.near"), 1, 0, s("1:1"), s("market.near"), &None);
    assert!(matches!(r, Err(ContractError::NotEnoughStorageDeposit)));
    let r = c.nft_approve(&s("bob.near"), 1, 0, s("1:1"), s("market.near"), &None);
    assert!(matches!(r, Err(ContractError::NotTokenOwner)));
    let deposit: u128 = 1_000_000_000_000_000_000_000;
    let r = c.nft_approve(&s("alice.near"), deposit, 5, s("1:1"), s("market.near"), &Some(s("hi")));
    assert!(matches!(r, Err(ContractError::NotEnoughGas)));
    let out = c.nft_approve(&s("alice.near"), deposit, 50_000_000_000_000, s("1:1"), s("market.near"), &Some(s("hi"))).unwrap();
    assert_eq!(out.on_approve_gas, Some(40_000_000_000_000));
    let out = c.nft_approve(&s("alice.near"), 1, 0, s("1:1"), s("market.near"), &None).unwrap();
    assert_eq!(out.approval_id, 2);
    assert!(out.refund.is_none());
    let refund = c.nft_revoke(&s("alice.near"), 1, s("1:1"), s("market.near")).unwrap().unwrap();
    assert_eq!(refund.amount, 23 * 10_000_000_000_000_000_000u128);
    assert_eq!(c.nft_is_approved(s("1:1"), s("market.near"), None).unwrap(), false);
    assert!(c.nft_revoke(&s("alice.near"), 1, s("1:1"), s("market.near")).unwrap().is_none());
    c.nft_approve(&s("alice.near"), deposit, 0, s("1:1"), s("a1.near"), &None).unwrap();
    c.nft_approve(&s("alice.near"), deposit, 0, s("1:1"), s("b22.near"), &None).unwrap();
    let all = c.nft_revoke_all(&s("alice.near"), 1, s("1:1")).unwrap().unwrap();
    assert_eq!(all.amount, (19 + 20) * 10_000_000_000_000_000_000u128);
    assert!(c.nft_revoke_all(&s("alice.near"), 1, s("1:1")).unwrap().is_none());
}

#[test]
fn test_transfer_call_and_resolve_back() {
    let mut c = setup();
    c.nft_buy(&s("alice.near"), NFT_TOTAL_PRICE, 1).unwrap();
    let r = c.nft_transfer_call(&s("alice.near"), 1, 1000, s("market.near"), s("1:1"), None, None);
    assert!(matches!(r, Err(ContractError::NotEnoughGas)));
    assert_eq!(owner_of(&c, "1:1").unwrap(), "alice.near");
    let out = c.nft_transfer_call(&s("alice.near"), 1, 100_000_000_000_000, s("market.near"), s("1:1"), None, None).unwrap();
    assert_eq!(out.receiver_gas, 60_000_000_000_000);
    assert_eq!(out.resolve_gas, 10_000_000_000_000);
    assert_eq!(owner_of(&c, "1:1").unwrap(), "market.near");
    let res = c
        .nft_resolve_transfer(s("alice.near"), s("market.near"), s("1:1"), out.previous_approvals, PromiseResult::Failed)
        .unwrap();
    assert_eq!(res.transferred, false);
    assert_eq!(res.refunds.len(), 0);
    assert_eq!(owner_of(&c, "1:1").unwrap(), "alice.near");
    assert_eq!(c.nft_supply_for_owner(s("market.near")).unwrap(), 0);
}

#[test]
fn test_resolve_keeps_token_when_receiver_accepts() {
    let mut c = setup();
    c.nft_buy(&s("alice.near"), NFT_TOTAL_PRICE, 1).unwrap();
    let out = c.nft_transfer_call(&s("alice.near"), 1, 100_000_000_000_000, s("market.near"), s("1:1"), None, None).unwrap();
    let r = c.nft_resolve_transfer(
        s("alice.near"),
        s("market.near"),
        s("1:1"),
        out.previous_approvals,
        PromiseResult::Successful(b" false ".to_vec()),
    );
    assert_eq!(r.unwrap().transferred, true);
    assert_eq!(owner_of(&c, "1:1").unwrap(), "market.near");
    let r = c.nft_resolve_transfer(s("alice.near"), s("market.near"), s("1:1"), None, PromiseResult::NotReady);
    assert!(matches!(r, Err(ContractError::PromiseNotReady)));
    let r = c.nft_resolve_transfer(s("alice.near"), s("market.near"), s("1:1"), None, PromiseResult::Successful(b"maybe".to_vec()));
    assert_eq!(r.unwrap().transferred, false);
    assert_eq!(owner_of(&c, "1:1").unwrap(), "alice.near");
}

#[test]
fn test_payout_without_royalty() {
    let mut c = setup();
    c.nft_buy(&s("alice.near"), NFT_TOTAL_PRICE, 1).unwrap();
    let p = c.nft_payout(s("1:1"), 1_000_000_000_000_000_000_000_000, 10).unwrap();
    assert_eq!(p.payout.len(), 1);
    assert_eq!(p.payout[0].account_id, "alice.near");
    assert_eq!(p.payout[0].amount, 1_000_000_000_000_000_000_000_000);
    assert!(matches!(c.nft_payout(s("9:9"), 1, 10), Err(ContractError::TokenNotFound)));
}

#[test]
fn test_nft_transfer_payout() {
    let mut c = setup();
    c.nft_buy(&s("alice.near"), NFT_TOTAL_PRICE, 1).unwrap();
    c.token_series[0].royalty.push(RoyaltyShare { account_id: s("creator.near"), share: 1000 });
    let balance: u128 = 1_000_000_000_000_000_000_000_000;
    let r = c.nft_transfer_payout(&s("alice.near"), 1, s("bob.near"), s("1:1"), Some(0), Some(balance), None);
    assert!(matches!(r, Err(ContractError::MissingMaxLenPayout)));
    let r = c.nft_transfer_payout(&s("alice.near"), 1, s("bob.near"), s("1:1"), Some(0), Some(balance), Some(0));
    assert!(matches!(r, Err(ContractError::TooManyPayoutReceivers)));
    assert_eq!(owner_of(&c, "1:1").unwrap(), "alice.near");
    let (p, ev) = c.nft_transfer_payout(&s("alice.near"), 1, s("bob.near"), s("1:1"), Some(0), Some(balance), Some(10)).unwrap();
    let p = p.unwrap();
    assert_eq!(p.payout.len(), 2);
    assert_eq!(p.payout[0].account_id, "creator.near");
    assert_eq!(p.payout[0].amount, (1000 * balance) / 10_000);
    assert_eq!(p.payout[1].account_id, "alice.near");
    assert_eq!(p.payout[1].amount, (9000 * balance) / 10_000);
    assert_eq!(ev.new_owner_id, "bob.near");
    assert_eq!(owner_of(&c, "1:1").unwrap(), "bob.near");
}

#[test]
fn test_payout_over_the_whole_is_refused() {
    let mut c = setup();
    c.nft_buy(&s("alice.near"), NFT_TOTAL_PRICE, 1).unwrap();
    c.token_series[0].royalty.push(RoyaltyShare { account_id: s("a.near"), share: 6000 });
    c.token_series[0].royalty.push(RoyaltyShare { account_id: s("b.near"), share: 6000 });
    assert!(matches!(c.nft_payout(s("1:1"), 100, 10), Err(ContractError::ArithmeticOverflow)));
    let r = c.nft_transfer_payout(&s("alice.near"), 1, s("bob.near"), s("1:1"), None, Some(100), Some(10));
    assert!(matches!(r, Err(ContractError::TotalPayoutOverflow)));
    assert_eq!(owner_of(&c, "1:1").unwrap(), "alice.near");
}

#[test]
fn test_metadata_admins() {
    let mut c = setup();
    assert!(matches!(c.add_token_metadata_admin(&s("bob.near"), s("carol.near")), Err(ContractError::OwnerOnly)));
    assert!(matches!(
        c.add_token_metadata_admin(&s("owner.near"), s("owner.near")),
        Err(ContractError::AdminAlreadyRegistered)
    ));
    c.add_token_metadata_admin(&s("owner.near"), s("carol.near")).unwrap();
    assert!(matches!(
        c.remove_token_metadata_admin(&s("owner.near"), s("dave.near")),
        Err(ContractError::AdminNotRegistered)
    ));
    let mut m = TokenMetadata::empty();
    m.title = Some(s("New default"));
    assert!(matches!(c.set_default_token_metadata(&s("bob.near"), TokenMetadata::empty()), Err(ContractError::NotTokenMetadataAdmin)));
    c.set_default_token_metadata(&s("carol.near"), m).unwrap();
    c.nft_buy(&s("alice.near"), NFT_TOTAL_PRICE, 1).unwrap();
    assert_eq!(c.nft_token(s("1:1")).unwrap().metadata.unwrap().title.unwrap(), "New default #1");
    c.remove_token_metadata_admin(&s("owner.near"), s("carol.near")).unwrap();
    assert!(matches!(c.set_default_token_metadata(&s("carol.near"), TokenMetadata::empty()), Err(ContractError::NotTokenMetadataAdmin)));
}

#[test]
fn test_nft_set_metadata() {
    let mut c = setup();
    c.nft_buy(&s("alice.near"), NFT_TOTAL_PRICE, 1).unwrap();
    let mut m = TokenMetadata::empty();
    m.title = Some(s("Arch Nemesis"));
    m.media = Some(s("bafy"));
    m.description = Some(s("per token"));
    assert!(matches!(c.nft_set_metadata(&s("owner.near"), s("2:1"), TokenMetadata::empty()), Err(ContractError::TokenNotFound)));
    c.nft_set_metadata(&s("owner.near"), s("1:1"), m).unwrap();
    let md = c.nft_token(s("1:1")).unwrap().metadata.unwrap();
    assert_eq!(md.title.unwrap(), "Arch Nemesis #1");
    assert_eq!(md.media.unwrap(), "bafy");
    assert_eq!(md.description.unwrap(), "per token");
    assert_eq!(md.issued_at, None);
    assert_eq!(c.nft_get_series_single(s("1")).unwrap().metadata.title.unwrap(), "Arch Nemesis");
}

#[test]
fn test_limited_copies() {
    let mut c = setup();
    let mut m = TokenMetadata::empty();
    m.copies = Some(1);
    c.set_default_token_metadata(&s("owner.near"), m).unwrap();
    c.nft_buy(&s("alice.near"), NFT_TOTAL_PRICE, 1).unwrap();
    assert_eq!(c.nft_token(s("1:1")).unwrap().metadata.unwrap().title, None);
    assert_eq!(c.nft_get_series_price(s("1")).unwrap(), None);
    assert_eq!(c.token_series[0].is_mintable, false);
    let mut none = TokenMetadata::empty();
    none.copies = Some(0);
    c.set_default_token_metadata(&s("owner.near"), none).unwrap();
    let r = c.nft_buy(&s("alice.near"), NFT_TOTAL_PRICE, 2);
    assert!(matches!(r, Err(ContractError::SeriesSupplyMaxed)));
    assert_eq!(c.nft_total_supply(), 1);
    assert!(matches!(c.nft_get_series_single(s("2")), Err(ContractError::TokenSeriesNotFound)));
}

#[test]
fn test_get_market_data_transaction_fee_falls_back() {
    let c = setup();
    assert_eq!(c.get_market_data_transaction_fee(&s("7")), 500);
    let mut c = setup();
    c.market_data_transaction_fee.transaction_fee.push(paras_nft_contract::state::SeriesFee { token_series_id: s("7"), fee: 250 });
    assert_eq!(c.get_market_data_transaction_fee(&s("7")), 250);
    assert_eq!(c.get_market_data_transaction_fee(&s("8")), 500);
}

#[test]
fn test_series_format() {
    let c = setup();
    assert_eq!(c.nft_get_series_format(), (':', " #", "/"));
}

#[test]
fn test_token_title_counts_copies() {
    let mut c = setup();
    let mut m = TokenMetadata::empty();
    m.title = Some(s("Title"));
    m.copies = Some(10);
    c.set_default_token_metadata(&s("owner.near"), m).unwrap();
    c.nft_buy(&s("alice.near"), NFT_TOTAL_PRICE, 1).unwrap();
    c.nft_buy(&s("bob.near"), NFT_TOTAL_PRICE, 2).unwrap();
    let t = c.nft_token(s("2:1")).unwrap();
    let md = t.metadata.unwrap();
    assert_eq!(md.title.unwrap(), "Title #1/10");
    assert_eq!(md.copies, Some(10));
    assert_eq!(c.nft_get_series_single(s("2")).unwrap().metadata.title.unwrap(), "Title");
    let listed = c.nft_tokens(None, None).unwrap();
    assert_eq!(listed[0].metadata.as_ref().unwrap().title.as_ref().unwrap(), "Title #1/10");
}
