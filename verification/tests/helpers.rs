use paras_nft_contract::account::is_valid_account_id;
use paras_nft_contract::decimal::to_decimal;
use paras_nft_contract::ids::{make_series_id, make_token_id};
use paras_nft_contract::near::{must_revert_transfer, PromiseResult};
use paras_nft_contract::order::{compare_str, KeyOrder};
use paras_nft_contract::payout::royalty_to_payout;

#[test]
fn test_to_decimal() {
    assert_eq!(to_decimal(0), "0");
    assert_eq!(to_decimal(7), "7");
    assert_eq!(to_decimal(10), "10");
    assert_eq!(to_decimal(26800), "26800");
    assert_eq!(to_decimal(u64::MAX), "18446744073709551615");
}

#[test]
fn test_token_and_series_ids() {
    assert_eq!(make_series_id(0), "1");
    assert_eq!(make_series_id(41), "42");
    assert_eq!(make_token_id(&"42".to_string(), 2), "42:2");
}

#[test]
fn test_account_ids() {
    assert!(is_valid_account_id(&"alice.near".to_string()));
    assert!(is_valid_account_id(&"a-b_c.d9".to_string()));
    assert!(!is_valid_account_id(&"a".to_string()));
    assert!(!is_valid_account_id(&"Alice.near".to_string()));
    assert!(!is_valid_account_id(&"alice..near".to_string()));
    assert!(!is_valid_account_id(&".alice".to_string()));
    assert!(!is_valid_account_id(&"alice-".to_string()));
    assert!(!is_valid_account_id(&"a".repeat(65)));
    assert!(is_valid_account_id(&"a".repeat(64)));
}

#[test]
fn test_compare_str() {
    let s = |x: &str| x.to_string();
    assert_eq!(compare_str(&s("10:1"), &s("1:1")), KeyOrder::Less);
    assert_eq!(compare_str(&s("1:1"), &s("1:1")), KeyOrder::Equal);
    assert_eq!(compare_str(&s("1:1"), &s("1:10")), KeyOrder::Less);
    assert_eq!(compare_str(&s("2"), &s("10")), KeyOrder::Greater);
}

#[test]
fn test_royalty_to_payout() {
    assert_eq!(royalty_to_payout(1000, 1_000_000_000_000_000_000_000_000), 100_000_000_000_000_000_000_000);
    assert_eq!(royalty_to_payout(10_000, 7), 7);
    assert_eq!(royalty_to_payout(3333, 3), 0);
    assert_eq!(royalty_to_payout(5000, 3), 1);
}

#[test]
fn test_must_revert_transfer() {
    assert_eq!(must_revert_transfer(&PromiseResult::Successful(b"false".to_vec())).unwrap(), false);
    assert_eq!(must_revert_transfer(&PromiseResult::Successful(b" \ntrue\t".to_vec())).unwrap(), true);
    assert_eq!(must_revert_transfer(&PromiseResult::Successful(b"\"false\"".to_vec())).unwrap(), true);
    assert_eq!(must_revert_transfer(&PromiseResult::Successful(b"false x".to_vec())).unwrap(), true);
    assert_eq!(must_revert_transfer(&PromiseResult::Failed).unwrap(), true);
    assert!(must_revert_transfer(&PromiseResult::NotReady).is_err());
}
