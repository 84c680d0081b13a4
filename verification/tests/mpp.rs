use cashu_store::mpp::{
    aggregate_mpp_melt, calculate_mpp_split, mpp_event_ids_to_delete, mpp_quote_info, MeltContribution, MintBalance,
    MppQuoteContribution,
};
use cashu_store::types::TokenData;

fn bal(url: &str, balance: u64) -> MintBalance {
    MintBalance { mint_url: url.to_string(), balance }
}

#[test]
fn split_takes_largest_first() {
    let balances = vec![bal("a", 30), bal("b", 100), bal("c", 50), bal("d", 0)];
    let split = calculate_mpp_split(&balances, 140, &None).unwrap();
    assert_eq!(split, vec![("b".to_string(), 100), ("c".to_string(), 40)]);
    let total: u64 = split.iter().map(|(_, a)| *a).sum();
    assert_eq!(total, 140);
}

#[test]
fn split_keeps_order_of_equal_balances() {
    let balances = vec![bal("x", 10), bal("y", 10), bal("z", 10)];
    let split = calculate_mpp_split(&balances, 25, &None).unwrap();
    assert_eq!(split, vec![("x".to_string(), 10), ("y".to_string(), 10), ("z".to_string(), 5)]);
}

#[test]
fn split_respects_included_mints() {
    let balances = vec![bal("a", 30), bal("b", 100)];
    let split = calculate_mpp_split(&balances, 20, &Some(vec!["a".to_string()])).unwrap();
    assert_eq!(split, vec![("a".to_string(), 20)]);
}

#[test]
fn split_errors() {
    assert_eq!(calculate_mpp_split(&vec![bal("a", 0)], 1, &None).unwrap_err(), "No mints with available balance");
    assert_eq!(
        calculate_mpp_split(&vec![bal("a", 5), bal("b", 6)], 20, &None).unwrap_err(),
        "Insufficient total balance: 11 sats available, 20 sats needed"
    );
    assert_eq!(
        calculate_mpp_split(&vec![bal("a", u64::MAX), bal("b", 1)], 20, &None).unwrap_err(),
        "Balance sum overflow in MPP split calculation"
    );
}

fn contribution(url: &str, amount: u64, fee: u64) -> MppQuoteContribution {
    MppQuoteContribution { mint_url: url.to_string(), quote_id: format!("q-{}", url), amount, fee_reserve: fee }
}

#[test]
fn quote_totals() {
    let info = mpp_quote_info(vec![contribution("a", 100, 2), contribution("b", 40, 1)]).unwrap();
    assert_eq!(info.total_amount, 140);
    assert_eq!(info.total_fee_reserve, 3);
    assert_eq!(info.contributions.len(), 2);
    assert_eq!(
        mpp_quote_info(vec![contribution("a", u64::MAX, 0), contribution("b", 1, 0)]).unwrap_err(),
        "MPP quote total amount overflow"
    );
    assert_eq!(
        mpp_quote_info(vec![contribution("a", 1, u64::MAX), contribution("b", 1, 1)]).unwrap_err(),
        "MPP quote fee reserve overflow"
    );
}

#[test]
fn melt_aggregation() {
    let results = vec![
        MeltContribution { amount: 100, fee_paid: 2, payment_proof: None, paid: true },
        MeltContribution { amount: 40, fee_paid: 1, payment_proof: Some("pre".to_string()), paid: true },
        MeltContribution { amount: 0, fee_paid: 0, payment_proof: Some("other".to_string()), paid: false },
    ];
    let r = aggregate_mpp_melt(&results).unwrap();
    assert_eq!(r.total_amount_paid, 140);
    assert_eq!(r.total_fee_paid, 3);
    assert_eq!(r.preimage.as_deref(), Some("pre"));
    assert!(!r.paid);
    assert_eq!(r.contributions, 3);
    let overflow = vec![
        MeltContribution { amount: u64::MAX, fee_paid: 0, payment_proof: None, paid: true },
        MeltContribution { amount: 1, fee_paid: 0, payment_proof: None, paid: true },
    ];
    assert_eq!(aggregate_mpp_melt(&overflow).unwrap_err(), "MPP total amount overflow");
}

#[test]
fn event_ids_for_affected_mints() {
    let tokens = vec![
        TokenData { event_id: "e1".to_string(), mint: "a".to_string(), unit: "sat".to_string(), proofs: vec![], created_at: 0 },
        TokenData { event_id: "e2".to_string(), mint: "b".to_string(), unit: "sat".to_string(), proofs: vec![], created_at: 0 },
        TokenData { event_id: "e3".to_string(), mint: "a".to_string(), unit: "sat".to_string(), proofs: vec![], created_at: 0 },
    ];
    let ids = mpp_event_ids_to_delete(&tokens, &vec!["b".to_string(), "a".to_string()]);
    assert_eq!(ids, vec!["e2".to_string(), "e1".to_string(), "e3".to_string()]);
}
