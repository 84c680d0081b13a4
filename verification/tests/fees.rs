use cashu_store::fees::{compare_mint_fees, find_cheapest_mint};
use cashu_store::fees::{
    calculate_proof_fee, swap_fee_estimate, P2pkComplexity, MULTISIG_SIGNATURE_OVERHEAD, P2PK_WITNESS_OVERHEAD,
};

#[test]
fn test_calculate_proof_fee() {
    assert_eq!(calculate_proof_fee(10, 100), 1);
    assert_eq!(calculate_proof_fee(5, 1000), 5);
    assert_eq!(calculate_proof_fee(1, 100), 1);
}

#[test]
fn test_p2pk_witness_size() {
    assert_eq!(P2pkComplexity::Standard.witness_size(), 0);
    assert_eq!(P2pkComplexity::SingleSig.witness_size(), P2PK_WITNESS_OVERHEAD);
    assert_eq!(
        P2pkComplexity::MultiSig { required: 2, total: 3 }.witness_size(),
        P2PK_WITNESS_OVERHEAD + MULTISIG_SIGNATURE_OVERHEAD,
    );
}

#[test]
fn proof_fee_rounds_up_and_saturates() {
    assert_eq!(calculate_proof_fee(0, 100), 0);
    assert_eq!(calculate_proof_fee(3, 334), 2);
    assert_eq!(calculate_proof_fee(usize::MAX, u64::MAX), u64::MAX / 1000);
}

#[test]
fn swap_fee_uses_input_count() {
    let est = swap_fee_estimate(20, 100);
    assert_eq!(est.total_fee, 2);
}

fn estimate(total_fee: u64) -> cashu_store::fees::FeeEstimate {
    cashu_store::fees::FeeEstimate::new(total_fee, 0, 1, 100)
}

#[test]
fn mint_fees_cheapest_first() {
    let estimates = vec![
        ("https://a".to_string(), Some(estimate(3))),
        ("https://b".to_string(), None),
        ("https://c".to_string(), Some(estimate(1))),
        ("https://d".to_string(), Some(estimate(3))),
    ];
    let ranked = compare_mint_fees(estimates.clone());
    let names: Vec<&str> = ranked.iter().map(|(m, _)| m.as_str()).collect();
    // Failed estimates are left out; equal fees keep their order.
    assert_eq!(names, vec!["https://c", "https://a", "https://d"]);
    assert_eq!(ranked[0].1.total_fee, 1);
    let cheapest = find_cheapest_mint(estimates).unwrap();
    assert_eq!(cheapest.0, "https://c");
    assert_eq!(find_cheapest_mint(vec![("https://x".to_string(), None)]), None);
}
