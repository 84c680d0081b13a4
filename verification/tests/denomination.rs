use cashu_store::denomination::{estimate_proof_count, is_proof_count_acceptable, DenominationStrategy};

#[test]
fn test_estimate_proof_count() {
    assert_eq!(estimate_proof_count(1), 1);
    assert_eq!(estimate_proof_count(2), 1);
    assert_eq!(estimate_proof_count(3), 2);
    assert_eq!(estimate_proof_count(7), 3);
    assert_eq!(estimate_proof_count(8), 1);
    assert_eq!(estimate_proof_count(100), 3); // 64 + 32 + 4
}

#[test]
fn test_strategy_from_str() {
    assert_eq!(DenominationStrategy::from_str("large"), DenominationStrategy::Large);
    assert_eq!(DenominationStrategy::from_str("small"), DenominationStrategy::Small);
    assert_eq!(DenominationStrategy::from_str("unknown"), DenominationStrategy::PowerOfTwo);
}

#[test]
fn strategy_names_ignore_case() {
    assert_eq!(DenominationStrategy::from_str("LARGE"), DenominationStrategy::Large);
}

#[test]
fn proof_count_edges() {
    assert_eq!(estimate_proof_count(0), 0);
    assert_eq!(estimate_proof_count(u64::MAX), 64);
    assert!(is_proof_count_acceptable(5, 5));
    assert!(!is_proof_count_acceptable(6, 5));
}

#[test]
fn proof_count_laws_on_values() {
    assert_eq!(estimate_proof_count(0), 0);
    assert_eq!(estimate_proof_count(5 | 8), estimate_proof_count(5) + estimate_proof_count(8));
    assert_eq!(estimate_proof_count(13 << 1), estimate_proof_count(13));
    assert_eq!(estimate_proof_count(u64::MAX), 64);
}
