use cashu_store::enriched_history::{SwapReason, TransactionType};

#[test]
fn test_transaction_type_display() {
    assert_eq!(TransactionType::LightningSend.display_name(), "Lightning Send");
    assert_eq!(TransactionType::P2pkReceive.display_name(), "P2PK Receive");
}

#[test]
fn test_swap_reason() {
    let reason = SwapReason::Consolidation;
    assert!(matches!(reason, SwapReason::Consolidation));
}
