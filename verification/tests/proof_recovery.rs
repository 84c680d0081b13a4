use cashu_store::proof_recovery::{
    apply_proof_check_results, calculate_urgency, detect_stuck_proofs, MintProofState, ProofRecoveryResult, UrgencyLevel,
};
use cashu_store::types::{ProofData, ProofState, TokenData};

fn make_proof(secret: &str, amount: u64, state: ProofState, set_at: Option<u64>) -> ProofData {
    ProofData {
        id: "k1".to_string(),
        amount,
        secret: secret.to_string(),
        c: "02".to_string(),
        witness: None,
        dleq: None,
        state,
        transaction_id: if state == ProofState::Reserved { Some(7) } else { None },
        state_set_at: set_at,
    }
}

#[test]
fn test_recovery_result_default() {
    let result = ProofRecoveryResult::default();
    assert_eq!(result.recovered_count, 0);
    assert_eq!(result.recovered_value, 0);
}

#[test]
fn stuck_proofs_are_pending_past_timeout() {
    let tokens = vec![TokenData {
        event_id: "e".to_string(),
        mint: "https://mint.a".to_string(),
        unit: "sat".to_string(),
        proofs: vec![
            make_proof("old", 4, ProofState::Reserved, Some(1000)),
            make_proof("fresh", 2, ProofState::Reserved, Some(1990)),
            make_proof("ok", 1, ProofState::Unspent, None),
        ],
        created_at: 0,
    }];
    let stuck = detect_stuck_proofs(&tokens, 2000, 300);
    assert_eq!(stuck.len(), 1);
    assert_eq!(stuck[0].secret, "old");
}

#[test]
fn urgency_grows_with_time() {
    assert_eq!(calculate_urgency(0), UrgencyLevel::Normal);
    assert_eq!(calculate_urgency(301), UrgencyLevel::Warning);
    assert_eq!(calculate_urgency(601), UrgencyLevel::High);
    assert_eq!(calculate_urgency(1801), UrgencyLevel::Critical);
}

#[test]
fn check_results_recover_and_drop_spent() {
    let mut tokens = vec![
        TokenData {
            event_id: "e1".to_string(),
            mint: "https://mint.a".to_string(),
            unit: "sat".to_string(),
            proofs: vec![make_proof("a", 4, ProofState::Reserved, Some(1)), make_proof("b", 2, ProofState::PendingSpent, None)],
            created_at: 0,
        },
        TokenData {
            event_id: "e2".to_string(),
            mint: "https://mint.a".to_string(),
            unit: "sat".to_string(),
            proofs: vec![make_proof("c", 8, ProofState::PendingSpent, None)],
            created_at: 0,
        },
    ];
    let checked = vec![
        ("a".to_string(), 4, MintProofState::Unspent),
        ("b".to_string(), 2, MintProofState::Spent),
        ("c".to_string(), 8, MintProofState::Spent),
    ];
    let result = apply_proof_check_results(&mut tokens, "https://mint.a/", &checked);
    assert_eq!(result.recovered_count, 1);
    assert_eq!(result.recovered_value, 4);
    assert_eq!(result.spent_count, 2);
    assert_eq!(result.spent_value, 10);
    assert_eq!(tokens.len(), 1);
    assert_eq!(tokens[0].proofs.len(), 1);
    assert_eq!(tokens[0].proofs[0].state, ProofState::Unspent);
    assert_eq!(tokens[0].proofs[0].transaction_id, None);
}
