use cashu_store::cleanup::{allow_cleanup_deletion, classify_unavailable, cleanup_replacement};
use cashu_store::proof_recovery::MintProofState;
use cashu_store::types::{ProofData, ProofState};

fn make_proof(secret: &str, amount: u64, tx: Option<u64>) -> ProofData {
    ProofData {
        id: "k".to_string(),
        amount,
        secret: secret.to_string(),
        c: "02".to_string(),
        witness: None,
        dleq: None,
        state: ProofState::Unspent,
        transaction_id: tx,
        state_set_at: None,
    }
}

#[test]
fn unavailable_proofs_are_found() {
    let proofs = vec![
        make_proof("a", 1, None),
        make_proof("b", 2, None),
        make_proof("c", 4, None),
        make_proof("d", 8, Some(3)),
        make_proof("e", 16, None),
    ];
    let states = vec![
        MintProofState::Unspent,
        MintProofState::Spent,
        MintProofState::Reserved,
        MintProofState::Reserved,
        MintProofState::Pending,
    ];
    let (gone, value, available) = classify_unavailable(&proofs, &states);
    assert_eq!(gone, vec!["b".to_string(), "c".to_string(), "e".to_string()]);
    assert_eq!(value, 22);
    let left: Vec<&str> = available.iter().map(|p| p.secret.as_str()).collect();
    assert_eq!(left, vec!["a", "d"]);
    assert!(allow_cleanup_deletion(0, false));
    assert!(!allow_cleanup_deletion(2, false));
    assert!(allow_cleanup_deletion(2, true));
}

#[test]
fn cleanup_keeps_left_proofs_under_the_best_id() {
    let m = "https://mint.example";
    let t = cleanup_replacement(&Some("ev".to_string()), &Some("pend".to_string()), 5, m, vec![], 9).unwrap();
    assert_eq!((t.event_id.as_str(), t.mint.as_str(), t.unit.as_str(), t.created_at), ("ev", m, "sat", 9));
    assert!(t.proofs.is_empty());
    let t = cleanup_replacement(&None, &Some("pend".to_string()), 5, m, vec![make_proof("a", 2, None)], 9).unwrap();
    assert_eq!(t.event_id, "pend");
    assert_eq!(t.proofs.len(), 1);
    let t = cleanup_replacement(&None, &None, 1700000000123, m, vec![make_proof("a", 2, None)], 9).unwrap();
    assert_eq!(t.event_id, "local_pending_1700000000123");
    assert!(cleanup_replacement(&None, &None, 5, m, vec![], 9).is_none());
}
