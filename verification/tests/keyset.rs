use cashu_store::keyset::{calculate_proofs_fee, count_proofs_by_status, get_proofs_to_migrate, is_keyset_active, CachedKeyset};
use cashu_store::types::{ProofData, ProofState, TokenData};

fn make_proof(id: &str, secret: &str, amount: u64) -> ProofData {
    ProofData {
        id: id.to_string(),
        amount,
        secret: secret.to_string(),
        c: "02".to_string(),
        witness: None,
        dleq: None,
        state: ProofState::Unspent,
        transaction_id: None,
        state_set_at: None,
    }
}

fn keyset(id: &str, active: bool) -> CachedKeyset {
    CachedKeyset { id: id.to_string(), unit: "sat".to_string(), active, input_fee_ppk: 100, cached_at: 0 }
}

#[test]
fn test_count_proofs_by_status_empty() {
    let tokens: Vec<TokenData> = Vec::new();
    let keysets: Vec<CachedKeyset> = Vec::new();
    let (active, inactive, _, _) = count_proofs_by_status(&tokens, &keysets, "https://nonexistent.mint");
    assert_eq!(active, 0);
    assert_eq!(inactive, 0);
}

#[test]
fn proofs_split_by_keyset_activity() {
    let tokens = vec![TokenData {
        event_id: "e1".to_string(),
        mint: "https://mint.a".to_string(),
        unit: "sat".to_string(),
        proofs: vec![make_proof("old", "s1", 8), make_proof("new", "s2", 2), make_proof("old", "s3", 1)],
        created_at: 0,
    }];
    let keysets = vec![keyset("old", false), keyset("new", true)];
    assert!(is_keyset_active(&keysets, "new"));
    assert!(!is_keyset_active(&keysets, "old"));
    assert_eq!(count_proofs_by_status(&tokens, &keysets, "https://mint.a"), (1, 2, 2, 9));
    let migrate = get_proofs_to_migrate(&tokens, &keysets, "https://mint.a");
    assert_eq!(migrate.len(), 2);
    assert_eq!(migrate[0].secret, "s1");
}

#[test]
fn per_proof_fee_rounds_each_proof() {
    let keysets = vec![keyset("k1", true)];
    let proofs = vec![make_proof("k1", "s1", 1), make_proof("k1", "s2", 2), make_proof("k1", "s3", 4)];
    assert_eq!(calculate_proofs_fee(&keysets, &proofs), 3);
    assert_eq!(cashu_store::fees::calculate_proof_fee(3, 100), 1);
    let unknown = vec![make_proof("zz", "s4", 1)];
    assert_eq!(calculate_proofs_fee(&keysets, &unknown), 0);
}
