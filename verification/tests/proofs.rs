use cashu_store::proofs::check_proof_fields;
use cashu_store::proofs::validate_proof_format;
use std::str::FromStr;
use cashu_store::proofs::{select_proofs_for_amount, select_proofs_prefer_inactive, sort_by_amount_desc};
use cashu_store::types::{ProofData, ProofState};

fn make_proof(id: &str, secret: &str, amount: u64, state: ProofState) -> ProofData {
    ProofData {
        id: id.to_string(),
        amount,
        secret: secret.to_string(),
        c: "02".to_string(),
        witness: None,
        dleq: None,
        state,
        transaction_id: None,
        state_set_at: None,
    }
}

fn secrets(v: &[ProofData]) -> Vec<&str> {
    v.iter().map(|p| p.secret.as_str()).collect()
}

#[test]
fn exact_match_is_taken_alone() {
    let proofs = vec![
        make_proof("k", "a", 8, ProofState::Unspent),
        make_proof("k", "b", 4, ProofState::Unspent),
        make_proof("k", "c", 2, ProofState::Unspent),
    ];
    let (sel, fee) = select_proofs_for_amount(&proofs, 4, true, 100).unwrap();
    assert_eq!(secrets(&sel), vec!["b"]);
    assert_eq!(fee, 1);
}

#[test]
fn greedy_selection_covers_amount_and_fee() {
    let proofs = vec![
        make_proof("k", "a", 2, ProofState::Unspent),
        make_proof("k", "b", 8, ProofState::Unspent),
        make_proof("k", "c", 4, ProofState::Reserved),
        make_proof("k", "d", 1, ProofState::Unspent),
    ];
    let (sel, fee) = select_proofs_for_amount(&proofs, 9, true, 100).unwrap();
    assert_eq!(secrets(&sel), vec!["b", "a"]);
    assert_eq!(fee, 1);
    assert_eq!(
        select_proofs_for_amount(&proofs, 9, true, 1000).unwrap_err(),
        "Could not select enough proofs: selected=11, needed=12"
    );
    let (sel, fee) = select_proofs_for_amount(&proofs, 9, false, 1000).unwrap();
    assert_eq!(secrets(&sel), vec!["b", "a"]);
    assert_eq!(fee, 0);
}

#[test]
fn selection_errors() {
    assert_eq!(select_proofs_for_amount(&Vec::new(), 1, false, 0).unwrap_err(), "No proofs available");
    let proofs = vec![make_proof("k", "a", 2, ProofState::Unspent), make_proof("k", "b", 4, ProofState::Spent)];
    assert_eq!(
        select_proofs_for_amount(&proofs, 5, false, 0).unwrap_err(),
        "Insufficient funds: available=2, required=5"
    );
    let proofs = vec![make_proof("k", "a", 2, ProofState::Unspent), make_proof("k", "b", 1, ProofState::Unspent)];
    assert_eq!(
        select_proofs_for_amount(&proofs, 3, true, 1000).unwrap_err(),
        "Could not select enough proofs: selected=3, needed=5"
    );
    let proofs = vec![make_proof("k", "a", u64::MAX, ProofState::Unspent), make_proof("k", "b", 1, ProofState::Unspent)];
    assert_eq!(select_proofs_for_amount(&proofs, 3, false, 0).unwrap_err(), "Total available balance overflow");
}

#[test]
fn inactive_keysets_are_spent_first() {
    let proofs = vec![
        make_proof("active", "a", 8, ProofState::Unspent),
        make_proof("old", "b", 2, ProofState::Unspent),
        make_proof("old", "c", 4, ProofState::Unspent),
        make_proof("active", "d", 16, ProofState::Unspent),
    ];
    let active = vec!["active".to_string()];
    let sel = select_proofs_prefer_inactive(&proofs, 10, &active).unwrap();
    assert_eq!(secrets(&sel), vec!["c", "b", "d"]);
    assert_eq!(
        select_proofs_prefer_inactive(&proofs, 100, &active).unwrap_err(),
        "Insufficient funds: selected=30, required=100"
    );
}

#[test]
fn sorting_is_stable_and_descending() {
    let proofs = vec![
        make_proof("k", "a", 1, ProofState::Unspent),
        make_proof("k", "b", 4, ProofState::Unspent),
        make_proof("k", "c", 1, ProofState::Unspent),
        make_proof("k", "d", 4, ProofState::Unspent),
    ];
    assert_eq!(secrets(&sort_by_amount_desc(&proofs)), vec!["b", "d", "a", "c"]);
}

#[test]
fn proof_field_checks() {
    let c = format!("02{}", "ab".repeat(32));
    assert_eq!(check_proof_fields("009a1f293253e41e", "secret", &c, 8), Ok(()));
    assert_eq!(
        check_proof_fields("009a1f29", "secret", &c, 8),
        Err("Invalid keyset_id length: expected 16, got 8".to_string())
    );
    assert_eq!(check_proof_fields("009a1f293253e41e", "", &c, 8), Err("Empty proof secret".to_string()));
    assert_eq!(
        check_proof_fields("009a1f293253e41e", "s", "02ab", 8),
        Err("Invalid C point length: expected 66, got 4".to_string())
    );
    assert_eq!(check_proof_fields("009a1f293253e41e", "s", &c, 0), Err("Proof amount is zero".to_string()));
}

#[test]
fn cdk_proof_format() {
    let proof = cdk::nuts::Proof::new(
        cdk::Amount::from(8u64),
        cdk::nuts::Id::from_str("009a1f293253e41e").unwrap(),
        cdk::secret::Secret::new("secret"),
        cdk::nuts::PublicKey::from_hex("0279be667ef9dcbbac55a06295ce870b07029bfcdb2dce28d959f2815b16f81798").unwrap(),
    );
    assert_eq!(validate_proof_format(&proof), Ok(()));
    let zero = cdk::nuts::Proof::new(
        cdk::Amount::from(0u64),
        cdk::nuts::Id::from_str("009a1f293253e41e").unwrap(),
        cdk::secret::Secret::new("secret"),
        cdk::nuts::PublicKey::from_hex("0279be667ef9dcbbac55a06295ce870b07029bfcdb2dce28d959f2815b16f81798").unwrap(),
    );
    assert_eq!(validate_proof_format(&zero), Err("Proof amount is zero".to_string()));
}
