use cashu_store::mint_mgmt::{
    extract_keyset_id_from_proof, find_keyset_collisions, get_mint_balance, get_mint_proof_count,
    get_mint_spendable_balance, get_mint_unit_spendable_balance, get_total_proof_count, keyset_owners,
    check_mint_not_present, check_required_nuts, consolidation_inputs, consolidation_publish_verdict,
    is_already_optimized, mint_token_summary, remove_mint_from_list, remove_mint_tokens, swap_batches,
};
use cashu_store::receive::{PublishReply, PublishVerdict};
use cashu_store::types::{ProofData, ProofState, TokenData};

fn make_proof(secret: &str, amount: u64) -> ProofData {
    ProofData {
        id: "k".to_string(),
        amount,
        secret: secret.to_string(),
        c: "02".to_string(),
        witness: None,
        dleq: None,
        state: ProofState::Unspent,
        transaction_id: None,
        state_set_at: None,
    }
}

fn token(id: &str, mint: &str, unit: &str, proofs: Vec<ProofData>) -> TokenData {
    TokenData { event_id: id.to_string(), mint: mint.to_string(), unit: unit.to_string(), proofs, created_at: 0 }
}

#[test]
fn consolidation_collects_the_mint() {
    let tokens = vec![
        token("e1", "https://mint.a", "sat", vec![make_proof("a", 1), make_proof("b", 2)]),
        token("e2", "https://mint.b", "sat", vec![make_proof("c", 4)]),
        token("e3", "https://mint.a/", "sat", vec![make_proof("d", 8)]),
    ];
    let (proofs, ids, unit) = consolidation_inputs(&tokens, "https://mint.a").unwrap();
    assert_eq!(proofs.len(), 3);
    assert_eq!(ids, vec!["e1".to_string(), "e3".to_string()]);
    assert_eq!(unit, "sat");
    assert_eq!(consolidation_inputs(&tokens, "https://none").unwrap_err(), "No tokens found for this mint");
}

#[test]
fn consolidation_refuses_mixed_units() {
    let tokens = vec![
        token("e1", "https://mint.a", "sat", vec![make_proof("a", 1)]),
        token("e2", "https://mint.a", "usd", vec![make_proof("b", 1)]),
    ];
    assert_eq!(
        consolidation_inputs(&tokens, "https://mint.a").unwrap_err(),
        "Mixed units in mint proofs: 'sat' and 'usd' - cannot consolidate"
    );
}

#[test]
fn consolidation_threshold_and_batches() {
    assert!(is_already_optimized(8));
    assert!(!is_already_optimized(9));
    let proofs: Vec<ProofData> = (0..250).map(|i| make_proof(&format!("s{}", i), 2)).collect();
    let batches = swap_batches(proofs);
    let sizes: Vec<usize> = batches.iter().map(|(b, _)| b.len()).collect();
    assert_eq!(sizes, vec![100, 100, 50]);
    assert_eq!(batches[2].1, 100);
    assert_eq!(batches[0].0[0].secret, "s0");
}

#[test]
fn consolidation_publish_verdicts() {
    assert_eq!(consolidation_publish_verdict(&PublishReply::Error("Event too LARGE".to_string())), PublishVerdict::Permanent);
    assert_eq!(consolidation_publish_verdict(&PublishReply::Error("malformed".to_string())), PublishVerdict::Permanent);
    assert_eq!(consolidation_publish_verdict(&PublishReply::Error("duplicate".to_string())), PublishVerdict::Retry);
    assert_eq!(consolidation_publish_verdict(&PublishReply::AllFailed(vec![])), PublishVerdict::Retry);
}

#[test]
fn adding_a_mint_checks() {
    let existing = vec!["https://Mint.A/".to_string()];
    assert_eq!(check_mint_not_present("https://mint.a", &existing).unwrap_err(), "Mint already exists in wallet");
    assert!(check_mint_not_present("https://mint.b", &existing).is_ok());
    assert!(check_required_nuts(&vec![4, 5, 7]).is_ok());
    assert_eq!(
        check_required_nuts(&vec![4, 7]).unwrap_err(),
        "Mint doesn't support required features. NUT-4: true, NUT-5: false"
    );
}

#[test]
fn removing_a_mint() {
    let mut tokens = vec![
        token("e1", "https://mint.a", "sat", vec![make_proof("a", 1), make_proof("b", 2)]),
        token("e2", "https://mint.b", "sat", vec![make_proof("c", 4)]),
        token("e3", "https://MINT.A", "sat", vec![make_proof("d", 8)]),
    ];
    let (ids, total, count) = mint_token_summary(&tokens, "https://mint.a");
    assert_eq!(ids, vec!["e1".to_string(), "e3".to_string()]);
    assert_eq!(total, 11);
    assert_eq!(count, 2);
    remove_mint_tokens(&mut tokens, "https://mint.a/");
    assert_eq!(tokens.len(), 1);
    assert_eq!(tokens[0].event_id, "e2");
    let mints = vec!["https://mint.a".to_string(), "https://mint.b".to_string()];
    assert_eq!(remove_mint_from_list(&mints, "https://MINT.A"), vec!["https://mint.b".to_string()]);
}

fn proof_with(id: &str, amount: u64, state: ProofState) -> ProofData {
    let mut p = make_proof(id, amount);
    p.id = id.to_string();
    p.state = state;
    p
}

#[test]
fn balances_and_counts_per_mint() {
    let tokens = vec![
        token("e1", "https://mint.a", "sat", vec![make_proof("a", 1), proof_with("k", 2, ProofState::Spent)]),
        token("e2", "https://mint.b", "sat", vec![make_proof("c", 4)]),
        token("e3", "https://MINT.a/", "usd", vec![make_proof("d", 8), proof_with("k", 16, ProofState::Reserved)]),
    ];
    assert_eq!(get_mint_balance(&tokens, "https://mint.a"), 27);
    assert_eq!(get_mint_spendable_balance(&tokens, "https://mint.a"), 9);
    assert_eq!(get_mint_unit_spendable_balance(&tokens, "https://mint.a", "sat"), 1);
    assert_eq!(get_mint_unit_spendable_balance(&tokens, "https://mint.a", "usd"), 8);
    assert_eq!(get_mint_proof_count(&tokens, "https://mint.a"), 4);
    assert_eq!(get_total_proof_count(&tokens), 5);
    let big = vec![token("x", "https://m", "sat", vec![make_proof("a", u64::MAX), make_proof("b", 1)])];
    assert_eq!(get_mint_balance(&big, "https://m"), u64::MAX);
}

#[test]
fn keyset_ids_of_proofs() {
    assert_eq!(extract_keyset_id_from_proof(&proof_with("00ad268c4d1f5826", 1, ProofState::Unspent)), None);
    assert_eq!(extract_keyset_id_from_proof(&proof_with("00ad268c4d1f58", 1, ProofState::Unspent)), Some("00ad268c4d1f58".to_string()));
    let long = "0A".repeat(32);
    assert_eq!(extract_keyset_id_from_proof(&proof_with(&long, 1, ProofState::Unspent)), Some(long.clone()));
    assert_eq!(extract_keyset_id_from_proof(&proof_with("00ad268c4d1f5g", 1, ProofState::Unspent)), None);
    assert_eq!(extract_keyset_id_from_proof(&proof_with("00ad268c4d1_58", 1, ProofState::Unspent)), None);
}

#[test]
fn keyset_collisions_with_known_mints() {
    let wallets = vec![
        ("https://a".to_string(), vec!["00aaaaaaaaaaaa".to_string(), "00bbbbbbbbbbbb".to_string()]),
        ("https://b".to_string(), vec!["00bbbbbbbbbbbb".to_string()]),
    ];
    let tokens = vec![
        token("e1", "https://c", "sat", vec![proof_with("00cccccccccccc", 1, ProofState::Unspent)]),
        token("e2", "https://d", "sat", vec![proof_with("00aaaaaaaaaaaa", 1, ProofState::Unspent)]),
    ];
    let owners = keyset_owners(&wallets, &tokens);
    assert_eq!(owners.get("00aaaaaaaaaaaa"), Some(&"https://a".to_string()));
    // A later wallet replaces an earlier one; proofs only claim unowned ids.
    assert_eq!(owners.get("00bbbbbbbbbbbb"), Some(&"https://b".to_string()));
    assert_eq!(owners.get("00cccccccccccc"), Some(&"https://c".to_string()));

    let found = find_keyset_collisions(
        &owners,
        "https://b",
        &vec!["00bbbbbbbbbbbb".to_string(), "00aaaaaaaaaaaa".to_string(), "00dddddddddddd".to_string()],
    );
    assert_eq!(found.len(), 1);
    assert_eq!(found[0].keyset_id, "00aaaaaaaaaaaa");
    assert_eq!(found[0].existing_mint, "https://a");
    assert_eq!(found[0].new_mint, "https://b");
}
