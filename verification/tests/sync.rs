use cashu_store::sync::{assemble_tokens, merge_incremental, FetchedTokenEvent, TokenEventData, TokenEventProof};
use cashu_store::types::{ProofData, ProofState, TokenData};

fn stored(id: &str, secret: &str, amount: u64) -> TokenEventProof {
    TokenEventProof { id: id.to_string(), amount, secret: secret.to_string(), c: "02ab".to_string(), witness: None, dleq: None }
}

fn event(id: &str, mint: &str, proofs: Vec<TokenEventProof>, del: Vec<&str>) -> FetchedTokenEvent {
    FetchedTokenEvent {
        event_id: id.to_string(),
        created_at: 77,
        content: Some(TokenEventData {
            mint: mint.to_string(),
            unit: "sat".to_string(),
            proofs,
            del: del.into_iter().map(|s| s.to_string()).collect(),
        }),
    }
}

#[test]
fn assembles_tokens_skipping_deleted_and_empty() {
    let events = vec![
        event("e1", "https://Mint.A/", vec![stored("k1", "s1", 4), stored("", "s2", 2)], vec![]),
        event("e2", "https://mint.a", vec![stored("k1", "s3", 8)], vec!["e1"]),
        event("e3", "https://mint.b", vec![], vec![]),
        event("e4", "https://mint.b", vec![stored("k2", "s4", 1)], vec![]),
        FetchedTokenEvent { event_id: "e5".to_string(), created_at: 1, content: None },
    ];
    let (tokens, total, deleted) = assemble_tokens(&events, &vec!["e4".to_string()]).unwrap();
    let ids: Vec<&str> = tokens.iter().map(|t| t.event_id.as_str()).collect();
    assert_eq!(ids, vec!["e2"]);
    assert_eq!(total, 8);
    assert_eq!(tokens[0].mint, "https://mint.a");
    assert_eq!(tokens[0].created_at, 77);
    assert_eq!(deleted, vec!["e4".to_string(), "e1".to_string()]);
}

#[test]
fn stored_proof_without_id_gets_one() {
    let events = vec![event("e1", "https://mint.a/", vec![stored("", "sec", 16)], vec![])];
    let (tokens, total, _) = assemble_tokens(&events, &Vec::new()).unwrap();
    assert_eq!(total, 16);
    assert_eq!(tokens[0].mint, "https://mint.a");
    assert_eq!(tokens[0].proofs[0].id, "sec_16");
    assert_eq!(tokens[0].proofs[0].state, ProofState::Unspent);
}

#[test]
fn overflow_in_an_event_is_reported() {
    let events = vec![event("big", "m", vec![stored("k", "a", u64::MAX), stored("k", "b", 1)], vec![])];
    assert_eq!(assemble_tokens(&events, &Vec::new()).unwrap_err(), "Proof amount overflow in token event big");
    let events = vec![
        event("one", "m", vec![stored("k", "a", u64::MAX)], vec![]),
        event("two", "m", vec![stored("k", "b", 1)], vec![]),
    ];
    assert_eq!(assemble_tokens(&events, &Vec::new()).unwrap_err(), "Balance overflow when adding token event two");
}

fn make_proof(secret: &str, amount: u64) -> ProofData {
    ProofData {
        id: "k".to_string(),
        amount,
        secret: secret.to_string(),
        c: "02".to_string(),
        witness: None,
        dleq: None,
        state: ProofState::Unspent,
        transaction_id: None,
        state_set_at: None,
    }
}

fn token(id: &str, amount: u64) -> TokenData {
    TokenData { event_id: id.to_string(), mint: "m".to_string(), unit: "sat".to_string(), proofs: vec![make_proof(id, amount)], created_at: 0 }
}

#[test]
fn incremental_merge() {
    let existing = vec![token("e1", 1), token("e2", 2)];
    let fetched = vec![token("e2", 2), token("e3", 4)];
    let (merged, total) = merge_incremental(&existing, &fetched, &vec!["e1".to_string()]).unwrap();
    let ids: Vec<&str> = merged.iter().map(|t| t.event_id.as_str()).collect();
    assert_eq!(ids, vec!["e2", "e3"]);
    assert_eq!(total, 6);
}
