use cashu_store::strmap::StrMap;
use cashu_store::tracking::{
    cleanup_old_pending_at_mint, clear_pending_at_mint, get_event_ids_for_proofs, get_proofs_pending_at_mint,
    is_proof_pending_at_mint, rebuild_proof_event_map, register_proofs_in_event_map, register_proofs_pending_at_mint,
    remove_from_pending_at_mint, unregister_proofs_from_event_map,
};
use cashu_store::types::{ProofData, ProofState, TokenData};

fn make_proof(secret: &str) -> ProofData {
    ProofData {
        id: "k".to_string(),
        amount: 1,
        secret: secret.to_string(),
        c: "02".to_string(),
        witness: None,
        dleq: None,
        state: ProofState::Unspent,
        transaction_id: None,
        state_set_at: None,
    }
}

fn strings(v: &[&str]) -> Vec<String> {
    v.iter().map(|s| s.to_string()).collect()
}

#[test]
fn event_map_register_lookup_unregister() {
    let mut map: StrMap<String> = StrMap::new();
    register_proofs_in_event_map(&mut map, &"ev-b".to_string(), &vec![make_proof("s1"), make_proof("s2")]);
    register_proofs_in_event_map(&mut map, &"ev-a".to_string(), &vec![make_proof("s3")]);
    let ids = get_event_ids_for_proofs(&map, &strings(&["s3", "s1", "s2", "unknown"]));
    assert_eq!(ids, strings(&["ev-a", "ev-b"]));
    unregister_proofs_from_event_map(&mut map, &strings(&["s1", "s2"]));
    assert_eq!(get_event_ids_for_proofs(&map, &strings(&["s1", "s2"])), Vec::<String>::new());
    assert_eq!(map.get("s3"), Some(&"ev-a".to_string()));
}

#[test]
fn event_map_rebuilt_from_tokens() {
    let tokens = vec![
        TokenData { event_id: "e1".to_string(), mint: "m".to_string(), unit: "sat".to_string(), proofs: vec![make_proof("x")], created_at: 0 },
        TokenData { event_id: "e2".to_string(), mint: "m".to_string(), unit: "sat".to_string(), proofs: vec![make_proof("y")], created_at: 0 },
    ];
    let mut map: StrMap<String> = StrMap::new();
    register_proofs_in_event_map(&mut map, &"stale".to_string(), &vec![make_proof("z")]);
    rebuild_proof_event_map(&mut map, &tokens);
    assert_eq!(map.get("x"), Some(&"e1".to_string()));
    assert_eq!(map.get("y"), Some(&"e2".to_string()));
    assert_eq!(map.get("z"), None);
}

#[test]
fn pending_at_mint_lifecycle() {
    let mut pending: StrMap<u64> = StrMap::new();
    register_proofs_pending_at_mint(&mut pending, &strings(&["a", "b"]), 1000);
    register_proofs_pending_at_mint(&mut pending, &strings(&["c"]), 1500);
    assert!(is_proof_pending_at_mint(&pending, "a"));
    let mut keys = get_proofs_pending_at_mint(&pending);
    keys.sort();
    assert_eq!(keys, strings(&["a", "b", "c"]));
    cleanup_old_pending_at_mint(&mut pending, 1700);
    assert!(!is_proof_pending_at_mint(&pending, "a"));
    assert!(is_proof_pending_at_mint(&pending, "c"));
    remove_from_pending_at_mint(&mut pending, &strings(&["c"]));
    assert!(!is_proof_pending_at_mint(&pending, "c"));
    register_proofs_pending_at_mint(&mut pending, &strings(&["d"]), 5);
    clear_pending_at_mint(&mut pending);
    assert!(get_proofs_pending_at_mint(&pending).is_empty());
}

#[test]
fn pending_cleanup_keeps_entries_at_the_limit() {
    let mut pending: StrMap<u64> = StrMap::new();
    register_proofs_pending_at_mint(&mut pending, &strings(&["edge", "old"]), 100);
    register_proofs_pending_at_mint(&mut pending, &strings(&["old"]), 99);
    cleanup_old_pending_at_mint(&mut pending, 700);
    assert!(is_proof_pending_at_mint(&pending, "edge"));
    assert!(!is_proof_pending_at_mint(&pending, "old"));
}
