use cashu_store::store::{
    find_matching_real_event, get_all_proofs_for_mint, get_pending_proofs_for_mint, get_proofs_by_secrets,
    get_spendable_proofs_for_mint, move_proofs_to_reserved, move_proofs_to_spent, replace_tokens,
    revert_proofs_to_spendable, update_token_event_id,
};
use cashu_store::types::{ProofData, ProofState, TokenData};

fn make_proof(secret: &str, amount: u64) -> ProofData {
    ProofData {
        id: "k1".to_string(),
        amount,
        secret: secret.to_string(),
        c: "02".to_string(),
        witness: None,
        dleq: None,
        state: ProofState::Unspent,
        transaction_id: None,
        state_set_at: None,
    }
}

fn token(event_id: &str, mint: &str, proofs: Vec<ProofData>) -> TokenData {
    TokenData { event_id: event_id.to_string(), mint: mint.to_string(), unit: "sat".to_string(), proofs, created_at: 5 }
}

fn wallet() -> Vec<TokenData> {
    vec![
        token("e1", "https://mint.a", vec![make_proof("a", 1), make_proof("b", 2)]),
        token("e2", "https://mint.b", vec![make_proof("c", 4)]),
        token("e3", "https://MINT.A/", vec![make_proof("d", 8)]),
    ]
}

fn secrets(v: &[&str]) -> Vec<String> {
    v.iter().map(|s| s.to_string()).collect()
}

#[test]
fn reserve_then_revert_restores_proofs() {
    let mut tokens = wallet();
    move_proofs_to_reserved(&mut tokens, &secrets(&["a", "c"]), 42, 1000);
    assert_eq!(tokens[0].proofs[0].state, ProofState::Reserved);
    assert_eq!(tokens[0].proofs[0].transaction_id, Some(42));
    assert_eq!(tokens[0].proofs[0].state_set_at, Some(1000));
    assert_eq!(tokens[0].proofs[1].state, ProofState::Unspent);
    assert_eq!(tokens[1].proofs[0].state, ProofState::Reserved);
    revert_proofs_to_spendable(&mut tokens, &secrets(&["a", "c"]));
    for t in &tokens {
        for p in &t.proofs {
            assert_eq!(p.state, ProofState::Unspent);
            assert_eq!(p.transaction_id, None);
            assert_eq!(p.state_set_at, None);
        }
    }
}

#[test]
fn spent_proofs_are_marked() {
    let mut tokens = wallet();
    move_proofs_to_reserved(&mut tokens, &secrets(&["b"]), 1, 10);
    move_proofs_to_spent(&mut tokens, &secrets(&["b"]));
    assert_eq!(tokens[0].proofs[1].state, ProofState::Spent);
    assert_eq!(tokens[0].proofs[1].transaction_id, None);
    assert_eq!(tokens[0].proofs[1].state_set_at, None);
}

#[test]
fn queries_by_mint() {
    let mut tokens = wallet();
    move_proofs_to_reserved(&mut tokens, &secrets(&["b"]), 1, 10);
    let all: Vec<String> = get_all_proofs_for_mint(&tokens, "https://mint.a").into_iter().map(|p| p.secret).collect();
    assert_eq!(all, secrets(&["a", "b", "d"]));
    let spendable: Vec<String> =
        get_spendable_proofs_for_mint(&tokens, "https://mint.a").into_iter().map(|p| p.secret).collect();
    assert_eq!(spendable, secrets(&["a", "d"]));
    let pending: Vec<String> = get_pending_proofs_for_mint(&tokens, "https://mint.a").into_iter().map(|p| p.secret).collect();
    assert_eq!(pending, secrets(&["b"]));
    let by_secret: Vec<String> =
        get_proofs_by_secrets(&tokens, "https://mint.a", &secrets(&["d", "c"])).into_iter().map(|p| p.secret).collect();
    assert_eq!(by_secret, secrets(&["d"]));
}

#[test]
fn replace_removes_and_appends() {
    let mut tokens = wallet();
    replace_tokens(&mut tokens, vec![token("e4", "https://mint.a", vec![make_proof("z", 16)])], &secrets(&["e1", "e3"]));
    let ids: Vec<&str> = tokens.iter().map(|t| t.event_id.as_str()).collect();
    assert_eq!(ids, vec!["e2", "e4"]);
}

#[test]
fn pending_id_is_replaced() {
    let mut tokens = wallet();
    tokens.push(token("pending_x", "https://mint.a", vec![make_proof("p", 1)]));
    assert!(update_token_event_id(&mut tokens, "pending_x", "abcd").is_ok());
    assert_eq!(tokens[3].event_id, "abcd");
    assert_eq!(update_token_event_id(&mut tokens, "pending_y", "zz").unwrap_err(), "Token with pending_id pending_y not found");
}

#[test]
fn pending_token_matches_published_event_with_same_secrets() {
    let mut tokens = wallet();
    tokens.push(token("pending_1", "https://mint.a", vec![make_proof("b", 2), make_proof("a", 1)]));
    let pending = tokens[3].proofs.clone();
    assert_eq!(find_matching_real_event(&tokens, &pending), Some("e1".to_string()));
    let other = vec![make_proof("a", 1)];
    assert_eq!(find_matching_real_event(&tokens, &other), None);
    assert_eq!(find_matching_real_event(&tokens, &Vec::new()), None);
}
