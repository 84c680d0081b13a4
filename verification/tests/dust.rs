use cashu_store::dust::{find_dust_proofs, get_all_dust_stats, get_dust_stats, DustStats};
use cashu_store::types::{ProofData, ProofState, TokenData};

fn make_proof(secret: &str, amount: u64) -> ProofData {
    ProofData {
        id: "00ad268c4d1f5826".to_string(),
        amount,
        secret: secret.to_string(),
        c: "02".to_string(),
        witness: None,
        dleq: None,
        state: ProofState::Unspent,
        transaction_id: None,
        state_set_at: None,
    }
}

fn token(event_id: &str, mint: &str, proofs: Vec<ProofData>) -> TokenData {
    TokenData { event_id: event_id.to_string(), mint: mint.to_string(), unit: "sat".to_string(), proofs, created_at: 0 }
}

#[test]
fn test_dust_stats_default() {
    let stats = DustStats::default();
    assert_eq!(stats.count, 0);
    assert_eq!(stats.total_value, 0);
    assert!(!stats.should_consolidate);
}

#[test]
fn dust_is_small_proofs_of_the_mint() {
    let tokens = vec![
        token("e1", "https://mint.a/", vec![make_proof("s1", 1), make_proof("s2", 64), make_proof("s3", 4)]),
        token("e2", "https://mint.b", vec![make_proof("s4", 1)]),
    ];
    let dust = find_dust_proofs(&tokens, "https://MINT.A", 4);
    let secrets: Vec<&str> = dust.iter().map(|p| p.secret.as_str()).collect();
    assert_eq!(secrets, vec!["s1", "s3"]);
    let stats = get_dust_stats(&tokens, "https://mint.a", 4);
    assert_eq!(stats.count, 2);
    assert_eq!(stats.total_value, 5);
}

#[test]
fn dust_grows_with_threshold_and_table_is_distinct() {
    let tokens = vec![
        TokenData {
            event_id: "e1".to_string(),
            mint: "https://a".to_string(),
            unit: "sat".to_string(),
            proofs: vec![make_proof("a1", 1), make_proof("a2", 8), make_proof("a3", 2)],
            created_at: 0,
        },
        TokenData {
            event_id: "e2".to_string(),
            mint: "https://a".to_string(),
            unit: "sat".to_string(),
            proofs: vec![make_proof("a4", 4)],
            created_at: 0,
        },
        TokenData {
            event_id: "e3".to_string(),
            mint: "https://b".to_string(),
            unit: "sat".to_string(),
            proofs: vec![make_proof("b1", 64)],
            created_at: 0,
        },
    ];
    let low: Vec<String> = find_dust_proofs(&tokens, "https://a", 2).iter().map(|p| p.secret.clone()).collect();
    let high: Vec<String> = find_dust_proofs(&tokens, "https://a", 4).iter().map(|p| p.secret.clone()).collect();
    assert_eq!(low, vec!["a1".to_string(), "a3".to_string()]);
    assert_eq!(high, vec!["a1".to_string(), "a3".to_string(), "a4".to_string()]);
    let table = get_all_dust_stats(&tokens, 4);
    assert_eq!(table.len(), 1);
    assert_eq!(table[0].0, "https://a");
    assert_eq!(table[0].1.count, 3);
}
