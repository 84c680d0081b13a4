use cashu_store::mint_recovery::{recovery_actions, MintRecoveryQueue};
use cashu_store::proof_recovery::MintProofState;
use cashu_store::types::{ProofData, ProofState};

fn make_proof(secret: &str, amount: u64) -> ProofData {
    ProofData {
        id: "k".to_string(),
        amount,
        secret: secret.to_string(),
        c: "02".to_string(),
        witness: None,
        dleq: None,
        state: ProofState::Unspent,
        transaction_id: None,
        state_set_at: None,
    }
}

fn secrets(ps: &[ProofData]) -> Vec<String> {
    ps.iter().map(|p| p.secret.clone()).collect()
}

#[test]
fn first_failure_recovers_later_ones_queue() {
    let mut q = MintRecoveryQueue::new();
    let first = q.begin_or_queue("https://Mint.A/", vec![make_proof("a", 1)]);
    assert_eq!(secrets(&first.unwrap()), vec!["a".to_string()]);
    assert!(q.is_recovering("https://mint.a"));
    let second = q.begin_or_queue("https://mint.a", vec![make_proof("b", 2), make_proof("c", 4)]);
    assert!(second.is_none());
    let third = q.begin_or_queue("https://mint.a", vec![make_proof("d", 8)]);
    assert!(third.is_none());
    let queued = q.take_queued("https://mint.a").unwrap();
    assert_eq!(secrets(&queued), vec!["b".to_string(), "c".to_string(), "d".to_string()]);
    assert!(q.is_recovering("https://mint.a"));
    assert!(q.take_queued("https://mint.a").is_none());
    assert!(!q.is_recovering("https://mint.a"));
}

#[test]
fn recoveries_of_different_mints_are_independent() {
    let mut q = MintRecoveryQueue::new();
    assert!(q.begin_or_queue("https://mint.a", vec![make_proof("a", 1)]).is_some());
    assert!(q.begin_or_queue("https://mint.b", vec![make_proof("b", 1)]).is_some());
    assert!(q.begin_or_queue("https://mint.a", vec![make_proof("c", 1)]).is_none());
    assert!(q.take_queued("https://mint.b").is_none());
    assert!(!q.is_recovering("https://mint.b"));
    assert!(q.is_recovering("https://mint.a"));
}

#[test]
fn take_without_recovery_gives_nothing() {
    let mut q = MintRecoveryQueue::new();
    assert!(q.take_queued("https://mint.a").is_none());
    assert!(!q.is_recovering("https://mint.a"));
}

#[test]
fn recovery_actions_follow_mint_states() {
    let checked = vec![
        ("s1".to_string(), 1, MintProofState::Spent),
        ("p1".to_string(), 2, MintProofState::Pending),
        ("u1".to_string(), 4, MintProofState::Unspent),
        ("r1".to_string(), 8, MintProofState::Reserved),
        ("x1".to_string(), 16, MintProofState::PendingSpent),
        ("s2".to_string(), 32, MintProofState::Spent),
    ];
    let (spent, held, unspent) = recovery_actions(&checked);
    assert_eq!(spent, vec!["s1".to_string(), "s2".to_string()]);
    assert_eq!(held, vec!["p1".to_string(), "r1".to_string()]);
    assert_eq!(unspent, vec!["u1".to_string()]);
}
