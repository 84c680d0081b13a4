use cashu_store::transactions::{
    cleanup_old_transactions, create_transaction, get_pending_transactions, get_transaction, update_transaction_status,
    ActiveTransaction, TransactionStatus, TransactionType,
};

#[test]
fn transaction_lifecycle() {
    let mut txs: Vec<ActiveTransaction> = Vec::new();
    let mut next_id: u64 = 1;
    let id1 = create_transaction(&mut txs, &mut next_id, TransactionType::Send, 50, "https://mint.a", vec!["s1".to_string()], None, None, 10_000);
    let id2 = create_transaction(&mut txs, &mut next_id, TransactionType::Topup, 20, "https://mint.a", vec![], Some("q".to_string()), None, 10_000);
    assert_eq!((id1, id2, next_id), (1, 2, 3));
    assert_eq!(txs[0].status, TransactionStatus::Draft);
    assert_eq!(txs[0].history.len(), 1);
    update_transaction_status(&mut txs, id1, TransactionStatus::Completed, Some("done".to_string()), Some(1), 11_000);
    let t = get_transaction(&txs, id1).unwrap();
    assert_eq!(t.status, TransactionStatus::Completed);
    assert_eq!(t.updated_at, 11_000);
    assert_eq!(t.history.len(), 2);
    assert_eq!(t.history[1].message.as_deref(), Some("done"));
    assert!(get_transaction(&txs, 99).is_none());
    let pending = get_pending_transactions(&txs);
    assert_eq!(pending.len(), 1);
    assert_eq!(pending[0].id, id2);
    cleanup_old_transactions(&mut txs, 11_000 + 3600 + 1);
    assert_eq!(txs.len(), 1);
    assert_eq!(txs[0].id, id2);
}

#[test]
fn unknown_transaction_update_changes_nothing() {
    let mut txs: Vec<ActiveTransaction> = Vec::new();
    let mut next_id: u64 = u64::MAX;
    let id = create_transaction(&mut txs, &mut next_id, TransactionType::Receive, 1, "m", vec![], None, None, 5000);
    assert_eq!(id, u64::MAX);
    assert_eq!(next_id, 0);
    update_transaction_status(&mut txs, 7, TransactionStatus::Failed, None, None, 6000);
    assert_eq!(txs[0].status, TransactionStatus::Draft);
    assert_eq!(txs[0].updated_at, 5000);
}
