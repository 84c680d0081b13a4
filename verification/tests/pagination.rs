use cashu_store::pagination::batch_amount;
use cashu_store::pagination::{batch_proofs, get_cached_limits, LimitsCache, MintLimits, ProofPaginator};
use cashu_store::types::{ProofData, ProofState};

#[test]
fn test_batch_proofs() {
    let proofs = vec![
        ProofData {
            id: "1".to_string(),
            amount: 1,
            secret: "s1".to_string(),
            c: "c1".to_string(),
            witness: None,
            dleq: None,
            state: Default::default(),
            transaction_id: None,
            state_set_at: None,
        },
        ProofData {
            id: "2".to_string(),
            amount: 2,
            secret: "s2".to_string(),
            c: "c2".to_string(),
            witness: None,
            dleq: None,
            state: Default::default(),
            transaction_id: None,
            state_set_at: None,
        },
        ProofData {
            id: "3".to_string(),
            amount: 4,
            secret: "s3".to_string(),
            c: "c3".to_string(),
            witness: None,
            dleq: None,
            state: Default::default(),
            transaction_id: None,
            state_set_at: None,
        },
    ];

    let batches = batch_proofs(proofs, 2);
    assert_eq!(batches.len(), 2);
    assert_eq!(batches[0].len(), 2);
    assert_eq!(batches[1].len(), 1);
}

#[test]
fn test_paginator() {
    let proofs: Vec<ProofData> = (0..5)
        .map(|i| ProofData {
            id: i.to_string(),
            amount: i as u64,
            secret: format!("s{}", i),
            c: format!("c{}", i),
            witness: None,
            dleq: None,
            state: Default::default(),
            transaction_id: None,
            state_set_at: None,
        })
        .collect();

    let mut paginator = ProofPaginator::new(proofs, 2);

    assert_eq!(paginator.batch_count(), 3);
    assert!(paginator.has_more());

    let batch1 = paginator.next_batch().unwrap();
    assert_eq!(batch1.len(), 2);

    let batch2 = paginator.next_batch().unwrap();
    assert_eq!(batch2.len(), 2);

    let batch3 = paginator.next_batch().unwrap();
    assert_eq!(batch3.len(), 1);

    assert!(paginator.next_batch().is_none());
}

#[test]
fn paginator_yields_items_in_order_and_resets() {
    let proofs: Vec<ProofData> = (0..3)
        .map(|i| ProofData {
            id: "k".to_string(),
            amount: i,
            secret: format!("s{}", i),
            c: "c".to_string(),
            witness: None,
            dleq: None,
            state: ProofState::Unspent,
            transaction_id: None,
            state_set_at: None,
        })
        .collect();
    let mut p = ProofPaginator::new(proofs, 2);
    let first = p.next_batch().unwrap();
    assert_eq!(first[0].secret, "s0");
    assert_eq!(first[1].secret, "s1");
    assert_eq!(p.current_batch(), 1);
    p.reset();
    assert_eq!(p.current_batch(), 0);
    assert_eq!(p.next_batch().unwrap()[0].secret, "s0");
    assert_eq!(p.total_count(), 3);
}

#[test]
fn limits_cache_read_after_write() {
    let mut cache = LimitsCache::new();
    let limits = MintLimits { max_inputs: 10, max_outputs: 20, max_mint_amount: Some(5), max_melt_amount: None };
    cache.insert("https://mint.a", limits);
    assert_eq!(get_cached_limits(&cache, "https://mint.a").max_inputs, 10);
    cache.remove("https://mint.a");
    assert_eq!(get_cached_limits(&cache, "https://mint.a").max_inputs, MintLimits::default().max_inputs);
}

#[test]
fn amount_split_by_mint_maximum() {
    let limits = MintLimits { max_inputs: 100, max_outputs: 100, max_mint_amount: Some(1000), max_melt_amount: None };
    assert_eq!(batch_amount(limits, 2500), vec![1000, 1000, 500]);
    assert_eq!(batch_amount(limits, 2000), vec![1000, 1000]);
    assert_eq!(batch_amount(limits, 999), vec![999]);
    assert_eq!(batch_amount(limits, 0), vec![0]);
    let unlimited = MintLimits::default();
    assert_eq!(batch_amount(unlimited, u64::MAX), vec![u64::MAX]);
    let sum: u64 = batch_amount(limits, 123_456).iter().sum();
    assert_eq!(sum, 123_456);
}

#[test]
fn paginator_hands_out_everything_after_reset() {
    let proofs: Vec<ProofData> = (0..5)
        .map(|i| ProofData {
            id: "k".to_string(),
            amount: 1,
            secret: format!("s{}", i),
            c: "c".to_string(),
            witness: None,
            dleq: None,
            state: ProofState::Unspent,
            transaction_id: None,
            state_set_at: None,
        })
        .collect();
    let mut p = ProofPaginator::new(proofs, 2);
    p.next_batch();
    p.reset();
    let mut seen = Vec::new();
    let mut batches = 0;
    while let Some(b) = p.next_batch() {
        assert!(!b.is_empty() && b.len() <= 2);
        seen.extend(b.into_iter().map(|x| x.secret));
        batches += 1;
    }
    assert_eq!(batches, p.batch_count());
    assert_eq!(seen, vec!["s0", "s1", "s2", "s3", "s4"]);
    assert!(!p.has_more());
    assert!(p.next_batch().is_none());
    assert_eq!(p.total_count(), 5);
}
