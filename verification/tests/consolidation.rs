use cashu_store::consolidation::{
    consolidated_replacement, consolidation_step, jittered_delay_ms, non_retryable_publish_error, persistence_retry_delay_ms,
    publish_end, publish_retry_step, start_consolidation, BatchOutcome, ConsolidationAction, PublishEnd, PublishStep,
    PUBLISH_ATTEMPTS,
};
use cashu_store::receive::PublishVerdict;
use cashu_store::types::{ProofData, ProofState};

fn batch_proof(secret: &str, amount: u64) -> ProofData {
    ProofData {
        id: "k".to_string(),
        amount,
        secret: secret.to_string(),
        c: "02".to_string(),
        witness: None,
        dleq: None,
        state: ProofState::Unspent,
        transaction_id: None,
        state_set_at: None,
    }
}

#[test]
fn consolidation_with_no_batches_fails_at_once() {
    let (run, action) = start_consolidation(0);
    assert_eq!(run.next_batch, 0);
    match action {
        ConsolidationAction::Fail { error, resync } => {
            assert_eq!(error, "Swap returned no proofs");
            assert!(!resync);
        }
        other => panic!("unexpected action {:?}", other),
    }
}

#[test]
fn consolidation_swaps_each_batch_then_publishes() {
    let (mut run, action) = start_consolidation(2);
    assert!(matches!(action, ConsolidationAction::SwapBatch { index: 0 }));
    let a = consolidation_step(
        &mut run,
        BatchOutcome::Swapped { proofs: vec![batch_proof("a", 4)], persisted: true },
    );
    assert!(matches!(a, ConsolidationAction::SwapBatch { index: 1 }));
    let a = consolidation_step(
        &mut run,
        BatchOutcome::Swapped { proofs: vec![batch_proof("b", 8), batch_proof("c", 1)], persisted: true },
    );
    assert!(matches!(a, ConsolidationAction::Publish { emergency_token: false }));
    assert_eq!(run.next_batch, 2);
    let secrets: Vec<&str> = run.new_proofs.iter().map(|p| p.secret.as_str()).collect();
    assert_eq!(secrets, vec!["a", "b", "c"]);
    assert_eq!(run.persistence_failures, 0);
}

#[test]
fn unsaved_batch_calls_for_an_emergency_token() {
    let (mut run, _) = start_consolidation(1);
    let a = consolidation_step(
        &mut run,
        BatchOutcome::Swapped { proofs: vec![batch_proof("a", 2)], persisted: false },
    );
    assert!(matches!(a, ConsolidationAction::Publish { emergency_token: true }));
    assert_eq!(run.persistence_failures, 1);
}

#[test]
fn empty_unsaved_batch_counts_as_no_failure() {
    let (mut run, _) = start_consolidation(2);
    consolidation_step(&mut run, BatchOutcome::Swapped { proofs: vec![], persisted: false });
    assert_eq!(run.persistence_failures, 0);
    let a = consolidation_step(&mut run, BatchOutcome::Swapped { proofs: vec![], persisted: true });
    match a {
        ConsolidationAction::Fail { error, resync } => {
            assert_eq!(error, "Swap returned no proofs");
            assert!(!resync);
        }
        other => panic!("unexpected action {:?}", other),
    }
}

#[test]
fn failed_first_batch_resyncs_only_when_proofs_were_spent() {
    let (mut run, _) = start_consolidation(3);
    let a = consolidation_step(&mut run, BatchOutcome::Failed { error: "timeout".to_string(), any_spent: false });
    match a {
        ConsolidationAction::Fail { error, resync } => {
            assert_eq!(error, "Swap failed on batch 1/3: timeout");
            assert!(!resync);
        }
        other => panic!("unexpected action {:?}", other),
    }
    let (mut run, _) = start_consolidation(3);
    let a = consolidation_step(&mut run, BatchOutcome::Failed { error: "spent".to_string(), any_spent: true });
    assert!(matches!(a, ConsolidationAction::Fail { resync: true, .. }));
}

#[test]
fn failed_later_batch_always_resyncs() {
    let (mut run, _) = start_consolidation(3);
    consolidation_step(&mut run, BatchOutcome::Swapped { proofs: vec![batch_proof("a", 1)], persisted: true });
    let a = consolidation_step(&mut run, BatchOutcome::Failed { error: "boom".to_string(), any_spent: false });
    match a {
        ConsolidationAction::Fail { error, resync } => {
            assert_eq!(error, "Swap failed on batch 2/3: boom");
            assert!(resync);
        }
        other => panic!("unexpected action {:?}", other),
    }
    assert_eq!(run.next_batch, 1);
    assert_eq!(run.new_proofs.len(), 1);
}

#[test]
fn publish_end_by_success_and_retryability() {
    assert_eq!(publish_end(true, false), PublishEnd::Published);
    assert_eq!(publish_end(true, true), PublishEnd::Published);
    assert_eq!(publish_end(false, true), PublishEnd::Queued);
    assert_eq!(publish_end(false, false), PublishEnd::LocalOnly);
}

#[test]
fn permanent_publish_failure_message() {
    assert_eq!(non_retryable_publish_error("invalid event"), "Non-retryable publish error: invalid event");
}

#[test]
fn replacement_takes_the_emergency_token_first() {
    let consolidated = vec!["e1".to_string(), "e2".to_string()];
    let (token, replaced) = consolidated_replacement(
        "new",
        "https://mint.example",
        "sat",
        vec![batch_proof("a", 4)],
        1700,
        &Some("emergency".to_string()),
        &consolidated,
    );
    assert_eq!(token.event_id, "new");
    assert_eq!(token.mint, "https://mint.example");
    assert_eq!(token.unit, "sat");
    assert_eq!(token.created_at, 1700);
    assert_eq!(token.proofs.len(), 1);
    assert_eq!(replaced, vec!["emergency".to_string()]);

    let (_, replaced) =
        consolidated_replacement("new", "https://mint.example", "sat", vec![], 1700, &None, &consolidated);
    assert_eq!(replaced, consolidated);
}

#[test]
fn publish_is_tried_four_times_with_growing_waits() {
    assert_eq!(PUBLISH_ATTEMPTS, 4);
    assert_eq!(publish_retry_step(1, PublishVerdict::Retry), PublishStep::RetryAfter { base_delay_ms: 500 });
    assert_eq!(publish_retry_step(2, PublishVerdict::Retry), PublishStep::RetryAfter { base_delay_ms: 1000 });
    assert_eq!(publish_retry_step(3, PublishVerdict::Retry), PublishStep::RetryAfter { base_delay_ms: 2000 });
    assert_eq!(publish_retry_step(4, PublishVerdict::Retry), PublishStep::Stop { succeeded: false, retryable: true });
    assert_eq!(publish_retry_step(2, PublishVerdict::Published), PublishStep::Stop { succeeded: true, retryable: true });
    assert_eq!(
        publish_retry_step(1, PublishVerdict::AlreadyPublished),
        PublishStep::Stop { succeeded: true, retryable: true }
    );
    assert_eq!(publish_retry_step(1, PublishVerdict::Permanent), PublishStep::Stop { succeeded: false, retryable: false });
}

#[test]
fn retry_waits_are_spread_by_jitter() {
    assert_eq!(jittered_delay_ms(500, 200, 0), 400);
    assert_eq!(jittered_delay_ms(500, 200, 199), 599);
    assert_eq!(jittered_delay_ms(50, 200, 10), 10);
    assert_eq!(persistence_retry_delay_ms(0, 0), Some(900));
    assert_eq!(persistence_retry_delay_ms(1, 100), Some(2000));
    assert_eq!(persistence_retry_delay_ms(2, 199), Some(4099));
    assert_eq!(persistence_retry_delay_ms(3, 0), None);
}
