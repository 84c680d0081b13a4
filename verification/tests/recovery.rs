use cashu_store::lightning::MintQuoteState;
use cashu_store::proof_recovery::MintProofState;
use cashu_store::quotes::PendingQuote;
use cashu_store::recovery::{
    add_sync_result, confirmed_unspent, consolidation_summary, expired_recovery, in_flight_error_message,
    in_flight_expired, in_flight_step, known_ys, lock_retry_delay_ms, melt_proof_verdicts, mint_quote_recovery,
    mint_quote_settled, minted_recovery, new_by_y, no_mints_summary, pending_secrets_for_mint, pending_tx_action,
    process_pending_melt_quotes, record_in_flight_outcome, recovered_token, resync_after_melt_recovery, saturating_value, seed_recovery_summary, select_unknown_by_y,
    stop_orphan_check, sync_batch, unrecorded_proofs, unrecorded_recovery, InFlightError, InFlightStep,
    InFlightOutcome, MeltQuoteState, MeltRecoveryResult, MintQuoteRecovery, PendingTxAction, SyncResult, WalletHealthReport,
};
use cashu_store::strmap::StrMap;
use cashu_store::transactions::{ActiveTransaction, TransactionStatus, TransactionType};
use cashu_store::types::{ProofData, ProofState, TokenData};

fn make_proof(secret: &str, amount: u64, tx: Option<u64>) -> ProofData {
    ProofData {
        id: "k".to_string(),
        amount,
        secret: secret.to_string(),
        c: "02".to_string(),
        witness: None,
        dleq: None,
        state: ProofState::Unspent,
        transaction_id: tx,
        state_set_at: None,
    }
}

#[test]
fn sync_batch_follows_mint_states() {
    let mut pending: StrMap<u64> = StrMap::new();
    pending.insert("was_pending_spent", 1);
    pending.insert("was_pending_unspent", 1);
    let batch = vec![
        make_proof("was_pending_spent", 5, None),
        make_proof("fresh_pending", 2, None),
        make_proof("was_pending_unspent", 3, None),
        make_proof("plain_unspent", 4, None),
        make_proof("orphan_reserved", 8, None),
        make_proof("held_reserved", 16, Some(3)),
        make_proof("spent", 32, None),
        make_proof("unpaired", 64, None),
    ];
    let states = vec![
        MintProofState::Spent,
        MintProofState::Pending,
        MintProofState::Unspent,
        MintProofState::Unspent,
        MintProofState::Reserved,
        MintProofState::Reserved,
        MintProofState::Spent,
    ];
    let out = sync_batch(&mut pending, &batch, &states, 100);
    assert_eq!(out.spent, vec!["was_pending_spent".to_string(), "spent".to_string()]);
    assert_eq!(out.revert, vec!["was_pending_unspent".to_string(), "orphan_reserved".to_string()]);
    assert_eq!(
        out.result,
        SyncResult { spent_found: 2, proofs_cleaned: 7, sats_cleaned: 37, pending_found: 1 }
    );
    assert!(!pending.contains_key("was_pending_spent"));
    assert!(!pending.contains_key("was_pending_unspent"));
    assert_eq!(pending.get("fresh_pending"), Some(&100));
}

#[test]
fn sync_results_add_up() {
    let a = SyncResult { spent_found: 1, proofs_cleaned: 2, sats_cleaned: 3, pending_found: 4 };
    let b = SyncResult { spent_found: 10, proofs_cleaned: 20, sats_cleaned: 30, pending_found: 40 };
    assert_eq!(
        add_sync_result(a, b),
        SyncResult { spent_found: 11, proofs_cleaned: 22, sats_cleaned: 33, pending_found: 44 }
    );
    assert_eq!(SyncResult::default().spent_found, 0);
}

#[test]
fn lock_retry_backoff() {
    assert_eq!(lock_retry_delay_ms(0), Some(100));
    assert_eq!(lock_retry_delay_ms(1), Some(200));
    assert_eq!(lock_retry_delay_ms(2), None);
}

#[test]
fn pending_transaction_actions() {
    let q = Some("q1".to_string());
    assert_eq!(
        pending_tx_action(TransactionType::Topup, &q),
        PendingTxAction::RecoverMintQuote { quote_id: "q1".to_string() }
    );
    assert_eq!(pending_tx_action(TransactionType::Topup, &None), PendingTxAction::Skip);
    assert_eq!(
        pending_tx_action(TransactionType::Transfer, &q),
        PendingTxAction::RecoverMeltChange { quote_id: "q1".to_string() }
    );
    assert_eq!(pending_tx_action(TransactionType::Send, &None), PendingTxAction::ConfirmSend);
    assert_eq!(pending_tx_action(TransactionType::Receive, &q), PendingTxAction::Sync);
}

#[test]
fn mint_quote_recovery_by_state() {
    assert_eq!(mint_quote_recovery(MintQuoteState::Paid, None, 0), MintQuoteRecovery::Mint);
    assert_eq!(mint_quote_recovery(MintQuoteState::Issued, None, 0), MintQuoteRecovery::CheckUnrecorded);
    assert_eq!(mint_quote_recovery(MintQuoteState::Unpaid, Some(10), 10), MintQuoteRecovery::Expired);
    assert_eq!(mint_quote_recovery(MintQuoteState::Unpaid, Some(10), 9), MintQuoteRecovery::Nothing);
    assert_eq!(mint_quote_recovery(MintQuoteState::Unpaid, None, 9), MintQuoteRecovery::Nothing);
    assert_eq!(minted_recovery(21).message, Some("Minted 21 sats from paid quote".to_string()));
    assert_eq!(expired_recovery().message, Some("Quote expired".to_string()));
}

#[test]
fn unrecorded_proofs_are_found() {
    let known = vec![make_proof("a", 1, None), make_proof("b", 2, None)];
    let held = vec![make_proof("b", 2, None), make_proof("c", 4, None), make_proof("d", 8, None)];
    let missing = unrecorded_proofs(&known, &held);
    assert_eq!(missing.iter().map(|p| p.secret.clone()).collect::<Vec<_>>(), vec!["c".to_string(), "d".to_string()]);
    let r = unrecorded_recovery(&missing);
    assert_eq!(r.recovered_amount, 12);
    assert_eq!(r.message, Some("Recovered 2 unrecorded proofs (12 sats)".to_string()));
    let none = unrecorded_recovery(&Vec::new());
    assert_eq!(none.recovered_amount, 0);
    assert_eq!(none.message, None);
    assert_eq!(saturating_value(&vec![make_proof("x", u64::MAX, None), make_proof("y", 5, None)]), u64::MAX);
}

#[test]
fn proofs_are_matched_by_y() {
    let tokens = vec![TokenData {
        event_id: "e".to_string(),
        mint: "https://m".to_string(),
        unit: "sat".to_string(),
        proofs: vec![make_proof("secret-a", 1, None)],
        created_at: 0,
    }];
    let known = known_ys(&tokens);
    assert_eq!(known.len(), 1);
    assert_eq!(known[0].len(), 66);
    let held = vec![make_proof("secret-a", 1, None), make_proof("secret-b", 2, None)];
    let fresh = new_by_y(&known, &held);
    assert_eq!(fresh.len(), 1);
    assert_eq!(fresh[0].secret, "secret-b");
    let picked = select_unknown_by_y(
        &vec!["Y1".to_string()],
        &held,
        &vec![Some("Y1".to_string()), None],
    );
    assert!(picked.is_empty());
    let picked2 = select_unknown_by_y(&vec![], &held, &vec![None, Some("Y2".to_string())]);
    assert_eq!(picked2.len(), 1);
    assert_eq!(picked2[0].secret, "secret-b");
}

#[test]
fn orphans_need_mint_confirmation() {
    let cands = vec![make_proof("a", 1, None), make_proof("b", 2, None), make_proof("c", 4, None)];
    let states = vec![MintProofState::Unspent, MintProofState::Spent];
    let ok = confirmed_unspent(&cands, &states);
    assert_eq!(ok.len(), 1);
    assert_eq!(ok[0].secret, "a");
    assert!(!stop_orphan_check(4));
    assert!(stop_orphan_check(5));
    let t = recovered_token("ev", "https://Mint.X/", ok, 77);
    assert_eq!(t.mint, "https://mint.x");
    assert_eq!(t.unit, "sat");
    assert_eq!(t.created_at, 77);
}

#[test]
fn in_flight_melt_decisions() {
    assert!(!in_flight_expired(1000, 1000 + 86400));
    assert!(in_flight_expired(1000, 1000 + 86401));
    assert!(!in_flight_expired(5000, 10));
    assert_eq!(in_flight_step(MeltQuoteState::Paid), InFlightStep::RecoverChange);
    assert_eq!(in_flight_step(MeltQuoteState::Pending), InFlightStep::KeepTracking);
    assert_eq!(in_flight_step(MeltQuoteState::Failed), InFlightStep::VerifyProofs);
    assert_eq!(in_flight_step(MeltQuoteState::Unpaid), InFlightStep::VerifyProofs);
    assert_eq!(in_flight_step(MeltQuoteState::Unknown), InFlightStep::VerifyProofs);
    let checked = vec![
        ("u".to_string(), 1, MintProofState::Unspent),
        ("s".to_string(), 2, MintProofState::Spent),
        ("p".to_string(), 4, MintProofState::Pending),
        ("ps".to_string(), 8, MintProofState::PendingSpent),
        ("r".to_string(), 16, MintProofState::Reserved),
    ];
    let (unspent, spent, pending) = melt_proof_verdicts(&checked);
    assert_eq!(unspent, vec!["u".to_string()]);
    assert_eq!(spent, vec!["s".to_string()]);
    assert_eq!(pending, 2);
    assert_eq!(in_flight_error_message(InFlightError::MintBusy, "https://m", ""), "Mint https://m busy, skipping");
    assert_eq!(
        in_flight_error_message(InFlightError::ProofCheckFailed, "https://m", "timeout"),
        "NUT-07 check failed for https://m: timeout"
    );
    assert_eq!(
        in_flight_error_message(InFlightError::QuoteCheckFailed, "q1", "boom"),
        "Quote q1 check failed: boom"
    );
}

#[test]
fn seed_recovery_messages() {
    assert_eq!(seed_recovery_summary(10, 2, &vec![]).message, "Recovered 10 sats from 2 mints");
    assert_eq!(seed_recovery_summary(0, 3, &vec![]).message, "Checked 3 mints - no proofs to recover");
    let s = seed_recovery_summary(5, 2, &vec!["a: x".to_string(), "b: y".to_string()]);
    assert_eq!(s.message, "Recovered 5 sats from 2 mints, 2 errors: a: x; b: y");
    assert_eq!(s.total_recovered, 5);
    assert_eq!(no_mints_summary().message, "No mints configured");
}

#[test]
fn consolidation_messages() {
    assert_eq!(
        consolidation_summary(100, 10, 3).message,
        "Consolidated 100 sats, reduced proofs by 7 (10 -> 3)"
    );
    assert_eq!(consolidation_summary(100, 3, 10).message, "Consolidated 100 sats, reduced proofs by 0 (3 -> 10)");
    assert_eq!(consolidation_summary(0, 3, 3).message, "No proofs needed consolidation");
}

fn tx(id: u64, mint: &str, secrets: &[&str]) -> ActiveTransaction {
    ActiveTransaction {
        id,
        tx_type: TransactionType::Send,
        amount: 1,
        unit: "sat".to_string(),
        mint_url: mint.to_string(),
        status: TransactionStatus::Pending,
        proof_secrets: secrets.iter().map(|s| s.to_string()).collect(),
        quote_id: None,
        memo: None,
        expires_at: None,
        created_at: 0,
        updated_at: 0,
        history: Vec::new(),
    }
}

#[test]
fn pending_secrets_of_a_mint() {
    let txs = vec![tx(1, "https://a", &["x", "y"]), tx(2, "https://b", &["z"]), tx(3, "https://a", &["w"])];
    assert_eq!(
        pending_secrets_for_mint(&txs, "https://a"),
        vec!["x".to_string(), "y".to_string(), "w".to_string()]
    );
    assert!(pending_secrets_for_mint(&txs, "https://c").is_empty());
}

#[test]
fn quote_processing() {
    assert!(mint_quote_settled(MintQuoteState::Issued, false));
    assert!(mint_quote_settled(MintQuoteState::Paid, true));
    assert!(!mint_quote_settled(MintQuoteState::Paid, false));
    assert!(!mint_quote_settled(MintQuoteState::Unpaid, true));
    let mut quotes = vec![
        PendingQuote { quote_id: "a".to_string(), expiry: Some(10) },
        PendingQuote { quote_id: "b".to_string(), expiry: Some(100) },
        PendingQuote { quote_id: "c".to_string(), expiry: None },
    ];
    assert_eq!(process_pending_melt_quotes(&mut quotes, 50), (3, 0, 1));
    assert_eq!(quotes.len(), 2);
    assert_eq!(process_pending_melt_quotes(&mut Vec::new(), 50), (0, 0, 0));
}

fn report() -> WalletHealthReport {
    WalletHealthReport {
        proofs_checked: 0,
        spent_proofs_found: 0,
        pending_proofs_found: 0,
        mint_quotes_checked: 0,
        mint_quotes_paid: 0,
        amount_minted_sats: 0,
        melt_quotes_checked: 0,
        melt_quotes_completed: 0,
        melt_quotes_expired: 0,
        change_recovered_sats: 0,
    }
}

#[test]
fn health_report_summary() {
    let healthy = report();
    assert!(!healthy.has_issues());
    assert_eq!(healthy.summary(), "Wallet is healthy - no issues found");
    let mut r = report();
    r.spent_proofs_found = 2;
    r.mint_quotes_paid = 1;
    r.amount_minted_sats = 21;
    r.change_recovered_sats = 5;
    assert!(r.has_issues());
    assert_eq!(r.summary(), "2 spent proofs cleaned, 1 quotes processed (21 sats minted), 5 sats change recovered");
    let mut e = report();
    e.melt_quotes_expired = 3;
    assert_eq!(e.summary(), "3 expired quotes removed");
    let mut p = report();
    p.pending_proofs_found = 9;
    assert!(!p.has_issues());
}

#[test]
fn melt_recovery_counts_each_outcome() {
    let mut result = MeltRecoveryResult::new();
    assert!(!resync_after_melt_recovery(&result));
    assert!(record_in_flight_outcome(&mut result, InFlightOutcome::ExpiredUnreachable));
    assert_eq!((result.quotes_checked, result.quotes_paid, result.change_recovered), (0, 0, 0));
    assert!(!resync_after_melt_recovery(&result));
    assert!(!record_in_flight_outcome(&mut result, InFlightOutcome::Failed { error: "mint busy".to_string() }));
    assert_eq!(result.errors, vec!["mint busy".to_string()]);
    assert!(!record_in_flight_outcome(&mut result, InFlightOutcome::StillPending));
    assert_eq!(result.quotes_checked, 1);
    assert!(record_in_flight_outcome(&mut result, InFlightOutcome::ChangeRecovered { amount: 21 }));
    assert!(record_in_flight_outcome(&mut result, InFlightOutcome::ChangeRecovered { amount: 0 }));
    assert_eq!(result.quotes_paid, 2);
    assert_eq!(result.change_recovered, 21);
    assert!(record_in_flight_outcome(&mut result, InFlightOutcome::ExpiredChecked));
    assert!(record_in_flight_outcome(&mut result, InFlightOutcome::ProofsSettled));
    assert!(record_in_flight_outcome(&mut result, InFlightOutcome::NothingToCheck));
    assert_eq!(result.quotes_checked, 3);
    assert_eq!(result.errors.len(), 1);
    assert!(resync_after_melt_recovery(&result));
}

#[test]
fn melt_recovery_resyncs_on_change_alone() {
    let mut result = MeltRecoveryResult::new();
    record_in_flight_outcome(&mut result, InFlightOutcome::ChangeRecovered { amount: 5 });
    assert_eq!(result.quotes_checked, 0);
    assert!(resync_after_melt_recovery(&result));
}
