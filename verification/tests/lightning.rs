use cashu_store::lightning::{
    check_melt_funds, check_mint_quote_ready, check_retry_funds, melt_change_token, melt_failure_message, melt_total, mint_failure_message, minted_amount, without_pending_ids,
    MintQuoteState,
};

const NOW: u64 = 1_000_000;

#[test]
fn mint_quote_readiness() {
    assert!(check_mint_quote_ready("q1", Some(NOW + 100), NOW, MintQuoteState::Paid).is_ok());
    assert_eq!(
        check_mint_quote_ready("q1", Some(NOW + 30), NOW, MintQuoteState::Paid).unwrap_err(),
        "Mint quote q1 has expired or is expiring soon. Please create a new quote."
    );
    assert_eq!(
        check_mint_quote_ready("q1", None, NOW, MintQuoteState::Issued).unwrap_err(),
        "Quote has already been minted. Tokens were already issued for this payment."
    );
    assert_eq!(
        check_mint_quote_ready("q1", None, NOW, MintQuoteState::Unpaid).unwrap_err(),
        "Quote has not been paid yet. Please pay the lightning invoice first."
    );
}

#[test]
fn mint_failure_messages() {
    assert_eq!(
        mint_failure_message("missing field `signatures` at line 1"),
        "Mint returned an error. The quote has been cleaned up. Please generate a NEW invoice and try again. Error: missing field `signatures` at line 1"
    );
    assert_eq!(mint_failure_message("timeout"), "Failed to mint tokens: timeout");
    assert_eq!(minted_amount(&vec![1, 2, 4]), Ok(7));
    assert_eq!(minted_amount(&vec![u64::MAX, 1]), Err("Minted amount overflow".to_string()));
}

#[test]
fn melt_funding() {
    assert_eq!(check_melt_funds("m1", None, NOW, 100, 5, &vec![64, 32, 16]), Ok(105));
    assert_eq!(
        check_melt_funds("m1", None, NOW, 100, 5, &vec![64, 32]).unwrap_err(),
        "Insufficient funds. Need 105 sats (amount: 100, fee: 5), have: 96 sats"
    );
    assert_eq!(check_melt_funds("m1", None, NOW, 1, 1, &vec![]).unwrap_err(), "No tokens found for this mint");
    assert_eq!(check_melt_funds("m1", None, NOW, u64::MAX, 1, &vec![1]).unwrap_err(), "Amount + fee overflow");
    assert_eq!(check_melt_funds("m1", None, NOW, 1, 1, &vec![u64::MAX, 1]).unwrap_err(), "Available balance overflow");
    assert_eq!(
        check_melt_funds("m1", Some(NOW), NOW, 1, 1, &vec![5]).unwrap_err(),
        "Melt quote m1 has expired or is expiring soon. Please create a new quote."
    );
}

#[test]
fn history_ids_and_totals() {
    let ids = vec!["pending_1".to_string(), "abc".to_string(), "pend".to_string()];
    assert_eq!(without_pending_ids(&ids), vec!["abc".to_string(), "pend".to_string()]);
    assert_eq!(melt_total(100, 3), Ok(103));
    assert!(melt_total(u64::MAX, 1).is_err());
}

#[test]
fn retry_funds_after_cleanup() {
    assert_eq!(check_retry_funds(&vec![4, 8], 10), Ok(12));
    assert_eq!(check_retry_funds(&vec![4, 8], 12), Ok(12));
    assert_eq!(
        check_retry_funds(&vec![4, 2], 10),
        Err("Insufficient funds after cleanup. Need: 10 sats, have: 6 sats".to_string())
    );
    assert_eq!(check_retry_funds(&vec![u64::MAX, 1], 10), Err("Fresh proofs balance overflow".to_string()));
}

#[test]
fn melt_failure_text() {
    assert_eq!(melt_failure_message("boom"), "Failed to melt: boom. Quote has been cleaned up.");
}

fn change_proof(secret: &str, amount: u64) -> cashu_store::types::ProofData {
    cashu_store::types::ProofData {
        id: "k".to_string(),
        amount,
        secret: secret.to_string(),
        c: "02".to_string(),
        witness: None,
        dleq: None,
        state: cashu_store::types::ProofState::Unspent,
        transaction_id: None,
        state_set_at: None,
    }
}

#[test]
fn melt_change_is_recorded_under_its_event() {
    let t = melt_change_token(&Some("ev1".to_string()), "https://Mint", vec![change_proof("c", 3)], 50).unwrap();
    assert_eq!(t.event_id, "ev1");
    assert_eq!(t.mint, "https://Mint");
    assert_eq!(t.unit, "sat");
    assert_eq!(t.proofs.len(), 1);
    assert_eq!(t.created_at, 50);
    assert!(melt_change_token(&None, "https://m", vec![change_proof("c", 3)], 50).is_none());
    assert!(melt_change_token(&Some("ev".to_string()), "https://m", vec![], 50).is_none());
}
