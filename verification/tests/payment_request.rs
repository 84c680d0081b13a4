use cashu_store::payment_request::{
    check_payment_balance, choose_transport, find_compatible_mint, parse_payment_request, payload_amount, payment_inputs,
    payment_wait_closed,
    payment_wait_payload, payment_wait_round, plan_payment, plan_request_payment, PaymentRequestDetails, received_payment_amount, resolve_payment_amount, PaymentRequestProgress,
    TransportKind,
};
use cashu_store::types::{ProofData, ProofState, TokenData};

#[test]
fn amount_resolution() {
    assert_eq!(resolve_payment_amount(Some(10), Some(20)), Ok(10));
    assert_eq!(resolve_payment_amount(None, Some(20)), Ok(20));
    assert_eq!(
        resolve_payment_amount(None, None),
        Err("Amount required but not specified in request or provided".to_string())
    );
    assert_eq!(resolve_payment_amount(Some(0), Some(5)), Err("Amount must be greater than 0".to_string()));
}

#[test]
fn compatible_mint() {
    let ours = vec!["https://a.example".to_string(), "https://b.example".to_string()];
    assert_eq!(find_compatible_mint(&ours, &Some(vec!["https://B.example/".to_string()])), Ok("https://b.example".to_string()));
    assert_eq!(find_compatible_mint(&ours, &None), Ok("https://a.example".to_string()));
    assert_eq!(
        find_compatible_mint(&ours, &Some(vec!["https://c.example".to_string()])),
        Err("No compatible mint found. You don't have tokens from any of the accepted mints.".to_string())
    );
}

#[test]
fn balance_and_transport() {
    assert!(check_payment_balance("mint", 10, 10).is_ok());
    assert_eq!(
        check_payment_balance("a.example", 5, 10).unwrap_err(),
        "Insufficient balance at a.example. Have: 5 sats, need: 10 sats"
    );
    assert_eq!(choose_transport(&vec![TransportKind::HttpPost, TransportKind::Nostr]), Some(1));
    assert_eq!(choose_transport(&vec![TransportKind::HttpPost]), Some(0));
    assert_eq!(choose_transport(&vec![]), None);
}

#[test]
fn inputs_of_a_mint() {
    let p = ProofData {
        id: "k".to_string(),
        amount: 3,
        secret: "s".to_string(),
        c: "02".to_string(),
        witness: None,
        dleq: None,
        state: ProofState::Unspent,
        transaction_id: None,
        state_set_at: None,
    };
    let tokens = vec![
        TokenData { event_id: "e1".to_string(), mint: "https://a".to_string(), unit: "sat".to_string(), proofs: vec![p.clone()], created_at: 0 },
        TokenData { event_id: "e2".to_string(), mint: "https://b".to_string(), unit: "sat".to_string(), proofs: vec![p], created_at: 0 },
    ];
    let (proofs, ids) = payment_inputs(&tokens, "https://a");
    assert_eq!(proofs.len(), 1);
    assert_eq!(ids, vec!["e1".to_string()]);
}

#[test]
fn wait_round_decisions() {
    let cancelled = payment_wait_round(false, 0, 60).unwrap();
    assert_eq!(cancelled.progress, None);
    assert!(!cancelled.forget_request);
    assert_eq!(cancelled.result, Err("Payment request cancelled".to_string()));
    let timed_out = payment_wait_round(true, 61, 60).unwrap();
    assert_eq!(timed_out.progress, Some(PaymentRequestProgress::Cancelled));
    assert!(timed_out.forget_request);
    assert_eq!(timed_out.result, Err("Timeout waiting for payment".to_string()));
    assert!(payment_wait_round(true, 60, 60).is_none());
    assert!(payment_wait_round(true, 0, 60).is_none());
}

#[test]
fn wait_payload_decisions() {
    assert!(payment_wait_payload(&vec![1, 2], false).is_none());
    let done = payment_wait_payload(&vec![1, 2, 4], true).unwrap();
    assert_eq!(done.progress, Some(PaymentRequestProgress::Received { amount: 7 }));
    assert!(done.forget_request);
    assert_eq!(done.result, Ok(7));
    assert_eq!(payload_amount(&vec![u64::MAX, 1]), u64::MAX);
    assert_eq!(payload_amount(&vec![]), 0);
}

#[test]
fn wait_closed_decisions() {
    let cancelled = payment_wait_closed(false);
    assert_eq!(cancelled.result, Err("Payment request cancelled".to_string()));
    assert!(!cancelled.forget_request);
    let closed = payment_wait_closed(true);
    assert_eq!(closed.progress, Some(PaymentRequestProgress::Error { message: "Connection closed".to_string() }));
    assert!(closed.forget_request);
    assert_eq!(closed.result, Err("Connection closed while waiting for payment".to_string()));
}

#[test]
fn received_amount_overflow() {
    assert_eq!(received_payment_amount(&vec![5, 6]), Ok(11));
    assert_eq!(received_payment_amount(&vec![u64::MAX, 1]), Err("Amount overflow".to_string()));
}

#[test]
fn payment_request_parsing() {
    let pr = cdk::nuts::PaymentRequest::builder().payment_id("abc").amount(21u64).build();
    let text = format!("  {}\n", pr);
    let parsed = parse_payment_request(&text).unwrap();
    assert_eq!(parsed.payment_id, Some("abc".to_string()));
    assert_eq!(parsed.amount.map(u64::from), Some(21));
    let err = parse_payment_request("nonsense").unwrap_err();
    assert_eq!(err, "Failed to parse payment request: Invalid Prefix");
}

#[test]
fn payment_plan_from_request_fields() {
    let ours = vec!["https://a.example".to_string(), "https://B.example/".to_string()];
    let details = PaymentRequestDetails {
        amount: None,
        mints: vec!["https://b.example".to_string()],
        transports: vec![TransportKind::HttpPost, TransportKind::Nostr],
    };
    let plan = plan_payment(&details, Some(21), &ours).unwrap();
    assert_eq!(plan.amount, 21);
    assert_eq!(plan.mint_url, "https://B.example/");
    assert_eq!(plan.transport, Some(TransportKind::Nostr));

    let open = PaymentRequestDetails { amount: Some(5), mints: vec![], transports: vec![] };
    let plan = plan_payment(&open, None, &ours).unwrap();
    assert_eq!((plan.amount, plan.mint_url.as_str(), plan.transport), (5, "https://a.example", None));

    assert_eq!(
        plan_payment(&open, None, &vec![]).unwrap_err(),
        "No compatible mint found. You don't have tokens from any of the accepted mints."
    );
    let no_amount = PaymentRequestDetails { amount: None, mints: vec![], transports: vec![] };
    assert_eq!(
        plan_payment(&no_amount, None, &ours).unwrap_err(),
        "Amount required but not specified in request or provided"
    );
}

#[test]
fn payment_plan_from_decoded_request() {
    let request = parse_payment_request(
        "creqApWF0gaNhdGRwb3N0YWF4H2h0dHBzOi8vYXBpLmV4YW1wbGUuY29tL3JlY2VpdmVhZ/dhaWhhMmMxMmY0NWFhGDJhdWNzYXRhbYF4GWh0dHBzOi8vY2FzaHUuZXhhbXBsZS5jb20=",
    )
    .unwrap();
    let ours = vec!["https://other.example".to_string(), "https://cashu.example.com".to_string()];
    let plan = plan_request_payment(&request, Some(7), &ours).unwrap();
    assert_eq!(plan.amount, 50);
    assert_eq!(plan.mint_url, "https://cashu.example.com");
    assert_eq!(plan.transport, Some(TransportKind::HttpPost));
    assert!(plan_request_payment(&request, None, &vec!["https://other.example".to_string()]).is_err());
}
