use cashu_store::nutzap::{
    add_pending_nutzap, begin_redeem, check_nutzap_event, find_compatible_nutzap_mint, get_nutzap_p2pk_pubkey,
    newest_event_index, nutzap_amount, nutzap_event_fields, nutzap_event_tags, nutzap_info_from_tags,
    nutzap_info_tags, nutzap_pubkey_from_x_only, nutzap_send_proofs, pending_nutzap_count, pending_nutzap_from, pending_nutzap_value,
    remove_pending_nutzap, update_pending_nutzap_status, validate_nutzap_p2pk, NutzapEventFields, NutzapMint,
    NutzapStatus, PendingNutzap, ProofLock,
};
use cashu_store::types::{ProofData, ProofState, TokenData};

fn tag(parts: &[&str]) -> Vec<String> {
    parts.iter().map(|s| s.to_string()).collect()
}

fn mint(url: &str, unit: &str) -> NutzapMint {
    NutzapMint { url: url.to_string(), unit: unit.to_string() }
}

fn pending(id: &str, amount: u64, status: NutzapStatus) -> PendingNutzap {
    PendingNutzap {
        event_id: id.to_string(),
        sender_pubkey: "s".to_string(),
        amount,
        mint_url: "https://m".to_string(),
        unit: "sat".to_string(),
        comment: None,
        target_event_id: None,
        target_kind: None,
        proofs_json: vec![],
        status,
        received_at: 0,
    }
}

#[test]
fn pending_nutzaps_are_deduplicated() {
    let mut list = vec![];
    assert!(add_pending_nutzap(&mut list, pending("a", 5, NutzapStatus::Pending)));
    assert!(!add_pending_nutzap(&mut list, pending("a", 7, NutzapStatus::Pending)));
    assert!(add_pending_nutzap(&mut list, pending("b", 7, NutzapStatus::Redeemed)));
    assert!(add_pending_nutzap(&mut list, pending("c", 11, NutzapStatus::Pending)));
    assert_eq!(list.len(), 3);
    assert_eq!(pending_nutzap_count(&list), 2);
    assert_eq!(pending_nutzap_value(&list), 16);
    update_pending_nutzap_status(&mut list, "c", NutzapStatus::Failed("boom".to_string()));
    assert_eq!(pending_nutzap_count(&list), 1);
    assert!(matches!(&list[2].status, NutzapStatus::Failed(e) if e == "boom"));
    remove_pending_nutzap(&mut list, "a");
    assert_eq!(list.len(), 2);
    assert_eq!(list[0].event_id, "b");
}

#[test]
fn redeem_needs_a_known_nutzap() {
    let mut list = vec![pending("a", 5, NutzapStatus::Pending)];
    assert_eq!(begin_redeem(&mut list, "zz"), Err("Pending nutzap not found: zz".to_string()));
    assert_eq!(begin_redeem(&mut list, "a"), Ok(()));
    assert!(matches!(list[0].status, NutzapStatus::Redeeming));
}

#[test]
fn declared_amounts_saturate() {
    assert_eq!(nutzap_amount(&vec![Some(1), None, Some(4)]), 5);
    assert_eq!(nutzap_amount(&vec![Some(u64::MAX), Some(4)]), u64::MAX);
}

#[test]
fn p2pk_locks_checked_in_order() {
    let ours = "02abc";
    let good = ProofLock::Secret { kind: "P2PK".to_string(), data: Some("02abc".to_string()) };
    assert_eq!(validate_nutzap_p2pk(&vec![good.clone()], ours), Ok(()));
    assert_eq!(
        validate_nutzap_p2pk(&vec![good.clone(), ProofLock::Secret { kind: "HTLC".to_string(), data: None }], ours),
        Err("Proof is not P2PK locked".to_string())
    );
    assert_eq!(
        validate_nutzap_p2pk(&vec![ProofLock::Secret { kind: "P2PK".to_string(), data: None }], ours),
        Err("P2PK secret missing pubkey data".to_string())
    );
    assert_eq!(
        validate_nutzap_p2pk(&vec![ProofLock::Secret { kind: "P2PK".to_string(), data: Some("02def".to_string()) }], ours),
        Err("P2PK lock doesn't match our pubkey. Expected: 02abc, Got: 02def".to_string())
    );
    assert_eq!(
        validate_nutzap_p2pk(&vec![ProofLock::Unreadable("Proof missing secret".to_string()), good], ours),
        Err("Proof missing secret".to_string())
    );
}

#[test]
fn info_tags_round_trip() {
    let mints = vec![mint("https://Mint.Example/", "sat"), mint("https://other", "usd")];
    let relays = vec!["wss://relay.one".to_string()];
    let tags = nutzap_info_tags(&mints, &relays, "02ff");
    assert_eq!(tags[0], tag(&["relay", "wss://relay.one"]));
    assert_eq!(tags[1], tag(&["mint", "https://Mint.Example/", "sat"]));
    assert_eq!(tags[3], tag(&["pubkey", "02ff"]));
    let info = nutzap_info_from_tags("npub", &tags).unwrap();
    assert_eq!(info.p2pk_pubkey, "02ff");
    assert_eq!(info.relays, relays);
    assert_eq!(info.mints[0].url, "https://mint.example");
    assert_eq!(info.mints[1].unit, "usd");
}

#[test]
fn info_needs_key_and_mint() {
    let missing_key = vec![tag(&["mint", "https://m"])];
    assert_eq!(
        nutzap_info_from_tags("pk", &missing_key).unwrap_err(),
        "Nutzap info missing P2PK pubkey for pk"
    );
    let no_mint = vec![tag(&["pubkey", "02aa"]), tag(&["mint"])];
    assert_eq!(nutzap_info_from_tags("pk", &no_mint).unwrap_err(), "Nutzap info has no mints for pk");
    let default_unit = vec![tag(&["pubkey", "02aa"]), tag(&["mint", "https://m"]), tag(&["pubkey", "02bb"])];
    let info = nutzap_info_from_tags("pk", &default_unit).unwrap();
    assert_eq!(info.mints[0].unit, "sat");
    assert_eq!(info.p2pk_pubkey, "02bb");
}

#[test]
fn nutzap_event_fields_and_checks() {
    let tags = vec![
        tag(&["proof", "{\"amount\":1}"]),
        tag(&["u", "https://Mint.A/"]),
        tag(&["proof", "{\"amount\":2}"]),
        tag(&["e", "abcd"]),
        tag(&["k", "1"]),
        tag(&["k", "99999"]),
        tag(&["p", "recipient"]),
    ];
    let fields = nutzap_event_fields(&tags);
    assert_eq!(fields.proofs_json.len(), 2);
    assert_eq!(fields.mint_url, Some("https://mint.a".to_string()));
    assert_eq!(fields.unit, "sat");
    assert_eq!(fields.target_event_id, Some("abcd".to_string()));
    assert_eq!(fields.target_kind, None);

    let accepted = vec![mint("https://mint.a", "sat")];
    assert_eq!(check_nutzap_event(&fields, Some(&accepted)), Ok("https://mint.a".to_string()));
    assert_eq!(
        check_nutzap_event(&fields, None),
        Err("Nutzap info not configured - cannot validate mint".to_string())
    );
    assert_eq!(
        check_nutzap_event(&fields, Some(&vec![mint("https://b", "sat")])),
        Err("Nutzap from unaccepted mint: https://mint.a".to_string())
    );
    let no_mint = NutzapEventFields { mint_url: None, ..fields.clone() };
    assert_eq!(check_nutzap_event(&no_mint, Some(&accepted)), Err("Nutzap missing mint URL".to_string()));
    let no_proofs = NutzapEventFields { proofs_json: vec![], ..fields.clone() };
    assert_eq!(check_nutzap_event(&no_proofs, Some(&accepted)), Err("Nutzap contains no proofs".to_string()));

    let p = pending_nutzap_from(
        fields,
        "https://mint.a".to_string(),
        "ev".to_string(),
        "sender".to_string(),
        String::new(),
        42,
        3,
    );
    assert!(p.comment.is_none());
    assert!(matches!(p.status, NutzapStatus::Pending));
    assert_eq!(p.amount, 3);
}

#[test]
fn compatible_mint_search() {
    let theirs = vec![mint("https://x", "sat"), mint("https://Mint.A/", "usd")];
    let ours = vec!["https://mint.a".to_string()];
    let m = find_compatible_nutzap_mint(&theirs, &ours).unwrap();
    assert_eq!(m.url, "https://Mint.A/");
    assert_eq!(m.unit, "usd");
    assert_eq!(
        find_compatible_nutzap_mint(&theirs, &vec!["https://y".to_string()]).unwrap_err(),
        "No compatible mint found. Recipient accepts: [\"https://x\", \"https://Mint.A/\"]"
    );
}

#[test]
fn newest_event() {
    assert_eq!(newest_event_index(&vec![]), None);
    assert_eq!(newest_event_index(&vec![3, 9, 2, 9]), Some(1));
}

fn make_proof(amount: u64, state: ProofState) -> ProofData {
    ProofData {
        id: "k".to_string(),
        amount,
        secret: format!("s{}", amount),
        c: "02".to_string(),
        witness: None,
        dleq: None,
        state,
        transaction_id: None,
        state_set_at: None,
    }
}

#[test]
fn send_needs_funds() {
    let tokens = vec![TokenData {
        event_id: "e".to_string(),
        mint: "https://m".to_string(),
        unit: "sat".to_string(),
        proofs: vec![make_proof(4, ProofState::Unspent), make_proof(8, ProofState::Spent), make_proof(2, ProofState::Unspent)],
        created_at: 0,
    }];
    assert_eq!(nutzap_send_proofs(&tokens, "https://m", 6).unwrap().len(), 2);
    assert_eq!(
        nutzap_send_proofs(&tokens, "https://m", 7).unwrap_err(),
        "Insufficient funds. Available: 6 sats, Required: 7 sats"
    );
    assert_eq!(nutzap_send_proofs(&tokens, "https://none", 1).unwrap_err(), "No tokens found for compatible mint");
}

#[test]
fn nutzap_tags_layout() {
    let tags = nutzap_event_tags(
        &vec!["{p1}".to_string()],
        "https://m",
        "sat",
        "ab12",
        Some(("ee", Some(1))),
    );
    assert_eq!(
        tags,
        vec![
            tag(&["proof", "{p1}"]),
            tag(&["u", "https://m"]),
            tag(&["unit", "sat"]),
            tag(&["p", "ab12"]),
            tag(&["e", "ee"]),
            tag(&["k", "1"]),
        ]
    );
    assert_eq!(nutzap_event_tags(&vec![], "https://m", "sat", "ab", None).len(), 3);
}

#[test]
fn p2pk_key_of_wallet() {
    assert_eq!(get_nutzap_p2pk_pubkey(false, None), Err("Wallet not initialized".to_string()));
    assert_eq!(get_nutzap_p2pk_pubkey(true, None), Err("Wallet private key not available".to_string()));
    assert!(get_nutzap_p2pk_pubkey(true, Some("zz")).unwrap_err().starts_with("Invalid wallet privkey: "));
    let k = get_nutzap_p2pk_pubkey(
        true,
        Some("0000000000000000000000000000000000000000000000000000000000000001"),
    )
    .unwrap();
    assert_eq!(k, "0279be667ef9dcbbac55a06295ce870b07029bfcdb2dce28d959f2815b16f81798");
}

#[test]
fn nutzap_key_prefixes_even_parity() {
    let x = "a".repeat(64);
    assert_eq!(nutzap_pubkey_from_x_only(Ok(x.clone())).unwrap(), format!("02{}", x));
    assert_eq!(
        nutzap_pubkey_from_x_only(Err("malformed".to_string())).unwrap_err(),
        "Invalid wallet privkey: malformed"
    );
}
