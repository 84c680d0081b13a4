use cashu_store::capabilities::{capabilities_from_nuts, displayed_nuts, MethodSettings};
use cashu_store::capabilities::{check_mint_amount, check_operation_capabilities, MintCapabilities, Nut, OperationKind};

#[test]
fn test_operation_required_nuts() {
    let p2pk_nuts = OperationKind::P2pkSend.required_nuts();
    assert!(p2pk_nuts.contains(&Nut::SpendingConditions));
    assert!(p2pk_nuts.contains(&Nut::P2pk));
}

#[test]
fn test_capabilities_supports() {
    let mut caps = MintCapabilities::default();
    caps.supported_nuts = vec![4, 5, 7, 8, 10, 11];

    assert!(caps.supports_nut(Nut::Minting));
    assert!(caps.supports_p2pk());
    assert!(!caps.supports_mpp());
    assert!(!caps.supports_htlc());
}

#[test]
fn missing_nuts_are_reported_by_number() {
    let mut caps = MintCapabilities::default();
    caps.supported_nuts = vec![4, 5];
    let missing = caps.missing_nuts_for(OperationKind::P2pkSend);
    assert!(missing.contains(&Nut::SpendingConditions));
    assert!(missing.contains(&Nut::P2pk));
    let err = check_operation_capabilities(&caps, OperationKind::P2pkSend).unwrap_err();
    assert_eq!(err, "Mint does not support required features: NUT-10, NUT-11");
}

#[test]
fn mint_amount_limits() {
    let mut caps = MintCapabilities::default();
    caps.max_mint_amount = Some(1000);
    caps.min_mint_amount = Some(10);
    assert!(check_mint_amount(&caps, 500).is_ok());
    assert!(check_mint_amount(&caps, 5).is_err());
    assert!(check_mint_amount(&caps, 5000).is_err());
}

fn settings() -> cashu_store::capabilities::NutSettings {
    cashu_store::capabilities::NutSettings {
        mint_methods: vec![],
        minting_disabled: false,
        melt_methods: vec![],
        melting_disabled: false,
        nut07: false,
        nut08: false,
        nut09: false,
        nut10: false,
        nut11: false,
        nut12: false,
        nut14: false,
        nut15: false,
        nut17: false,
        nut19: false,
        nut20: false,
        nut21: false,
        nut22: false,
    }
}

#[test]
fn capabilities_from_mint_nuts() {
    let mut n = settings();
    n.mint_methods = vec![
        MethodSettings { method: "bolt11".to_string(), min_amount: Some(1), max_amount: Some(1000) },
        MethodSettings { method: "bolt12".to_string(), min_amount: None, max_amount: Some(500) },
    ];
    n.melt_methods = vec![MethodSettings { method: "bolt11".to_string(), min_amount: None, max_amount: None }];
    n.melting_disabled = true;
    n.nut07 = true;
    n.nut12 = true;
    n.nut15 = true;
    n.nut22 = true;
    let caps = capabilities_from_nuts(&n);
    assert_eq!(caps.supported_nuts, vec![4, 5, 7, 12, 15, 22]);
    assert!(caps.minting_enabled);
    assert!(!caps.melting_enabled);
    assert_eq!(caps.mint_methods, vec!["bolt11".to_string(), "bolt12".to_string()]);
    assert_eq!(caps.max_mint_amount, Some(500));
    assert_eq!(caps.min_mint_amount, Some(1));
    assert_eq!(caps.max_melt_amount, None);
    assert!(caps.auth_required);
    assert_eq!(caps.auth_type, Some("blind".to_string()));
    assert_eq!(displayed_nuts(&n), vec![4, 5, 7, 12]);

    n.nut21 = true;
    assert_eq!(capabilities_from_nuts(&n).auth_type, Some("clear".to_string()));
    let none = capabilities_from_nuts(&settings());
    assert!(none.supported_nuts.is_empty());
    assert!(!none.auth_required);
    assert!(!none.minting_enabled);
}
