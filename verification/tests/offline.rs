use cashu_store::offline::{
    remove_offline_token, should_redeem_offline_tokens, store_offline_token, PendingOfflineToken,
};

fn kept(id: &str, value: u64) -> PendingOfflineToken {
    PendingOfflineToken {
        id: id.to_string(),
        token_string: format!("cashuB{}", id),
        mint_url: "https://mint".to_string(),
        value,
        stored_at: 1,
    }
}

#[test]
fn offline_tokens_are_kept_and_dropped() {
    let mut tokens = Vec::new();
    store_offline_token(&mut tokens, kept("a", 1));
    store_offline_token(&mut tokens, kept("b", 2));
    store_offline_token(&mut tokens, kept("c", 3));
    assert_eq!(tokens.len(), 3);
    remove_offline_token(&mut tokens, "b");
    assert_eq!(tokens.iter().map(|t| t.id.clone()).collect::<Vec<_>>(), vec!["a".to_string(), "c".to_string()]);
    remove_offline_token(&mut tokens, "zzz");
    assert_eq!(tokens.len(), 2);
}

#[test]
fn redemption_starts_when_back_online() {
    assert!(should_redeem_offline_tokens(false, true));
    assert!(!should_redeem_offline_tokens(true, true));
    assert!(!should_redeem_offline_tokens(false, false));
    assert!(!should_redeem_offline_tokens(true, false));
}
