use std::str::FromStr;

use cashu_store::auth::{
    add_auth_header, auth_availability, auth_state_from_settings, get_auth_for_endpoint, is_auth_required_error,
    is_protected_mint, mint_requires_auth, set_mint_auth_state, AuthRequired, AuthToken, BlindAuthSettings,
    ClearAuthSettings, HttpMethod, MintAuthState, ProtectedEndpoint,
};
use cashu_store::auth_cache::{
    fresh_token_expiry, needs_token_replenishment, BlindAuthCache, CachedAuthToken, DEFAULT_TOKEN_TTL,
};
use cashu_store::strmap::StrMap;
use cdk::nuts::{AuthProof, BlindAuthToken, Id, PublicKey};
use cdk::secret::Secret;

fn token(secret: &str) -> BlindAuthToken {
    BlindAuthToken::new(AuthProof {
        keyset_id: Id::from_str("009a1f293253e41e").unwrap(),
        secret: Secret::new(secret),
        c: PublicKey::from_hex("0279be667ef9dcbbac55a06295ce870b07029bfcdb2dce28d959f2815b16f81798").unwrap(),
        dleq: None,
    })
}

fn ep(method: HttpMethod, path: &str) -> ProtectedEndpoint {
    ProtectedEndpoint::new(method, path)
}

#[test]
fn test_mint_auth_state_default() {
    let state = MintAuthState::default();
    assert!(!state.requires_auth());
    assert!(state.clear_auth.is_none());
    assert!(state.blind_auth.is_none());
}

#[test]
fn test_is_auth_required_error() {
    assert_eq!(is_auth_required_error(401, "error code 30001"), Some(AuthRequired::Clear));
    assert_eq!(is_auth_required_error(401, "Clear-auth required"), Some(AuthRequired::Clear));

    assert_eq!(is_auth_required_error(403, "error code 31001"), Some(AuthRequired::Blind));
    assert_eq!(is_auth_required_error(403, "Blind-auth required"), Some(AuthRequired::Blind));

    assert_eq!(is_auth_required_error(401, "unauthorized"), None);
    assert_eq!(is_auth_required_error(403, "forbidden"), None);

    assert_eq!(is_auth_required_error(200, "ok"), None);
    assert_eq!(is_auth_required_error(500, "internal error"), None);
}

#[test]
fn test_is_protected_mint() {
    // {"name": "Test", "nuts": {"21": {}}}
    assert!(is_protected_mint(&Some(vec!["21".to_string()])));
    // {"name": "Test", "nuts": {"22": {}}}
    assert!(is_protected_mint(&Some(vec!["22".to_string()])));
    // {"name": "Test", "nuts": {}}
    assert!(!is_protected_mint(&Some(vec![])));
}

#[test]
fn protected_mint_needs_nuts() {
    assert!(!is_protected_mint(&None));
    assert!(!is_protected_mint(&Some(vec!["4".to_string(), "5".to_string()])));
    assert!(is_protected_mint(&Some(vec!["4".to_string(), "22".to_string()])));
}

#[test]
fn auth_error_names_and_precedence() {
    assert_eq!(is_auth_required_error(401, "blind_auth_required"), Some(AuthRequired::Blind));
    assert_eq!(is_auth_required_error(403, "clear_auth_required"), Some(AuthRequired::Clear));
    // Both markers: clear auth is checked first.
    assert_eq!(is_auth_required_error(401, "30001 31001"), Some(AuthRequired::Clear));
    // Markers count only on 401 and 403.
    assert_eq!(is_auth_required_error(400, "30001"), None);
}

#[test]
fn blind_endpoints_win_over_clear() {
    let clear = ClearAuthSettings {
        openid_discovery: "https://auth.example/.well-known/openid-configuration".to_string(),
        client_id: "wallet".to_string(),
        protected_endpoints: vec![ep(HttpMethod::Post, "/v1/swap"), ep(HttpMethod::Post, "/v1/melt/bolt11")],
    };
    let blind = BlindAuthSettings { bat_max_mint: 50, protected_endpoints: vec![ep(HttpMethod::Post, "/v1/swap")] };
    let state = auth_state_from_settings(Some(clear), Some(blind));
    assert!(state.requires_auth());
    assert_eq!(state.requires_auth_for(HttpMethod::Post, "/v1/swap"), Some(AuthRequired::Blind));
    assert_eq!(state.requires_auth_for(HttpMethod::Post, "/v1/melt/bolt11"), Some(AuthRequired::Clear));
    assert_eq!(state.requires_auth_for(HttpMethod::Get, "/v1/swap"), None);
    assert_eq!(state.requires_auth_for(HttpMethod::Post, "/v1/checkstate"), None);
}

#[test]
fn rebuilding_the_map_drops_stale_entries() {
    let mut state = MintAuthState::default();
    state.protected_map.push((ep(HttpMethod::Get, "/v1/keys"), AuthRequired::Clear));
    assert_eq!(state.endpoint_requires_auth(&ep(HttpMethod::Get, "/v1/keys")), Some(AuthRequired::Clear));
    state.build_protected_map();
    assert_eq!(state.endpoint_requires_auth(&ep(HttpMethod::Get, "/v1/keys")), None);
    assert!(state.protected_map.is_empty());
}

#[test]
fn clear_header_added_when_token_known() {
    let clear = ClearAuthSettings {
        openid_discovery: "d".to_string(),
        client_id: "c".to_string(),
        protected_endpoints: vec![ep(HttpMethod::Post, "/v1/mint/bolt11")],
    };
    let mut state = auth_state_from_settings(Some(clear), None);
    let mut cache = BlindAuthCache::new();
    let mut headers: Vec<(String, String)> = vec![];

    let r = add_auth_header(&mut headers, &state, &mut cache, "https://m", &ep(HttpMethod::Post, "/v1/mint/bolt11"), 10);
    assert_eq!(r, Err("Clear auth required but no token available".to_string()));
    assert!(headers.is_empty());

    state.clear_token = Some("jwt-123".to_string());
    let r = add_auth_header(&mut headers, &state, &mut cache, "https://m", &ep(HttpMethod::Post, "/v1/mint/bolt11"), 10);
    assert_eq!(r, Ok(()));
    assert_eq!(headers, vec![("Clear-auth".to_string(), "jwt-123".to_string())]);

    // An unprotected endpoint gets no header.
    let r = add_auth_header(&mut headers, &state, &mut cache, "https://m", &ep(HttpMethod::Get, "/v1/info"), 10);
    assert_eq!(r, Ok(()));
    assert_eq!(headers.len(), 1);
}

#[test]
fn blind_header_takes_a_cached_token() {
    let blind = BlindAuthSettings { bat_max_mint: 5, protected_endpoints: vec![ep(HttpMethod::Post, "/v1/swap")] };
    let state = auth_state_from_settings(None, Some(blind));
    let mut cache = BlindAuthCache::new();
    let mut headers: Vec<(String, String)> = vec![];
    let swap = ep(HttpMethod::Post, "/v1/swap");

    let r = add_auth_header(&mut headers, &state, &mut cache, "https://m", &swap, 10);
    assert_eq!(
        r,
        Err("Blind auth required but no tokens available. Please request blind auth tokens.".to_string())
    );

    cache.add_token("https://m", token("s1"), None, 5);
    let r = add_auth_header(&mut headers, &state, &mut cache, "https://m", &swap, 10);
    assert_eq!(r, Ok(()));
    assert_eq!(headers.len(), 1);
    assert_eq!(headers[0].0, "Blind-auth");
    assert!(headers[0].1.starts_with("authA"));
    assert_eq!(headers[0].1, token("s1").to_string());
    assert_eq!(cache.available_count("https://m", 10), 0);
}

#[test]
fn auth_token_for_endpoint() {
    let clear = ClearAuthSettings {
        openid_discovery: "d".to_string(),
        client_id: "c".to_string(),
        protected_endpoints: vec![ep(HttpMethod::Post, "/v1/melt/bolt11")],
    };
    let mut state = auth_state_from_settings(Some(clear), None);
    let mut cache = BlindAuthCache::new();
    let melt = ep(HttpMethod::Post, "/v1/melt/bolt11");
    match get_auth_for_endpoint(&state, &mut cache, "https://m", &melt, 0) {
        Err(e) => assert_eq!(e, "Clear auth required but no token available. Please authenticate with the mint."),
        Ok(_) => panic!("expected an error"),
    }
    state.clear_token = Some("jwt".to_string());
    match get_auth_for_endpoint(&state, &mut cache, "https://m", &melt, 0) {
        Ok(Some(AuthToken::ClearAuth(t))) => assert_eq!(t, "jwt"),
        _ => panic!("expected the clear token"),
    }
    assert!(matches!(
        get_auth_for_endpoint(&state, &mut cache, "https://m", &ep(HttpMethod::Get, "/v1/keys"), 0),
        Ok(None)
    ));
}

#[test]
fn availability_of_auth() {
    assert_eq!(auth_availability(None, None, false), Ok(()));
    assert_eq!(auth_availability(Some(AuthRequired::Clear), None, true), Err("Auth state not found".to_string()));
    let mut state = MintAuthState::default();
    assert_eq!(
        auth_availability(Some(AuthRequired::Clear), Some(&state), true),
        Err("This mint requires Clear Auth (NUT-21). Please authenticate with the mint's OAuth provider.".to_string())
    );
    state.clear_token = Some("t".to_string());
    assert_eq!(auth_availability(Some(AuthRequired::Clear), Some(&state), false), Ok(()));
    assert_eq!(
        auth_availability(Some(AuthRequired::Blind), None, false),
        Err("This mint requires Blind Auth (NUT-22). Please request blind auth tokens first.".to_string())
    );
    assert_eq!(auth_availability(Some(AuthRequired::Blind), None, true), Ok(()));
}

#[test]
fn registry_of_auth_states() {
    let mut states: StrMap<MintAuthState> = StrMap::new();
    assert!(!mint_requires_auth(&states, "https://a"));
    let blind = BlindAuthSettings { bat_max_mint: 5, protected_endpoints: vec![ep(HttpMethod::Post, "/v1/swap")] };
    let mut st = MintAuthState::default();
    st.blind_auth = Some(blind);
    set_mint_auth_state(&mut states, "https://a", st);
    assert!(mint_requires_auth(&states, "https://a"));
    assert!(!mint_requires_auth(&states, "https://b"));
    let stored = states.get("https://a").unwrap();
    assert_eq!(stored.requires_auth_for(HttpMethod::Post, "/v1/swap"), Some(AuthRequired::Blind));
}

#[test]
fn test_cache_basic() {
    let cache = BlindAuthCache::new();
    assert_eq!(cache.available_count("https://test.mint", 0), 0);
    assert!(!cache.has_tokens("https://test.mint", 0));
}

#[test]
fn cache_defaults() {
    assert_eq!(BlindAuthCache::new().default_ttl, 3600);
    assert_eq!(BlindAuthCache::default().default_ttl, 0);
    assert_eq!(fresh_token_expiry(1000), 1000 + DEFAULT_TOKEN_TTL);
}

#[test]
fn consume_takes_first_live_token() {
    let mut cache = BlindAuthCache::new();
    cache.add_token("https://m", token("expired"), Some(100), 0);
    cache.add_tokens("https://m", vec![token("a"), token("b")], Some(1000), 0);
    cache.add_token("https://other", token("o"), None, 0);
    assert_eq!(cache.total_count(), 4);
    assert_eq!(cache.available_count("https://m", 50), 3);
    assert_eq!(cache.available_count("https://m", 200), 2);
    assert_eq!(cache.peek_tokens("https://m", 200).len(), 2);

    assert_eq!(cache.consume_token("https://m", 200), Some(token("a")));
    assert_eq!(cache.consume_token("https://m", 200), Some(token("b")));
    assert_eq!(cache.consume_token("https://m", 200), None);
    // The expired token stays until cleanup.
    assert_eq!(cache.total_count(), 2);
    assert!(needs_token_replenishment(&cache, "https://m", 200));
    assert!(!cache.has_tokens("https://m", 200));
    assert!(cache.has_tokens("https://other", 200));
}

#[test]
fn cleanup_drops_expired_and_empty_mints() {
    let mut cache = BlindAuthCache::new();
    cache.add_tokens("https://m", vec![token("x"), token("y")], Some(100), 0);
    cache.add_token("https://m", token("z"), None, 0);
    cache.add_token("https://gone", token("g"), Some(50), 0);
    assert_eq!(cache.cleanup_expired(100), 3);
    assert_eq!(cache.total_count(), 1);
    assert_eq!(cache.available_count("https://m", 100), 1);
    let stats = cache.stats(100);
    assert_eq!(stats.total_tokens, 1);
    assert_eq!(stats.mints_with_tokens, 1);
    assert_eq!(stats.tokens_per_mint, vec![("https://m".to_string(), 1)]);
}

#[test]
fn stats_list_mints_without_live_tokens() {
    let mut cache = BlindAuthCache::new();
    cache.add_token("https://a", token("a"), Some(10), 0);
    cache.add_token("https://b", token("b"), None, 0);
    let stats = cache.stats(20);
    assert_eq!(stats.total_tokens, 2);
    assert_eq!(stats.mints_with_tokens, 1);
    assert_eq!(stats.tokens_per_mint, vec![("https://a".to_string(), 0), ("https://b".to_string(), 1)]);
    cache.clear_mint("https://a");
    assert_eq!(cache.total_count(), 1);
    cache.clear_all();
    assert_eq!(cache.total_count(), 0);
}

#[test]
fn cached_token_expiry() {
    let t = CachedAuthToken { token: token("t"), cached_at: 0, expires_at: Some(10), use_count: 0 };
    assert!(t.is_valid(9));
    assert!(t.is_expired(10));
    let forever = CachedAuthToken { token: token("f"), cached_at: 0, expires_at: None, use_count: 0 };
    assert!(forever.is_valid(u64::MAX));
}

#[test]
fn checked_total_counts_every_token() {
    let mut cache = BlindAuthCache::new();
    assert_eq!(cache.checked_total_count(), Some(0));
    cache.add_token("https://m", token("s1"), None, 5);
    cache.add_token("https://m", token("s2"), Some(1), 5);
    cache.add_token("https://n", token("s3"), None, 5);
    assert_eq!(cache.checked_total_count(), Some(3));
}
