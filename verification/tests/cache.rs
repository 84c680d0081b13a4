use cashu_store::cache::{
    get_cached_active_keysets, get_cached_keyset_fee, is_mint_cached, parse_cache_control, CachedKeys, CachedKeyset,
    CachedMintInfo, MintMetadataCache, ResponseCache, DEFAULT_TTL_SECS,
};

fn info(cached_at: u64) -> CachedMintInfo {
    CachedMintInfo {
        name: Some("Test Mint".to_string()),
        description: None,
        pubkey: None,
        nuts: vec![],
        contact: None,
        motd: None,
        icon_url: None,
        cached_at,
    }
}

fn keyset(id: &str, active: bool, fee: u64, cached_at: u64) -> CachedKeyset {
    CachedKeyset { id: id.to_string(), unit: "sat".to_string(), active, input_fee_ppk: fee, cached_at }
}

#[test]
fn cache_control_max_age() {
    assert_eq!(parse_cache_control(Some("max-age=300")), Some(300));
    assert_eq!(parse_cache_control(Some("public, max-age=60")), Some(60));
    assert_eq!(parse_cache_control(Some("no-cache")), None);
    assert_eq!(parse_cache_control(None), None);
    // The first max-age directive decides, even if it does not parse.
    assert_eq!(parse_cache_control(Some("max-age=abc, max-age=5")), None);
    assert_eq!(parse_cache_control(Some(" max-age=+7 ")), Some(7));
    assert_eq!(parse_cache_control(Some("")), None);
}

#[test]
fn mint_info_expires_after_ttl() {
    let mut cache = MintMetadataCache::new();
    assert_eq!(cache.ttl_secs, DEFAULT_TTL_SECS);
    cache.cache_mint_info("https://Mint.Example/", info(1000));
    assert!(cache.has_valid_info("https://mint.example", 1299));
    assert!(!cache.has_valid_info("https://mint.example", 1300));
    assert_eq!(cache.get_info("https://MINT.example", 1100).unwrap().name, Some("Test Mint".to_string()));
    assert!(cache.get_info("https://mint.example", 1400).is_none());
    // A clock behind the stamp counts as no time passed.
    assert!(cache.has_valid_info("https://mint.example", 10));
    assert_eq!(cache.version, 1);
}

#[test]
fn keysets_and_keys() {
    let mut cache = MintMetadataCache::new();
    cache.cache_keysets(
        "https://m",
        vec![keyset("00aa", true, 100, 50), keyset("00bb", false, 0, 50), keyset("00aa", true, 200, 60)],
    );
    assert!(cache.has_valid_keysets("https://m", 100));
    assert!(!cache.has_valid_keysets("https://m", 400));
    // The later keyset with the same id replaced the earlier one.
    assert_eq!(get_cached_keyset_fee(&cache, "https://m", "00aa", 100), Some(200));
    assert_eq!(get_cached_keyset_fee(&cache, "https://m", "00aa", 1000), None);
    assert_eq!(get_cached_keyset_fee(&cache, "https://other", "00aa", 100), None);
    assert_eq!(get_cached_active_keysets(&cache, "https://m"), vec!["00aa".to_string()]);
    assert!(get_cached_active_keysets(&cache, "https://other").is_empty());

    assert!(!is_mint_cached(&cache, "https://m", 100));
    cache.cache_mint_info("https://m", info(90));
    assert!(is_mint_cached(&cache, "https://m", 100));

    cache.cache_keys("https://m", CachedKeys { keyset_id: "00aa".to_string(), keys: vec![(1, "02ab".to_string())], cached_at: 90 });
    let entry = cache.get_mint("https://m").unwrap();
    assert_eq!(entry.version, 3);
    assert!(entry.get_keys("00aa", 100, 300).is_some());
    assert!(entry.get_keys("00bb", 100, 300).is_none());

    let stats = cache.stats();
    assert_eq!(stats.mint_count, 1);
    assert_eq!(stats.total_keysets, 2);
    assert_eq!(stats.total_keys, 1);
    assert_eq!(stats.version, 3);

    cache.invalidate_mint("https://M/");
    assert!(cache.get_mint("https://m").is_none());
    cache.clear();
    assert_eq!(cache.stats().mint_count, 0);
    assert_eq!(cache.version, 5);
}

#[test]
fn response_cache_lifetime() {
    let mut cache = ResponseCache::new();
    cache.store("https://m/v1/info".to_string(), "{}".to_string(), 30, Some("etag-1".to_string()), 100);
    assert_eq!(cache.get("https://m/v1/info", 120).unwrap().body, "{}");
    assert_eq!(cache.get("https://m/v1/info", 120).unwrap().etag, Some("etag-1".to_string()));
    assert!(cache.get("https://m/v1/info", 130).is_none());
    cache.store("https://m/v1/keys".to_string(), "k".to_string(), 600, None, 100);
    cache.cleanup_expired(130);
    assert!(cache.get("https://m/v1/keys", 130).is_some());
    cache.cleanup_expired(700);
    assert!(cache.get("https://m/v1/keys", 650).is_none());
    cache.store("https://m/a".to_string(), "a".to_string(), 5, None, 0);
    cache.invalidate("https://m/a");
    assert!(cache.get("https://m/a", 0).is_none());
    cache.store("https://m/b".to_string(), "b".to_string(), 5, None, 0);
    cache.clear();
    assert!(cache.get("https://m/b", 0).is_none());
}
