use cashu_store::wallet_init::{
    check_mint_url, check_wallet_mints, loaded_mint_urls, scan_wallet_pairs, snapshot_failure_message, wallet_content,
    wallet_from_pairs, wallet_init_plan, SnapshotSource, WalletInitPlan,
};

fn strings(xs: &[&str]) -> Vec<String> {
    xs.iter().map(|x| x.to_string()).collect()
}

fn pairs(xs: &[&[&str]]) -> Vec<Vec<String>> {
    xs.iter().map(|p| strings(p)).collect()
}

#[test]
fn mint_url_must_parse_and_use_https() {
    assert_eq!(check_mint_url("https://mint.example.com"), Ok(()));
    assert_eq!(check_mint_url("http://mint.example.com"), Err("Mint URL must use HTTPS".to_string()));
    assert_eq!(check_mint_url("http://localhost:3338"), Ok(()));
    assert_eq!(
        check_mint_url("not a url"),
        Err("Invalid URL format: relative URL without a base".to_string())
    );
}

#[test]
fn wallet_mints_are_serialized_or_refused() {
    assert_eq!(
        check_wallet_mints(&strings(&["https://a.example.com"])),
        Ok(strings(&["https://a.example.com/"]))
    );
    assert_eq!(
        check_wallet_mints(&strings(&["https://a.example.com", "bad", "worse"])),
        Err("Invalid mint URLs: bad: relative URL without a base, worse: relative URL without a base".to_string())
    );
    assert_eq!(check_wallet_mints(&Vec::new()), Ok(Vec::new()));
}

#[test]
fn wallet_pairs_are_scanned() {
    let p = pairs(&[&["privkey", "abc"], &["mint", "https://a.example.com"], &["x"], &["other", "y"], &["mint", "m"]]);
    let (key, multiple, mints) = scan_wallet_pairs(&p);
    assert_eq!(key, "abc");
    assert!(!multiple);
    assert_eq!(mints, strings(&["https://a.example.com", "m"]));
    let p2 = pairs(&[&["privkey", ""], &["privkey", "def"], &["privkey", "ghi"]]);
    let (key2, multiple2, _) = scan_wallet_pairs(&p2);
    assert_eq!(key2, "def");
    assert!(multiple2);
}

#[test]
fn wallet_event_reading() {
    let p = pairs(&[&["privkey", "abc"], &["mint", "https://a.example.com"], &["mint", "not a url"]]);
    assert_eq!(wallet_from_pairs(&p), Ok(("abc".to_string(), strings(&["https://a.example.com/"]))));
    let twice = pairs(&[&["privkey", "a"], &["privkey", "b"], &["mint", "https://a.example.com"]]);
    assert_eq!(
        wallet_from_pairs(&twice),
        Err("Wallet event contains multiple privkeys (invalid per NIP-60)".to_string())
    );
    let no_key = pairs(&[&["mint", "https://a.example.com"]]);
    assert_eq!(wallet_from_pairs(&no_key), Err("Missing required field: privkey".to_string()));
    let no_mint = pairs(&[&["privkey", "a"], &["mint", "nope"]]);
    assert_eq!(
        wallet_from_pairs(&no_mint),
        Err("Missing required field: mint (at least one mint URL required)".to_string())
    );
}

#[test]
fn wallet_content_reads_back() {
    let mints = check_wallet_mints(&strings(&["https://a.example.com", "https://b.example.com/x"])).unwrap();
    let content = wallet_content("key", &mints);
    assert_eq!(content[0], strings(&["privkey", "key"]));
    assert_eq!(content[1], strings(&["mint", "https://a.example.com/"]));
    assert_eq!(wallet_from_pairs(&content), Ok(("key".to_string(), mints)));
}

#[test]
fn loaded_mints_are_normalized() {
    assert_eq!(
        loaded_mint_urls(&strings(&["https://A.example.com/", "https://b.example.com"])),
        strings(&["https://a.example.com", "https://b.example.com"])
    );
}

#[test]
fn init_plan_prefers_newer_snapshot() {
    match wallet_init_plan(Some(10), Ok(Some(5))) {
        WalletInitPlan::Load(v) => assert_eq!(v, vec![SnapshotSource::Queued, SnapshotSource::Relay]),
        other => panic!("{:?}", other),
    }
    match wallet_init_plan(Some(5), Ok(Some(5))) {
        WalletInitPlan::Load(v) => assert_eq!(v, vec![SnapshotSource::Queued, SnapshotSource::Relay]),
        other => panic!("{:?}", other),
    }
    match wallet_init_plan(Some(4), Ok(Some(5))) {
        WalletInitPlan::Load(v) => assert_eq!(v, vec![SnapshotSource::Relay, SnapshotSource::Queued]),
        other => panic!("{:?}", other),
    }
    match wallet_init_plan(None, Ok(Some(5))) {
        WalletInitPlan::Load(v) => assert_eq!(v, vec![SnapshotSource::Relay]),
        other => panic!("{:?}", other),
    }
    match wallet_init_plan(Some(1), Err("down".to_string())) {
        WalletInitPlan::Load(v) => assert_eq!(v, vec![SnapshotSource::Queued]),
        other => panic!("{:?}", other),
    }
    assert!(matches!(wallet_init_plan(None, Ok(None)), WalletInitPlan::NoWallet));
    match wallet_init_plan(None, Err("down".to_string())) {
        WalletInitPlan::Fail(m) => assert_eq!(m, "Failed to fetch wallet: down"),
        other => panic!("{:?}", other),
    }
}

#[test]
fn snapshot_failure_text() {
    assert_eq!(
        snapshot_failure_message(SnapshotSource::Relay, "bad"),
        "Failed to initialize relay wallet snapshot: bad"
    );
    assert_eq!(SnapshotSource::Queued.label(), "queued");
}
