use cashu_store::quotes::{
    check_quote_validity, cleanup_expired_quotes, format_expiry, get_expired_quotes, get_expiring_quotes, PendingQuote,
    QuoteValidity,
};

const NOW: u64 = 1_700_000_000;

#[test]
fn test_check_quote_validity() {
    let now = NOW;

    // Expired
    assert_eq!(check_quote_validity(Some(now - 100), now), QuoteValidity::Expired);

    // Expiring soon
    assert_eq!(check_quote_validity(Some(now + 30), now), QuoteValidity::ExpiringSoon);

    // Valid
    assert_eq!(check_quote_validity(Some(now + 300), now), QuoteValidity::Valid);

    // No expiry
    assert_eq!(check_quote_validity(None, now), QuoteValidity::NoExpiry);
}

#[test]
fn test_format_expiry() {
    let now = NOW;

    assert_eq!(format_expiry(Some(now + 90), now), "1m 30s");
    assert_eq!(format_expiry(Some(now + 45), now), "45s");
    assert_eq!(format_expiry(Some(now - 10), now), "Expired");
    assert_eq!(format_expiry(None, now), "No expiry");
}

#[test]
fn cleanup_drops_only_expired() {
    let mut quotes = vec![
        PendingQuote { quote_id: "q1".to_string(), expiry: Some(NOW - 1) },
        PendingQuote { quote_id: "q2".to_string(), expiry: Some(NOW + 100) },
        PendingQuote { quote_id: "q3".to_string(), expiry: None },
    ];
    assert_eq!(cleanup_expired_quotes(&mut quotes, NOW), 1);
    let ids: Vec<&str> = quotes.iter().map(|q| q.quote_id.as_str()).collect();
    assert_eq!(ids, vec!["q2", "q3"]);
}

#[test]
fn expired_and_expiring_quotes_are_listed() {
    let quotes = vec![
        PendingQuote { quote_id: "old".to_string(), expiry: Some(100) },
        PendingQuote { quote_id: "soon".to_string(), expiry: Some(150) },
        PendingQuote { quote_id: "later".to_string(), expiry: Some(1000) },
        PendingQuote { quote_id: "none".to_string(), expiry: None },
        PendingQuote { quote_id: "edge".to_string(), expiry: Some(160) },
    ];
    let expired = get_expired_quotes(&quotes, 100);
    assert_eq!(expired.len(), 1);
    assert_eq!(expired[0].quote_id, "old");
    let expiring = get_expiring_quotes(&quotes, 100);
    assert_eq!(expiring.iter().map(|q| q.quote_id.clone()).collect::<Vec<_>>(), vec!["soon".to_string(), "edge".to_string()]);
}
