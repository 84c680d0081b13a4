use cashu_store::address::{
    check_pay_response_tag, invoice_request_url, is_lightning_address, is_lightning_invoice, is_lnurl,
    require_lightning_address, sats_to_msats, AddressType, LnurlPayResponse, PaymentAddress,
};

#[test]
fn test_parse_lightning_address() {
    let addr = PaymentAddress::parse("user@example.com");
    assert!(addr.is_lightning_address());
    assert_eq!(addr.username.as_deref(), Some("user"));
    assert_eq!(addr.domain.as_deref(), Some("example.com"));
}

#[test]
fn test_parse_invoice() {
    let addr = PaymentAddress::parse("lnbc100n1...");
    assert_eq!(addr.address_type, AddressType::Invoice);
}

#[test]
fn test_lnurlp_url() {
    let addr = PaymentAddress::parse("satoshi@bitcoin.org");
    assert_eq!(
        addr.lnurlp_url().as_deref(),
        Some("https://bitcoin.org/.well-known/lnurlp/satoshi")
    );
}

#[test]
fn test_is_lightning_address() {
    assert!(is_lightning_address("user@domain.com"));
    assert!(!is_lightning_address("invalid"));
    assert!(!is_lightning_address("lnbc123..."));
}

#[test]
fn parse_lowercases_and_trims() {
    let addr = PaymentAddress::parse("  Alice@Example.COM ");
    assert_eq!(addr.address_type, AddressType::Lightning);
    assert_eq!(addr.username.as_deref(), Some("alice"));
    assert_eq!(addr.domain.as_deref(), Some("example.com"));
    assert_eq!(addr.original, "  Alice@Example.COM ");
}

#[test]
fn parse_lnurl_and_unknown() {
    assert_eq!(PaymentAddress::parse("LNURL1DP68GURN").address_type, AddressType::Lnurl);
    assert_eq!(PaymentAddress::parse("hello").address_type, AddressType::Unknown);
    assert!(is_lnurl("lnurl1abc"));
    assert!(is_lightning_invoice("lntb1xyz"));
    assert!(!is_lightning_invoice("user@domain.com"));
}

#[test]
fn lnurlp_url_absent_for_invoice() {
    let addr = PaymentAddress::parse("lnbc1xyz");
    assert!(addr.lnurlp_url().is_none());
    assert!(!addr.is_resolvable());
}

fn pay_response(tag: &str, min: u64, max: u64) -> LnurlPayResponse {
    LnurlPayResponse {
        callback: "https://pay.example.com/cb".to_string(),
        min_sendable: min,
        max_sendable: max,
        comment_allowed: 10,
        metadata: "[]".to_string(),
        tag: tag.to_string(),
    }
}

#[test]
fn invoice_url_encodes_comment() {
    let lnurl = pay_response("payRequest", 1000, 1_000_000);
    let url = invoice_request_url(&lnurl, 5000, Some("hi there")).unwrap();
    assert_eq!(url, "https://pay.example.com/cb?amount=5000&comment=hi%20there");
}

#[test]
fn invoice_url_refuses_out_of_range_amount() {
    let lnurl = pay_response("payRequest", 1000, 2000);
    assert!(invoice_request_url(&lnurl, 500, None).is_err());
    assert!(invoice_request_url(&lnurl, 3000, None).is_err());
    assert_eq!(invoice_request_url(&lnurl, 1500, None).unwrap(), "https://pay.example.com/cb?amount=1500");
}

#[test]
fn pay_response_tag_checked() {
    assert!(check_pay_response_tag(&pay_response("payRequest", 1, 2)).is_ok());
    assert_eq!(
        check_pay_response_tag(&pay_response("withdrawRequest", 1, 2)).unwrap_err(),
        "Invalid LNURL response tag: withdrawRequest"
    );
}

#[test]
fn msats_conversion() {
    assert_eq!(sats_to_msats(21).unwrap(), 21_000);
    assert!(sats_to_msats(u64::MAX).is_err());
}

#[test]
fn require_lightning_address_errors() {
    assert!(require_lightning_address("user@domain.com").is_ok());
    assert!(require_lightning_address("lnbc1abc").is_err());
}

#[test]
fn unicode_white_space_is_trimmed() {
    assert!(is_lightning_invoice("\u{3000}\u{2003} LNBC10n1\t\u{85}"));
    assert!(is_lnurl("\u{a0}lnurl1dp68gurn\u{2028}"));
    assert!(!is_lnurl("x lnurl1dp68gurn"));
}
