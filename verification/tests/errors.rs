use cashu_store::errors::{is_insufficient_funds_error_string, is_token_spent_error_string, NutErrorCode};

#[test]
fn nut_codes_round_trip() {
    for code in [11001u16, 11002, 11005, 11016, 20001, 20002, 21001, 22002, 65535] {
        assert_eq!(NutErrorCode::from_code(code).code(), code);
    }
    assert_eq!(NutErrorCode::from_code(11001), NutErrorCode::TokenAlreadySpent);
    assert!(NutErrorCode::from_code(11001).is_token_lost());
    assert_eq!(NutErrorCode::from_code(1), NutErrorCode::Unknown);
}

#[test]
fn error_strings() {
    assert!(is_token_spent_error_string("Token already spent"));
    assert!(!is_token_spent_error_string("network down"));
    assert!(is_insufficient_funds_error_string("Insufficient funds"));
}
