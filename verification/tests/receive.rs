use cashu_store::errors::CdkErrorKind;
use cashu_store::receive::{
    dleq_failure_message, event_id_choice, read_token, prepare_token_string, preview_memo, publish_error_text,
    receive_failure_message, receive_publish_verdict, token_mint, token_parse_error_message, EventIdChoice, PublishReply,
    PublishVerdict,
};

#[test]
fn control_characters_are_refused() {
    assert_eq!(
        prepare_token_string("cashuB\u{7}abc").unwrap_err(),
        "Token contains invalid control characters. Please copy the token again."
    );
}

#[test]
fn missing_padding_is_restored() {
    let (t, n, rem) = prepare_token_string("cashuBabcdef").unwrap();
    assert_eq!((t.as_str(), n, rem), ("cashuBabcdef==", 6, 2));
    let (t, n, rem) = prepare_token_string("cashuAabcdefg").unwrap();
    assert_eq!((t.as_str(), n, rem), ("cashuAabcdefg=", 7, 3));
    let (t, _, rem) = prepare_token_string("cashuAabcd").unwrap();
    assert_eq!((t.as_str(), rem), ("cashuAabcd", 0));
    let (t, n, _) = prepare_token_string("hello").unwrap();
    assert_eq!((t.as_str(), n), ("hello", 0));
}

#[test]
fn parse_error_messages() {
    assert_eq!(
        token_parse_error_message("Invalid symbol 6-bit remainder", 10, 2),
        "Token appears to be incomplete or corrupted (base64 length: 10, remainder: 2). Please ensure you copied the entire token."
    );
    assert_eq!(
        token_parse_error_message("InvalidByte(3, 64)", 0, 0),
        "Token contains invalid characters. Please copy the token again carefully."
    );
    assert_eq!(token_parse_error_message("Unsupported token", 0, 0), "Invalid token format: Unsupported token");
}

#[test]
fn dleq_messages() {
    assert_eq!(
        dleq_failure_message(CdkErrorKind::CouldNotVerifyDleq, "x"),
        "Token verification failed: Invalid DLEQ proof signature."
    );
    assert_eq!(dleq_failure_message(CdkErrorKind::Other, "boom"), "Token verification failed: boom");
}

#[test]
fn receive_failure_messages() {
    assert_eq!(
        receive_failure_message(true, Some((3, 21)), ""),
        "This token has already been spent. However, we cleaned up 3 spent proofs (21 sats) from your wallet."
    );
    assert_eq!(
        receive_failure_message(true, Some((0, 0)), ""),
        "This token has already been spent and cannot be redeemed."
    );
    assert_eq!(receive_failure_message(true, None, ""), "This token has already been spent and cannot be redeemed.");
    assert_eq!(receive_failure_message(false, None, "net"), "Failed to receive token: net");
}

#[test]
fn publish_verdicts() {
    assert_eq!(receive_publish_verdict(&PublishReply::Accepted), PublishVerdict::Published);
    assert_eq!(
        receive_publish_verdict(&PublishReply::AllFailed(vec!["DUPLICATE: have it".to_string(), "duplicate: yes".to_string()])),
        PublishVerdict::AlreadyPublished
    );
    assert_eq!(
        receive_publish_verdict(&PublishReply::AllFailed(vec!["duplicate: a".to_string(), "rate-limited".to_string()])),
        PublishVerdict::Retry
    );
    assert_eq!(receive_publish_verdict(&PublishReply::AllFailed(vec![])), PublishVerdict::Retry);
    assert_eq!(receive_publish_verdict(&PublishReply::Error("You are BANNED".to_string())), PublishVerdict::Permanent);
    assert_eq!(receive_publish_verdict(&PublishReply::Error("event already exists".to_string())), PublishVerdict::AlreadyPublished);
    assert_eq!(receive_publish_verdict(&PublishReply::Error("timeout".to_string())), PublishVerdict::Retry);
    assert_eq!(publish_error_text(&PublishReply::AllFailed(vec!["a".to_string(), "b".to_string()])), "All 2 relays failed");
    assert_eq!(event_id_choice(PublishVerdict::Retry), EventIdChoice::Pending);
    assert_eq!(event_id_choice(PublishVerdict::Permanent), EventIdChoice::LocalOnly);
    assert_eq!(event_id_choice(PublishVerdict::AlreadyPublished), EventIdChoice::Signed);
}

#[test]
fn memo_preview_truncates_on_char_boundaries() {
    assert_eq!(preview_memo("short"), "short");
    let long = "a".repeat(300);
    assert_eq!(preview_memo(&long), format!("{}...", "a".repeat(253)));
    let wide = "é".repeat(200);
    let shown = preview_memo(&wide);
    assert_eq!(shown, format!("{}...", "é".repeat(126)));
    let exact = "b".repeat(256);
    assert_eq!(preview_memo(&exact), exact);
}

#[test]
fn read_token_gives_token_padding_and_mint() {
    let (_, padded, mint) = read_token("cashuAeyJ0b2tlbiI6W3sibWludCI6Imh0dHBzOi8vODMzMy5zcGFjZTozMzM4IiwicHJvb2ZzIjpbeyJhbW91bnQiOjIsImlkIjoiMDA5YTFmMjkzMjUzZTQxZSIsInNlY3JldCI6IjQwNzkxNWJjMjEyYmU2MWE3N2UzZTZkMmFlYjRjNzI3OTgwYmRhNTFjZDA2YTZhZmMyOWUyODYxNzY4YTc4MzciLCJDIjoiMDJiYzkwOTc5OTdkODFhZmIyY2M3MzQ2YjVlNDM0NWE5MzQ2YmQyYTUwNmViNzk1ODU5OGE3MmYwY2Y4NTE2M2VhIn0seyJhbW91bnQiOjgsImlkIjoiMDA5YTFmMjkzMjUzZTQxZSIsInNlY3JldCI6ImZlMTUxMDkzMTRlNjFkNzc1NmIwZjhlZTBmMjNhNjI0YWNhYTNmNGUwNDJmNjE0MzNjNzI4YzcwNTdiOTMxYmUiLCJDIjoiMDI5ZThlNTA1MGI4OTBhN2Q2YzA5NjhkYjE2YmMxZDVkNWZhMDQwZWExZGUyODRmNmVjNjlkNjEyOTlmNjcxMDU5In1dfV0sInVuaXQiOiJzYXQiLCJtZW1vIjoiVGhhbmsgeW91IHZlcnkgbXVjaC4ifQ").unwrap();
    assert!(padded.ends_with("=="));
    assert_eq!(mint, "https://8333.space:3338");
    let (_, same, mint4) = read_token("cashuBpGF0gaJhaUgArSaMTR9YJmFwgaNhYQFhc3hAOWE2ZGJiODQ3YmQyMzJiYTc2ZGIwZGYxOTcyMTZiMjlkM2I4Y2MxNDU1M2NkMjc4MjdmYzFjYzk0MmZlZGI0ZWFjWCEDhhhUP_trhpXfStS6vN6So0qWvc2X3O4NfM-Y1HISZ5JhZGlUaGFuayB5b3VhbXVodHRwOi8vbG9jYWxob3N0OjMzMzhhdWNzYXQ=").unwrap();
    assert_eq!(same, "cashuBpGF0gaJhaUgArSaMTR9YJmFwgaNhYQFhc3hAOWE2ZGJiODQ3YmQyMzJiYTc2ZGIwZGYxOTcyMTZiMjlkM2I4Y2MxNDU1M2NkMjc4MjdmYzFjYzk0MmZlZGI0ZWFjWCEDhhhUP_trhpXfStS6vN6So0qWvc2X3O4NfM-Y1HISZ5JhZGlUaGFuayB5b3VhbXVodHRwOi8vbG9jYWxob3N0OjMzMzhhdWNzYXQ=");
    assert_eq!(mint4, "http://localhost:3338");
    assert_eq!(
        read_token("cashuA\u{7}abc"),
        Err("Token contains invalid control characters. Please copy the token again.".to_string())
    );
    assert!(read_token("notatoken").unwrap_err().starts_with("Invalid token format: "));
}

#[test]
fn token_mint_normalizes_or_explains() {
    assert_eq!(token_mint(Ok("https://Mint.Example.com//".to_string())).unwrap(), "https://mint.example.com");
    assert_eq!(
        token_mint(Err("Unsupported token".to_string())).unwrap_err(),
        "Failed to get mint URL: Unsupported token"
    );
}
