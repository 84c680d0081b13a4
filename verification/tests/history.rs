use cashu_store::enriched_history::{Direction, HistoryItemData};
use cashu_store::history::{
    history_event_content, history_item_from_event, merge_history, parse_u64, typed_history_content,
};

fn row(v: &[&str]) -> Vec<String> {
    v.iter().map(|s| s.to_string()).collect()
}

#[test]
fn parse_u64_like_std() {
    assert_eq!(parse_u64("100"), Some(100));
    assert_eq!(parse_u64("+7"), Some(7));
    assert_eq!(parse_u64("18446744073709551615"), Some(u64::MAX));
    assert_eq!(parse_u64("18446744073709551616"), None);
    assert_eq!(parse_u64(""), None);
    assert_eq!(parse_u64("+"), None);
    assert_eq!(parse_u64("-1"), None);
    assert_eq!(parse_u64(" 1"), None);
    for s in ["0", "00012", "+0", "99999999999"] {
        assert_eq!(parse_u64(s), s.parse::<u64>().ok());
    }
}

#[test]
fn history_event_is_read() {
    let pairs = vec![
        row(&["direction", "out"]),
        row(&["amount", "250"]),
        row(&["unit", "sat"]),
        row(&["e", "c1", "", "created"]),
        row(&["e", "d1", "", "destroyed"]),
        row(&["e", "x"]),
        row(&[]),
    ];
    let tags = vec![row(&["e", "r1", "", "redeemed"]), row(&["p", "pk"])];
    let item = history_item_from_event(&"ev".to_string(), 99, &pairs, &tags).unwrap();
    assert_eq!(item.direction, Direction::Out);
    assert_eq!(item.amount, 250);
    assert_eq!(item.unit, "sat");
    assert_eq!(item.created_at, 99);
    assert_eq!(item.created_tokens, row(&["c1"]));
    assert_eq!(item.destroyed_tokens, row(&["d1"]));
    assert_eq!(item.redeemed_events, row(&["r1"]));
}

#[test]
fn history_event_without_amount_is_skipped() {
    let pairs = vec![row(&["direction", "in"]), row(&["amount", "abc"])];
    assert!(history_item_from_event(&"ev".to_string(), 1, &pairs, &Vec::new()).is_none());
}

fn item(id: &str, at: u64) -> HistoryItemData {
    HistoryItemData {
        event_id: id.to_string(),
        direction: Direction::In,
        amount: 1,
        unit: "sat".to_string(),
        created_at: at,
        created_tokens: vec![],
        destroyed_tokens: vec![],
        redeemed_events: vec![],
    }
}

#[test]
fn merge_is_newest_first_without_duplicates() {
    let merged = merge_history(vec![item("a", 10), item("b", 30)], vec![item("b", 30), item("c", 20), item("d", 30)], true);
    let ids: Vec<&str> = merged.iter().map(|h| h.event_id.as_str()).collect();
    assert_eq!(ids, vec!["b", "d", "c", "a"]);
    let full = merge_history(vec![item("a", 10)], vec![item("x", 1), item("y", 2)], false);
    let ids: Vec<&str> = full.iter().map(|h| h.event_id.as_str()).collect();
    assert_eq!(ids, vec!["y", "x"]);
}

#[test]
fn history_event_is_written_and_read_back() {
    let id_a = "A".repeat(64);
    let id_b = "0123456789abcdef".repeat(4);
    let created = vec![id_a.clone(), "not-an-id".to_string()];
    let destroyed = vec![id_b.clone()];
    let redeemed = vec!["f".repeat(64), "g".repeat(64)];
    let (content, tags) = history_event_content("out", 250, &created, &destroyed, &redeemed).unwrap();
    assert_eq!(content[0], row(&["direction", "out"]));
    assert_eq!(content[1], row(&["amount", "250"]));
    assert_eq!(content[2], row(&["unit", "sat"]));
    assert_eq!(content[3], row(&["e", &"a".repeat(64), "", "created"]));
    assert_eq!(content[4], row(&["e", &id_b, "", "destroyed"]));
    assert_eq!(content.len(), 5);
    assert_eq!(tags, vec![row(&["e", &"f".repeat(64), "", "redeemed"])]);
    let item = history_item_from_event(&"ev".to_string(), 9, &content, &tags).unwrap();
    assert_eq!(item.direction, Direction::Out);
    assert_eq!(item.amount, 250);
    assert_eq!(item.created_tokens, vec!["a".repeat(64)]);
    assert_eq!(item.destroyed_tokens, vec![id_b]);
    assert_eq!(item.redeemed_events, vec!["f".repeat(64)]);
}

#[test]
fn history_event_needs_a_direction() {
    assert_eq!(
        history_event_content("sideways", 1, &vec![], &vec![], &vec![]),
        Err("Invalid direction".to_string())
    );
    let (content, tags) = history_event_content("in", 0, &vec![], &vec![], &vec![]).unwrap();
    assert_eq!(content.len(), 3);
    assert!(tags.is_empty());
}

#[test]
fn typed_history_event_is_read_back() {
    let rows = typed_history_content(
        "in",
        42,
        vec!["c1".to_string()],
        vec!["d1".to_string(), "d2".to_string()],
        Some("lightning_receive"),
        Some("lnbc1"),
    );
    assert_eq!(rows[3], row(&["type", "lightning_receive"]));
    assert_eq!(rows[4], row(&["invoice", "lnbc1"]));
    assert_eq!(rows[5], row(&["e", "c1", "", "created"]));
    let item = history_item_from_event(&"ev".to_string(), 1, &rows, &vec![]).unwrap();
    assert_eq!(item.direction, Direction::In);
    assert_eq!(item.amount, 42);
    assert_eq!(item.created_tokens, vec!["c1".to_string()]);
    assert_eq!(item.destroyed_tokens, vec!["d1".to_string(), "d2".to_string()]);
    let plain = typed_history_content("out", 1, vec![], vec![], None, None);
    assert_eq!(plain.len(), 3);
}
