use cashu_store::discovery::{merge_discovered_mints, MintAnnouncement, RecommendationEvent};

fn tag(parts: &[&str]) -> Vec<String> {
    parts.iter().map(|s| s.to_string()).collect()
}

fn announcement(tags: Vec<Vec<String>>, author: &str, name: Option<&str>) -> MintAnnouncement {
    MintAnnouncement {
        tags,
        author_pubkey: author.to_string(),
        name: name.map(|s| s.to_string()),
        description: None,
    }
}

fn recommendation(tags: Vec<Vec<String>>, author: &str, content: &str) -> RecommendationEvent {
    RecommendationEvent { tags, author_pubkey: author.to_string(), content: content.to_string() }
}

#[test]
fn announcements_and_recommendations_merge() {
    let anns = vec![
        announcement(
            vec![tag(&["d", "mintkey"]), tag(&["u", "https://a.example"]), tag(&["nuts", "1,2,3"]), tag(&["n", "mainnet"])],
            "author1",
            Some("Mint A"),
        ),
        announcement(vec![tag(&["d", "no-url"])], "author2", None),
        announcement(vec![tag(&["u"]), tag(&["u", "https://b.example"])], "author3", Some("Mint B")),
    ];
    let recs = vec![
        recommendation(
            vec![
                tag(&["k", "38172"]),
                tag(&["u", "https://b.example", "cashu"]),
                tag(&["u", "https://c.example"]),
                tag(&["u", "wss://not-http"]),
                tag(&["u", "https://d.example", "fedimint"]),
            ],
            "alice",
            "great",
        ),
        recommendation(vec![tag(&["u", "https://b.example"]), tag(&["u", "https://b.example"])], "bob", "ok"),
        recommendation(vec![tag(&["u", "https://b.example"])], "alice", "again"),
    ];
    let mints = merge_discovered_mints(&anns, &recs);
    let urls: Vec<&str> = mints.iter().map(|m| m.url.as_str()).collect();
    assert_eq!(urls, vec!["https://b.example", "https://c.example", "https://a.example"]);

    let b = &mints[0];
    assert_eq!(b.recommendation_count, 2);
    assert_eq!(b.recommenders, vec!["alice".to_string(), "bob".to_string()]);
    assert_eq!(b.recommendations[0].content, "great");
    assert_eq!(b.name, Some("Mint B".to_string()));
    assert_eq!(b.author_pubkey, "author3");

    let c = &mints[1];
    assert_eq!(c.recommendation_count, 1);
    assert_eq!(c.network, Some("mainnet".to_string()));
    assert_eq!(c.author_pubkey, "");
    assert!(c.name.is_none());

    let a = &mints[2];
    assert_eq!(a.recommendation_count, 0);
    assert_eq!(a.mint_pubkey, Some("mintkey".to_string()));
    assert_eq!(a.nuts, Some("1,2,3".to_string()));
    assert_eq!(a.name, Some("Mint A".to_string()));
}

#[test]
fn later_announcement_replaces_earlier() {
    let anns = vec![
        announcement(vec![tag(&["u", "https://a"])], "first", Some("Old")),
        announcement(vec![tag(&["u", "https://a"])], "second", Some("New")),
    ];
    let mints = merge_discovered_mints(&anns, &vec![]);
    assert_eq!(mints.len(), 1);
    assert_eq!(mints[0].author_pubkey, "second");
    assert_eq!(mints[0].name, Some("New".to_string()));
}
