use cashu_store::order::{insert_sorted_unique, string_lt};

#[test]
fn string_order_matches_std() {
    let words = ["", "a", "ab", "b", "B", "é", "aa", "a\u{0}"];
    for x in words {
        for y in words {
            assert_eq!(string_lt(&x.to_string(), &y.to_string()), x < y, "{:?} < {:?}", x, y);
        }
    }
}

#[test]
fn sorted_insertion_dedups() {
    let mut v: Vec<String> = Vec::new();
    for w in ["pear", "apple", "pear", "fig", "apple"] {
        insert_sorted_unique(&mut v, w.to_string());
    }
    assert_eq!(v, vec!["apple".to_string(), "fig".to_string(), "pear".to_string()]);
}
