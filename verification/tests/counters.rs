use cashu_store::counters::{
    counter_increment, counters_to_back_up, get_counter_backup, put_counter_backup, remove_counter_backup, CounterBackup,
};

fn backup(mint: &str, counter: u64, at: u64) -> CounterBackup {
    CounterBackup { mint_url: mint.to_string(), counters: vec![("k1".to_string(), counter)], created_at: at }
}

#[test]
fn backup_is_read_back_and_replaced() {
    let mut backups = Vec::new();
    put_counter_backup(&mut backups, backup("https://a", 5, 1));
    put_counter_backup(&mut backups, backup("https://b", 7, 2));
    assert_eq!(get_counter_backup(&backups, "https://a").unwrap().counters, vec![("k1".to_string(), 5)]);
    put_counter_backup(&mut backups, backup("https://a", 9, 3));
    assert_eq!(backups.len(), 2);
    let a = get_counter_backup(&backups, "https://a").unwrap();
    assert_eq!(a.counters, vec![("k1".to_string(), 9)]);
    assert_eq!(a.created_at, 3);
    assert_eq!(backups[0].mint_url, "https://a");
    assert_eq!(get_counter_backup(&backups, "https://b").unwrap().created_at, 2);
    assert!(get_counter_backup(&backups, "https://c").is_none());
}

#[test]
fn removed_backup_is_gone() {
    let mut backups = vec![backup("https://a", 1, 1), backup("https://b", 2, 2), backup("https://a", 3, 3)];
    remove_counter_backup(&mut backups, "https://a");
    assert_eq!(backups.len(), 1);
    assert_eq!(backups[0].mint_url, "https://b");
    assert!(get_counter_backup(&backups, "https://a").is_none());
    remove_counter_backup(&mut backups, "https://zzz");
    assert_eq!(backups.len(), 1);
}

#[test]
fn only_nonzero_counters_are_kept() {
    let read = vec![("a".to_string(), 0u32), ("b".to_string(), 4), ("c".to_string(), u32::MAX)];
    assert_eq!(counters_to_back_up(&read), vec![("b".to_string(), 4u64), ("c".to_string(), u32::MAX as u64)]);
}

#[test]
fn increment_reaches_the_backup() {
    assert_eq!(counter_increment(10, 4), Some(6));
    assert_eq!(counter_increment(4, 4), None);
    assert_eq!(counter_increment(3, 4), None);
    assert_eq!(counter_increment(u32::MAX as u64 + 5, 0), Some(4));
}
