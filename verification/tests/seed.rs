use cashu_store::seed::seed_from_secret_key;

#[test]
fn seed_is_two_chained_sha256_digests() {
    let key: Vec<u8> = (1..=32).collect();
    let seed = seed_from_secret_key(&key);
    assert_eq!(seed.len(), 64);
    let hex: String = seed.iter().map(|b| format!("{:02x}", b)).collect();
    assert_eq!(
        hex,
        "8964ad293a9bc5a2fcbe2247b5addaea6e68923e8669562f1b13b61805b37069\
         60221352ef3264f2e478f6666176801b4b5d79f79bb2e4a99f8b7eb556e9b358"
    );
}

#[test]
fn seed_depends_on_the_key() {
    assert_ne!(seed_from_secret_key(&[0u8; 32]), seed_from_secret_key(&[1u8; 32]));
}
