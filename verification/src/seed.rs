//! The wallet's seed, derived from the user's Nostr secret key.
use vstd::prelude::*;

verus! {

/// The SHA-256 digest of some bytes.
pub uninterp spec fn sha256_of(data: Seq<u8>) -> Seq<u8>;

/// Hashes bytes with `sha2::Sha256::digest`; the digest is 32 bytes.
#[verifier::external_body]
fn sha256(data: &[u8]) -> (r: Vec<u8>)
    ensures
        r@ == sha256_of(data@),
        r@.len() == 32,
{
    <sha2::Sha256 as sha2::Digest>::digest(data).to_vec()
}

/// The domain tag of the seed's first half.
pub open spec fn seed_tag() -> Seq<u8> {
    seq![99u8, 97, 115, 104, 117, 45, 119, 97, 108, 108, 101, 116, 45, 115, 101, 101, 100, 45, 118, 49]
}

/// The domain tag of the seed's second half.
pub open spec fn seed_ext_tag() -> Seq<u8> {
    seed_tag() + seq![45u8, 101, 120, 116]
}

/// The 64-byte seed of a secret key: the hash of the key and a tag, then
/// the hash of that hash and a longer tag.
pub open spec fn seed_of_key(secret_key: Seq<u8>) -> Seq<u8> {
    let first = sha256_of(secret_key + seed_tag());
    first + sha256_of(first + seed_ext_tag())
}

/// Appends bytes.
fn append_bytes(out: &mut Vec<u8>, b: &[u8])
    ensures
        final(out)@ == old(out)@ + b@,
{
    let ghost start = out@;
    for i in 0..b.len()
        invariant
            out@ == start + b@.take(i as int),
    {
        out.push(b[i]);
        assert(start + b@.take(i + 1) =~= (start + b@.take(i as int)).push(b@[i as int]));
    }
    assert(b@.take(b@.len() as int) =~= b@);
}

/// Derives the wallet's deterministic seed from the user's secret key
/// bytes: "cashu-wallet-seed-v1" names the first half and
/// "cashu-wallet-seed-v1-ext" the second.
pub fn seed_from_secret_key(secret_key: &[u8]) -> (r: Vec<u8>)
    ensures
        r@ == seed_of_key(secret_key@),
        r@.len() == 64,
{
    let tag: Vec<u8> = vec![99u8, 97, 115, 104, 117, 45, 119, 97, 108, 108, 101, 116, 45, 115, 101, 101, 100, 45, 118, 49];
    assert(tag@ =~= seed_tag());
    let mut data: Vec<u8> = Vec::new();
    append_bytes(&mut data, secret_key);
    append_bytes(&mut data, tag.as_slice());
    let first = sha256(data.as_slice());
    let mut ext: Vec<u8> = Vec::new();
    append_bytes(&mut ext, first.as_slice());
    append_bytes(&mut ext, tag.as_slice());
    let suffix: Vec<u8> = vec![45u8, 101, 120, 116];
    append_bytes(&mut ext, suffix.as_slice());
    assert(ext@ =~= first@ + seed_ext_tag());
    let second = sha256(ext.as_slice());
    let mut seed: Vec<u8> = Vec::new();
    append_bytes(&mut seed, first.as_slice());
    append_bytes(&mut seed, second.as_slice());
    assert(seed@ =~= seed_of_key(secret_key@));
    seed
}

} // verus!
