//! Bookkeeping of proofs by secret: the token event that holds each proof,
//! and the proofs a mint reports as pending (with when they were seen so).
use vstd::prelude::*;
use vstd::string::*;
use crate::keyset::string_views;
use crate::order::{insert_sorted_unique, strictly_sorted};
use crate::strmap::{StrMap, recent_entries};
use crate::types::{ProofData, TokenData};

verus! {

/// How long a proof may stay pending at the mint before it is forgotten.
pub const MAX_PENDING_AGE_SECS: u64 = 600;

/// `m` with every secret of `ps` mapped to `v`, in order.
pub open spec fn with_secrets_mapped(m: Map<Seq<char>, String>, ps: Seq<ProofData>, v: String) -> Map<Seq<char>, String>
    decreases ps.len(),
{
    if ps.len() == 0 {
        m
    } else {
        with_secrets_mapped(m, ps.drop_last(), v).insert(ps.last().secret@, v)
    }
}

/// `m` without the keys of `keys`.
pub open spec fn without_keys<V>(m: Map<Seq<char>, V>, keys: Seq<Seq<char>>) -> Map<Seq<char>, V>
    decreases keys.len(),
{
    if keys.len() == 0 {
        m
    } else {
        without_keys(m, keys.drop_last()).remove(keys.last())
    }
}

/// The map from proof secret to the event id of the token holding it,
/// built token by token (a later token wins for a repeated secret).
pub open spec fn event_map_of(tokens: Seq<TokenData>) -> Map<Seq<char>, String>
    decreases tokens.len(),
{
    if tokens.len() == 0 {
        Map::empty()
    } else {
        with_secrets_mapped(event_map_of(tokens.drop_last()), tokens.last().proofs@, tokens.last().event_id)
    }
}

/// `m` with every key of `keys` mapped to `v`, in order.
pub open spec fn with_keys_set(m: Map<Seq<char>, u64>, keys: Seq<Seq<char>>, v: u64) -> Map<Seq<char>, u64>
    decreases keys.len(),
{
    if keys.len() == 0 {
        m
    } else {
        with_keys_set(m, keys.drop_last(), v).insert(keys.last(), v)
    }
}

/// Records that the proofs are held by the token event `event_id`.
pub fn register_proofs_in_event_map(map: &mut StrMap<String>, event_id: &String, proofs: &Vec<ProofData>)
    requires
        old(map).wf(),
    ensures
        final(map).wf(),
        final(map).view() == with_secrets_mapped(old(map).view(), proofs@, *event_id),
{
    let ghost m0 = map.view();
    for i in 0..proofs.len()
        invariant
            map.wf(),
            map.view() == with_secrets_mapped(m0, proofs@.take(i as int), *event_id),
    {
        assert(proofs@.take(i + 1).drop_last() =~= proofs@.take(i as int));
        map.insert(proofs[i].secret.as_str(), event_id.clone());
    }
    assert(proofs@.take(proofs.len() as int) =~= proofs@);
}

/// Forgets the listed secrets (their proofs were spent).
pub fn unregister_proofs_from_event_map(map: &mut StrMap<String>, proof_secrets: &Vec<String>)
    requires
        old(map).wf(),
    ensures
        final(map).wf(),
        final(map).view() == without_keys(old(map).view(), string_views(proof_secrets@)),
{
    let ghost m0 = map.view();
    for i in 0..proof_secrets.len()
        invariant
            map.wf(),
            map.view() == without_keys(m0, string_views(proof_secrets@.take(i as int))),
    {
        assert(string_views(proof_secrets@.take(i + 1)).drop_last() =~= string_views(proof_secrets@.take(i as int)));
        map.remove(proof_secrets[i].as_str());
    }
    assert(proof_secrets@.take(proof_secrets.len() as int) =~= proof_secrets@);
}

/// The event ids that hold some of the listed secrets.
pub open spec fn holds_one_of(m: Map<Seq<char>, String>, secrets: Seq<Seq<char>>, k: Seq<char>) -> bool {
    exists|i: int| 0 <= i < secrets.len() && m.contains_key(secrets[i]) && #[trigger] m[secrets[i]]@ == k
}

/// The distinct event ids holding the listed secrets, in sorted order
/// (for building deletion events).
pub fn get_event_ids_for_proofs(map: &StrMap<String>, proof_secrets: &Vec<String>) -> (r: Vec<String>)
    requires
        map.wf(),
    ensures
        strictly_sorted(string_views(r@)),
        forall|k: Seq<char>| #[trigger] string_views(r@).contains(k) <==> holds_one_of(map.view(), string_views(proof_secrets@), k),
{
    let ghost sv = string_views(proof_secrets@);
    let mut r: Vec<String> = Vec::new();
    for i in 0..proof_secrets.len()
        invariant
            map.wf(),
            sv == string_views(proof_secrets@),
            strictly_sorted(string_views(r@)),
            forall|k: Seq<char>| #[trigger] string_views(r@).contains(k) <==> holds_one_of(map.view(), sv.take(i as int), k),
    {
        let ghost before = string_views(r@);
        match map.get(proof_secrets[i].as_str()) {
            Some(id) => {
                insert_sorted_unique(&mut r, id.clone());
            },
            None => {},
        }
        proof {
            let after = string_views(r@);
            assert forall|k: Seq<char>| #[trigger] after.contains(k) <==> holds_one_of(map.view(), sv.take(i + 1), k) by {
                if holds_one_of(map.view(), sv.take(i + 1), k) {
                    let w = choose|w: int| 0 <= w < sv.take(i + 1).len() && map.view().contains_key(sv.take(i + 1)[w])
                        && #[trigger] map.view()[sv.take(i + 1)[w]]@ == k;
                    if w < i {
                        assert(sv.take(i as int)[w] == sv.take(i + 1)[w]);
                        assert(holds_one_of(map.view(), sv.take(i as int), k));
                    } else {
                        assert(sv.take(i + 1)[w] == proof_secrets@[i as int]@);
                    }
                }
                if holds_one_of(map.view(), sv.take(i as int), k) {
                    let w = choose|w: int| 0 <= w < sv.take(i as int).len() && map.view().contains_key(sv.take(i as int)[w])
                        && #[trigger] map.view()[sv.take(i as int)[w]]@ == k;
                    assert(sv.take(i as int)[w] == sv.take(i + 1)[w]);
                    assert(holds_one_of(map.view(), sv.take(i + 1), k));
                }
                if after.contains(k) && !before.contains(k) {
                    assert(sv.take(i + 1)[i as int] == proof_secrets@[i as int]@);
                    assert(holds_one_of(map.view(), sv.take(i + 1), k));
                }
            }
        }
    }
    assert(sv.take(proof_secrets.len() as int) =~= sv);
    r
}

/// Rebuilds the map from the wallet's tokens.
pub fn rebuild_proof_event_map(map: &mut StrMap<String>, tokens: &Vec<TokenData>)
    ensures
        final(map).wf(),
        final(map).view() == event_map_of(tokens@),
{
    map.clear();
    for i in 0..tokens.len()
        invariant
            map.wf(),
            map.view() == event_map_of(tokens@.take(i as int)),
    {
        assert(tokens@.take(i + 1).drop_last() =~= tokens@.take(i as int));
        register_proofs_in_event_map(map, &tokens[i].event_id, &tokens[i].proofs);
    }
    assert(tokens@.take(tokens.len() as int) =~= tokens@);
}

/// Records, at time `now`, that the mint reports the proofs as pending.
pub fn register_proofs_pending_at_mint(pending: &mut StrMap<u64>, proof_secrets: &Vec<String>, now: u64)
    requires
        old(pending).wf(),
    ensures
        final(pending).wf(),
        final(pending).view() == with_keys_set(old(pending).view(), string_views(proof_secrets@), now),
{
    let ghost m0 = pending.view();
    for i in 0..proof_secrets.len()
        invariant
            pending.wf(),
            pending.view() == with_keys_set(m0, string_views(proof_secrets@.take(i as int)), now),
    {
        assert(string_views(proof_secrets@.take(i + 1)).drop_last() =~= string_views(proof_secrets@.take(i as int)));
        pending.insert(proof_secrets[i].as_str(), now);
    }
    assert(proof_secrets@.take(proof_secrets.len() as int) =~= proof_secrets@);
}

/// Forgets the listed proofs (the mint now reports them spent or unspent).
pub fn remove_from_pending_at_mint(pending: &mut StrMap<u64>, proof_secrets: &Vec<String>)
    requires
        old(pending).wf(),
    ensures
        final(pending).wf(),
        final(pending).view() == without_keys(old(pending).view(), string_views(proof_secrets@)),
{
    let ghost m0 = pending.view();
    for i in 0..proof_secrets.len()
        invariant
            pending.wf(),
            pending.view() == without_keys(m0, string_views(proof_secrets@.take(i as int))),
    {
        assert(string_views(proof_secrets@.take(i + 1)).drop_last() =~= string_views(proof_secrets@.take(i as int)));
        pending.remove(proof_secrets[i].as_str());
    }
    assert(proof_secrets@.take(proof_secrets.len() as int) =~= proof_secrets@);
}

/// Whether the mint reports a proof as pending.
pub fn is_proof_pending_at_mint(pending: &StrMap<u64>, proof_secret: &str) -> (r: bool)
    ensures
        r == pending.view().contains_key(proof_secret@),
{
    pending.contains_key(proof_secret)
}

/// The secrets of the proofs pending at the mint, each once.
pub fn get_proofs_pending_at_mint(pending: &StrMap<u64>) -> (r: Vec<String>)
    requires
        pending.wf(),
    ensures
        string_views(r@).no_duplicates(),
        forall|k: Seq<char>| #[trigger] string_views(r@).contains(k) <==> pending.view().contains_key(k),
{
    pending.keys()
}

/// Forgets every pending proof.
pub fn clear_pending_at_mint(pending: &mut StrMap<u64>)
    ensures
        final(pending).wf(),
        final(pending).view() == Map::<Seq<char>, u64>::empty(),
{
    pending.clear();
}

/// Forgets the proofs pending for longer than `MAX_PENDING_AGE_SECS` at
/// time `now` (a payment that never settled).
pub fn cleanup_old_pending_at_mint(pending: &mut StrMap<u64>, now: u64)
    requires
        old(pending).wf(),
    ensures
        final(pending).wf(),
        final(pending).view() == recent_entries(old(pending).view(), now, MAX_PENDING_AGE_SECS),
{
    pending.retain_recent(now, MAX_PENDING_AGE_SECS);
}

} // verus!
