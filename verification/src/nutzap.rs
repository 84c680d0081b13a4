//! Nutzaps (NIP-61): P2PK-locked ecash sent in Nostr events. A recipient
//! declares its P2PK key, accepted mints and relays (kind 10019); a sender
//! locks proofs to that key at an accepted mint and publishes them (kind
//! 9321); the recipient checks the lock and redeems them.
use vstd::prelude::*;
use vstd::string::*;
use crate::dust::{sat_sum, sum_amounts};
use crate::fees::sat_u64;
use crate::history::{parse_u64, parsed_u64};
use crate::keyset::{mint_proofs, string_views};
use crate::proofs::spendable;
use crate::store::get_spendable_proofs_for_mint;
use crate::text::{append_decimal, decimal, has_prefix};
use crate::types::{ProofData, TokenData, mint_matches, normalize_mint_url, normalized_mint, same_mint};

verus! {

/// A mint at which a user accepts nutzaps, with the unit.
#[derive(Debug, Clone)]
pub struct NutzapMint {
    pub url: String,
    pub unit: String,
}

/// A user's nutzap configuration (kind 10019).
#[derive(Debug, Clone)]
pub struct NutzapInfo {
    /// The user's Nostr public key.
    pub pubkey: String,
    /// The key that nutzaps to the user are locked to (`02`-prefixed hex).
    pub p2pk_pubkey: String,
    /// Accepted mints.
    pub mints: Vec<NutzapMint>,
    /// Relays for nutzap delivery.
    pub relays: Vec<String>,
}

/// Where a received nutzap stands.
#[derive(Debug, Clone)]
pub enum NutzapStatus {
    /// Awaiting redemption.
    Pending,
    /// Being redeemed.
    Redeeming,
    /// Redeemed.
    Redeemed,
    /// Redemption failed, with the error.
    Failed(String),
}

/// A received nutzap awaiting redemption.
#[derive(Debug, Clone)]
pub struct PendingNutzap {
    /// Id of the kind 9321 event.
    pub event_id: String,
    /// The sender's Nostr public key.
    pub sender_pubkey: String,
    pub amount: u64,
    pub mint_url: String,
    pub unit: String,
    pub comment: Option<String>,
    /// The event that was zapped, if any.
    pub target_event_id: Option<String>,
    pub target_kind: Option<u16>,
    /// The proofs, as JSON texts.
    pub proofs_json: Vec<String>,
    pub status: NutzapStatus,
    /// When it was received.
    pub received_at: u64,
}

/// The outcome of sending a nutzap.
#[derive(Debug, Clone)]
pub struct NutzapSendResult {
    /// Id of the published kind 9321 event (or its pending id).
    pub event_id: String,
    pub amount: u64,
    pub fee: u64,
}

/// The outcome of redeeming a nutzap.
#[derive(Debug, Clone)]
pub struct NutzapRedeemResult {
    pub amount: u64,
    pub history_event_id: Option<String>,
}

/// The event ids of a list of pending nutzaps.
pub open spec fn nutzap_ids(v: Seq<PendingNutzap>) -> Seq<Seq<char>> {
    v.map_values(|n: PendingNutzap| n.event_id@)
}

/// Adds a received nutzap unless one with its event id is already there;
/// tells whether it was added.
pub fn add_pending_nutzap(pending: &mut Vec<PendingNutzap>, nutzap: PendingNutzap) -> (r: bool)
    ensures
        r == !nutzap_ids(old(pending)@).contains(nutzap.event_id@),
        r ==> final(pending)@ == old(pending)@.push(nutzap),
        !r ==> final(pending)@ == old(pending)@,
{
    let mut i: usize = 0;
    while i < pending.len()
        invariant
            i <= pending@.len(),
            pending@ == old(pending)@,
            forall|j: int| 0 <= j < i ==> nutzap_ids(pending@)[j] != nutzap.event_id@,
        decreases pending@.len() - i,
    {
        if pending[i].event_id == nutzap.event_id {
            assert(nutzap_ids(pending@)[i as int] == nutzap.event_id@);
            return false;
        }
        i = i + 1;
    }
    proof {
        if nutzap_ids(pending@).contains(nutzap.event_id@) {
            let w = choose|w: int| 0 <= w < nutzap_ids(pending@).len() && nutzap_ids(pending@)[w] == nutzap.event_id@;
            assert(nutzap_ids(pending@)[w] != nutzap.event_id@);
        }
    }
    pending.push(nutzap);
    true
}

/// The nutzaps of a list whose event id is not `id`, in order.
pub open spec fn nutzaps_without(v: Seq<PendingNutzap>, id: Seq<char>) -> Seq<PendingNutzap>
    decreases v.len(),
{
    if v.len() == 0 {
        Seq::empty()
    } else {
        let rest = nutzaps_without(v.drop_last(), id);
        if v.last().event_id@ == id { rest } else { rest.push(v.last()) }
    }
}

/// Drops every pending nutzap with an event id.
pub fn remove_pending_nutzap(pending: &mut Vec<PendingNutzap>, event_id: &str)
    ensures
        final(pending)@ == nutzaps_without(old(pending)@, event_id@),
{
    let id = String::from_str(event_id);
    let mut kept: Vec<PendingNutzap> = Vec::new();
    let mut rest: Vec<PendingNutzap> = Vec::new();
    std::mem::swap(&mut rest, pending);
    let ghost all = rest@;
    let mut i: usize = 0;
    assert(all.len() == rest.len());
    assert(all.take(0) =~= Seq::<PendingNutzap>::empty());
    while rest.len() > 0
        invariant
            id@ == event_id@,
            all == old(pending)@,
            all.len() <= usize::MAX,
            i <= all.len(),
            rest@ == all.skip(i as int),
            kept@ == nutzaps_without(all.take(i as int), event_id@),
        decreases rest.len(),
    {
        assert(rest@.len() == all.len() - i);
        let n = rest.remove(0);
        proof {
            assert(n == all[i as int]);
            assert(rest@ =~= all.skip(i + 1));
            assert(all.take(i + 1).drop_last() =~= all.take(i as int));
        }
        if n.event_id != id {
            kept.push(n);
        }
        i = i + 1;
    }
    assert(all.take(i as int) =~= all);
    *pending = kept;
}

/// The position of the first nutzap with an event id.
pub open spec fn first_with_event(v: Seq<PendingNutzap>, id: Seq<char>, i: int) -> bool {
    0 <= i < v.len() && v[i].event_id@ == id && forall|j: int| 0 <= j < i ==> v[j].event_id@ != id
}

/// Position of the first pending nutzap with an event id.
fn find_nutzap(pending: &Vec<PendingNutzap>, event_id: &str) -> (r: Option<usize>)
    ensures
        r matches Some(i) ==> first_with_event(pending@, event_id@, i as int),
        r is None ==> forall|j: int| 0 <= j < pending@.len() ==> pending@[j].event_id@ != event_id@,
{
    let id = String::from_str(event_id);
    let mut i: usize = 0;
    while i < pending.len()
        invariant
            id@ == event_id@,
            i <= pending@.len(),
            forall|j: int| 0 <= j < i ==> pending@[j].event_id@ != event_id@,
        decreases pending@.len() - i,
    {
        if pending[i].event_id == id {
            return Some(i);
        }
        i = i + 1;
    }
    None
}

/// Sets the status of the first pending nutzap with an event id.
pub fn update_pending_nutzap_status(pending: &mut Vec<PendingNutzap>, event_id: &str, status: NutzapStatus)
    ensures
        final(pending)@.len() == old(pending)@.len(),
        (exists|i: int| first_with_event(old(pending)@, event_id@, i)) ==> (forall|i: int|
            #[trigger] first_with_event(old(pending)@, event_id@, i) ==> final(pending)@ == old(pending)@.update(
                i,
                PendingNutzap { status, ..old(pending)@[i] },
            )),
        !(exists|i: int| first_with_event(old(pending)@, event_id@, i)) ==> final(pending)@ == old(pending)@,
{
    match find_nutzap(pending, event_id) {
        Some(i) => {
            let mut n = pending.remove(i);
            n.status = status;
            pending.insert(i, n);
            proof {
                assert forall|k: int| #[trigger] first_with_event(old(pending)@, event_id@, k) implies final(pending)@
                    == old(pending)@.update(k, PendingNutzap { status, ..old(pending)@[k] }) by {
                    if k < i {
                        assert(old(pending)@[k].event_id@ != event_id@);
                    } else if k > i {
                        assert(old(pending)@[i as int].event_id@ != event_id@);
                    }
                    assert(final(pending)@ =~= old(pending)@.update(k, PendingNutzap { status, ..old(pending)@[k] }));
                }
            }
        },
        None => {},
    }
}

/// The pending nutzaps with status `Pending`, in order.
pub open spec fn awaiting(v: Seq<PendingNutzap>) -> Seq<PendingNutzap>
    decreases v.len(),
{
    if v.len() == 0 {
        Seq::empty()
    } else {
        let rest = awaiting(v.drop_last());
        if v.last().status is Pending { rest.push(v.last()) } else { rest }
    }
}

/// The sum of the amounts of a list of nutzaps.
pub open spec fn nutzap_value(v: Seq<PendingNutzap>) -> int
    decreases v.len(),
{
    if v.len() == 0 { 0 } else { nutzap_value(v.drop_last()) + v.last().amount }
}

/// The number of nutzaps awaiting redemption.
pub fn pending_nutzap_count(pending: &Vec<PendingNutzap>) -> (r: usize)
    ensures
        r == awaiting(pending@).len(),
{
    let mut n: usize = 0;
    for i in 0..pending.len()
        invariant
            n == awaiting(pending@.take(i as int)).len(),
            n <= i,
    {
        assert(pending@.take(i + 1).drop_last() =~= pending@.take(i as int));
        if matches!(pending[i].status, NutzapStatus::Pending) {
            n = n + 1;
        }
    }
    assert(pending@.take(pending.len() as int) =~= pending@);
    n
}

/// A prefix of the awaiting nutzaps is worth no more than all of them.
proof fn lemma_value_prefix(v: Seq<PendingNutzap>, i: int)
    requires
        0 <= i <= v.len(),
    ensures
        nutzap_value(awaiting(v.take(i))) <= nutzap_value(awaiting(v)),
    decreases v.len() - i,
{
    if i < v.len() {
        lemma_value_prefix(v, i + 1);
        assert(v.take(i + 1).drop_last() =~= v.take(i));
        let a = awaiting(v.take(i));
        if v[i].status is Pending {
            assert(a.push(v[i]).drop_last() =~= a);
        }
    } else {
        assert(v.take(i) =~= v);
    }
}

/// The total amount of the nutzaps awaiting redemption.
pub fn pending_nutzap_value(pending: &Vec<PendingNutzap>) -> (r: u64)
    requires
        nutzap_value(awaiting(pending@)) <= u64::MAX,
    ensures
        r == nutzap_value(awaiting(pending@)),
{
    let mut total: u64 = 0;
    for i in 0..pending.len()
        invariant
            nutzap_value(awaiting(pending@)) <= u64::MAX,
            total == nutzap_value(awaiting(pending@.take(i as int))),
    {
        assert(pending@.take(i + 1).drop_last() =~= pending@.take(i as int));
        proof {
            lemma_value_prefix(pending@, i + 1);
        }
        if matches!(pending[i].status, NutzapStatus::Pending) {
            let ghost a = awaiting(pending@.take(i as int));
            assert(a.push(pending@[i as int]).drop_last() =~= a);
            total = total + pending[i].amount;
        }
    }
    assert(pending@.take(pending.len() as int) =~= pending@);
    total
}

/// The amounts that the proofs of a nutzap declare, summed with
/// saturation; a proof whose amount could not be read counts nothing.
pub open spec fn declared_amount(amounts: Seq<Option<u64>>) -> u64
    decreases amounts.len(),
{
    if amounts.len() == 0 {
        0
    } else {
        let rest = declared_amount(amounts.drop_last());
        match amounts.last() {
            Some(a) => sat_u64(rest + a),
            None => rest,
        }
    }
}

/// The amount of a nutzap from the amounts its proofs declare.
pub fn nutzap_amount(amounts: &Vec<Option<u64>>) -> (r: u64)
    ensures
        r == declared_amount(amounts@),
{
    let mut total: u64 = 0;
    for i in 0..amounts.len()
        invariant
            total == declared_amount(amounts@.take(i as int)),
    {
        assert(amounts@.take(i + 1).drop_last() =~= amounts@.take(i as int));
        match amounts[i] {
            Some(a) => {
                total = total.saturating_add(a);
            },
            None => {},
        }
    }
    assert(amounts@.take(amounts.len() as int) =~= amounts@);
    total
}

/// What the secret of a nutzap proof says of its lock, as read from its
/// JSON: either why it could not be read, or the secret's kind and the
/// key in its data.
#[derive(Debug, Clone)]
pub enum ProofLock {
    /// The proof or its secret could not be read; the reason.
    Unreadable(String),
    /// The secret's kind (such as `P2PK`) and the `data` of its conditions.
    Secret { kind: String, data: Option<String> },
}

/// Why a nutzap's proofs are not all locked to our key, if they are not:
/// the first proof that fails decides.
pub open spec fn lock_error(locks: Seq<ProofLock>, ours: Seq<char>) -> Option<Seq<char>>
    decreases locks.len(),
{
    if locks.len() == 0 {
        None
    } else {
        match locks[0] {
            ProofLock::Unreadable(e) => Some(e@),
            ProofLock::Secret { kind, data } => if kind@ != "P2PK"@ {
                Some("Proof is not P2PK locked"@)
            } else {
                match data {
                    None => Some("P2PK secret missing pubkey data"@),
                    Some(d) => if d@ != ours {
                        Some("P2PK lock doesn't match our pubkey. Expected: "@ + ours + ", Got: "@ + d@)
                    } else {
                        lock_error(locks.skip(1), ours)
                    },
                }
            },
        }
    }
}

/// Checks that every proof of a nutzap is P2PK-locked to our key.
pub fn validate_nutzap_p2pk(locks: &Vec<ProofLock>, our_p2pk: &str) -> (r: Result<(), String>)
    ensures
        match lock_error(locks@, our_p2pk@) {
            Some(e) => r matches Err(m) && m@ == e,
            None => r is Ok,
        },
{
    let p2pk = String::from_str("P2PK");
    let ours = String::from_str(our_p2pk);
    let mut i: usize = 0;
    assert(locks@.skip(0) =~= locks@);
    while i < locks.len()
        invariant
            p2pk@ == "P2PK"@,
            ours@ == our_p2pk@,
            i <= locks@.len(),
            lock_error(locks@, our_p2pk@) == lock_error(locks@.skip(i as int), our_p2pk@),
        decreases locks@.len() - i,
    {
        let ghost rest = locks@.skip(i as int);
        assert(rest[0] == locks@[i as int]);
        assert(rest.skip(1) =~= locks@.skip(i + 1));
        match &locks[i] {
            ProofLock::Unreadable(e) => {
                return Err(e.clone());
            },
            ProofLock::Secret { kind, data } => {
                if *kind != p2pk {
                    return Err(String::from_str("Proof is not P2PK locked"));
                }
                match data {
                    None => {
                        return Err(String::from_str("P2PK secret missing pubkey data"));
                    },
                    Some(d) => {
                        if *d != ours {
                            let mut m = String::from_str("P2PK lock doesn't match our pubkey. Expected: ");
                            m.append(our_p2pk);
                            m.append(", Got: ");
                            m.append(d.as_str());
                            return Err(m);
                        }
                    },
                }
            },
        }
        i = i + 1;
    }
    Ok(())
}


/// The texts of each tag of an event.
pub open spec fn tag_views(tags: Seq<Vec<String>>) -> Seq<Seq<Seq<char>>> {
    tags.map_values(|t: Vec<String>| string_views(t@))
}

/// A tag's kind: its first text.
pub open spec fn tag_kind(t: Seq<Seq<char>>) -> Seq<char> {
    if t.len() > 0 { t[0] } else { Seq::empty() }
}

/// The content of the last tag named `name` that has content (a second
/// text).
pub open spec fn last_content(ts: Seq<Seq<Seq<char>>>, name: Seq<char>) -> Option<Seq<char>>
    decreases ts.len(),
{
    if ts.len() == 0 {
        None
    } else if tag_kind(ts.last()) == name && ts.last().len() > 1 {
        Some(ts.last()[1])
    } else {
        last_content(ts.drop_last(), name)
    }
}

/// The contents of the tags named `name` that have content, in order.
pub open spec fn all_contents(ts: Seq<Seq<Seq<char>>>, name: Seq<char>) -> Seq<Seq<char>>
    decreases ts.len(),
{
    if ts.len() == 0 {
        Seq::empty()
    } else {
        let rest = all_contents(ts.drop_last(), name);
        if tag_kind(ts.last()) == name && ts.last().len() > 1 { rest.push(ts.last()[1]) } else { rest }
    }
}

/// The mints that `mint` tags declare: each URL normalized, with the unit
/// of the tag's third text (`sat` where it has none).
pub open spec fn declared_mints(ts: Seq<Seq<Seq<char>>>) -> Seq<(Seq<char>, Seq<char>)>
    decreases ts.len(),
{
    if ts.len() == 0 {
        Seq::empty()
    } else {
        let rest = declared_mints(ts.drop_last());
        let t = ts.last();
        if tag_kind(t) == "mint"@ && t.len() > 1 {
            rest.push((normalized_mint(t[1]), if t.len() > 2 { t[2] } else { "sat"@ }))
        } else {
            rest
        }
    }
}

/// The URLs and units of a list of mints.
pub open spec fn mint_views(v: Seq<NutzapMint>) -> Seq<(Seq<char>, Seq<char>)> {
    v.map_values(|m: NutzapMint| (m.url@, m.unit@))
}

/// Whether a tag has a kind and content, and the kind is `name`.
fn tag_is(t: &Vec<String>, name: &str) -> (r: bool)
    ensures
        r == (tag_kind(string_views(t@)) == name@ && t@.len() > 1),
{
    if t.len() > 1 {
        let n = String::from_str(name);
        t[0] == n
    } else {
        false
    }
}

/// A user's nutzap configuration from the tags of its kind 10019 event:
/// the last `pubkey` tag gives the P2PK key, `mint` tags the accepted
/// mints, `relay` tags the relays. The key and at least one mint are owed.
pub fn nutzap_info_from_tags(pubkey: &str, tags: &Vec<Vec<String>>) -> (r: Result<NutzapInfo, String>)
    ensures
        ({
            let tv = tag_views(tags@);
            match last_content(tv, "pubkey"@) {
                None => r matches Err(e) && e@ == "Nutzap info missing P2PK pubkey for "@ + pubkey@,
                Some(p) => if declared_mints(tv).len() == 0 {
                    r matches Err(e) && e@ == "Nutzap info has no mints for "@ + pubkey@
                } else {
                    r matches Ok(info) && info.pubkey@ == pubkey@ && info.p2pk_pubkey@ == p && mint_views(info.mints@)
                        == declared_mints(tv) && string_views(info.relays@) == all_contents(tv, "relay"@)
                },
            }
        }),
{
    let ghost tv = tag_views(tags@);
    let mut p2pk: Option<String> = None;
    let mut mints: Vec<NutzapMint> = Vec::new();
    let mut relays: Vec<String> = Vec::new();
    for i in 0..tags.len()
        invariant
            tv == tag_views(tags@),
            match p2pk {
                Some(p) => last_content(tv.take(i as int), "pubkey"@) == Some(p@),
                None => last_content(tv.take(i as int), "pubkey"@) is None,
            },
            mint_views(mints@) == declared_mints(tv.take(i as int)),
            string_views(relays@) == all_contents(tv.take(i as int), "relay"@),
    {
        proof {
            reveal_strlit("pubkey");
            reveal_strlit("mint");
            reveal_strlit("relay");
        }
        let ghost tk = tv.take(i + 1);
        assert(tk.drop_last() =~= tv.take(i as int));
        assert(tk.last() == string_views(tags@[i as int]@));
        let t = &tags[i];
        let is_pk = tag_is(t, "pubkey");
        let is_mint = tag_is(t, "mint");
        let is_relay = tag_is(t, "relay");
        proof {
            let prev = tv.take(i as int);
            assert("pubkey"@.len() == 6);
            assert("mint"@.len() == 4);
            assert("relay"@.len() == 5);
            assert(!(is_pk && is_mint) && !(is_pk && is_relay) && !(is_mint && is_relay));
            assert(declared_mints(tk) == if is_mint {
                declared_mints(prev).push(
                    (normalized_mint(tk.last()[1]), if tk.last().len() > 2 { tk.last()[2] } else { "sat"@ }),
                )
            } else {
                declared_mints(prev)
            });
            assert(all_contents(tk, "relay"@) == if is_relay {
                all_contents(prev, "relay"@).push(tk.last()[1])
            } else {
                all_contents(prev, "relay"@)
            });
        }
        if is_pk {
            p2pk = Some(t[1].clone());
        } else if is_mint {
            let url = normalize_mint_url(t[1].as_str());
            let unit = if t.len() > 2 {
                t[2].clone()
            } else {
                String::from_str("sat")
            };
            let ghost before = mints@;
            mints.push(NutzapMint { url, unit });
            assert(mint_views(mints@) =~= mint_views(before).push((url@, unit@)));
        } else if is_relay {
            let ghost before = relays@;
            relays.push(t[1].clone());
            assert(string_views(relays@) =~= string_views(before).push(t@[1]@));
        }
    }
    assert(tv.take(tags.len() as int) =~= tv);
    match p2pk {
        None => {
            let mut e = String::from_str("Nutzap info missing P2PK pubkey for ");
            e.append(pubkey);
            Err(e)
        },
        Some(p) => {
            if mints.len() == 0 {
                let mut e = String::from_str("Nutzap info has no mints for ");
                e.append(pubkey);
                Err(e)
            } else {
                Ok(NutzapInfo { pubkey: String::from_str(pubkey), p2pk_pubkey: p, mints, relays })
            }
        },
    }
}

/// A `relay` tag per relay.
pub open spec fn relay_tags(relays: Seq<Seq<char>>) -> Seq<Seq<Seq<char>>> {
    relays.map_values(|r: Seq<char>| seq!["relay"@, r])
}

/// A `mint` tag with URL and unit per mint.
pub open spec fn mint_tags(mints: Seq<(Seq<char>, Seq<char>)>) -> Seq<Seq<Seq<char>>> {
    mints.map_values(|m: (Seq<char>, Seq<char>)| seq!["mint"@, m.0, m.1])
}

/// The tags of a kind 10019 event: a `relay` tag per relay, a `mint` tag
/// with URL and unit per mint, then the `pubkey` tag with the P2PK key.
pub open spec fn info_tags(mints: Seq<(Seq<char>, Seq<char>)>, relays: Seq<Seq<char>>, p2pk: Seq<char>) -> Seq<
    Seq<Seq<char>>,
> {
    relay_tags(relays) + mint_tags(mints) + seq![seq!["pubkey"@, p2pk]]
}

/// The views of a list of string slices.
pub open spec fn str_views(v: Seq<&str>) -> Seq<Seq<char>> {
    v.map_values(|p: &str| p@)
}

/// A tag of texts.
fn tag_of(parts: Vec<&str>) -> (r: Vec<String>)
    ensures
        string_views(r@) == str_views(parts@),
{
    let mut r: Vec<String> = Vec::new();
    assert(str_views(parts@.take(0)) =~= Seq::<Seq<char>>::empty());
    assert(string_views(r@) =~= Seq::<Seq<char>>::empty());
    for i in 0..parts.len()
        invariant
            r@.len() == i,
            string_views(r@) == str_views(parts@.take(i as int)),
    {
        let ghost before = r@;
        let x = String::from_str(parts[i]);
        r.push(x);
        assert forall|j: int| 0 <= j < i + 1 implies #[trigger] string_views(r@)[j] == str_views(parts@.take(i + 1))[j] by {
            if j < i {
                assert(r@[j] == before[j]);
                assert(string_views(before)[j] == str_views(parts@.take(i as int))[j]);
            }
        }
        assert(string_views(r@) =~= str_views(parts@.take(i + 1)));
    }
    assert(parts@.take(parts.len() as int) =~= parts@);
    r
}

/// The tags that declare a user's nutzap configuration.
pub fn nutzap_info_tags(mints: &Vec<NutzapMint>, relays: &Vec<String>, p2pk_pubkey: &str) -> (r: Vec<Vec<String>>)
    ensures
        tag_views(r@) == info_tags(mint_views(mints@), string_views(relays@), p2pk_pubkey@),
{
    let mut r: Vec<Vec<String>> = Vec::new();
    assert(tag_views(r@) =~= relay_tags(string_views(relays@).take(0)));
    for i in 0..relays.len()
        invariant
            r@.len() == i,
            tag_views(r@) == relay_tags(string_views(relays@).take(i as int)),
    {
        let parts = vec!["relay", relays[i].as_str()];
        assert(str_views(parts@) =~= seq!["relay"@, relays@[i as int]@]);
        let t = tag_of(parts);
        let ghost before = r@;
        r.push(t);
        let ghost target = relay_tags(string_views(relays@).take(i + 1));
        assert forall|j: int| 0 <= j < i + 1 implies #[trigger] tag_views(r@)[j] == target[j] by {
            if j < i {
                assert(r@[j] == before[j]);
                assert(tag_views(before)[j] == relay_tags(string_views(relays@).take(i as int))[j]);
            }
        }
        assert(tag_views(r@) =~= target);
    }
    let ghost rt = tag_views(r@);
    assert(string_views(relays@).take(relays.len() as int) =~= string_views(relays@));
    assert(mint_tags(mint_views(mints@).take(0)) =~= Seq::<Seq<Seq<char>>>::empty());
    assert(rt + mint_tags(mint_views(mints@).take(0)) =~= rt);
    for i in 0..mints.len()
        invariant
            rt == relay_tags(string_views(relays@)),
            r@.len() == rt.len() + i,
            tag_views(r@) == rt + mint_tags(mint_views(mints@).take(i as int)),
    {
        let parts = vec!["mint", mints[i].url.as_str(), mints[i].unit.as_str()];
        assert(str_views(parts@) =~= seq!["mint"@, mints@[i as int].url@, mints@[i as int].unit@]);
        let t = tag_of(parts);
        let ghost before = r@;
        r.push(t);
        let ghost target = rt + mint_tags(mint_views(mints@).take(i + 1));
        assert forall|j: int| 0 <= j < r@.len() implies #[trigger] tag_views(r@)[j] == target[j] by {
            if j < r@.len() - 1 {
                assert(r@[j] == before[j]);
                assert(tag_views(before)[j] == (rt + mint_tags(mint_views(mints@).take(i as int)))[j]);
            }
        }
        assert(tag_views(r@) =~= target);
    }
    assert(mint_views(mints@).take(mints.len() as int) =~= mint_views(mints@));
    let parts = vec!["pubkey", p2pk_pubkey];
    assert(str_views(parts@) =~= seq!["pubkey"@, p2pk_pubkey@]);
    let t = tag_of(parts);
    let ghost before = tag_views(r@);
    r.push(t);
    assert(tag_views(r@) =~= before + seq![seq!["pubkey"@, p2pk_pubkey@]]);
    r
}


/// Mints with their URLs normalized.
pub open spec fn normalized_mints(ms: Seq<(Seq<char>, Seq<char>)>) -> Seq<(Seq<char>, Seq<char>)> {
    ms.map_values(|m: (Seq<char>, Seq<char>)| (normalized_mint(m.0), m.1))
}

/// The mints declared by two lists of tags are those of the first, then
/// those of the second; likewise the contents of a kind of tag.
pub proof fn lemma_tags_concat(a: Seq<Seq<Seq<char>>>, b: Seq<Seq<Seq<char>>>, name: Seq<char>)
    ensures
        declared_mints(a + b) == declared_mints(a) + declared_mints(b),
        all_contents(a + b, name) == all_contents(a, name) + all_contents(b, name),
    decreases b.len(),
{
    if b.len() == 0 {
        assert(a + b =~= a);
        assert(declared_mints(a) + declared_mints(b) =~= declared_mints(a));
        assert(all_contents(a, name) + all_contents(b, name) =~= all_contents(a, name));
    } else {
        lemma_tags_concat(a, b.drop_last(), name);
        assert((a + b).drop_last() =~= a + b.drop_last());
        assert((a + b).last() == b.last());
        let t = b.last();
        if tag_kind(t) == "mint"@ && t.len() > 1 {
            let x = (normalized_mint(t[1]), if t.len() > 2 { t[2] } else { "sat"@ });
            assert(declared_mints(a) + declared_mints(b) =~= (declared_mints(a) + declared_mints(b.drop_last())).push(x));
        }
        if tag_kind(t) == name && t.len() > 1 {
            assert(all_contents(a, name) + all_contents(b, name) =~= (all_contents(a, name) + all_contents(
                b.drop_last(),
                name,
            )).push(t[1]));
        }
    }
}

/// Relay tags declare no mint, and their contents are the relays.
pub proof fn lemma_relay_tags(rs: Seq<Seq<char>>)
    ensures
        declared_mints(relay_tags(rs)) == Seq::<(Seq<char>, Seq<char>)>::empty(),
        all_contents(relay_tags(rs), "relay"@) == rs,
    decreases rs.len(),
{
    reveal_strlit("relay");
    reveal_strlit("mint");
    if rs.len() > 0 {
        lemma_relay_tags(rs.drop_last());
        assert(relay_tags(rs).drop_last() =~= relay_tags(rs.drop_last()));
        assert(relay_tags(rs).last() == seq!["relay"@, rs.last()]);
        assert(tag_kind(relay_tags(rs).last()) == "relay"@);
        assert("relay"@.len() == 5 && "mint"@.len() == 4);
        assert(rs.drop_last().push(rs.last()) =~= rs);
    } else {
        assert(relay_tags(rs) =~= Seq::<Seq<Seq<char>>>::empty());
    }
}

/// Mint tags declare their mints, URLs normalized, and no relay.
pub proof fn lemma_mint_tags(ms: Seq<(Seq<char>, Seq<char>)>)
    ensures
        declared_mints(mint_tags(ms)) == normalized_mints(ms),
        all_contents(mint_tags(ms), "relay"@) == Seq::<Seq<char>>::empty(),
    decreases ms.len(),
{
    reveal_strlit("relay");
    reveal_strlit("mint");
    if ms.len() > 0 {
        lemma_mint_tags(ms.drop_last());
        assert(mint_tags(ms).drop_last() =~= mint_tags(ms.drop_last()));
        assert(mint_tags(ms).last() == seq!["mint"@, ms.last().0, ms.last().1]);
        assert(tag_kind(mint_tags(ms).last()) == "mint"@);
        assert("relay"@.len() == 5 && "mint"@.len() == 4);
        assert(normalized_mints(ms) =~= normalized_mints(ms.drop_last()).push(
            (normalized_mint(ms.last().0), ms.last().1),
        ));
    } else {
        assert(mint_tags(ms) =~= Seq::<Seq<Seq<char>>>::empty());
        assert(normalized_mints(ms) =~= Seq::<(Seq<char>, Seq<char>)>::empty());
    }
}


/// What the tags of a received nutzap event (kind 9321) carry.
#[derive(Debug, Clone)]
pub struct NutzapEventFields {
    /// The `proof` tags' contents (proofs as JSON).
    pub proofs_json: Vec<String>,
    /// The last `u` tag's mint URL, normalized.
    pub mint_url: Option<String>,
    /// The last `unit` tag's unit, `sat` where there is none.
    pub unit: String,
    /// The last `e` tag's event id.
    pub target_event_id: Option<String>,
    /// The last `k` tag's kind, where it parses.
    pub target_kind: Option<u16>,
}

/// A decimal `u16` as `str::parse` reads it.
pub open spec fn parsed_u16(s: Seq<char>) -> Option<u16> {
    match parsed_u64(s) {
        Some(v) => if v <= 0xffff { Some(v as u16) } else { None },
        None => None,
    }
}

/// Reads the tags of a received nutzap event.
pub fn nutzap_event_fields(tags: &Vec<Vec<String>>) -> (r: NutzapEventFields)
    ensures
        ({
            let tv = tag_views(tags@);
            &&& string_views(r.proofs_json@) == all_contents(tv, "proof"@)
            &&& match last_content(tv, "u"@) {
                Some(u) => r.mint_url matches Some(m) && m@ == normalized_mint(u),
                None => r.mint_url is None,
            }
            &&& r.unit@ == match last_content(tv, "unit"@) {
                Some(u) => u,
                None => "sat"@,
            }
            &&& match last_content(tv, "e"@) {
                Some(e) => r.target_event_id matches Some(t) && t@ == e,
                None => r.target_event_id is None,
            }
            &&& r.target_kind == match last_content(tv, "k"@) {
                Some(k) => parsed_u16(k),
                None => None,
            }
        }),
{
    let ghost tv = tag_views(tags@);
    let mut proofs: Vec<String> = Vec::new();
    let mut mint_url: Option<String> = None;
    let mut unit: Option<String> = None;
    let mut target_event_id: Option<String> = None;
    let mut target_kind: Option<u16> = None;
    let mut seen_k = false;
    for i in 0..tags.len()
        invariant
            tv == tag_views(tags@),
            string_views(proofs@) == all_contents(tv.take(i as int), "proof"@),
            match last_content(tv.take(i as int), "u"@) {
                Some(u) => mint_url matches Some(m) && m@ == normalized_mint(u),
                None => mint_url is None,
            },
            match last_content(tv.take(i as int), "unit"@) {
                Some(u) => unit matches Some(x) && x@ == u,
                None => unit is None,
            },
            match last_content(tv.take(i as int), "e"@) {
                Some(e) => target_event_id matches Some(t) && t@ == e,
                None => target_event_id is None,
            },
            seen_k == last_content(tv.take(i as int), "k"@) is Some,
            target_kind == match last_content(tv.take(i as int), "k"@) {
                Some(k) => parsed_u16(k),
                None => None,
            },
    {
        let ghost tk = tv.take(i + 1);
        assert(tk.drop_last() =~= tv.take(i as int));
        assert(tk.last() == string_views(tags@[i as int]@));
        let t = &tags[i];
        if tag_is(t, "proof") {
            let ghost before = proofs@;
            proofs.push(t[1].clone());
            assert(string_views(proofs@) =~= string_views(before).push(t@[1]@));
        }
        if tag_is(t, "u") {
            mint_url = Some(normalize_mint_url(t[1].as_str()));
        }
        if tag_is(t, "unit") {
            unit = Some(t[1].clone());
        }
        if tag_is(t, "e") {
            target_event_id = Some(t[1].clone());
        }
        if tag_is(t, "k") {
            seen_k = true;
            target_kind = match parse_u64(t[1].as_str()) {
                Some(v) => if v <= 0xffff {
                    Some(v as u16)
                } else {
                    None
                },
                None => None,
            };
        }
    }
    assert(tv.take(tags.len() as int) =~= tv);
    let unit = match unit {
        Some(u) => u,
        None => String::from_str("sat"),
    };
    NutzapEventFields { proofs_json: proofs, mint_url, unit, target_event_id, target_kind }
}

/// Whether a list of mints accepts a mint URL.
pub open spec fn accepts_mint(mints: Seq<NutzapMint>, url: Seq<char>) -> bool {
    exists|i: int| 0 <= i < mints.len() && same_mint(#[trigger] mints[i].url@, url)
}

/// Why a received nutzap is refused, if it is: it names no mint, our own
/// configuration is unknown, the mint is not one we accept, or it carries
/// no proofs; checked in that order.
pub open spec fn nutzap_refusal(fields: NutzapEventFields, accepted: Option<Seq<NutzapMint>>) -> Option<Seq<char>> {
    match fields.mint_url {
        None => Some("Nutzap missing mint URL"@),
        Some(m) => match accepted {
            None => Some("Nutzap info not configured - cannot validate mint"@),
            Some(ms) => if !accepts_mint(ms, m@) {
                Some("Nutzap from unaccepted mint: "@ + m@)
            } else if fields.proofs_json@.len() == 0 {
                Some("Nutzap contains no proofs"@)
            } else {
                None
            },
        },
    }
}

/// Checks a received nutzap against our configuration; gives its mint.
pub fn check_nutzap_event(fields: &NutzapEventFields, accepted: Option<&Vec<NutzapMint>>) -> (r: Result<String, String>)
    ensures
        ({
            let acc = match accepted {
                Some(v) => Some(v@),
                None => None,
            };
            match nutzap_refusal(*fields, acc) {
                Some(e) => r matches Err(m) && m@ == e,
                None => r matches Ok(m) && fields.mint_url matches Some(u) && m@ == u@,
            }
        }),
{
    let mint = match &fields.mint_url {
        None => {
            return Err(String::from_str("Nutzap missing mint URL"));
        },
        Some(m) => m,
    };
    let ms = match accepted {
        None => {
            return Err(String::from_str("Nutzap info not configured - cannot validate mint"));
        },
        Some(v) => v,
    };
    let mut found = false;
    let mut i: usize = 0;
    while i < ms.len() && !found
        invariant
            i <= ms@.len(),
            found ==> accepts_mint(ms@, mint@),
            !found ==> forall|j: int| 0 <= j < i ==> !same_mint(#[trigger] ms@[j].url@, mint@),
        decreases ms@.len() - i + (if found { 0int } else { 1int }),
    {
        if mint_matches(ms[i].url.as_str(), mint.as_str()) {
            found = true;
        } else {
            i = i + 1;
        }
    }
    if !found {
        let mut e = String::from_str("Nutzap from unaccepted mint: ");
        e.append(mint.as_str());
        return Err(e);
    }
    if fields.proofs_json.len() == 0 {
        return Err(String::from_str("Nutzap contains no proofs"));
    }
    Ok(mint.clone())
}

/// A received nutzap, awaiting redemption; an empty event content is no
/// comment.
pub fn pending_nutzap_from(
    fields: NutzapEventFields,
    mint_url: String,
    event_id: String,
    sender_pubkey: String,
    content: String,
    received_at: u64,
    amount: u64,
) -> (r: PendingNutzap)
    ensures
        r.event_id == event_id,
        r.sender_pubkey == sender_pubkey,
        r.amount == amount,
        r.mint_url == mint_url,
        r.unit == fields.unit,
        content@.len() == 0 ==> r.comment is None,
        content@.len() > 0 ==> r.comment == Some(content),
        r.target_event_id == fields.target_event_id,
        r.target_kind == fields.target_kind,
        r.proofs_json@ == fields.proofs_json@,
        r.status is Pending,
        r.received_at == received_at,
{
    let comment = if content.unicode_len() == 0 {
        None
    } else {
        Some(content)
    };
    PendingNutzap {
        event_id,
        sender_pubkey,
        amount,
        mint_url,
        unit: fields.unit,
        comment,
        target_event_id: fields.target_event_id,
        target_kind: fields.target_kind,
        proofs_json: fields.proofs_json,
        status: NutzapStatus::Pending,
        received_at,
    }
}


/// The text that `{:?}` gives for a list of strings.
pub uninterp spec fn debug_list_text(v: Seq<Seq<char>>) -> Seq<char>;

/// A list of strings in its `Debug` form (std's `format!("{:?}", ..)`):
/// each quoted and escaped, in brackets, separated by `, `.
#[verifier::external_body]
fn debug_list(v: &Vec<String>) -> (r: String)
    ensures
        r@ == debug_list_text(string_views(v@)),
{
    format!("{:?}", v)
}

/// Whether we hold a mint that matches one a recipient accepts.
pub open spec fn compatible(their: NutzapMint, ours: Seq<String>) -> bool {
    exists|j: int| 0 <= j < ours.len() && same_mint(#[trigger] ours[j]@, normalized_mint(their.url@))
}

/// The URLs of a list of mints.
pub open spec fn mint_urls(v: Seq<NutzapMint>) -> Seq<Seq<char>> {
    v.map_values(|m: NutzapMint| m.url@)
}

/// The first mint that a recipient accepts and we hold.
pub fn find_compatible_nutzap_mint(their_mints: &Vec<NutzapMint>, our_mints: &Vec<String>) -> (r: Result<NutzapMint, String>)
    ensures
        r matches Ok(m) ==> exists|i: int|
            0 <= i < their_mints@.len() && compatible(#[trigger] their_mints@[i], our_mints@) && (forall|j: int|
                0 <= j < i ==> !compatible(#[trigger] their_mints@[j], our_mints@)) && m.url@ == their_mints@[i].url@
                && m.unit@ == their_mints@[i].unit@,
        r matches Err(e) ==> (forall|i: int| 0 <= i < their_mints@.len() ==> !compatible(#[trigger] their_mints@[i], our_mints@))
            && e@ == "No compatible mint found. Recipient accepts: "@ + debug_list_text(mint_urls(their_mints@)),
        (exists|i: int| 0 <= i < their_mints@.len() && compatible(#[trigger] their_mints@[i], our_mints@)) ==> r is Ok,
{
    let mut i: usize = 0;
    while i < their_mints.len()
        invariant
            i <= their_mints@.len(),
            forall|j: int| 0 <= j < i ==> !compatible(#[trigger] their_mints@[j], our_mints@),
        decreases their_mints@.len() - i,
    {
        let their_url = normalize_mint_url(their_mints[i].url.as_str());
        let mut k: usize = 0;
        proof {
            assert forall|j: int| 0 <= j < i implies !compatible(#[trigger] their_mints@[j], our_mints@) by {}
        }
        while k < our_mints.len()
            invariant
                i < their_mints@.len(),
                forall|j: int| 0 <= j < i ==> !compatible(#[trigger] their_mints@[j], our_mints@),
                their_url@ == normalized_mint(their_mints@[i as int].url@),
                k <= our_mints@.len(),
                forall|j: int| 0 <= j < k ==> !same_mint(#[trigger] our_mints@[j]@, their_url@),
            decreases our_mints@.len() - k,
        {
            if mint_matches(our_mints[k].as_str(), their_url.as_str()) {
                let m = NutzapMint { url: their_mints[i].url.clone(), unit: their_mints[i].unit.clone() };
                assert(compatible(their_mints@[i as int], our_mints@));
                return Ok(m);
            }
            k = k + 1;
        }
        i = i + 1;
    }
    let mut urls: Vec<String> = Vec::new();
    for j in 0..their_mints.len()
        invariant
            urls@.len() == j,
            string_views(urls@) == mint_urls(their_mints@.take(j as int)),
    {
        let ghost before = urls@;
        urls.push(their_mints[j].url.clone());
        assert forall|a: int| 0 <= a < j + 1 implies #[trigger] string_views(urls@)[a] == mint_urls(their_mints@.take(j + 1))[a] by {
            if a < j {
                assert(urls@[a] == before[a]);
                assert(string_views(before)[a] == mint_urls(their_mints@.take(j as int))[a]);
            }
        }
        assert(string_views(urls@) =~= mint_urls(their_mints@.take(j + 1)));
    }
    assert(their_mints@.take(their_mints@.len() as int) =~= their_mints@);
    let mut e = String::from_str("No compatible mint found. Recipient accepts: ");
    let d = debug_list(&urls);
    e.append(d.as_str());
    Err(e)
}

/// The position of the newest event: the greatest creation time, the
/// first such where several share it.
pub fn newest_event_index(created_at: &Vec<u64>) -> (r: Option<usize>)
    ensures
        r is None <==> created_at@.len() == 0,
        r matches Some(i) ==> i < created_at@.len() && (forall|j: int| 0 <= j < created_at@.len() ==> created_at@[j]
            <= created_at@[i as int]) && (forall|j: int| 0 <= j < i ==> created_at@[j] < created_at@[i as int]),
{
    if created_at.len() == 0 {
        return None;
    }
    let mut best: usize = 0;
    let mut i: usize = 1;
    while i < created_at.len()
        invariant
            0 < created_at@.len(),
            best < i <= created_at@.len(),
            forall|j: int| 0 <= j < i ==> created_at@[j] <= created_at@[best as int],
            forall|j: int| 0 <= j < best ==> created_at@[j] < created_at@[best as int],
        decreases created_at@.len() - i,
    {
        if created_at[i] > created_at[best] {
            best = i;
        }
        i = i + 1;
    }
    Some(best)
}

/// The proofs to lock for a nutzap: the spendable proofs of the mint,
/// owed to be there and to cover the amount.
pub fn nutzap_send_proofs(tokens: &Vec<TokenData>, mint_url: &str, amount: u64) -> (r: Result<Vec<ProofData>, String>)
    ensures
        ({
            let ps = spendable(mint_proofs(tokens@, mint_url@));
            if ps.len() == 0 {
                r matches Err(e) && e@ == "No tokens found for compatible mint"@
            } else if sat_sum(ps) < amount {
                r matches Err(e) && e@ == "Insufficient funds. Available: "@ + decimal(sat_sum(ps) as nat)
                    + " sats, Required: "@ + decimal(amount as nat) + " sats"@
            } else {
                r matches Ok(v) && v@ == ps
            }
        }),
{
    let ps = get_spendable_proofs_for_mint(tokens, mint_url);
    if ps.len() == 0 {
        return Err(String::from_str("No tokens found for compatible mint"));
    }
    let total = sum_amounts(&ps);
    if total < amount {
        let mut e = String::from_str("Insufficient funds. Available: ");
        append_decimal(&mut e, total);
        e.append(" sats, Required: ");
        append_decimal(&mut e, amount);
        e.append(" sats");
        return Err(e);
    }
    Ok(ps)
}

/// The tags of a nutzap event (kind 9321): a `proof` tag per locked proof,
/// the mint (`u`), the unit, the recipient (`p`), and where given the
/// zapped event (`e`) with its kind (`k`).
pub open spec fn nutzap_tags(
    proofs_json: Seq<Seq<char>>,
    mint_url: Seq<char>,
    unit: Seq<char>,
    recipient: Seq<char>,
    target: Option<(Seq<char>, Option<u16>)>,
) -> Seq<Seq<Seq<char>>> {
    proofs_json.map_values(|p: Seq<char>| seq!["proof"@, p]) + seq![
        seq!["u"@, mint_url],
        seq!["unit"@, unit],
        seq!["p"@, recipient],
    ] + match target {
        Some((id, kind)) => seq![seq!["e"@, id]] + match kind {
            Some(k) => seq![seq!["k"@, decimal(k as nat)]],
            None => Seq::empty(),
        },
        None => Seq::empty(),
    }
}

/// Builds the tags of a nutzap event. `target` is the zapped event's id in
/// hex, where it parsed as an event id, with its kind.
pub fn nutzap_event_tags(
    proofs_json: &Vec<String>,
    mint_url: &str,
    unit: &str,
    recipient_hex: &str,
    target: Option<(&str, Option<u16>)>,
) -> (r: Vec<Vec<String>>)
    ensures
        tag_views(r@) == nutzap_tags(
            string_views(proofs_json@),
            mint_url@,
            unit@,
            recipient_hex@,
            match target {
                Some((id, kind)) => Some((id@, kind)),
                None => None,
            },
        ),
{
    let mut r: Vec<Vec<String>> = Vec::new();
    let ghost pt = string_views(proofs_json@).map_values(|p: Seq<char>| seq!["proof"@, p]);
    assert(tag_views(r@) =~= pt.take(0));
    for i in 0..proofs_json.len()
        invariant
            pt == string_views(proofs_json@).map_values(|p: Seq<char>| seq!["proof"@, p]),
            r@.len() == i,
            tag_views(r@) == pt.take(i as int),
    {
        let parts = vec!["proof", proofs_json[i].as_str()];
        assert(str_views(parts@) =~= seq!["proof"@, proofs_json@[i as int]@]);
        let t = tag_of(parts);
        let ghost before = r@;
        r.push(t);
        assert forall|j: int| 0 <= j < i + 1 implies #[trigger] tag_views(r@)[j] == pt.take(i + 1)[j] by {
            if j < i {
                assert(r@[j] == before[j]);
                assert(tag_views(before)[j] == pt.take(i as int)[j]);
            }
        }
        assert(tag_views(r@) =~= pt.take(i + 1));
    }
    assert(pt.take(proofs_json.len() as int) =~= pt);
    let ghost mid = seq![seq!["u"@, mint_url@], seq!["unit"@, unit@], seq!["p"@, recipient_hex@]];
    let p1 = vec!["u", mint_url];
    assert(str_views(p1@) =~= mid[0]);
    r.push(tag_of(p1));
    let p2 = vec!["unit", unit];
    assert(str_views(p2@) =~= mid[1]);
    r.push(tag_of(p2));
    let p3 = vec!["p", recipient_hex];
    assert(str_views(p3@) =~= mid[2]);
    r.push(tag_of(p3));
    assert(tag_views(r@) =~= pt + mid);
    let ghost base = tag_views(r@);
    match target {
        Some((id, kind)) => {
            let p4 = vec!["e", id];
            assert(str_views(p4@) =~= seq!["e"@, id@]);
            r.push(tag_of(p4));
            assert(tag_views(r@) =~= base + seq![seq!["e"@, id@]]);
            match kind {
                Some(k) => {
                    let mut ks = String::new();
                    append_decimal(&mut ks, k as u64);
                    let p5 = vec!["k", ks.as_str()];
                    assert(str_views(p5@) =~= seq!["k"@, decimal(k as nat)]);
                    let ghost b2 = tag_views(r@);
                    r.push(tag_of(p5));
                    assert(tag_views(r@) =~= b2 + seq![seq!["k"@, decimal(k as nat)]]);
                    assert(tag_views(r@) =~= base + (seq![seq!["e"@, id@]] + seq![seq!["k"@, decimal(k as nat)]]));
                },
                None => {
                    assert(tag_views(r@) =~= base + (seq![seq!["e"@, id@]] + Seq::<Seq<Seq<char>>>::empty()));
                },
            }
        },
        None => {
            assert(tag_views(r@) =~= base + Seq::<Seq<Seq<char>>>::empty());
        },
    }
    r
}

/// Marks a pending nutzap as being redeemed, if there is one with the
/// event id.
pub fn begin_redeem(pending: &mut Vec<PendingNutzap>, event_id: &str) -> (r: Result<(), String>)
    ensures
        (exists|i: int| first_with_event(old(pending)@, event_id@, i)) ==> r is Ok && (forall|i: int|
            #[trigger] first_with_event(old(pending)@, event_id@, i) ==> final(pending)@ == old(pending)@.update(
                i,
                PendingNutzap { status: NutzapStatus::Redeeming, ..old(pending)@[i] },
            )),
        !(exists|i: int| first_with_event(old(pending)@, event_id@, i)) ==> final(pending)@ == old(pending)@ && (
        r matches Err(e) && e@ == "Pending nutzap not found: "@ + event_id@),
{
    match find_nutzap(pending, event_id) {
        None => {
            proof {
                assert forall|i: int| !first_with_event(pending@, event_id@, i) by {}
            }
            let mut e = String::from_str("Pending nutzap not found: ");
            e.append(event_id);
            Err(e)
        },
        Some(_) => {
            update_pending_nutzap_status(pending, event_id, NutzapStatus::Redeeming);
            Ok(())
        },
    }
}


/// A secret key of the Cashu library (NUT-01).
#[verifier::external_type_specification]
#[verifier::external_body]
pub struct ExSecretKey(cdk::nuts::SecretKey);

/// What `SecretKey::from_hex` gives for a text: the key, or the display
/// text of the parse error. A function of the text alone.
pub uninterp spec fn secret_key_parse(privkey_hex: Seq<char>) -> Result<cdk::nuts::SecretKey, Seq<char>>;

/// The hex text of a secret key's x-only public key. A function of the key
/// alone.
pub uninterp spec fn x_only_hex_of(sk: cdk::nuts::SecretKey) -> Seq<char>;

/// Parses a secret key with `SecretKey::from_hex`, the error shown as its
/// display text.
#[verifier::external_body]
fn secret_key_from_hex(s: &str) -> (r: Result<cdk::nuts::SecretKey, String>)
    ensures
        match r {
            Ok(k) => secret_key_parse(s@) == Ok::<cdk::nuts::SecretKey, Seq<char>>(k),
            Err(e) => secret_key_parse(s@) == Err::<cdk::nuts::SecretKey, Seq<char>>(e@),
        },
{
    cdk::nuts::SecretKey::from_hex(s).map_err(|e| e.to_string())
}

/// The x-only public key of a secret key (`SecretKey::public_key`, then
/// `PublicKey::x_only_public_key`) as hex text (its `Display`).
#[verifier::external_body]
fn x_only_hex(sk: &cdk::nuts::SecretKey) -> (r: String)
    ensures
        r@ == x_only_hex_of(*sk),
{
    sk.public_key().x_only_public_key().to_string()
}

/// The key that nutzaps to us are locked to: the wallet key's x-only
/// public key with the `02` prefix (even parity, as NIP-61 asks).
pub fn get_nutzap_p2pk_pubkey(wallet_initialized: bool, privkey: Option<&str>) -> (r: Result<String, String>)
    ensures
        if !wallet_initialized {
            r matches Err(e) && e@ == "Wallet not initialized"@
        } else {
            match privkey {
                None => r matches Err(e) && e@ == "Wallet private key not available"@,
                Some(k) => match secret_key_parse(k@) {
                    Ok(sk) => r matches Ok(p) && p@ == "02"@ + x_only_hex_of(sk),
                    Err(m) => r matches Err(e) && e@ == "Invalid wallet privkey: "@ + m,
                },
            }
        },
{
    if !wallet_initialized {
        return Err(String::from_str("Wallet not initialized"));
    }
    let k = match privkey {
        None => {
            return Err(String::from_str("Wallet private key not available"));
        },
        Some(k) => k,
    };
    let x_only = match secret_key_from_hex(k) {
        Ok(sk) => Ok(x_only_hex(&sk)),
        Err(e) => Err(e),
    };
    nutzap_pubkey_from_x_only(x_only)
}

/// The nutzap key from the outcome of reading the wallet key: the x-only
/// key's hex text behind `02`, or the read error behind its explanation.
pub fn nutzap_pubkey_from_x_only(x_only: Result<String, String>) -> (r: Result<String, String>)
    ensures
        match x_only {
            Ok(x) => r matches Ok(p) && p@ == "02"@ + x@,
            Err(m) => r matches Err(e) && e@ == "Invalid wallet privkey: "@ + m@,
        },
{
    match x_only {
        Err(e) => {
            let mut m = String::from_str("Invalid wallet privkey: ");
            m.append(e.as_str());
            Err(m)
        },
        Ok(x) => {
            let mut p = String::from_str("02");
            p.append(x.as_str());
            Ok(p)
        },
    }
}

} // verus!
