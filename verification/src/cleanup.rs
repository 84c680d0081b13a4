//! Cleaning up a mint's proofs that are no longer available: those the
//! mint reports spent or pending, and reserved ones that belong to no
//! transaction.
use vstd::prelude::*;
use vstd::string::*;
use crate::keyset::{contains_string, string_views};
use crate::proof_recovery::MintProofState;
use crate::text::{append_decimal, decimal};
use crate::types::{ProofData, TokenData};

verus! {

/// A proof the mint reports in state `st` is no longer available to the
/// wallet: spent, pending, or reserved outside any transaction.
pub open spec fn unavailable(p: ProofData, st: MintProofState) -> bool {
    st == MintProofState::Spent || st == MintProofState::Pending || (st == MintProofState::Reserved
        && p.transaction_id is None)
}

/// The distinct secrets of the unavailable proofs among the first `n`
/// proofs paired with their reported states, in order of first appearance.
pub open spec fn unavailable_secrets(ps: Seq<ProofData>, states: Seq<MintProofState>, n: int) -> Seq<Seq<char>>
    decreases n,
{
    if n <= 0 {
        Seq::empty()
    } else {
        let rest = unavailable_secrets(ps, states, n - 1);
        let p = ps[n - 1];
        if unavailable(p, states[n - 1]) && !rest.contains(p.secret@) { rest.push(p.secret@) } else { rest }
    }
}

/// The summed value of the unavailable proofs among the first `n` pairs
/// (each pair counted, whatever its secret).
pub open spec fn unavailable_value(ps: Seq<ProofData>, states: Seq<MintProofState>, n: int) -> int
    decreases n,
{
    if n <= 0 {
        0
    } else {
        unavailable_value(ps, states, n - 1) + (if unavailable(ps[n - 1], states[n - 1]) { ps[n - 1].amount as int } else { 0 })
    }
}

/// The proofs whose secret is not listed, in order.
pub open spec fn secret_not_in(ps: Seq<ProofData>, secrets: Seq<Seq<char>>) -> Seq<ProofData>
    decreases ps.len(),
{
    if ps.len() == 0 {
        Seq::empty()
    } else {
        let rest = secret_not_in(ps.drop_last(), secrets);
        if secrets.contains(ps.last().secret@) { rest } else { rest.push(ps.last()) }
    }
}

/// The number of pairs of proofs and reported states.
pub open spec fn paired(ps: Seq<ProofData>, states: Seq<MintProofState>) -> int {
    if ps.len() < states.len() { ps.len() as int } else { states.len() as int }
}

/// The value summed over a prefix of the pairs is at most that of more.
proof fn lemma_unavailable_value_mono(ps: Seq<ProofData>, states: Seq<MintProofState>, i: int, n: int)
    requires
        0 <= i <= n,
    ensures
        unavailable_value(ps, states, i) <= unavailable_value(ps, states, n),
    decreases n - i,
{
    if i < n {
        lemma_unavailable_value_mono(ps, states, i, n - 1);
    }
}

/// Sorts the mint's proofs by the states the mint reported (paired in
/// order): the distinct secrets and the value of the unavailable ones, and
/// the proofs that stay available.
pub fn classify_unavailable(proofs: &Vec<ProofData>, states: &Vec<MintProofState>) -> (r: (Vec<String>, u64, Vec<ProofData>))
    requires
        unavailable_value(proofs@, states@, paired(proofs@, states@)) <= u64::MAX,
    ensures
        string_views(r.0@) == unavailable_secrets(proofs@, states@, paired(proofs@, states@)),
        r.1 == unavailable_value(proofs@, states@, paired(proofs@, states@)),
        r.2@ == secret_not_in(proofs@, unavailable_secrets(proofs@, states@, paired(proofs@, states@))),
{
    let n: usize = if proofs.len() < states.len() { proofs.len() } else { states.len() };
    let mut secrets: Vec<String> = Vec::new();
    let mut value: u64 = 0;
    for i in 0..n
        invariant
            n == paired(proofs@, states@),
            n <= proofs@.len(),
            n <= states@.len(),
            unavailable_value(proofs@, states@, n as int) <= u64::MAX,
            string_views(secrets@) == unavailable_secrets(proofs@, states@, i as int),
            value == unavailable_value(proofs@, states@, i as int),
    {
        let p = &proofs[i];
        let st = states[i];
        let gone = st == MintProofState::Spent || st == MintProofState::Pending || (st == MintProofState::Reserved
            && p.transaction_id.is_none());
        if gone {
            proof {
                lemma_unavailable_value_mono(proofs@, states@, i + 1, n as int);
            }
            value = value + p.amount;
            if !contains_string(&secrets, &p.secret) {
                let ghost before = secrets@;
                secrets.push(p.secret.clone());
                assert(string_views(secrets@) =~= string_views(before).push(p.secret@));
            }
        }
    }
    let ghost sv = string_views(secrets@);
    let mut available: Vec<ProofData> = Vec::new();
    for i in 0..proofs.len()
        invariant
            sv == string_views(secrets@),
            available@ == secret_not_in(proofs@.take(i as int), sv),
    {
        assert(proofs@.take(i + 1).drop_last() =~= proofs@.take(i as int));
        if !contains_string(&secrets, &proofs[i].secret) {
            available.push(proofs[i].clone());
        }
    }
    assert(proofs@.take(proofs.len() as int) =~= proofs@);
    (secrets, value, available)
}

/// Whether the cleanup may publish the deletion of the old token events:
/// when nothing stays available, or the event holding what stays was
/// published.
pub fn allow_cleanup_deletion(available_count: usize, republished: bool) -> (r: bool)
    ensures
        r == (available_count == 0 || republished),
{
    available_count == 0 || republished
}

/// The event id that the proofs left after a cleanup are kept under: the
/// new event's id when it was published, else the pending id of the queued
/// event, else `local_pending_` and the time in milliseconds.
pub open spec fn cleanup_event_id(new_event_id: Option<Seq<char>>, pending_id: Option<Seq<char>>, now_millis: u64) -> Seq<char> {
    match new_event_id {
        Some(id) => id,
        None => match pending_id {
            Some(id) => id,
            None => "local_pending_"@ + decimal(now_millis as nat),
        },
    }
}

/// The token that holds the proofs left after a cleanup: under the new
/// event's id when there is one; otherwise, when proofs are left, under
/// the pending or a synthetic id; otherwise none.
pub fn cleanup_replacement(
    new_event_id: &Option<String>,
    pending_id: &Option<String>,
    now_millis: u64,
    mint_url: &str,
    proofs: Vec<ProofData>,
    now: u64,
) -> (r: Option<TokenData>)
    ensures
        new_event_id is None && proofs@.len() == 0 ==> r is None,
        new_event_id is Some || proofs@.len() > 0 ==> (r matches Some(t) && t.event_id@ == cleanup_event_id(
            match new_event_id {
                Some(id) => Some(id@),
                None => None,
            },
            match pending_id {
                Some(id) => Some(id@),
                None => None,
            },
            now_millis,
        ) && t.mint@ == mint_url@ && t.unit@ == "sat"@ && t.proofs@ == proofs@ && t.created_at == now),
{
    let event_id = match new_event_id {
        Some(id) => id.clone(),
        None => {
            if proofs.len() == 0 {
                return None;
            }
            match pending_id {
                Some(id) => id.clone(),
                None => {
                    let mut id = String::from_str("local_pending_");
                    append_decimal(&mut id, now_millis);
                    id
                },
            }
        },
    };
    Some(TokenData { event_id, mint: String::from_str(mint_url), unit: String::from_str("sat"), proofs, created_at: now })
}

} // verus!
