//! Rebuilding the wallet's tokens from fetched token events (NIP-60
//! kind 7375): deletions, conversion of the stored proofs, balances, and
//! the merge of an incremental fetch into the known tokens.
use vstd::prelude::*;
use vstd::string::*;
use crate::keyset::{amount_sum, contains_string, string_views};
use crate::proof_recovery::token_fields;
use crate::store::tokens_not_in;
use crate::text::{append_decimal, decimal};
use crate::types::{DleqData, ProofData, ProofState, TokenData, clone_opt_string, normalize_mint_url, normalized_mint};

verus! {

/// A proof as stored in a token event.
#[derive(Debug)]
pub struct TokenEventProof {
    pub id: String,
    pub amount: u64,
    pub secret: String,
    pub c: String,
    pub witness: Option<String>,
    pub dleq: Option<DleqData>,
}

/// The content of a token event.
#[derive(Debug)]
pub struct TokenEventData {
    pub mint: String,
    pub unit: String,
    pub proofs: Vec<TokenEventProof>,
    /// Ids of the token events this one replaces.
    pub del: Vec<String>,
}

/// A fetched token event: its id, creation time, and its content when it
/// could be decrypted and read.
#[derive(Debug)]
pub struct FetchedTokenEvent {
    pub event_id: String,
    pub created_at: u64,
    pub content: Option<TokenEventData>,
}

/// The id a stored proof gets: its own, or, when empty, its secret, `_` and
/// its amount.
pub open spec fn stored_proof_id(p: TokenEventProof) -> Seq<char> {
    if p.id@.len() == 0 { p.secret@ + "_"@ + decimal(p.amount as nat) } else { p.id@ }
}

/// `q` is the wallet proof made from the stored proof `p`: spendable, in no
/// transaction.
pub open spec fn converted(q: ProofData, p: TokenEventProof) -> bool {
    &&& q.id@ == stored_proof_id(p)
    &&& q.amount == p.amount
    &&& q.secret == p.secret
    &&& q.c == p.c
    &&& q.witness == p.witness
    &&& q.dleq == p.dleq
    &&& q.state == ProofState::Unspent
    &&& q.transaction_id is None
    &&& q.state_set_at is None
}

/// The wallet proof made from a stored proof.
fn convert_proof(p: &TokenEventProof) -> (q: ProofData)
    ensures
        converted(q, *p),
{
    let id = if p.id.as_str().is_empty() {
        let mut s = p.secret.clone();
        s.append("_");
        append_decimal(&mut s, p.amount);
        s
    } else {
        p.id.clone()
    };
    let dleq = match &p.dleq {
        Some(d) => Some(d.clone()),
        None => None,
    };
    ProofData {
        id,
        amount: p.amount,
        secret: p.secret.clone(),
        c: p.c.clone(),
        witness: clone_opt_string(&p.witness),
        dleq,
        state: ProofState::Unspent,
        transaction_id: None,
        state_set_at: None,
    }
}

/// `t` is the token made from the readable event `ev`.
pub open spec fn token_from(t: TokenData, ev: FetchedTokenEvent) -> bool {
    &&& ev.content is Some
    &&& t.event_id == ev.event_id
    &&& t.mint@ == normalized_mint(ev.content->0.mint@)
    &&& t.unit == ev.content->0.unit
    &&& t.created_at == ev.created_at
    &&& t.proofs@.len() == ev.content->0.proofs@.len()
    &&& forall|k: int| 0 <= k < t.proofs@.len() ==> converted(#[trigger] t.proofs@[k], ev.content->0.proofs@[k])
}

/// The ids listed as replaced by readable events not deleted by a deletion
/// event, in order.
pub open spec fn replaced_ids(events: Seq<FetchedTokenEvent>, kind5: Seq<Seq<char>>) -> Seq<Seq<char>>
    decreases events.len(),
{
    if events.len() == 0 {
        Seq::empty()
    } else {
        let rest = replaced_ids(events.drop_last(), kind5);
        let ev = events.last();
        if !kind5.contains(ev.event_id@) && ev.content is Some {
            rest + string_views(ev.content->0.del@)
        } else {
            rest
        }
    }
}

/// Every deleted event id: by a deletion event, or as replaced by another.
pub open spec fn deleted_ids(events: Seq<FetchedTokenEvent>, kind5: Seq<Seq<char>>) -> Seq<Seq<char>> {
    kind5 + replaced_ids(events, kind5)
}

/// Sum of the amounts of stored proofs.
pub open spec fn stored_sum(ps: Seq<TokenEventProof>) -> int
    decreases ps.len(),
{
    if ps.len() == 0 { 0 } else { stored_sum(ps.drop_last()) + ps.last().amount }
}

/// Which events become tokens (by position) and the total balance, or the
/// first overflow, going through the events in order: deleted, unreadable
/// and empty events are skipped.
pub open spec fn token_events(events: Seq<FetchedTokenEvent>, deleted: Seq<Seq<char>>) -> Result<(Seq<int>, int), Seq<char>>
    decreases events.len(),
{
    if events.len() == 0 {
        Ok((Seq::empty(), 0))
    } else {
        match token_events(events.drop_last(), deleted) {
            Err(e) => Err(e),
            Ok((idx, total)) => {
                let ev = events.last();
                if deleted.contains(ev.event_id@) || ev.content is None || ev.content->0.proofs@.len() == 0 {
                    Ok((idx, total))
                } else if stored_sum(ev.content->0.proofs@) > u64::MAX {
                    Err("Proof amount overflow in token event "@ + ev.event_id@)
                } else if total + stored_sum(ev.content->0.proofs@) > u64::MAX {
                    Err("Balance overflow when adding token event "@ + ev.event_id@)
                } else {
                    Ok((idx.push(events.len() - 1), total + stored_sum(ev.content->0.proofs@)))
                }
            },
        }
    }
}

/// Collects every deleted event id.
fn collect_deleted(events: &Vec<FetchedTokenEvent>, kind5_deleted: &Vec<String>) -> (r: Vec<String>)
    ensures
        string_views(r@) == deleted_ids(events@, string_views(kind5_deleted@)),
{
    let ghost k5 = string_views(kind5_deleted@);
    let mut r: Vec<String> = Vec::new();
    for i in 0..kind5_deleted.len()
        invariant
            string_views(r@) == string_views(kind5_deleted@.take(i as int)),
    {
        let ghost before = r@;
        r.push(kind5_deleted[i].clone());
        assert(string_views(r@) =~= string_views(before).push(kind5_deleted@[i as int]@));
        assert(string_views(kind5_deleted@.take(i + 1)) =~= string_views(kind5_deleted@.take(i as int)).push(kind5_deleted@[i as int]@));
    }
    assert(kind5_deleted@.take(kind5_deleted.len() as int) =~= kind5_deleted@);
    assert(replaced_ids(events@.take(0), k5) =~= Seq::<Seq<char>>::empty());
    assert(string_views(r@) =~= k5 + replaced_ids(events@.take(0), k5));
    for i in 0..events.len()
        invariant
            k5 == string_views(kind5_deleted@),
            string_views(r@) == k5 + replaced_ids(events@.take(i as int), k5),
    {
        assert(events@.take(i + 1).drop_last() =~= events@.take(i as int));
        let ev = &events[i];
        if !contains_string(kind5_deleted, &ev.event_id) {
            match &ev.content {
                Some(c) => {
                    let ghost start = string_views(r@);
                    for k in 0..c.del.len()
                        invariant
                            string_views(r@) == start + string_views(c.del@.take(k as int)),
                    {
                        let ghost before = r@;
                        r.push(c.del[k].clone());
                        assert(string_views(r@) =~= string_views(before).push(c.del@[k as int]@));
                        assert(string_views(c.del@.take(k + 1)) =~= string_views(c.del@.take(k as int)).push(c.del@[k as int]@));
                        assert(string_views(r@) =~= start + string_views(c.del@.take(k + 1)));
                    }
                    assert(c.del@.take(c.del.len() as int) =~= c.del@);
                    assert(string_views(r@) =~= k5 + replaced_ids(events@.take(i + 1), k5));
                },
                None => {},
            }
        }
    }
    assert(events@.take(events.len() as int) =~= events@);
    r
}

/// The token made from a readable event with at least one proof.
fn token_of(ev: &FetchedTokenEvent) -> (r: TokenData)
    requires
        ev.content is Some,
    ensures
        token_from(r, *ev),
{
    let c = match &ev.content {
        Some(c) => c,
        None => {
            return TokenData {
                event_id: ev.event_id.clone(),
                mint: String::new(),
                unit: String::new(),
                proofs: Vec::new(),
                created_at: ev.created_at,
            };
        },
    };
    let mut proofs: Vec<ProofData> = Vec::new();
    for k in 0..c.proofs.len()
        invariant
            proofs@.len() == k,
            forall|j: int| 0 <= j < k ==> converted(#[trigger] proofs@[j], c.proofs@[j]),
    {
        proofs.push(convert_proof(&c.proofs[k]));
    }
    TokenData {
        event_id: ev.event_id.clone(),
        mint: normalize_mint_url(c.mint.as_str()),
        unit: c.unit.clone(),
        proofs,
        created_at: ev.created_at,
    }
}

/// Sum of the amounts of stored proofs, if it fits in 64 bits.
fn stored_total(ps: &Vec<TokenEventProof>) -> (r: Option<u64>)
    ensures
        r matches Some(t) ==> t == stored_sum(ps@),
        r is None ==> stored_sum(ps@) > u64::MAX,
{
    let mut t: u64 = 0;
    for i in 0..ps.len()
        invariant
            t == stored_sum(ps@.take(i as int)),
    {
        assert(ps@.take(i + 1).drop_last() =~= ps@.take(i as int));
        match t.checked_add(ps[i].amount) {
            Some(x) => {
                t = x;
            },
            None => {
                proof {
                    lemma_stored_sum_prefix(ps@, i + 1);
                }
                return None;
            },
        }
    }
    assert(ps@.take(ps.len() as int) =~= ps@);
    Some(t)
}

/// The sum of a prefix is at most the sum of the whole.
proof fn lemma_stored_sum_prefix(ps: Seq<TokenEventProof>, i: int)
    requires
        0 <= i <= ps.len(),
    ensures
        stored_sum(ps.take(i)) <= stored_sum(ps),
    decreases ps.len() - i,
{
    if i < ps.len() {
        lemma_stored_sum_prefix(ps, i + 1);
        assert(ps.take(i + 1).drop_last() =~= ps.take(i));
    } else {
        assert(ps.take(i) =~= ps);
    }
}

/// Once a prefix of the events fails, the whole fails the same way.
proof fn lemma_token_events_err(events: Seq<FetchedTokenEvent>, deleted: Seq<Seq<char>>, i: int)
    requires
        0 <= i <= events.len(),
        token_events(events.take(i), deleted) is Err,
    ensures
        token_events(events, deleted) == token_events(events.take(i), deleted),
    decreases events.len() - i,
{
    if i < events.len() {
        assert(events.take(i + 1).drop_last() =~= events.take(i));
        lemma_token_events_err(events, deleted, i + 1);
    } else {
        assert(events.take(i) =~= events);
    }
}

/// Builds the wallet's tokens from fetched token events: events deleted by
/// a deletion event (`kind5_deleted`) or replaced by another event are
/// dropped, as are unreadable events and events without proofs; the others
/// become tokens with normalized mint URLs. Also returns the total balance
/// and every deleted id.
pub fn assemble_tokens(events: &Vec<FetchedTokenEvent>, kind5_deleted: &Vec<String>) -> (r: Result<(Vec<TokenData>, u64, Vec<String>), String>)
    ensures
        ({
            let deleted = deleted_ids(events@, string_views(kind5_deleted@));
            match token_events(events@, deleted) {
                Err(e) => r matches Err(m) && m@ == e,
                Ok((idx, total)) => r matches Ok((ts, t, d)) && t == total && string_views(d@) == deleted
                    && ts@.len() == idx.len()
                    && forall|k: int| 0 <= k < idx.len() ==> token_from(#[trigger] ts@[k], events@[idx[k]]),
            }
        }),
{
    let deleted = collect_deleted(events, kind5_deleted);
    let ghost dv = string_views(deleted@);
    let ghost evs = events@;
    let mut tokens: Vec<TokenData> = Vec::new();
    let mut total: u64 = 0;
    let ghost mut idx: Seq<int> = Seq::empty();
    for i in 0..events.len()
        invariant
            evs == events@,
            dv == string_views(deleted@),
            dv == deleted_ids(events@, string_views(kind5_deleted@)),
            token_events(evs.take(i as int), dv) == Ok::<(Seq<int>, int), Seq<char>>((idx, total as int)),
            tokens@.len() == idx.len(),
            forall|k: int| 0 <= k < idx.len() ==> 0 <= #[trigger] idx[k] < i,
            forall|k: int| 0 <= k < idx.len() ==> token_from(#[trigger] tokens@[k], evs[idx[k]]),
    {
        assert(evs.take(i + 1).drop_last() =~= evs.take(i as int));
        assert(evs.take(i + 1).last() == evs[i as int]);
        let ev = &events[i];
        if !contains_string(&deleted, &ev.event_id) {
            match &ev.content {
                Some(c) => {
                    if c.proofs.len() > 0 {
                        let sum = match stored_total(&c.proofs) {
                            Some(s) => s,
                            None => {
                                let mut e = String::from_str("Proof amount overflow in token event ");
                                e.append(ev.event_id.as_str());
                                proof {
                                    assert(!dv.contains(ev.event_id@));
                                    assert(token_events(evs.take(i + 1), dv) == Err::<(Seq<int>, int), Seq<char>>(e@));
                                    lemma_token_events_err(evs, dv, i + 1);
                                }
                                return Err(e);
                            },
                        };
                        let nt = match total.checked_add(sum) {
                            Some(x) => x,
                            None => {
                                let mut e = String::from_str("Balance overflow when adding token event ");
                                e.append(ev.event_id.as_str());
                                proof {
                                    assert(!dv.contains(ev.event_id@));
                                    assert(token_events(evs.take(i + 1), dv) == Err::<(Seq<int>, int), Seq<char>>(e@));
                                    lemma_token_events_err(evs, dv, i + 1);
                                }
                                return Err(e);
                            },
                        };
                        total = nt;
                        tokens.push(token_of(ev));
                        proof {
                            idx = idx.push(i as int);
                        }
                    }
                },
                None => {},
            }
        }
    }
    assert(evs.take(evs.len() as int) =~= evs);
    Ok((tokens, total, deleted))
}

/// Sum of the amounts of every proof of the tokens.
pub open spec fn tokens_total(tokens: Seq<TokenData>) -> int
    decreases tokens.len(),
{
    if tokens.len() == 0 { 0 } else { tokens_total(tokens.drop_last()) + amount_sum(tokens.last().proofs@) }
}

/// The event ids of tokens.
pub open spec fn token_ids(tokens: Seq<TokenData>) -> Seq<Seq<char>> {
    tokens.map_values(|t: TokenData| t.event_id@)
}

/// The fetched tokens whose event id is not already known, in order.
pub open spec fn unknown_tokens(fetched: Seq<TokenData>, known: Seq<Seq<char>>) -> Seq<TokenData>
    decreases fetched.len(),
{
    if fetched.len() == 0 {
        Seq::empty()
    } else {
        let rest = unknown_tokens(fetched.drop_last(), known);
        if known.contains(fetched.last().event_id@) { rest } else { rest.push(fetched.last()) }
    }
}

/// The tokens after an incremental fetch: the known tokens that were not
/// deleted, then the fetched tokens whose event was not known before.
pub open spec fn merged_tokens(existing: Seq<TokenData>, fetched: Seq<TokenData>, deleted: Seq<Seq<char>>) -> Seq<TokenData> {
    tokens_not_in(existing, deleted) + unknown_tokens(fetched, token_ids(existing))
}

/// Merges the tokens of an incremental fetch into the known ones, and
/// recomputes the balance.
pub fn merge_incremental(existing: &Vec<TokenData>, fetched: &Vec<TokenData>, deleted: &Vec<String>) -> (r: Result<(Vec<TokenData>, u64), String>)
    ensures
        ({
            let m = merged_tokens(existing@, fetched@, string_views(deleted@));
            if tokens_total(m) > u64::MAX {
                r matches Err(e) && e@ == "Balance calculation overflow in merge"@
            } else {
                r matches Ok((ts, total)) && total == tokens_total(m) && ts@.map_values(|t: TokenData| token_fields(t))
                    == m.map_values(|t: TokenData| token_fields(t))
            }
        }),
{
    let ghost dv = string_views(deleted@);
    let mut ids: Vec<String> = Vec::new();
    for i in 0..existing.len()
        invariant
            string_views(ids@) == token_ids(existing@.take(i as int)),
    {
        let ghost before = ids@;
        ids.push(existing[i].event_id.clone());
        assert(string_views(ids@) =~= string_views(before).push(existing@[i as int].event_id@));
        assert(token_ids(existing@.take(i + 1)) =~= token_ids(existing@.take(i as int)).push(existing@[i as int].event_id@));
    }
    assert(existing@.take(existing.len() as int) =~= existing@);
    let ghost target = merged_tokens(existing@, fetched@, dv);
    let ghost kept = tokens_not_in(existing@, dv);
    let mut out: Vec<TokenData> = Vec::new();
    for i in 0..existing.len()
        invariant
            dv == string_views(deleted@),
            out@.len() == tokens_not_in(existing@.take(i as int), dv).len(),
            forall|k: int| 0 <= k < out@.len() ==> token_fields(#[trigger] out@[k]) == token_fields(
                tokens_not_in(existing@.take(i as int), dv)[k],
            ),
    {
        assert(existing@.take(i + 1).drop_last() =~= existing@.take(i as int));
        if !contains_string(deleted, &existing[i].event_id) {
            out.push(existing[i].clone());
        }
    }
    assert(existing@.take(existing.len() as int) =~= existing@);
    let ghost n0 = out@.len();
    for i in 0..fetched.len()
        invariant
            string_views(ids@) == token_ids(existing@),
            n0 == kept.len(),
            kept == tokens_not_in(existing@, dv),
            out@.len() == n0 + unknown_tokens(fetched@.take(i as int), token_ids(existing@)).len(),
            forall|k: int| 0 <= k < out@.len() ==> token_fields(#[trigger] out@[k]) == token_fields(
                (kept + unknown_tokens(fetched@.take(i as int), token_ids(existing@)))[k],
            ),
    {
        assert(fetched@.take(i + 1).drop_last() =~= fetched@.take(i as int));
        if !contains_string(&ids, &fetched[i].event_id) {
            out.push(fetched[i].clone());
            proof {
                let u0 = unknown_tokens(fetched@.take(i as int), token_ids(existing@));
                let u1 = unknown_tokens(fetched@.take(i + 1), token_ids(existing@));
                assert(u1 == u0.push(fetched@[i as int]));
                assert forall|k: int| 0 <= k < out@.len() implies token_fields(#[trigger] out@[k]) == token_fields(
                    (kept + u1)[k],
                ) by {
                    if k < out@.len() - 1 {
                        assert((kept + u1)[k] == (kept + u0)[k]);
                    }
                }
            }
        } else {
            proof {
                let u0 = unknown_tokens(fetched@.take(i as int), token_ids(existing@));
                let u1 = unknown_tokens(fetched@.take(i + 1), token_ids(existing@));
                assert(u1 == u0);
            }
        }
    }
    assert(fetched@.take(fetched.len() as int) =~= fetched@);
    proof {
        assert(out@.map_values(|t: TokenData| token_fields(t)) =~= target.map_values(|t: TokenData| token_fields(t)));
        lemma_tokens_total_fields(out@, target);
    }
    let mut total: u64 = 0;
    for i in 0..out.len()
        invariant
            out@.len() == target.len(),
            target == merged_tokens(existing@, fetched@, string_views(deleted@)),
            forall|k: int| 0 <= k < out@.len() ==> token_fields(#[trigger] out@[k]) == token_fields(target[k]),
            total == tokens_total(out@.take(i as int)),
            tokens_total(out@) == tokens_total(target),
    {
        assert(out@.take(i + 1).drop_last() =~= out@.take(i as int));
        let ps = &out[i].proofs;
        let mut k: usize = 0;
        let ghost start = total;
        while k < ps.len()
            invariant
                k <= ps.len(),
                i < out@.len(),
                ps@ == out@[i as int].proofs@,
                total == start + amount_sum(ps@.take(k as int)),
                start == tokens_total(out@.take(i as int)),
                out@.len() == target.len(),
                target == merged_tokens(existing@, fetched@, string_views(deleted@)),
                forall|j: int| 0 <= j < out@.len() ==> token_fields(#[trigger] out@[j]) == token_fields(target[j]),
                tokens_total(out@) == tokens_total(target),
            decreases ps.len() - k,
        {
            assert(ps@.take(k + 1).drop_last() =~= ps@.take(k as int));
            match total.checked_add(ps[k].amount) {
                Some(x) => {
                    total = x;
                },
                None => {
                    proof {
                        crate::keyset::lemma_amount_sum_prefix(ps@, k + 1);
                        lemma_tokens_total_prefix(out@, i + 1);
                        assert(out@.take(i + 1).drop_last() =~= out@.take(i as int));
                        assert(out@.take(i + 1).last() == out@[i as int]);
                        assert(ps@.take(k + 1).last() == ps@[k as int]);
                        assert(amount_sum(ps@.take(k + 1)) == amount_sum(ps@.take(k as int)) + ps@[k as int].amount);
                        assert(tokens_total(out@.take(i + 1)) == start + amount_sum(ps@));
                    }
                    return Err(String::from_str("Balance calculation overflow in merge"));
                },
            }
            k = k + 1;
        }
        assert(ps@.take(ps.len() as int) =~= ps@);
    }
    assert(out@.take(out.len() as int) =~= out@);
    Ok((out, total))
}

/// The total of a prefix is at most the total of the whole.
proof fn lemma_tokens_total_prefix(ts: Seq<TokenData>, i: int)
    requires
        0 <= i <= ts.len(),
    ensures
        tokens_total(ts.take(i)) <= tokens_total(ts),
    decreases ts.len() - i,
{
    if i < ts.len() {
        lemma_tokens_total_prefix(ts, i + 1);
        assert(ts.take(i + 1).drop_last() =~= ts.take(i));
        lemma_amount_sum_nonneg(ts[i].proofs@);
    } else {
        assert(ts.take(i) =~= ts);
    }
}

/// Tokens with the same fields have the same total.
proof fn lemma_tokens_total_fields(a: Seq<TokenData>, b: Seq<TokenData>)
    requires
        a.len() == b.len(),
        forall|k: int| 0 <= k < a.len() ==> token_fields(#[trigger] a[k]) == token_fields(b[k]),
    ensures
        tokens_total(a) == tokens_total(b),
    decreases a.len(),
{
    if a.len() > 0 {
        assert(token_fields(a[a.len() - 1]) == token_fields(b[b.len() - 1]));
        assert forall|k: int| 0 <= k < a.drop_last().len() implies token_fields(#[trigger] a.drop_last()[k]) == token_fields(
            b.drop_last()[k],
        ) by {
            assert(token_fields(a[k]) == token_fields(b[k]));
        }
        lemma_tokens_total_fields(a.drop_last(), b.drop_last());
    }
}

/// Sums of amounts are never negative.
proof fn lemma_amount_sum_nonneg(ps: Seq<ProofData>)
    ensures
        amount_sum(ps) >= 0,
    decreases ps.len(),
{
    if ps.len() > 0 {
        lemma_amount_sum_nonneg(ps.drop_last());
    }
}

} // verus!
