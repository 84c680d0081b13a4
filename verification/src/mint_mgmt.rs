//! Managing mints: consolidating a mint's proofs, adding a mint, and
//! removing one with its tokens.
use vstd::prelude::*;
use vstd::string::*;
use crate::dust::{sat_sum, sum_amounts};
use crate::fees::sat_u64;
use crate::keyset::{mint_proofs, proofs_of_mint, string_views};
use crate::pagination::{batch_proofs, batch_views, chunks};
use crate::proofs::spendable;
use crate::store::get_spendable_proofs_for_mint;
use crate::strmap::StrMap;
use crate::proof_recovery::token_fields;
use crate::receive::{PublishReply, PublishVerdict};
use crate::text::{append_decimal, chars_of, contains_text, has_infix, lowercase_of, to_lowercase};
use crate::types::{ProofData, TokenData, mint_matches, normalize_mint_url, normalized_mint, same_mint};

verus! {

/// A mint with at most this many proofs needs no consolidation.
pub const CONSOLIDATION_THRESHOLD: usize = 8;

/// Proofs swapped at once when consolidating.
pub const BATCH_PROOF_SIZE: usize = 100;

/// Whether a mint's proofs are few enough to leave as they are.
pub fn is_already_optimized(proof_count: usize) -> (r: bool)
    ensures
        r == (proof_count <= CONSOLIDATION_THRESHOLD),
{
    proof_count <= CONSOLIDATION_THRESHOLD
}

/// The tokens of a mint, in order.
pub open spec fn tokens_of_mint(tokens: Seq<TokenData>, mint: Seq<char>) -> Seq<TokenData>
    decreases tokens.len(),
{
    if tokens.len() == 0 {
        Seq::empty()
    } else {
        let rest = tokens_of_mint(tokens.drop_last(), mint);
        if same_mint(tokens.last().mint@, mint) { rest.push(tokens.last()) } else { rest }
    }
}

/// Event ids of tokens.
pub open spec fn event_ids_of(ts: Seq<TokenData>) -> Seq<Seq<char>> {
    ts.map_values(|t: TokenData| t.event_id@)
}

/// The unit of the first token whose unit differs from `unit`, if any.
pub open spec fn first_other_unit(ts: Seq<TokenData>, unit: Seq<char>) -> Option<Seq<char>>
    decreases ts.len(),
{
    if ts.len() == 0 {
        None
    } else if ts[0].unit@ != unit {
        Some(ts[0].unit@)
    } else {
        first_other_unit(ts.drop_first(), unit)
    }
}

/// The tokens of a mint, with their event ids.
fn mint_tokens_and_ids(tokens: &Vec<TokenData>, mint_url: &str) -> (r: (Vec<TokenData>, Vec<String>))
    ensures
        r.0@.map_values(|t: TokenData| token_fields(t)) == tokens_of_mint(tokens@, mint_url@).map_values(
            |t: TokenData| token_fields(t),
        ),
        r.0@.len() == tokens_of_mint(tokens@, mint_url@).len(),
        forall|k: int| 0 <= k < r.0@.len() ==> token_fields(#[trigger] r.0@[k]) == token_fields(
            tokens_of_mint(tokens@, mint_url@)[k],
        ),
        string_views(r.1@) == event_ids_of(tokens_of_mint(tokens@, mint_url@)),
{
    let mut ts: Vec<TokenData> = Vec::new();
    let mut ids: Vec<String> = Vec::new();
    for i in 0..tokens.len()
        invariant
            ts@.len() == tokens_of_mint(tokens@.take(i as int), mint_url@).len(),
            forall|k: int| 0 <= k < ts@.len() ==> token_fields(#[trigger] ts@[k]) == token_fields(
                tokens_of_mint(tokens@.take(i as int), mint_url@)[k],
            ),
            string_views(ids@) == event_ids_of(tokens_of_mint(tokens@.take(i as int), mint_url@)),
    {
        assert(tokens@.take(i + 1).drop_last() =~= tokens@.take(i as int));
        if mint_matches(tokens[i].mint.as_str(), mint_url) {
            let ghost before = ids@;
            ts.push(tokens[i].clone());
            ids.push(tokens[i].event_id.clone());
            assert(string_views(ids@) =~= string_views(before).push(tokens@[i as int].event_id@));
            assert(event_ids_of(tokens_of_mint(tokens@.take(i + 1), mint_url@)) =~= event_ids_of(
                tokens_of_mint(tokens@.take(i as int), mint_url@),
            ).push(tokens@[i as int].event_id@));
        }
    }
    assert(tokens@.take(tokens.len() as int) =~= tokens@);
    assert(ts@.map_values(|t: TokenData| token_fields(t)) =~= tokens_of_mint(tokens@, mint_url@).map_values(
        |t: TokenData| token_fields(t),
    ));
    (ts, ids)
}

/// What consolidating a mint starts from: all its proofs, the event ids
/// of its tokens (to delete once replaced) and their common unit. Fails
/// when the mint has no token, or its tokens mix units.
pub fn consolidation_inputs(tokens: &Vec<TokenData>, mint_url: &str) -> (r: Result<(Vec<ProofData>, Vec<String>, String), String>)
    ensures
        ({
            let ts = tokens_of_mint(tokens@, mint_url@);
            if ts.len() == 0 {
                r matches Err(e) && e@ == "No tokens found for this mint"@
            } else if first_other_unit(ts, ts[0].unit@) is Some {
                r matches Err(e) && e@ == "Mixed units in mint proofs: '"@ + ts[0].unit@ + "' and '"@ + first_other_unit(
                    ts,
                    ts[0].unit@,
                )->0 + "' - cannot consolidate"@
            } else {
                r matches Ok((ps, ids, unit)) && ps@ == mint_proofs(tokens@, mint_url@) && string_views(ids@)
                    == event_ids_of(ts) && unit@ == ts[0].unit@
            }
        }),
{
    let (ts, ids) = mint_tokens_and_ids(tokens, mint_url);
    let ghost spec_ts = tokens_of_mint(tokens@, mint_url@);
    if ts.len() == 0 {
        return Err(String::from_str("No tokens found for this mint"));
    }
    assert(token_fields(ts@[0]) == token_fields(spec_ts[0]));
    let unit = ts[0].unit.clone();
    let mut k: usize = 0;
    assert(spec_ts.skip(0) =~= spec_ts);
    while k < ts.len()
        invariant
            k <= ts@.len(),
            ts@.len() == spec_ts.len(),
            spec_ts.len() > 0,
            spec_ts == tokens_of_mint(tokens@, mint_url@),
            unit@ == spec_ts[0].unit@,
            forall|j: int| 0 <= j < ts@.len() ==> token_fields(#[trigger] ts@[j]) == token_fields(spec_ts[j]),
            first_other_unit(spec_ts, unit@) == first_other_unit(spec_ts.skip(k as int), unit@),
        decreases ts.len() - k,
    {
        assert(token_fields(ts@[k as int]) == token_fields(spec_ts[k as int]));
        assert(spec_ts.skip(k as int)[0] == spec_ts[k as int]);
        if ts[k].unit != unit {
            let mut e = String::from_str("Mixed units in mint proofs: '");
            e.append(unit.as_str());
            e.append("' and '");
            e.append(ts[k].unit.as_str());
            e.append("' - cannot consolidate");
            return Err(e);
        }
        assert(spec_ts.skip(k as int).drop_first() =~= spec_ts.skip(k + 1));
        k = k + 1;
    }
    assert(spec_ts.skip(k as int).len() == 0);
    let ps = proofs_of_mint(tokens, mint_url);
    Ok((ps, ids, unit))
}

/// The swap batches of a consolidation: consecutive batches of
/// `BATCH_PROOF_SIZE` proofs, each with its value (saturating sum).
pub fn swap_batches(proofs: Vec<ProofData>) -> (r: Vec<(Vec<ProofData>, u64)>)
    ensures
        r@.map_values(|b: (Vec<ProofData>, u64)| b.0@) == chunks(proofs@, BATCH_PROOF_SIZE as nat),
        forall|k: int| 0 <= k < r@.len() ==> #[trigger] r@[k].1 == sat_sum(r@[k].0@),
{
    let batches = batch_proofs(proofs, BATCH_PROOF_SIZE);
    let ghost bv = batch_views(batches@);
    let mut r: Vec<(Vec<ProofData>, u64)> = Vec::new();
    let mut rest = batches;
    let mut i: usize = 0;
    let n: usize = rest.len();
    while rest.len() > 0
        invariant
            i <= n,
            n == bv.len(),
            batch_views(rest@) == bv.skip(i as int),
            r@.len() == i,
            forall|k: int| 0 <= k < i ==> (#[trigger] r@[k]).0@ == bv[k] && r@[k].1 == sat_sum(r@[k].0@),
        decreases rest.len(),
    {
        let ghost old_rest = rest@;
        let b = rest.remove(0);
        proof {
            assert(rest@ == old_rest.remove(0));
            assert(b == old_rest[0]);
            assert(batch_views(old_rest).len() == old_rest.len());
            assert(bv.skip(i as int).len() == n - i);
            assert(old_rest.len() == n - i);
            assert forall|k: int| 0 <= k < rest@.len() implies batch_views(rest@)[k] == bv.skip(i + 1)[k] by {
                assert(rest@[k] == old_rest[k + 1]);
                assert(batch_views(old_rest)[k + 1] == old_rest[k + 1]@);
                assert(bv.skip(i as int)[k + 1] == bv[i + k + 1]);
            }
            assert(batch_views(rest@) =~= bv.skip(i + 1));
            assert(batch_views(old_rest)[0] == old_rest[0]@);
            assert(b@ == bv[i as int]);
        }
        let total = sum_amounts(&b);
        r.push((b, total));
        i = i + 1;
    }
    assert(r@.map_values(|b: (Vec<ProofData>, u64)| b.0@) =~= bv);
    r
}

/// How consolidation judges a publish attempt: an error mentioning a ban,
/// an invalid or malformed event, or a size that is too large is permanent.
pub open spec fn consolidation_verdict(reply: PublishReply) -> PublishVerdict {
    match reply {
        PublishReply::Accepted => PublishVerdict::Published,
        PublishReply::AllFailed(_) => PublishVerdict::Retry,
        PublishReply::Error(e) => {
            let l = lowercase_of(e@);
            if has_infix(l, "banned"@) || has_infix(l, "invalid"@) || has_infix(l, "malformed"@) || has_infix(
                l,
                "too large"@,
            ) {
                PublishVerdict::Permanent
            } else {
                PublishVerdict::Retry
            }
        },
    }
}

/// Judges a publish attempt of a consolidated token's event.
pub fn consolidation_publish_verdict(reply: &PublishReply) -> (r: PublishVerdict)
    ensures
        r == consolidation_verdict(*reply),
{
    match reply {
        PublishReply::Accepted => PublishVerdict::Published,
        PublishReply::AllFailed(_) => PublishVerdict::Retry,
        PublishReply::Error(e) => {
            let l = to_lowercase(e.as_str());
            let lc = chars_of(l.as_str());
            if contains_text(&lc, "banned") || contains_text(&lc, "invalid") || contains_text(&lc, "malformed")
                || contains_text(&lc, "too large") {
                PublishVerdict::Permanent
            } else {
                PublishVerdict::Retry
            }
        },
    }
}

/// Some URL of `mints`, normalized, equals `url`.
pub open spec fn has_normalized(mints: Seq<Seq<char>>, url: Seq<char>) -> bool {
    exists|i: int| 0 <= i < mints.len() && normalized_mint(#[trigger] mints[i]) == url
}

/// Refuses a mint URL (already normalized) that the wallet has already.
pub fn check_mint_not_present(mint_url: &str, existing_mints: &Vec<String>) -> (r: Result<(), String>)
    ensures
        has_normalized(string_views(existing_mints@), mint_url@) <==> r is Err,
        r matches Err(e) ==> e@ == "Mint already exists in wallet"@,
{
    let target = String::from_str(mint_url);
    for i in 0..existing_mints.len()
        invariant
            target@ == mint_url@,
            forall|k: int| 0 <= k < i ==> normalized_mint(#[trigger] existing_mints@[k]@) != mint_url@,
    {
        let n = normalize_mint_url(existing_mints[i].as_str());
        if n == target {
            assert(string_views(existing_mints@)[i as int] == existing_mints@[i as int]@);
            return Err(String::from_str("Mint already exists in wallet"));
        }
    }
    assert forall|k: int| 0 <= k < string_views(existing_mints@).len() implies normalized_mint(
        #[trigger] string_views(existing_mints@)[k],
    ) != mint_url@ by {
        assert(string_views(existing_mints@)[k] == existing_mints@[k]@);
    }
    Ok(())
}

/// `true` or `false`, as text.
pub open spec fn bool_text(b: bool) -> Seq<char> {
    if b { "true"@ } else { "false"@ }
}

/// Requires a new mint to support minting (NUT-04) and melting (NUT-05).
pub fn check_required_nuts(supported_nuts: &Vec<u8>) -> (r: Result<(), String>)
    ensures
        (supported_nuts@.contains(4) && supported_nuts@.contains(5)) <==> r is Ok,
        r matches Err(e) ==> e@ == "Mint doesn't support required features. NUT-4: "@ + bool_text(
            supported_nuts@.contains(4),
        ) + ", NUT-5: "@ + bool_text(supported_nuts@.contains(5)),
{
    let mut has4 = false;
    let mut has5 = false;
    for i in 0..supported_nuts.len()
        invariant
            has4 == supported_nuts@.take(i as int).contains(4),
            has5 == supported_nuts@.take(i as int).contains(5),
    {
        proof {
            assert forall|x: u8| #[trigger] supported_nuts@.take(i + 1).contains(x) == (supported_nuts@.take(i as int).contains(x)
                || supported_nuts@[i as int] == x) by {
                if supported_nuts@.take(i + 1).contains(x) {
                    let j = choose|j: int| 0 <= j < i + 1 && #[trigger] supported_nuts@.take(i + 1)[j] == x;
                    if j < i {
                        assert(supported_nuts@.take(i as int)[j] == x);
                    }
                }
                if supported_nuts@.take(i as int).contains(x) {
                    let j = choose|j: int| 0 <= j < i && #[trigger] supported_nuts@.take(i as int)[j] == x;
                    assert(supported_nuts@.take(i + 1)[j] == x);
                }
                if supported_nuts@[i as int] == x {
                    assert(supported_nuts@.take(i + 1)[i as int] == x);
                }
            }
        }
        if supported_nuts[i] == 4 {
            has4 = true;
        }
        if supported_nuts[i] == 5 {
            has5 = true;
        }
    }
    assert(supported_nuts@.take(supported_nuts.len() as int) =~= supported_nuts@);
    if has4 && has5 {
        return Ok(());
    }
    proof {
        reveal_strlit("true");
        reveal_strlit("false");
    }
    let mut e = String::from_str("Mint doesn't support required features. NUT-4: ");
    e.append(if has4 { "true" } else { "false" });
    e.append(", NUT-5: ");
    e.append(if has5 { "true" } else { "false" });
    Err(e)
}

/// Token count, event ids and value (saturating) of a mint's tokens, as
/// removing the mint deletes them.
pub fn mint_token_summary(tokens: &Vec<TokenData>, mint_url: &str) -> (r: (Vec<String>, u64, usize))
    ensures
        string_views(r.0@) == event_ids_of(tokens_of_mint(tokens@, mint_url@)),
        r.1 == sat_sum(mint_proofs(tokens@, mint_url@)),
        r.2 == tokens_of_mint(tokens@, mint_url@).len(),
{
    let (ts, ids) = mint_tokens_and_ids(tokens, mint_url);
    let ps = proofs_of_mint(tokens, mint_url);
    let total = sum_amounts(&ps);
    (ids, total, ts.len())
}

/// The tokens of other mints, in order.
pub open spec fn tokens_not_of_mint(tokens: Seq<TokenData>, mint: Seq<char>) -> Seq<TokenData>
    decreases tokens.len(),
{
    if tokens.len() == 0 {
        Seq::empty()
    } else {
        let rest = tokens_not_of_mint(tokens.drop_last(), mint);
        if same_mint(tokens.last().mint@, mint) { rest } else { rest.push(tokens.last()) }
    }
}

/// Drops every token of a mint.
pub fn remove_mint_tokens(tokens: &mut Vec<TokenData>, mint_url: &str)
    ensures
        final(tokens)@.map_values(|t: TokenData| token_fields(t)) == tokens_not_of_mint(old(tokens)@, mint_url@).map_values(
            |t: TokenData| token_fields(t),
        ),
{
    let ghost old_tokens = tokens@;
    let mut out: Vec<TokenData> = Vec::new();
    for i in 0..tokens.len()
        invariant
            tokens@ == old_tokens,
            out@.len() == tokens_not_of_mint(old_tokens.take(i as int), mint_url@).len(),
            forall|k: int| 0 <= k < out@.len() ==> token_fields(#[trigger] out@[k]) == token_fields(
                tokens_not_of_mint(old_tokens.take(i as int), mint_url@)[k],
            ),
    {
        assert(old_tokens.take(i + 1).drop_last() =~= old_tokens.take(i as int));
        if !mint_matches(tokens[i].mint.as_str(), mint_url) {
            out.push(tokens[i].clone());
        }
    }
    assert(old_tokens.take(old_tokens.len() as int) =~= old_tokens);
    assert(out@.map_values(|t: TokenData| token_fields(t)) =~= tokens_not_of_mint(old_tokens, mint_url@).map_values(
        |t: TokenData| token_fields(t),
    ));
    *tokens = out;
}

/// The mint URLs that do not name the given mint, in order.
pub open spec fn other_mints(mints: Seq<Seq<char>>, mint: Seq<char>) -> Seq<Seq<char>>
    decreases mints.len(),
{
    if mints.len() == 0 {
        Seq::empty()
    } else {
        let rest = other_mints(mints.drop_last(), mint);
        if same_mint(mints.last(), mint) { rest } else { rest.push(mints.last()) }
    }
}

/// The wallet's mint list without a mint.
pub fn remove_mint_from_list(mints: &Vec<String>, mint_url: &str) -> (r: Vec<String>)
    ensures
        string_views(r@) == other_mints(string_views(mints@), mint_url@),
{
    let mut r: Vec<String> = Vec::new();
    for i in 0..mints.len()
        invariant
            string_views(r@) == other_mints(string_views(mints@.take(i as int)), mint_url@),
    {
        assert(string_views(mints@.take(i + 1)).drop_last() =~= string_views(mints@.take(i as int)));
        assert(string_views(mints@.take(i + 1)).last() == mints@[i as int]@);
        if !mint_matches(mints[i].as_str(), mint_url) {
            let ghost before = r@;
            r.push(mints[i].clone());
            assert(string_views(r@) =~= string_views(before).push(mints@[i as int]@));
        }
    }
    assert(mints@.take(mints.len() as int) =~= mints@);
    r
}


/// Saturating sum of the proof amounts of a mint, whatever their state.
pub fn get_mint_balance(tokens: &Vec<TokenData>, mint_url: &str) -> (r: u64)
    ensures
        r == sat_sum(mint_proofs(tokens@, mint_url@)),
{
    let ps = proofs_of_mint(tokens, mint_url);
    sum_amounts(&ps)
}

/// Saturating sum of the spendable proof amounts of a mint.
pub fn get_mint_spendable_balance(tokens: &Vec<TokenData>, mint_url: &str) -> (r: u64)
    ensures
        r == sat_sum(spendable(mint_proofs(tokens@, mint_url@))),
{
    let ps = get_spendable_proofs_for_mint(tokens, mint_url);
    sum_amounts(&ps)
}

/// The tokens of `tokens` in `unit`, in order.
pub open spec fn tokens_in_unit(tokens: Seq<TokenData>, unit: Seq<char>) -> Seq<TokenData>
    decreases tokens.len(),
{
    if tokens.len() == 0 {
        Seq::empty()
    } else {
        let rest = tokens_in_unit(tokens.drop_last(), unit);
        if tokens.last().unit@ == unit { rest.push(tokens.last()) } else { rest }
    }
}

/// Saturating sum of the spendable proof amounts of a mint in one unit.
pub fn get_mint_unit_spendable_balance(tokens: &Vec<TokenData>, mint_url: &str, unit: &str) -> (r: u64)
    ensures
        r == sat_sum(spendable(mint_proofs(tokens_in_unit(tokens@, unit@), mint_url@))),
{
    let mut ps: Vec<ProofData> = Vec::new();
    let u = String::from_str(unit);
    for i in 0..tokens.len()
        invariant
            u@ == unit@,
            ps@ == spendable(mint_proofs(tokens_in_unit(tokens@.take(i as int), unit@), mint_url@)),
    {
        let ghost sel = tokens_in_unit(tokens@.take(i as int), unit@);
        assert(tokens@.take(i + 1).drop_last() =~= tokens@.take(i as int));
        if tokens[i].unit == u && mint_matches(tokens[i].mint.as_str(), mint_url) {
            let pv = &tokens[i].proofs;
            let ghost start = ps@;
            assert(tokens_in_unit(tokens@.take(i + 1), unit@) == sel.push(tokens[i as int]));
            assert(sel.push(tokens[i as int]).drop_last() =~= sel);
            for k in 0..pv.len()
                invariant
                    ps@ == start + spendable(pv@.take(k as int)),
            {
                assert(pv@.take(k + 1).drop_last() =~= pv@.take(k as int));
                if pv[k].state.is_spendable() {
                    ps.push(pv[k].clone());
                    assert(ps@ =~= start + spendable(pv@.take(k + 1)));
                } else {
                    assert(spendable(pv@.take(k + 1)) == spendable(pv@.take(k as int)));
                }
            }
            assert(pv@.take(pv.len() as int) =~= pv@);
            proof {
                lemma_spendable_append(mint_proofs(sel, mint_url@), pv@);
            }
        } else if tokens[i].unit == u {
            let ghost sel1 = sel.push(tokens[i as int]);
            assert(tokens_in_unit(tokens@.take(i + 1), unit@) == sel1);
            assert(sel1.drop_last() =~= sel);
        }
    }
    assert(tokens@.take(tokens.len() as int) =~= tokens@);
    sum_amounts(&ps)
}

/// The spendable proofs of two lists are those of the first, then those
/// of the second.
pub proof fn lemma_spendable_append(a: Seq<ProofData>, b: Seq<ProofData>)
    ensures
        spendable(a + b) == spendable(a) + spendable(b),
    decreases b.len(),
{
    if b.len() == 0 {
        assert(a + b =~= a);
        assert(spendable(a) + spendable(b) =~= spendable(a));
    } else {
        lemma_spendable_append(a, b.drop_last());
        assert((a + b).drop_last() =~= a + b.drop_last());
        if b.last().state is Unspent {
            assert(spendable(a) + spendable(b) =~= (spendable(a) + spendable(b.drop_last())).push(b.last()));
        }
    }
}

/// `x` capped at `usize::MAX`.
pub open spec fn sat_usize(x: int) -> usize {
    if x > usize::MAX { usize::MAX } else { x as usize }
}

/// Number of proofs of a mint, counted token by token with saturation.
pub open spec fn mint_proof_count(tokens: Seq<TokenData>, mint: Seq<char>) -> usize
    decreases tokens.len(),
{
    if tokens.len() == 0 {
        0
    } else {
        let rest = mint_proof_count(tokens.drop_last(), mint);
        if same_mint(tokens.last().mint@, mint) {
            sat_usize(rest + tokens.last().proofs@.len())
        } else {
            rest
        }
    }
}

/// Number of proofs of all tokens, counted token by token with saturation.
pub open spec fn total_proof_count(tokens: Seq<TokenData>) -> usize
    decreases tokens.len(),
{
    if tokens.len() == 0 {
        0
    } else {
        sat_usize(total_proof_count(tokens.drop_last()) + tokens.last().proofs@.len())
    }
}

/// The number of proofs of a mint.
pub fn get_mint_proof_count(tokens: &Vec<TokenData>, mint_url: &str) -> (r: usize)
    ensures
        r == mint_proof_count(tokens@, mint_url@),
{
    let mut n: usize = 0;
    for i in 0..tokens.len()
        invariant
            n == mint_proof_count(tokens@.take(i as int), mint_url@),
    {
        assert(tokens@.take(i + 1).drop_last() =~= tokens@.take(i as int));
        if mint_matches(tokens[i].mint.as_str(), mint_url) {
            n = n.saturating_add(tokens[i].proofs.len());
        }
    }
    assert(tokens@.take(tokens.len() as int) =~= tokens@);
    n
}

/// The number of proofs over all mints.
pub fn get_total_proof_count(tokens: &Vec<TokenData>) -> (r: usize)
    ensures
        r == total_proof_count(tokens@),
{
    let mut n: usize = 0;
    for i in 0..tokens.len()
        invariant
            n == total_proof_count(tokens@.take(i as int)),
    {
        assert(tokens@.take(i + 1).drop_last() =~= tokens@.take(i as int));
        n = n.saturating_add(tokens[i].proofs.len());
    }
    assert(tokens@.take(tokens.len() as int) =~= tokens@);
    n
}

/// An ASCII hexadecimal digit.
pub open spec fn is_hex_char(c: char) -> bool {
    ('0' <= c && c <= '9') || ('a' <= c && c <= 'f') || ('A' <= c && c <= 'F')
}

/// The keyset id of a proof: its id, where that is 14 or 64 hexadecimal
/// characters.
pub open spec fn keyset_id_of(id: Seq<char>) -> Option<Seq<char>> {
    if (id.len() == 14 || id.len() == 64) && forall|i: int| 0 <= i < id.len() ==> is_hex_char(#[trigger] id[i]) {
        Some(id)
    } else {
        None
    }
}

/// The keyset id of a proof, where its id has the form of one.
pub fn extract_keyset_id_from_proof(proof: &ProofData) -> (r: Option<String>)
    ensures
        r matches Some(s) ==> keyset_id_of(proof.id@) == Some(s@),
        r is None ==> keyset_id_of(proof.id@) is None,
{
    let cs = chars_of(proof.id.as_str());
    let n = cs.len();
    if n != 14 && n != 64 {
        return None;
    }
    let mut i: usize = 0;
    while i < n
        invariant
            cs@ == proof.id@,
            n == cs@.len(),
            i <= n,
            forall|j: int| 0 <= j < i ==> is_hex_char(#[trigger] cs@[j]),
        decreases n - i,
    {
        let c = cs[i];
        if !(('0' <= c && c <= '9') || ('a' <= c && c <= 'f') || ('A' <= c && c <= 'F')) {
            return None;
        }
        i = i + 1;
    }
    Some(proof.id.clone())
}

/// A keyset id that a new mint shares with a mint already known.
#[derive(Debug, Clone)]
pub struct KeysetCollision {
    pub keyset_id: String,
    pub existing_mint: String,
    pub new_mint: String,
}

/// Owners after a mint claims keyset ids, each claim replacing an earlier one.
pub open spec fn ids_owned(m: Map<Seq<char>, String>, ids: Seq<String>, mint: String) -> Map<Seq<char>, String>
    decreases ids.len(),
{
    if ids.len() == 0 {
        m
    } else {
        ids_owned(m, ids.drop_last(), mint).insert(ids.last()@, mint)
    }
}

/// Keyset owners from the keysets that the wallets of the known mints
/// report, a later wallet replacing an earlier one.
pub open spec fn wallet_owners(ws: Seq<(String, Vec<String>)>) -> Map<Seq<char>, String>
    decreases ws.len(),
{
    if ws.len() == 0 {
        Map::empty()
    } else {
        ids_owned(wallet_owners(ws.drop_last()), ws.last().1@, ws.last().0)
    }
}

/// Owners after a token's proofs claim the keyset ids of their ids that
/// have no owner yet.
pub open spec fn proofs_claim(m: Map<Seq<char>, String>, ps: Seq<ProofData>, mint: String) -> Map<Seq<char>, String>
    decreases ps.len(),
{
    if ps.len() == 0 {
        m
    } else {
        let m1 = proofs_claim(m, ps.drop_last(), mint);
        match keyset_id_of(ps.last().id@) {
            Some(id) => if m1.contains_key(id) { m1 } else { m1.insert(id, mint) },
            None => m1,
        }
    }
}

/// Owners after the stored tokens claim their keyset ids, token by token.
pub open spec fn token_owners(m: Map<Seq<char>, String>, tokens: Seq<TokenData>) -> Map<Seq<char>, String>
    decreases tokens.len(),
{
    if tokens.len() == 0 {
        m
    } else {
        proofs_claim(token_owners(m, tokens.drop_last()), tokens.last().proofs@, tokens.last().mint)
    }
}

/// Which mint owns each keyset id already known to the wallet: first the
/// keysets that the known mints' wallets report, then the keyset ids of
/// stored proofs that no wallet reported.
pub fn keyset_owners(wallet_keysets: &Vec<(String, Vec<String>)>, tokens: &Vec<TokenData>) -> (r: StrMap<String>)
    ensures
        r.wf(),
        r@ == token_owners(wallet_owners(wallet_keysets@), tokens@),
{
    let mut owners: StrMap<String> = StrMap::new();
    for i in 0..wallet_keysets.len()
        invariant
            owners.wf(),
            owners@ == wallet_owners(wallet_keysets@.take(i as int)),
    {
        assert(wallet_keysets@.take(i + 1).drop_last() =~= wallet_keysets@.take(i as int));
        let mint = &wallet_keysets[i].0;
        let ids = &wallet_keysets[i].1;
        let ghost base = owners@;
        for j in 0..ids.len()
            invariant
                owners.wf(),
                owners@ == ids_owned(base, ids@.take(j as int), *mint),
        {
            assert(ids@.take(j + 1).drop_last() =~= ids@.take(j as int));
            owners.insert(ids[j].as_str(), mint.clone());
        }
        assert(ids@.take(ids.len() as int) =~= ids@);
    }
    assert(wallet_keysets@.take(wallet_keysets.len() as int) =~= wallet_keysets@);
    let ghost w = owners@;
    for i in 0..tokens.len()
        invariant
            owners.wf(),
            owners@ == token_owners(w, tokens@.take(i as int)),
    {
        assert(tokens@.take(i + 1).drop_last() =~= tokens@.take(i as int));
        let ps = &tokens[i].proofs;
        let tmint = &tokens[i].mint;
        let ghost base = owners@;
        for j in 0..ps.len()
            invariant
                owners.wf(),
                owners@ == proofs_claim(base, ps@.take(j as int), *tmint),
        {
            assert(ps@.take(j + 1).drop_last() =~= ps@.take(j as int));
            match extract_keyset_id_from_proof(&ps[j]) {
                Some(id) => {
                    if !owners.contains_key(id.as_str()) {
                        owners.insert(id.as_str(), tmint.clone());
                    }
                },
                None => {},
            }
        }
        assert(ps@.take(ps.len() as int) =~= ps@);
    }
    assert(tokens@.take(tokens.len() as int) =~= tokens@);
    owners
}

/// The collisions of a new mint's keyset ids with known owners: each id,
/// in order, whose owner is a mint other than the new one (compared as
/// given), with that owner.
pub open spec fn collisions(owners: Map<Seq<char>, String>, new_mint: Seq<char>, ids: Seq<String>) -> Seq<
    (Seq<char>, Seq<char>),
>
    decreases ids.len(),
{
    if ids.len() == 0 {
        Seq::empty()
    } else {
        let rest = collisions(owners, new_mint, ids.drop_last());
        let id = ids.last()@;
        if owners.contains_key(id) && owners[id]@ != new_mint {
            rest.push((id, owners[id]@))
        } else {
            rest
        }
    }
}

/// The ids and existing mints of a list of collisions.
pub open spec fn collision_views(v: Seq<KeysetCollision>) -> Seq<(Seq<char>, Seq<char>)> {
    v.map_values(|c: KeysetCollision| (c.keyset_id@, c.existing_mint@))
}

/// The keyset ids of a new mint that a known mint already owns.
pub fn find_keyset_collisions(owners: &StrMap<String>, new_mint_url: &str, new_keyset_ids: &Vec<String>) -> (r: Vec<
    KeysetCollision,
>)
    requires
        owners.wf(),
    ensures
        collision_views(r@) == collisions(owners@, new_mint_url@, new_keyset_ids@),
        forall|i: int| 0 <= i < r@.len() ==> #[trigger] r@[i].new_mint@ == new_mint_url@,
{
    let mut r: Vec<KeysetCollision> = Vec::new();
    let new_mint = String::from_str(new_mint_url);
    for i in 0..new_keyset_ids.len()
        invariant
            owners.wf(),
            new_mint@ == new_mint_url@,
            collision_views(r@) == collisions(owners@, new_mint_url@, new_keyset_ids@.take(i as int)),
            forall|k: int| 0 <= k < r@.len() ==> #[trigger] r@[k].new_mint@ == new_mint_url@,
    {
        assert(new_keyset_ids@.take(i + 1).drop_last() =~= new_keyset_ids@.take(i as int));
        let id = &new_keyset_ids[i];
        match owners.get(id.as_str()) {
            Some(existing) => {
                if *existing != new_mint {
                    let ghost before = r@;
                    r.push(KeysetCollision { keyset_id: id.clone(), existing_mint: existing.clone(), new_mint: new_mint.clone() });
                    assert(collision_views(r@) =~= collision_views(before).push((id@, existing@)));
                }
            },
            None => {},
        }
    }
    assert(new_keyset_ids@.take(new_keyset_ids.len() as int) =~= new_keyset_ids@);
    r
}

} // verus!
