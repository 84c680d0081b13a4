//! Lightning operations: when a mint quote can be minted, when a melt can
//! be paid, and the messages and totals around them.
use vstd::prelude::*;
use vstd::string::*;
use crate::quotes::is_quote_about_to_expire;
use crate::text::{append_decimal, chars_of, contains_seq, decimal, has_infix, has_prefix, starts_with};
use crate::keyset::string_views;
use crate::types::{ProofData, TokenData};

verus! {

/// State of a mint quote (NUT-04), as the mint reports it.
#[derive(Debug, Clone, Copy, PartialEq, Eq, Structural)]
pub enum MintQuoteState {
    Unpaid,
    Paid,
    Issued,
}

/// The quote expires within the safety margin of thirty seconds (or has
/// expired).
pub open spec fn about_to_expire(expiry: Option<u64>, now: u64) -> bool {
    match expiry {
        Some(e) => now + 30 >= e,
        None => false,
    }
}

/// Checks that a mint quote can be minted: not about to expire, and paid
/// but not yet issued.
pub fn check_mint_quote_ready(quote_id: &str, expiry: Option<u64>, now: u64, state: MintQuoteState) -> (r: Result<(), String>)
    ensures
        about_to_expire(expiry, now) ==> (r matches Err(e) && e@ == "Mint quote "@ + quote_id@
            + " has expired or is expiring soon. Please create a new quote."@),
        !about_to_expire(expiry, now) && state == MintQuoteState::Issued ==> (r matches Err(e) && e@
            == "Quote has already been minted. Tokens were already issued for this payment."@),
        !about_to_expire(expiry, now) && state == MintQuoteState::Unpaid ==> (r matches Err(e) && e@
            == "Quote has not been paid yet. Please pay the lightning invoice first."@),
        !about_to_expire(expiry, now) && state == MintQuoteState::Paid ==> r is Ok,
{
    if is_quote_about_to_expire(expiry, now) {
        let mut e = String::from_str("Mint quote ");
        e.append(quote_id);
        e.append(" has expired or is expiring soon. Please create a new quote.");
        return Err(e);
    }
    match state {
        MintQuoteState::Paid => Ok(()),
        MintQuoteState::Issued => Err(
            String::from_str("Quote has already been minted. Tokens were already issued for this payment."),
        ),
        MintQuoteState::Unpaid => Err(String::from_str("Quote has not been paid yet. Please pay the lightning invoice first.")),
    }
}

/// The message shown when minting fails, from the error text: a response
/// missing its signatures asks for a new invoice.
pub open spec fn mint_failure_text(err: Seq<char>) -> Seq<char> {
    if has_infix(err, "missing field `signatures`"@) {
        "Mint returned an error. The quote has been cleaned up. Please generate a NEW invoice and try again. Error: "@ + err
    } else {
        "Failed to mint tokens: "@ + err
    }
}

/// The message shown when minting fails.
pub fn mint_failure_message(err: &str) -> (r: String)
    ensures
        r@ == mint_failure_text(err@),
{
    let cs = chars_of(err);
    let p = chars_of("missing field `signatures`");
    let mut m = if contains_seq(&cs, &p) {
        String::from_str("Mint returned an error. The quote has been cleaned up. Please generate a NEW invoice and try again. Error: ")
    } else {
        String::from_str("Failed to mint tokens: ")
    };
    m.append(err);
    m
}

/// Sum of amounts.
pub open spec fn u64_sum(xs: Seq<u64>) -> int
    decreases xs.len(),
{
    if xs.len() == 0 { 0 } else { u64_sum(xs.drop_last()) + xs.last() }
}

/// The sum of a prefix is at most the sum of the whole.
proof fn lemma_u64_sum_prefix(xs: Seq<u64>, i: int)
    requires
        0 <= i <= xs.len(),
    ensures
        u64_sum(xs.take(i)) <= u64_sum(xs),
    decreases xs.len() - i,
{
    if i < xs.len() {
        lemma_u64_sum_prefix(xs, i + 1);
        assert(xs.take(i + 1).drop_last() =~= xs.take(i));
    } else {
        assert(xs.take(i) =~= xs);
    }
}

/// Sum of amounts, if it fits in 64 bits.
pub fn checked_sum(xs: &Vec<u64>) -> (r: Option<u64>)
    ensures
        r matches Some(t) ==> t == u64_sum(xs@),
        r is None <==> u64_sum(xs@) > u64::MAX,
{
    let mut t: u64 = 0;
    for i in 0..xs.len()
        invariant
            t == u64_sum(xs@.take(i as int)),
    {
        assert(xs@.take(i + 1).drop_last() =~= xs@.take(i as int));
        match t.checked_add(xs[i]) {
            Some(x) => {
                t = x;
            },
            None => {
                proof {
                    lemma_u64_sum_prefix(xs@, i + 1);
                }
                return None;
            },
        }
    }
    assert(xs@.take(xs.len() as int) =~= xs@);
    Some(t)
}

/// The value minted, from the amounts of the new proofs.
pub fn minted_amount(amounts: &Vec<u64>) -> (r: Result<u64, String>)
    ensures
        u64_sum(amounts@) <= u64::MAX ==> r == Ok::<u64, String>(u64_sum(amounts@) as u64),
        u64_sum(amounts@) > u64::MAX ==> (r matches Err(e) && e@ == "Minted amount overflow"@),
{
    match checked_sum(amounts) {
        Some(t) => Ok(t),
        None => Err(String::from_str("Minted amount overflow")),
    }
}

/// Checks that a melt can go ahead and returns what it needs (amount plus
/// fee reserve): the quote must not be about to expire, and the mint's
/// proofs (their amounts) must cover the amount and the fee reserve.
pub fn check_melt_funds(quote_id: &str, expiry: Option<u64>, now: u64, amount: u64, fee_reserve: u64, proof_amounts: &Vec<u64>) -> (r: Result<u64, String>)
    ensures
        about_to_expire(expiry, now) ==> (r matches Err(e) && e@ == "Melt quote "@ + quote_id@
            + " has expired or is expiring soon. Please create a new quote."@),
        !about_to_expire(expiry, now) && amount + fee_reserve > u64::MAX ==> (r matches Err(e) && e@
            == "Amount + fee overflow"@),
        !about_to_expire(expiry, now) && amount + fee_reserve <= u64::MAX && proof_amounts@.len() == 0 ==> (r matches Err(
            e,
        ) && e@ == "No tokens found for this mint"@),
        !about_to_expire(expiry, now) && amount + fee_reserve <= u64::MAX && proof_amounts@.len() > 0 && u64_sum(
            proof_amounts@,
        ) > u64::MAX ==> (r matches Err(e) && e@ == "Available balance overflow"@),
        !about_to_expire(expiry, now) && amount + fee_reserve <= u64::MAX && proof_amounts@.len() > 0 && u64_sum(
            proof_amounts@,
        ) <= u64::MAX && u64_sum(proof_amounts@) < amount + fee_reserve ==> (r matches Err(e) && e@
            == "Insufficient funds. Need "@ + decimal((amount + fee_reserve) as nat) + " sats (amount: "@ + decimal(
            amount as nat,
        ) + ", fee: "@ + decimal(fee_reserve as nat) + "), have: "@ + decimal(u64_sum(proof_amounts@) as nat)
            + " sats"@),
        !about_to_expire(expiry, now) && amount + fee_reserve <= u64::MAX && proof_amounts@.len() > 0 && u64_sum(
            proof_amounts@,
        ) <= u64::MAX && u64_sum(proof_amounts@) >= amount + fee_reserve ==> r == Ok::<u64, String>(
            (amount + fee_reserve) as u64,
        ),
{
    if is_quote_about_to_expire(expiry, now) {
        let mut e = String::from_str("Melt quote ");
        e.append(quote_id);
        e.append(" has expired or is expiring soon. Please create a new quote.");
        return Err(e);
    }
    let needed = match amount.checked_add(fee_reserve) {
        Some(n) => n,
        None => {
            return Err(String::from_str("Amount + fee overflow"));
        },
    };
    if proof_amounts.len() == 0 {
        return Err(String::from_str("No tokens found for this mint"));
    }
    let total = match checked_sum(proof_amounts) {
        Some(t) => t,
        None => {
            return Err(String::from_str("Available balance overflow"));
        },
    };
    if total < needed {
        let mut e = String::from_str("Insufficient funds. Need ");
        append_decimal(&mut e, needed);
        e.append(" sats (amount: ");
        append_decimal(&mut e, amount);
        e.append(", fee: ");
        append_decimal(&mut e, fee_reserve);
        e.append("), have: ");
        append_decimal(&mut e, total);
        e.append(" sats");
        return Err(e);
    }
    Ok(needed)
}

/// The ids that are not placeholders of events still waiting to be
/// published (those starting with `pending_`), in order.
pub open spec fn published_ids(ids: Seq<Seq<char>>) -> Seq<Seq<char>>
    decreases ids.len(),
{
    if ids.len() == 0 {
        Seq::empty()
    } else {
        let rest = published_ids(ids.drop_last());
        if has_prefix(ids.last(), "pending_"@) { rest } else { rest.push(ids.last()) }
    }
}

/// Drops the ids of events still waiting to be published: a history event
/// refers only to published events.
pub fn without_pending_ids(ids: &Vec<String>) -> (r: Vec<String>)
    ensures
        string_views(r@) == published_ids(string_views(ids@)),
{
    let p = chars_of("pending_");
    let mut r: Vec<String> = Vec::new();
    for i in 0..ids.len()
        invariant
            p@ == "pending_"@,
            string_views(r@) == published_ids(string_views(ids@.take(i as int))),
    {
        assert(string_views(ids@.take(i + 1)).drop_last() =~= string_views(ids@.take(i as int)));
        assert(string_views(ids@.take(i + 1)).last() == ids@[i as int]@);
        let cs = chars_of(ids[i].as_str());
        if !starts_with(&cs, &p) {
            let ghost before = r@;
            r.push(ids[i].clone());
            assert(string_views(r@) =~= string_views(before).push(ids@[i as int]@));
        }
    }
    assert(ids@.take(ids.len() as int) =~= ids@);
    r
}

/// What an outgoing Lightning payment cost: the quote's amount plus the fee
/// paid.
pub fn melt_total(amount: u64, fee_paid: u64) -> (r: Result<u64, String>)
    ensures
        amount + fee_paid <= u64::MAX ==> r == Ok::<u64, String>((amount + fee_paid) as u64),
        amount + fee_paid > u64::MAX ==> (r matches Err(e) && e@ == "Overflow adding quote amount and fee"@),
{
    match amount.checked_add(fee_paid) {
        Some(t) => Ok(t),
        None => Err(String::from_str("Overflow adding quote amount and fee")),
    }
}

/// Checks, before a melt is retried on the proofs left after spent ones
/// were cleaned up, that they still cover what the melt needs; gives their
/// value.
pub fn check_retry_funds(fresh_amounts: &Vec<u64>, amount_needed: u64) -> (r: Result<u64, String>)
    ensures
        u64_sum(fresh_amounts@) > u64::MAX ==> (r matches Err(e) && e@ == "Fresh proofs balance overflow"@),
        u64_sum(fresh_amounts@) <= u64::MAX && u64_sum(fresh_amounts@) < amount_needed ==> (r matches Err(e) && e@
            == "Insufficient funds after cleanup. Need: "@ + decimal(amount_needed as nat) + " sats, have: "@
            + decimal(u64_sum(fresh_amounts@) as nat) + " sats"@),
        amount_needed <= u64_sum(fresh_amounts@) <= u64::MAX ==> r == Ok::<u64, String>(
            u64_sum(fresh_amounts@) as u64,
        ),
{
    let total = match checked_sum(fresh_amounts) {
        Some(t) => t,
        None => {
            return Err(String::from_str("Fresh proofs balance overflow"));
        },
    };
    if total < amount_needed {
        let mut e = String::from_str("Insufficient funds after cleanup. Need: ");
        append_decimal(&mut e, amount_needed);
        e.append(" sats, have: ");
        append_decimal(&mut e, total);
        e.append(" sats");
        return Err(e);
    }
    Ok(total)
}

/// The error of a melt that failed for a reason other than spent proofs,
/// once its quote has been dropped.
pub fn melt_failure_message(err: &str) -> (r: String)
    ensures
        r@ == "Failed to melt: "@ + err@ + ". Quote has been cleaned up."@,
{
    let mut m = String::from_str("Failed to melt: ");
    m.append(err);
    m.append(". Quote has been cleaned up.");
    m
}

/// The token that records a melt's change, once its event is published
/// (or queued): none without an event id or without change.
pub fn melt_change_token(new_event_id: &Option<String>, mint_url: &str, keep: Vec<ProofData>, now: u64) -> (r: Option<TokenData>)
    ensures
        (new_event_id is None || keep@.len() == 0) ==> r is None,
        keep@.len() > 0 ==> (new_event_id matches Some(id) ==> (r matches Some(t) && t.event_id@ == id@ && t.mint@
            == mint_url@ && t.unit@ == "sat"@ && t.proofs@ == keep@ && t.created_at == now)),
{
    match new_event_id {
        Some(id) => {
            if keep.len() == 0 {
                None
            } else {
                Some(
                    TokenData {
                        event_id: id.clone(),
                        mint: String::from_str(mint_url),
                        unit: String::from_str("sat"),
                        proofs: keep,
                        created_at: now,
                    },
                )
            }
        },
        None => None,
    }
}

} // verus!
