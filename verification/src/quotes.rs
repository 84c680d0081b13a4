//! Quote lifecycle: expiry, validity, cleanup and statistics. The current
//! time is an argument (seconds since the epoch).
use vstd::prelude::*;
use vstd::string::*;
use crate::errors::CashuWalletError;
use crate::keyset::{contains_string, string_views};
use crate::text::{append_decimal, decimal};

verus! {

/// Quote validity status.
#[derive(Debug, Clone, Copy, PartialEq, Eq, Structural)]
pub enum QuoteValidity {
    /// Still valid.
    Valid,
    /// Expiring within the warning threshold.
    ExpiringSoon,
    /// Expired.
    Expired,
    /// No expiry known.
    NoExpiry,
}

/// A quote is considered expiring soon within this many seconds of expiry.
pub const WARNING_SECS: u64 = 60;

/// A quote is about to expire within this many seconds.
pub const CRITICAL_SECS: u64 = 10;

/// Quote time to live when none is given (seconds).
pub const DEFAULT_TTL_SECS: u64 = 600;

/// Safety margin before operations on a quote (seconds).
pub const QUOTE_SAFETY_MARGIN_SECS: u64 = 30;

/// A quote with an expiry has expired at `now`; one without never does.
pub open spec fn expired_at(expiry: Option<u64>, now: u64) -> bool {
    match expiry {
        Some(exp) => now >= exp,
        None => false,
    }
}

/// Whether a quote has expired.
pub fn is_quote_expired(expiry: Option<u64>, now: u64) -> (r: bool)
    ensures
        r == expired_at(expiry, now),
{
    match expiry {
        Some(exp) => now >= exp,
        None => false,
    }
}

/// Validity of a quote at `now`.
pub open spec fn validity_at(expiry: Option<u64>, now: u64) -> QuoteValidity {
    match expiry {
        Some(exp) => if now >= exp {
            QuoteValidity::Expired
        } else if exp - now <= 60 {
            QuoteValidity::ExpiringSoon
        } else {
            QuoteValidity::Valid
        },
        None => QuoteValidity::NoExpiry,
    }
}

/// Validity status of a quote.
pub fn check_quote_validity(expiry: Option<u64>, now: u64) -> (r: QuoteValidity)
    ensures
        r == validity_at(expiry, now),
{
    match expiry {
        Some(exp) => {
            if now >= exp {
                QuoteValidity::Expired
            } else if exp - now <= WARNING_SECS {
                QuoteValidity::ExpiringSoon
            } else {
                QuoteValidity::Valid
            }
        },
        None => QuoteValidity::NoExpiry,
    }
}

/// Seconds until expiry; `None` when expired or without expiry.
pub fn seconds_until_expiry(expiry: Option<u64>, now: u64) -> (r: Option<u64>)
    ensures
        r == (match expiry {
            Some(exp) => if now >= exp { None } else { Some((exp - now) as u64) },
            None => None::<u64>,
        }),
{
    match expiry {
        Some(exp) => if now >= exp { None } else { Some(exp - now) },
        None => None,
    }
}

/// Text for the time left: minutes and seconds, seconds alone, or why
/// there is no time left.
pub open spec fn expiry_text(expiry: Option<u64>, now: u64) -> Seq<char> {
    match expiry {
        Some(exp) => if now >= exp {
            "Expired"@
        } else {
            let secs = (exp - now) as nat;
            if secs >= 60 {
                decimal(secs / 60) + "m "@ + decimal(secs % 60) + "s"@
            } else {
                decimal(secs) + "s"@
            }
        },
        None => "No expiry"@,
    }
}

/// Formats the time until expiry for display.
pub fn format_expiry(expiry: Option<u64>, now: u64) -> (r: String)
    ensures
        r@ == expiry_text(expiry, now),
{
    match seconds_until_expiry(expiry, now) {
        Some(secs) => {
            let mut r = String::new();
            if secs >= 60 {
                append_decimal(&mut r, secs / 60);
                r.append("m ");
                append_decimal(&mut r, secs % 60);
                r.append("s");
            } else {
                append_decimal(&mut r, secs);
                r.append("s");
            }
            r
        },
        None => {
            if expiry.is_some() {
                String::from_str("Expired")
            } else {
                String::from_str("No expiry")
            }
        },
    }
}

/// Whether a quote expires within the safety margin.
pub fn is_quote_about_to_expire(expiry: Option<u64>, now: u64) -> (r: bool)
    ensures
        r == (match expiry {
            Some(exp) => now + 30 >= exp,
            None => false,
        }),
{
    match expiry {
        Some(exp) => exp <= QUOTE_SAFETY_MARGIN_SECS || now >= exp - QUOTE_SAFETY_MARGIN_SECS,
        None => false,
    }
}

/// Refuses an expired quote with `QuoteExpired`.
pub fn check_quote_not_expired(quote_id: &str, expiry: Option<u64>, now: u64) -> (r: Result<(), CashuWalletError>)
    ensures
        expired_at(expiry, now) <==> r is Err,
        r matches Err(e) ==> (e matches CashuWalletError::QuoteExpired { quote_id: id } && id@ == quote_id@),
{
    if is_quote_expired(expiry, now) {
        Err(CashuWalletError::QuoteExpired { quote_id: String::from_str(quote_id) })
    } else {
        Ok(())
    }
}

/// A pending mint or melt quote, as far as its lifecycle goes.
#[derive(Debug)]
pub struct PendingQuote {
    /// Quote id.
    pub quote_id: String,
    /// Expiry (seconds since the epoch), if known.
    pub expiry: Option<u64>,
}

impl Clone for PendingQuote {
    fn clone(&self) -> (r: Self)
        ensures
            r == *self,
    {
        PendingQuote { quote_id: self.quote_id.clone(), expiry: self.expiry }
    }
}

/// Ids of the quotes expired at `now`, in order.
pub open spec fn expired_ids(qs: Seq<PendingQuote>, now: u64) -> Seq<Seq<char>>
    decreases qs.len(),
{
    if qs.len() == 0 {
        Seq::empty()
    } else {
        let rest = expired_ids(qs.drop_last(), now);
        if expired_at(qs.last().expiry, now) { rest.push(qs.last().quote_id@) } else { rest }
    }
}

/// The quotes whose id is not in `ids`, in order.
pub open spec fn without_ids(qs: Seq<PendingQuote>, ids: Seq<Seq<char>>) -> Seq<PendingQuote>
    decreases qs.len(),
{
    if qs.len() == 0 {
        Seq::empty()
    } else {
        let rest = without_ids(qs.drop_last(), ids);
        if ids.contains(qs.last().quote_id@) { rest } else { rest.push(qs.last()) }
    }
}

/// Removes expired quotes (and every quote sharing an id with an expired
/// one); returns how many expired quotes there were.
pub fn cleanup_expired_quotes(quotes: &mut Vec<PendingQuote>, now: u64) -> (r: usize)
    ensures
        r == expired_ids(old(quotes)@, now).len(),
        final(quotes)@ == without_ids(old(quotes)@, expired_ids(old(quotes)@, now)),
{
    let ghost q0 = quotes@;
    let mut ids: Vec<String> = Vec::new();
    for i in 0..quotes.len()
        invariant
            quotes@ == q0,
            string_views(ids@) == expired_ids(q0.take(i as int), now),
    {
        assert(q0.take(i + 1).drop_last() =~= q0.take(i as int));
        if is_quote_expired(quotes[i].expiry, now) {
            let ghost before = ids@;
            ids.push(quotes[i].quote_id.clone());
            assert(string_views(ids@) =~= string_views(before).push(q0[i as int].quote_id@));
        }
    }
    assert(q0.take(q0.len() as int) =~= q0);
    let count = ids.len();
    if count == 0 {
        assert(expired_ids(q0, now) =~= Seq::<Seq<char>>::empty());
        assert(without_ids(q0, Seq::<Seq<char>>::empty()) == q0) by {
            lemma_without_no_ids(q0);
        }
        return 0;
    }
    let mut kept: Vec<PendingQuote> = Vec::new();
    for i in 0..quotes.len()
        invariant
            quotes@ == q0,
            kept@ == without_ids(q0.take(i as int), string_views(ids@)),
    {
        assert(q0.take(i + 1).drop_last() =~= q0.take(i as int));
        if !contains_string(&ids, &quotes[i].quote_id) {
            kept.push(quotes[i].clone());
        }
    }
    *quotes = kept;
    count
}

/// Removing no ids keeps every quote.
proof fn lemma_without_no_ids(qs: Seq<PendingQuote>)
    ensures
        without_ids(qs, Seq::<Seq<char>>::empty()) == qs,
    decreases qs.len(),
{
    if qs.len() > 0 {
        lemma_without_no_ids(qs.drop_last());
        assert(qs.drop_last().push(qs.last()) =~= qs);
    }
}

/// Removes expired mint and melt quotes; returns how many of each.
pub fn cleanup_all_expired_quotes(mint_quotes: &mut Vec<PendingQuote>, melt_quotes: &mut Vec<PendingQuote>, now: u64) -> (r: (usize, usize))
    ensures
        r.0 == expired_ids(old(mint_quotes)@, now).len(),
        r.1 == expired_ids(old(melt_quotes)@, now).len(),
        final(mint_quotes)@ == without_ids(old(mint_quotes)@, expired_ids(old(mint_quotes)@, now)),
        final(melt_quotes)@ == without_ids(old(melt_quotes)@, expired_ids(old(melt_quotes)@, now)),
{
    let a = cleanup_expired_quotes(mint_quotes, now);
    let b = cleanup_expired_quotes(melt_quotes, now);
    (a, b)
}

/// Position of the first quote with a given id.
pub open spec fn first_quote(qs: Seq<PendingQuote>, id: Seq<char>) -> Option<PendingQuote>
    decreases qs.len(),
{
    if qs.len() == 0 {
        None
    } else if qs[0].quote_id@ == id {
        Some(qs[0])
    } else {
        first_quote(qs.drop_first(), id)
    }
}

/// Finds a quote by id (the first one with that id).
pub fn find_quote(quotes: &Vec<PendingQuote>, quote_id: &str) -> (r: Option<PendingQuote>)
    ensures
        r == first_quote(quotes@, quote_id@),
{
    let key = String::from_str(quote_id);
    let mut i: usize = 0;
    assert(quotes@.skip(0) =~= quotes@);
    while i < quotes.len()
        invariant
            i <= quotes.len(),
            key@ == quote_id@,
            first_quote(quotes@, quote_id@) == first_quote(quotes@.skip(i as int), quote_id@),
        decreases quotes.len() - i,
    {
        assert(quotes@.skip(i as int)[0] == quotes@[i as int]);
        if quotes[i].quote_id == key {
            return Some(quotes[i].clone());
        }
        assert(quotes@.skip(i as int).drop_first() =~= quotes@.skip(i + 1));
        i = i + 1;
    }
    None
}

/// Whether a quote exists and has not expired.
pub fn is_quote_valid(quotes: &Vec<PendingQuote>, quote_id: &str, now: u64) -> (r: bool)
    ensures
        r == (match first_quote(quotes@, quote_id@) {
            Some(q) => !expired_at(q.expiry, now),
            None => false,
        }),
{
    match find_quote(quotes, quote_id) {
        Some(q) => !is_quote_expired(q.expiry, now),
        None => false,
    }
}

/// Number of quotes with a given validity.
pub open spec fn count_validity(qs: Seq<PendingQuote>, now: u64, v: QuoteValidity) -> nat
    decreases qs.len(),
{
    if qs.len() == 0 {
        0
    } else {
        count_validity(qs.drop_last(), now, v) + if validity_at(qs.last().expiry, now) == v { 1nat } else { 0nat }
    }
}

/// Counts the quotes with a given validity.
fn count_with_validity(quotes: &Vec<PendingQuote>, now: u64, v: QuoteValidity) -> (r: usize)
    ensures
        r == count_validity(quotes@, now, v),
{
    let mut n: usize = 0;
    for i in 0..quotes.len()
        invariant
            n == count_validity(quotes@.take(i as int), now, v),
            n <= i,
    {
        assert(quotes@.take(i + 1).drop_last() =~= quotes@.take(i as int));
        if check_quote_validity(quotes[i].expiry, now) == v {
            n = n + 1;
        }
    }
    assert(quotes@.take(quotes.len() as int) =~= quotes@);
    n
}

/// Quote statistics for display.
#[derive(Debug, Clone, Copy, PartialEq, Eq, Structural, Default)]
pub struct QuoteStats {
    pub pending_mint: usize,
    pub pending_melt: usize,
    pub expired_mint: usize,
    pub expired_melt: usize,
    pub expiring_soon_mint: usize,
    pub expiring_soon_melt: usize,
}

/// Statistics of the pending mint and melt quotes at `now`.
pub fn get_quote_stats(mint_quotes: &Vec<PendingQuote>, melt_quotes: &Vec<PendingQuote>, now: u64) -> (r: QuoteStats)
    ensures
        r.pending_mint == mint_quotes@.len(),
        r.pending_melt == melt_quotes@.len(),
        r.expired_mint == count_validity(mint_quotes@, now, QuoteValidity::Expired),
        r.expired_melt == count_validity(melt_quotes@, now, QuoteValidity::Expired),
        r.expiring_soon_mint == count_validity(mint_quotes@, now, QuoteValidity::ExpiringSoon),
        r.expiring_soon_melt == count_validity(melt_quotes@, now, QuoteValidity::ExpiringSoon),
{
    QuoteStats {
        pending_mint: mint_quotes.len(),
        pending_melt: melt_quotes.len(),
        expired_mint: count_with_validity(mint_quotes, now, QuoteValidity::Expired),
        expired_melt: count_with_validity(melt_quotes, now, QuoteValidity::Expired),
        expiring_soon_mint: count_with_validity(mint_quotes, now, QuoteValidity::ExpiringSoon),
        expiring_soon_melt: count_with_validity(melt_quotes, now, QuoteValidity::ExpiringSoon),
    }
}

/// A quote is expired exactly when its validity says so; validity and the
/// seconds left agree.
pub proof fn lemma_validity_consistent(expiry: Option<u64>, now: u64)
    ensures
        (validity_at(expiry, now) == QuoteValidity::Expired) == expired_at(expiry, now),
        (validity_at(expiry, now) == QuoteValidity::NoExpiry) == (expiry is None),
        validity_at(expiry, now) == QuoteValidity::ExpiringSoon ==> expiry->0 - now <= 60,
{
}

/// The quotes whose validity at `now` is `v`, in order.
pub open spec fn quotes_with_validity(qs: Seq<PendingQuote>, now: u64, v: QuoteValidity) -> Seq<PendingQuote> {
    qs.filter(|q: PendingQuote| validity_at(q.expiry, now) == v)
}

/// The quotes whose validity at `now` is `v`, in order.
fn select_by_validity(quotes: &Vec<PendingQuote>, now: u64, v: QuoteValidity) -> (r: Vec<PendingQuote>)
    ensures
        r@ == quotes_with_validity(quotes@, now, v),
{
    let mut r: Vec<PendingQuote> = Vec::new();
    for i in 0..quotes.len()
        invariant
            r@ == quotes_with_validity(quotes@.take(i as int), now, v),
    {
        proof {
            reveal(Seq::filter);
            assert(quotes@.take(i + 1).drop_last() =~= quotes@.take(i as int));
        }
        if check_quote_validity(quotes[i].expiry, now) == v {
            r.push(quotes[i].clone());
        }
    }
    assert(quotes@.take(quotes.len() as int) =~= quotes@);
    r
}

/// The pending quotes that have expired at `now`, in order.
pub fn get_expired_quotes(quotes: &Vec<PendingQuote>, now: u64) -> (r: Vec<PendingQuote>)
    ensures
        r@ == quotes_with_validity(quotes@, now, QuoteValidity::Expired),
{
    select_by_validity(quotes, now, QuoteValidity::Expired)
}

/// The pending quotes expiring soon (within `WARNING_SECS`), in order.
pub fn get_expiring_quotes(quotes: &Vec<PendingQuote>, now: u64) -> (r: Vec<PendingQuote>)
    ensures
        r@ == quotes_with_validity(quotes@, now, QuoteValidity::ExpiringSoon),
{
    select_by_validity(quotes, now, QuoteValidity::ExpiringSoon)
}

} // verus!
