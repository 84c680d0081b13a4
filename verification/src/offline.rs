//! Tokens received while offline: kept until the wallet is back online,
//! then redeemed, each dropped once redeemed.
use vstd::prelude::*;

verus! {

/// A token kept for redemption once online.
#[derive(Debug, Clone)]
pub struct PendingOfflineToken {
    /// Identifier of the kept token.
    pub id: String,
    /// The token, encoded.
    pub token_string: String,
    /// The mint it is from.
    pub mint_url: String,
    /// Its value (sats).
    pub value: u64,
    /// When it was kept (milliseconds).
    pub stored_at: u64,
}

/// Keeps a token for later redemption.
pub fn store_offline_token(tokens: &mut Vec<PendingOfflineToken>, token: PendingOfflineToken)
    ensures
        final(tokens)@ == old(tokens)@.push(token),
{
    tokens.push(token);
}

/// The kept tokens other than `id`, in order.
pub open spec fn without_offline_token(ts: Seq<PendingOfflineToken>, id: Seq<char>) -> Seq<PendingOfflineToken> {
    ts.filter(|t: PendingOfflineToken| t.id@ != id)
}

/// Drops the kept token `id` once redeemed.
pub fn remove_offline_token(tokens: &mut Vec<PendingOfflineToken>, id: &str)
    ensures
        final(tokens)@ == without_offline_token(old(tokens)@, id@),
{
    let ghost orig = tokens@;
    let key = String::from_str(id);
    let mut rest: Vec<PendingOfflineToken> = Vec::new();
    std::mem::swap(&mut rest, tokens);
    let ghost n = rest@.len();
    while rest.len() > 0
        invariant
            key@ == id@,
            n == orig.len(),
            rest@.len() <= n,
            rest@ == orig.subrange(n - rest@.len(), n as int),
            tokens@ == without_offline_token(orig.subrange(0, n - rest@.len()), id@),
        decreases rest@.len(),
    {
        let ghost k = n - rest@.len();
        let t = rest.remove(0);
        assert(orig.subrange(0, k + 1).drop_last() =~= orig.subrange(0, k));
        assert(orig.subrange(0, k + 1).last() == t);
        assert(rest@ =~= orig.subrange(k + 1, n as int));
        proof {
            reveal(Seq::filter);
        }
        if t.id != key {
            tokens.push(t);
        }
    }
    assert(orig.subrange(0, n as int) =~= orig);
}

/// Whether the kept tokens are redeemed now: when the wallet has just
/// come back online.
pub fn should_redeem_offline_tokens(was_online: bool, is_online: bool) -> (r: bool)
    ensures
        r == (!was_online && is_online),
{
    !was_online && is_online
}

} // verus!
