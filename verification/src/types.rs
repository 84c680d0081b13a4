//! Wallet data: proofs, their local states, the token events that hold
//! them, and mint URL matching.
use vstd::prelude::*;
use vstd::string::*;
use crate::text::{chars_of, lowercase_of, substring, to_lowercase};

verus! {

/// Local state of a proof.
#[derive(Debug, Clone, Copy, PartialEq, Eq, Structural, Default)]
pub enum ProofState {
    /// Spendable.
    #[default]
    Unspent,
    /// Reserved for an outgoing transaction that has not completed.
    Reserved,
    /// Handed to the mint; waiting for the spend to settle.
    PendingSpent,
    /// Spent.
    Spent,
}

impl ProofState {
    /// The state is transient: the proof is held by an operation in flight.
    pub open spec fn pending(self) -> bool {
        self is Reserved || self is PendingSpent
    }

    /// Whether the proof is held by an operation in flight.
    pub fn is_pending(&self) -> (r: bool)
        ensures
            r == self.pending(),
    {
        match self {
            ProofState::Reserved | ProofState::PendingSpent => true,
            _ => false,
        }
    }

    /// Whether the proof can be spent.
    pub fn is_spendable(&self) -> (r: bool)
        ensures
            r == (*self is Unspent),
    {
        match self {
            ProofState::Unspent => true,
            _ => false,
        }
    }
}

/// DLEQ proof of a signature (NUT-12), as hex strings.
#[derive(Debug)]
pub struct DleqData {
    pub e: String,
    pub s: String,
    pub r: String,
}

impl Clone for DleqData {
    fn clone(&self) -> (c: Self)
        ensures
            c == *self,
    {
        DleqData { e: self.e.clone(), s: self.s.clone(), r: self.r.clone() }
    }
}

/// A Cashu proof held by the wallet.
#[derive(Debug)]
pub struct ProofData {
    /// Keyset id.
    pub id: String,
    /// Value in sats.
    pub amount: u64,
    /// Secret (unique per proof).
    pub secret: String,
    /// Unblinded signature `C` (hex).
    pub c: String,
    /// Witness JSON for spending conditions.
    pub witness: Option<String>,
    /// DLEQ proof.
    pub dleq: Option<DleqData>,
    /// Local state.
    pub state: ProofState,
    /// Transaction holding the proof, if any.
    pub transaction_id: Option<u64>,
    /// When the state was last set (seconds since the epoch), if recorded.
    pub state_set_at: Option<u64>,
}

/// A copy of an optional string.
pub fn clone_opt_string(o: &Option<String>) -> (r: Option<String>)
    ensures
        r == *o,
{
    match o {
        Some(s) => Some(s.clone()),
        None => None,
    }
}

impl Clone for ProofData {
    fn clone(&self) -> (c: Self)
        ensures
            c == *self,
    {
        let dleq = match &self.dleq {
            Some(d) => Some(d.clone()),
            None => None,
        };
        ProofData {
            id: self.id.clone(),
            amount: self.amount,
            secret: self.secret.clone(),
            c: self.c.clone(),
            witness: clone_opt_string(&self.witness),
            dleq,
            state: self.state,
            transaction_id: self.transaction_id,
            state_set_at: self.state_set_at,
        }
    }
}

/// A token event of the wallet: proofs of one mint.
#[derive(Debug)]
pub struct TokenData {
    /// Event id (or a pending id before publication).
    pub event_id: String,
    /// Mint URL.
    pub mint: String,
    /// Currency unit.
    pub unit: String,
    /// Proofs.
    pub proofs: Vec<ProofData>,
    /// Creation time (seconds since the epoch).
    pub created_at: u64,
}

/// A copy of a list of proofs.
pub fn clone_proofs(v: &Vec<ProofData>) -> (r: Vec<ProofData>)
    ensures
        r@ == v@,
{
    let mut r: Vec<ProofData> = Vec::new();
    for i in 0..v.len()
        invariant
            r@ == v@.take(i as int),
    {
        r.push(v[i].clone());
        assert(r@ =~= v@.take(i + 1));
    }
    assert(v@.take(v.len() as int) =~= v@);
    r
}

impl Clone for TokenData {
    fn clone(&self) -> (c: Self)
        ensures
            c.event_id == self.event_id,
            c.mint == self.mint,
            c.unit == self.unit,
            c.proofs@ == self.proofs@,
            c.created_at == self.created_at,
    {
        TokenData {
            event_id: self.event_id.clone(),
            mint: self.mint.clone(),
            unit: self.unit.clone(),
            proofs: clone_proofs(&self.proofs),
            created_at: self.created_at,
        }
    }
}

/// `s` with every trailing `/` removed.
pub open spec fn strip_trailing_slashes(s: Seq<char>) -> Seq<char>
    decreases s.len(),
{
    if s.len() > 0 && s.last() == '/' {
        strip_trailing_slashes(s.drop_last())
    } else {
        s
    }
}

/// The form in which mint URLs are compared: trailing slashes removed,
/// then lowercased.
pub open spec fn normalized_mint(url: Seq<char>) -> Seq<char> {
    lowercase_of(strip_trailing_slashes(url))
}

/// Two mint URLs name the same mint.
pub open spec fn same_mint(a: Seq<char>, b: Seq<char>) -> bool {
    normalized_mint(a) == normalized_mint(b)
}

/// Removes trailing slashes.
fn trim_trailing_slashes(url: &str) -> (r: String)
    ensures
        r@ == strip_trailing_slashes(url@),
{
    let chars = chars_of(url);
    let mut end: usize = chars.len();
    assert(url@.subrange(0, end as int) =~= url@);
    while end > 0 && chars[end - 1] == '/'
        invariant
            end <= chars.len(),
            chars@ == url@,
            strip_trailing_slashes(url@) == strip_trailing_slashes(url@.subrange(0, end as int)),
        decreases end,
    {
        assert(url@.subrange(0, end as int).drop_last() =~= url@.subrange(0, end - 1));
        end = end - 1;
    }
    assert(strip_trailing_slashes(url@.subrange(0, end as int)) == url@.subrange(0, end as int));
    substring(url, 0, end)
}

/// Normalizes a mint URL for comparison and cache keys.
pub fn normalize_mint_url(url: &str) -> (r: String)
    ensures
        r@ == normalized_mint(url@),
{
    let stripped = trim_trailing_slashes(url);
    to_lowercase(stripped.as_str())
}

/// Whether two mint URLs name the same mint.
pub fn mint_matches(a: &str, b: &str) -> (r: bool)
    ensures
        r == same_mint(a@, b@),
{
    let na = normalize_mint_url(a);
    let nb = normalize_mint_url(b);
    na == nb
}

} // verus!
