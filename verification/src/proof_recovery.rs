//! Recovery of proofs stuck in transient states: detection, urgency,
//! wallet health, and applying the states a mint reports.
use vstd::prelude::*;
use crate::fees::sat_u64;
use crate::keyset::{contains_string, string_views};
use crate::sorting::{lemma_insert_pos_by, lemma_sort_desc_by, sort_desc_by, sorted_desc_by};
use crate::types::{ProofData, ProofState, TokenData, clone_proofs, mint_matches, same_mint};

verus! {

/// Reserved proofs are checked with the mint after this long (seconds).
pub const RESERVED_TIMEOUT_SECS: u64 = 600;

/// PendingSpent proofs are checked with the mint after this long (seconds).
pub const PENDING_SPENT_TIMEOUT_DEFAULT: u64 = 1800;

/// A transaction counts as stuck after this long (seconds).
pub const TRANSACTION_TIMEOUT_SECS: u64 = 300;

/// A proof in a transient state, with where it lives.
#[derive(Debug)]
pub struct TrackedProofState {
    /// Proof secret (unique identifier).
    pub secret: String,
    /// Current state.
    pub state: ProofState,
    /// When the state was set.
    pub state_set_at: u64,
    /// Associated transaction, if any.
    pub transaction_id: Option<u64>,
    /// Mint URL.
    pub mint_url: String,
}

/// Every proof of the tokens with its token's mint URL, token by token.
pub open spec fn token_pairs(tokens: Seq<TokenData>) -> Seq<(String, ProofData)>
    decreases tokens.len(),
{
    if tokens.len() == 0 {
        Seq::empty()
    } else {
        let t = tokens.last();
        token_pairs(tokens.drop_last()) + t.proofs@.map_values(|p: ProofData| (t.mint, p))
    }
}

/// `now - set_at`, or 0 when `set_at` is later.
pub open spec fn elapsed(now: u64, set_at: u64) -> u64 {
    if now >= set_at { (now - set_at) as u64 } else { 0 }
}

/// A proof is stuck: transient, with a recorded state time older than the timeout.
pub open spec fn is_stuck(p: ProofData, now: u64, timeout: u64) -> bool {
    p.state.pending() && p.state_set_at is Some && elapsed(now, p.state_set_at->0) > timeout
}

/// The stuck proofs among the pairs, in order.
pub open spec fn stuck_pairs(pairs: Seq<(String, ProofData)>, now: u64, timeout: u64) -> Seq<(String, ProofData)>
    decreases pairs.len(),
{
    if pairs.len() == 0 {
        Seq::empty()
    } else {
        let rest = stuck_pairs(pairs.drop_last(), now, timeout);
        if is_stuck(pairs.last().1, now, timeout) { rest.push(pairs.last()) } else { rest }
    }
}

/// The tracked state of a stuck proof.
pub open spec fn tracked_of(pair: (String, ProofData)) -> TrackedProofState {
    TrackedProofState {
        secret: pair.1.secret,
        state: pair.1.state,
        state_set_at: match pair.1.state_set_at { Some(t) => t, None => 0 },
        transaction_id: pair.1.transaction_id,
        mint_url: pair.0,
    }
}

/// Appends the pairs of one token.
fn push_pairs(t: &TokenData, out: &mut Vec<(String, ProofData)>)
    ensures
        final(out)@ == old(out)@ + t.proofs@.map_values(|p: ProofData| (t.mint, p)),
{
    let ghost start = out@;
    for k in 0..t.proofs.len()
        invariant
            out@ == start + t.proofs@.take(k as int).map_values(|p: ProofData| (t.mint, p)),
    {
        out.push((t.mint.clone(), t.proofs[k].clone()));
        assert(out@ =~= start + t.proofs@.take(k + 1).map_values(|p: ProofData| (t.mint, p)));
    }
    assert(t.proofs@.take(t.proofs.len() as int) =~= t.proofs@);
}

/// Every proof of the wallet with its mint URL.
pub fn all_token_pairs(tokens: &Vec<TokenData>) -> (r: Vec<(String, ProofData)>)
    ensures
        r@ == token_pairs(tokens@),
{
    let mut r: Vec<(String, ProofData)> = Vec::new();
    for i in 0..tokens.len()
        invariant
            r@ == token_pairs(tokens@.take(i as int)),
    {
        assert(tokens@.take(i + 1).drop_last() =~= tokens@.take(i as int));
        push_pairs(&tokens[i], &mut r);
    }
    assert(tokens@.take(tokens.len() as int) =~= tokens@);
    r
}

/// Proofs held in transient states for longer than `timeout_secs` at time
/// `now`; proofs without a recorded state time are not counted as stuck.
pub fn detect_stuck_proofs(tokens: &Vec<TokenData>, now: u64, timeout_secs: u64) -> (r: Vec<TrackedProofState>)
    ensures
        r@ == stuck_pairs(token_pairs(tokens@), now, timeout_secs).map_values(|p: (String, ProofData)| tracked_of(p)),
{
    let pairs = all_token_pairs(tokens);
    let mut r: Vec<TrackedProofState> = Vec::new();
    for i in 0..pairs.len()
        invariant
            r@ == stuck_pairs(pairs@.take(i as int), now, timeout_secs).map_values(|p: (String, ProofData)| tracked_of(p)),
    {
        assert(pairs@.take(i + 1).drop_last() =~= pairs@.take(i as int));
        let (mint, proof) = (&pairs[i].0, &pairs[i].1);
        if proof.state.is_pending() {
            let stuck = match proof.state_set_at {
                Some(set_at) => now.saturating_sub(set_at) > timeout_secs,
                None => false,
            };
            if stuck {
                let ghost before = r@;
                r.push(TrackedProofState {
                    secret: proof.secret.clone(),
                    state: proof.state,
                    state_set_at: match proof.state_set_at { Some(t) => t, None => 0 },
                    transaction_id: proof.transaction_id,
                    mint_url: mint.clone(),
                });
                assert(r@ =~= stuck_pairs(pairs@.take(i + 1), now, timeout_secs).map_values(|p: (String, ProofData)| tracked_of(p)));
            }
        }
    }
    assert(pairs@.take(pairs.len() as int) =~= pairs@);
    r
}

/// The pairs whose proof is in state `st`, in order.
pub open spec fn pairs_in_state(pairs: Seq<(String, ProofData)>, st: ProofState) -> Seq<(String, ProofData)>
    decreases pairs.len(),
{
    if pairs.len() == 0 {
        Seq::empty()
    } else {
        let rest = pairs_in_state(pairs.drop_last(), st);
        if pairs.last().1.state == st { rest.push(pairs.last()) } else { rest }
    }
}

/// The proofs in a given state, with their mint URLs.
fn find_in_state(tokens: &Vec<TokenData>, st: ProofState) -> (r: Vec<(String, ProofData)>)
    ensures
        r@ == pairs_in_state(token_pairs(tokens@), st),
{
    let pairs = all_token_pairs(tokens);
    let mut r: Vec<(String, ProofData)> = Vec::new();
    for i in 0..pairs.len()
        invariant
            r@ == pairs_in_state(pairs@.take(i as int), st),
    {
        assert(pairs@.take(i + 1).drop_last() =~= pairs@.take(i as int));
        if pairs[i].1.state == st {
            r.push((pairs[i].0.clone(), pairs[i].1.clone()));
        }
    }
    assert(pairs@.take(pairs.len() as int) =~= pairs@);
    r
}

/// Proofs in the Reserved state, with their mint URLs.
pub fn find_reserved_proofs(tokens: &Vec<TokenData>) -> (r: Vec<(String, ProofData)>)
    ensures
        r@ == pairs_in_state(token_pairs(tokens@), ProofState::Reserved),
{
    find_in_state(tokens, ProofState::Reserved)
}

/// Proofs in the PendingSpent state, with their mint URLs.
pub fn find_pending_spent_proofs(tokens: &Vec<TokenData>) -> (r: Vec<(String, ProofData)>)
    ensures
        r@ == pairs_in_state(token_pairs(tokens@), ProofState::PendingSpent),
{
    find_in_state(tokens, ProofState::PendingSpent)
}

/// Saturating sum of the amounts of pairs.
pub open spec fn pair_sum(pairs: Seq<(String, ProofData)>) -> u64
    decreases pairs.len(),
{
    if pairs.len() == 0 { 0 } else { sat_u64(pair_sum(pairs.drop_last()) + pairs.last().1.amount) }
}

/// Saturating sum of amounts.
fn sum_pairs(pairs: &Vec<(String, ProofData)>) -> (r: u64)
    ensures
        r == pair_sum(pairs@),
{
    let mut total: u64 = 0;
    for i in 0..pairs.len()
        invariant
            total == pair_sum(pairs@.take(i as int)),
    {
        assert(pairs@.take(i + 1).drop_last() =~= pairs@.take(i as int));
        total = total.saturating_add(pairs[i].1.amount);
    }
    assert(pairs@.take(pairs.len() as int) =~= pairs@);
    total
}

/// Counts and values of Reserved and PendingSpent proofs:
/// `(reserved count, reserved value, pending count, pending value)`.
pub fn get_recovery_stats(tokens: &Vec<TokenData>) -> (r: (usize, u64, usize, u64))
    ensures
        r.0 == pairs_in_state(token_pairs(tokens@), ProofState::Reserved).len(),
        r.1 == pair_sum(pairs_in_state(token_pairs(tokens@), ProofState::Reserved)),
        r.2 == pairs_in_state(token_pairs(tokens@), ProofState::PendingSpent).len(),
        r.3 == pair_sum(pairs_in_state(token_pairs(tokens@), ProofState::PendingSpent)),
{
    let reserved = find_reserved_proofs(tokens);
    let pending = find_pending_spent_proofs(tokens);
    (reserved.len(), sum_pairs(&reserved), pending.len(), sum_pairs(&pending))
}

/// Saturating sum of the amounts of spendable proofs.
pub open spec fn spendable_sum(pairs: Seq<(String, ProofData)>) -> u64
    decreases pairs.len(),
{
    if pairs.len() == 0 {
        0
    } else {
        let rest = spendable_sum(pairs.drop_last());
        if pairs.last().1.state is Unspent { sat_u64(rest + pairs.last().1.amount) } else { rest }
    }
}

/// The spendable balance of the wallet: the saturating sum of its Unspent proofs.
pub fn recalculate_balance(tokens: &Vec<TokenData>) -> (r: u64)
    ensures
        r == spendable_sum(token_pairs(tokens@)),
{
    let pairs = all_token_pairs(tokens);
    let mut total: u64 = 0;
    for i in 0..pairs.len()
        invariant
            total == spendable_sum(pairs@.take(i as int)),
    {
        assert(pairs@.take(i + 1).drop_last() =~= pairs@.take(i as int));
        if pairs[i].1.state.is_spendable() {
            total = total.saturating_add(pairs[i].1.amount);
        }
    }
    assert(pairs@.take(pairs.len() as int) =~= pairs@);
    total
}

/// Urgency level for stuck proof display.
#[derive(Debug, Clone, Copy, PartialEq, Eq, Structural)]
pub enum UrgencyLevel {
    /// Up to 5 minutes.
    Normal,
    /// 5 to 10 minutes.
    Warning,
    /// 10 to 30 minutes.
    High,
    /// Over 30 minutes.
    Critical,
}

/// The rank of an urgency level: `Normal < Warning < High < Critical`.
pub open spec fn urgency_rank(u: UrgencyLevel) -> nat {
    match u {
        UrgencyLevel::Normal => 0,
        UrgencyLevel::Warning => 1,
        UrgencyLevel::High => 2,
        UrgencyLevel::Critical => 3,
    }
}

/// The urgency of a proof stuck for `d` seconds.
pub open spec fn urgency_of(d: u64) -> UrgencyLevel {
    if d > 1800 {
        UrgencyLevel::Critical
    } else if d > 600 {
        UrgencyLevel::High
    } else if d > 300 {
        UrgencyLevel::Warning
    } else {
        UrgencyLevel::Normal
    }
}

/// Urgency level from how long a proof has been stuck.
pub fn calculate_urgency(duration_secs: u64) -> (r: UrgencyLevel)
    ensures
        r == urgency_of(duration_secs),
{
    if duration_secs > PENDING_SPENT_TIMEOUT_DEFAULT {
        UrgencyLevel::Critical
    } else if duration_secs > RESERVED_TIMEOUT_SECS {
        UrgencyLevel::High
    } else if duration_secs > TRANSACTION_TIMEOUT_SECS {
        UrgencyLevel::Warning
    } else {
        UrgencyLevel::Normal
    }
}

/// Urgency never decreases as a proof stays stuck longer.
pub proof fn lemma_urgency_monotonic(a: u64, b: u64)
    requires
        a <= b,
    ensures
        urgency_rank(urgency_of(a)) <= urgency_rank(urgency_of(b)),
{
}

/// Whether a proof may be recovered after `d` seconds in `state`.
pub open spec fn recoverable(state: ProofState, d: u64) -> bool {
    match state {
        ProofState::PendingSpent => d > 1800,
        _ => d > 600,
    }
}

/// Whether a proof can be recovered given its state and stuck duration.
pub fn can_recover_proof(state: ProofState, duration_secs: u64) -> (r: bool)
    ensures
        r == recoverable(state, duration_secs),
{
    match state {
        ProofState::PendingSpent => duration_secs > PENDING_SPENT_TIMEOUT_DEFAULT,
        _ => duration_secs > RESERVED_TIMEOUT_SECS,
    }
}

/// A stuck proof, for display.
#[derive(Debug)]
pub struct StuckProofInfo {
    pub mint_url: String,
    pub amount: u64,
    pub state: ProofState,
    pub stuck_duration_secs: u64,
    pub transaction_id: Option<u64>,
    pub urgency: UrgencyLevel,
    pub can_recover: bool,
}

impl Clone for StuckProofInfo {
    fn clone(&self) -> (r: Self)
        ensures
            r == *self,
    {
        StuckProofInfo {
            mint_url: self.mint_url.clone(),
            amount: self.amount,
            state: self.state,
            stuck_duration_secs: self.stuck_duration_secs,
            transaction_id: self.transaction_id,
            urgency: self.urgency,
            can_recover: self.can_recover,
        }
    }
}

/// Wallet health statistics for display.
#[derive(Debug)]
pub struct WalletHealthStats {
    pub spendable_balance: u64,
    pub pending_balance: u64,
    pub pending_count: usize,
    pub stuck_balance: u64,
    pub stuck_count: usize,
    pub stuck_proofs: Vec<StuckProofInfo>,
}

/// How long a proof has been in its state at `now` (0 when unrecorded).
pub open spec fn duration_of(p: ProofData, now: u64) -> u64 {
    match p.state_set_at {
        Some(t) => elapsed(now, t),
        None => 0,
    }
}

/// The display information of a stuck proof.
pub open spec fn info_of(pair: (String, ProofData), now: u64) -> StuckProofInfo {
    let d = duration_of(pair.1, now);
    StuckProofInfo {
        mint_url: pair.0,
        amount: pair.1.amount,
        state: pair.1.state,
        stuck_duration_secs: d,
        transaction_id: pair.1.transaction_id,
        urgency: urgency_of(d),
        can_recover: recoverable(pair.1.state, d),
    }
}

/// A transient proof held longer than the transaction timeout.
pub open spec fn shown_as_stuck(p: ProofData, now: u64) -> bool {
    p.state.pending() && duration_of(p, now) > 300
}

/// Display information of the stuck proofs, in wallet order.
pub open spec fn stuck_infos(pairs: Seq<(String, ProofData)>, now: u64) -> Seq<StuckProofInfo>
    decreases pairs.len(),
{
    if pairs.len() == 0 {
        Seq::empty()
    } else {
        let rest = stuck_infos(pairs.drop_last(), now);
        if shown_as_stuck(pairs.last().1, now) { rest.push(info_of(pairs.last(), now)) } else { rest }
    }
}

/// Saturating balance and count of transient proofs not yet stuck.
pub open spec fn pending_totals(pairs: Seq<(String, ProofData)>, now: u64) -> (u64, nat)
    decreases pairs.len(),
{
    if pairs.len() == 0 {
        (0, 0)
    } else {
        let (b, c) = pending_totals(pairs.drop_last(), now);
        let p = pairs.last().1;
        if p.state.pending() && !shown_as_stuck(p, now) { (sat_u64(b + p.amount), c + 1) } else { (b, c) }
    }
}

/// Plain sum of the amounts of infos.
pub open spec fn info_sum(s: Seq<StuckProofInfo>) -> int
    decreases s.len(),
{
    if s.len() == 0 { 0 } else { info_sum(s.drop_last()) + s.last().amount }
}

/// Sort key: urgency first, then amount.
pub open spec fn info_key(i: StuckProofInfo) -> int {
    urgency_rank(i.urgency) * 0x1_0000_0000_0000_0000 + i.amount
}

/// The sort key of stuck proofs.
pub open spec fn urgency_key() -> spec_fn(StuckProofInfo) -> int {
    |i: StuckProofInfo| info_key(i)
}

/// Stuck proofs by decreasing urgency, then decreasing amount, keeping the
/// wallet order among equal keys.
pub open spec fn sort_by_urgency(s: Seq<StuckProofInfo>) -> Seq<StuckProofInfo> {
    sort_desc_by(s, urgency_key())
}

/// The urgency sort orders stuck proofs by decreasing urgency, then by
/// decreasing amount, and neither loses nor adds an entry.
pub proof fn lemma_sort_by_urgency(s: Seq<StuckProofInfo>)
    ensures
        sorted_desc_by(sort_by_urgency(s), urgency_key()),
        sort_by_urgency(s).to_multiset() == s.to_multiset(),
        sort_by_urgency(s).len() == s.len(),
{
    lemma_sort_desc_by(s, urgency_key());
}

/// Sorts stuck proofs by decreasing urgency, then decreasing amount,
/// keeping the wallet order among equal keys.
fn sort_infos(v: &Vec<StuckProofInfo>) -> (r: Vec<StuckProofInfo>)
    ensures
        r@ == sort_by_urgency(v@),
{
    let mut r: Vec<StuckProofInfo> = Vec::new();
    for i in 0..v.len()
        invariant
            r@ == sort_by_urgency(v@.take(i as int)),
    {
        let x = v[i].clone();
        let xr: u8 = match x.urgency {
            UrgencyLevel::Normal => 0,
            UrgencyLevel::Warning => 1,
            UrgencyLevel::High => 2,
            UrgencyLevel::Critical => 3,
        };
        let mut j: usize = 0;
        let mut found = false;
        while j < r.len() && !found
            invariant
                j <= r.len(),
                xr == urgency_rank(x.urgency),
                forall|k: int| 0 <= k < j ==> info_key(r@[k]) >= info_key(x),
                found ==> j < r.len() && info_key(r@[j as int]) < info_key(x),
            decreases r.len() - j + (if found { 0int } else { 1int }),
        {
            let y = &r[j];
            let yr: u8 = match y.urgency {
                UrgencyLevel::Normal => 0,
                UrgencyLevel::Warning => 1,
                UrgencyLevel::High => 2,
                UrgencyLevel::Critical => 3,
            };
            if yr < xr || (yr == xr && y.amount < x.amount) {
                found = true;
            } else {
                j = j + 1;
            }
        }
        proof {
            lemma_insert_pos_by(r@, x, urgency_key(), j as int);
            assert(v@.take(i + 1).drop_last() =~= v@.take(i as int));
        }
        r.insert(j, x);
    }
    assert(v@.take(v.len() as int) =~= v@);
    r
}

/// Health statistics of the wallet at time `now`: transient proofs held for
/// at most the transaction timeout count as pending, longer ones as stuck;
/// stuck proofs are listed by decreasing urgency, then decreasing amount.
pub fn get_wallet_health_stats(tokens: &Vec<TokenData>, now: u64, spendable_balance: u64) -> (r: WalletHealthStats)
    requires
        info_sum(stuck_infos(token_pairs(tokens@), now)) <= u64::MAX,
    ensures
        r.spendable_balance == spendable_balance,
        r.pending_balance == pending_totals(token_pairs(tokens@), now).0,
        r.pending_count == pending_totals(token_pairs(tokens@), now).1,
        r.stuck_balance == info_sum(stuck_infos(token_pairs(tokens@), now)),
        r.stuck_count == stuck_infos(token_pairs(tokens@), now).len(),
        r.stuck_proofs@ == sort_by_urgency(stuck_infos(token_pairs(tokens@), now)),
{
    let pairs = all_token_pairs(tokens);
    let ghost full = stuck_infos(pairs@, now);
    let mut pending_balance: u64 = 0;
    let mut pending_count: usize = 0;
    let mut stuck_balance: u64 = 0;
    let mut stuck: Vec<StuckProofInfo> = Vec::new();
    for i in 0..pairs.len()
        invariant
            full == stuck_infos(pairs@, now),
            info_sum(full) <= u64::MAX,
            stuck@ == stuck_infos(pairs@.take(i as int), now),
            stuck_balance == info_sum(stuck@),
            (pending_balance, pending_count as nat) == pending_totals(pairs@.take(i as int), now),
            pending_count <= i,
    {
        let ghost pre = pairs@.take(i as int);
        assert(pairs@.take(i + 1).drop_last() =~= pre);
        let mint = &pairs[i].0;
        let proof = &pairs[i].1;
        if proof.state.is_pending() {
            let duration = match proof.state_set_at {
                Some(t) => now.saturating_sub(t),
                None => 0,
            };
            let urgency = calculate_urgency(duration);
            let can_recover = can_recover_proof(proof.state, duration);
            if duration > TRANSACTION_TIMEOUT_SECS {
                let info = StuckProofInfo {
                    mint_url: mint.clone(),
                    amount: proof.amount,
                    state: proof.state,
                    stuck_duration_secs: duration,
                    transaction_id: proof.transaction_id,
                    urgency,
                    can_recover,
                };
                proof {
                    let post = stuck_infos(pairs@.take(i + 1), now);
                    assert(post == stuck@.push(info));
                    assert(post.drop_last() =~= stuck@);
                    lemma_info_sum_prefix(pairs@, now, i + 1);
                }
                stuck_balance = stuck_balance + proof.amount;
                stuck.push(info);
            } else {
                pending_balance = pending_balance.saturating_add(proof.amount);
                pending_count = pending_count + 1;
            }
        }
    }
    assert(pairs@.take(pairs.len() as int) =~= pairs@);
    let stuck_count = stuck.len();
    let sorted = sort_infos(&stuck);
    WalletHealthStats {
        spendable_balance,
        pending_balance,
        pending_count,
        stuck_balance,
        stuck_count,
        stuck_proofs: sorted,
    }
}

/// The stuck infos of a prefix sum to no more than those of the whole.
proof fn lemma_info_sum_prefix(pairs: Seq<(String, ProofData)>, now: u64, i: int)
    requires
        0 <= i <= pairs.len(),
    ensures
        info_sum(stuck_infos(pairs.take(i), now)) <= info_sum(stuck_infos(pairs, now)),
    decreases pairs.len() - i,
{
    if i < pairs.len() {
        lemma_info_sum_prefix(pairs, now, i + 1);
        assert(pairs.take(i + 1).drop_last() =~= pairs.take(i));
        let a = stuck_infos(pairs.take(i), now);
        let b = stuck_infos(pairs.take(i + 1), now);
        if shown_as_stuck(pairs[i].1, now) {
            assert(b.drop_last() =~= a);
        }
    } else {
        assert(pairs.take(i) =~= pairs);
    }
}

/// Outcome of a recovery pass.
#[derive(Debug)]
pub struct ProofRecoveryResult {
    /// Number of proofs recovered.
    pub recovered_count: usize,
    /// Total value recovered.
    pub recovered_value: u64,
    /// Number of proofs confirmed spent.
    pub spent_count: usize,
    /// Value confirmed spent.
    pub spent_value: u64,
    /// Errors encountered.
    pub errors: Vec<String>,
}

impl Default for ProofRecoveryResult {
    fn default() -> (r: Self)
        ensures
            r.recovered_count == 0,
            r.recovered_value == 0,
            r.spent_count == 0,
            r.spent_value == 0,
            r.errors@.len() == 0,
    {
        ProofRecoveryResult { recovered_count: 0, recovered_value: 0, spent_count: 0, spent_value: 0, errors: Vec::new() }
    }
}

/// State of a proof as a mint reports it.
#[derive(Debug, Clone, Copy, PartialEq, Eq, Structural)]
pub enum MintProofState {
    Unspent,
    Pending,
    Spent,
    Reserved,
    PendingSpent,
}

/// A proof that was checked with the mint: secret, amount, reported state.
pub type CheckedProof = (String, u64, MintProofState);

/// Secrets of the checked proofs the mint reports in state `st`, in order.
pub open spec fn secrets_in(checked: Seq<CheckedProof>, st: MintProofState) -> Seq<Seq<char>>
    decreases checked.len(),
{
    if checked.len() == 0 {
        Seq::empty()
    } else {
        let rest = secrets_in(checked.drop_last(), st);
        if checked.last().2 == st { rest.push(checked.last().0@) } else { rest }
    }
}

/// Plain sum of the amounts of the checked proofs in state `st`.
pub open spec fn value_in(checked: Seq<CheckedProof>, st: MintProofState) -> int
    decreases checked.len(),
{
    if checked.len() == 0 {
        0
    } else {
        let rest = value_in(checked.drop_last(), st);
        if checked.last().2 == st { rest + checked.last().1 } else { rest }
    }
}

/// A proof after the mint's answer: recovered proofs become Unspent and
/// leave their transaction; spent ones become Spent.
pub open spec fn updated_proof(p: ProofData, recovered: Seq<Seq<char>>, spent: Seq<Seq<char>>) -> ProofData {
    if recovered.contains(p.secret@) {
        ProofData { state: ProofState::Unspent, transaction_id: None, ..p }
    } else if spent.contains(p.secret@) {
        ProofData { state: ProofState::Spent, ..p }
    } else {
        p
    }
}

/// The proofs of a matching token after the update: updated, then those
/// with a spent secret dropped.
pub open spec fn updated_proofs(ps: Seq<ProofData>, recovered: Seq<Seq<char>>, spent: Seq<Seq<char>>) -> Seq<ProofData>
    decreases ps.len(),
{
    if ps.len() == 0 {
        Seq::empty()
    } else {
        let rest = updated_proofs(ps.drop_last(), recovered, spent);
        let q = updated_proof(ps.last(), recovered, spent);
        if spent.contains(q.secret@) { rest } else { rest.push(q) }
    }
}

/// The wallet's tokens after applying the mint's answer for `mint`: tokens
/// of that mint get their proofs updated, and every token left without
/// proofs is dropped. Returned as (event id, mint, unit, proofs, created).
pub open spec fn updated_tokens(tokens: Seq<TokenData>, mint: Seq<char>, recovered: Seq<Seq<char>>, spent: Seq<Seq<char>>) -> Seq<(String, String, String, Seq<ProofData>, u64)>
    decreases tokens.len(),
{
    if tokens.len() == 0 {
        Seq::empty()
    } else {
        let rest = updated_tokens(tokens.drop_last(), mint, recovered, spent);
        let t = tokens.last();
        let ps = if same_mint(t.mint@, mint) { updated_proofs(t.proofs@, recovered, spent) } else { t.proofs@ };
        if ps.len() == 0 { rest } else { rest.push((t.event_id, t.mint, t.unit, ps, t.created_at)) }
    }
}

/// The fields of a token.
pub open spec fn token_fields(t: TokenData) -> (String, String, String, Seq<ProofData>, u64) {
    (t.event_id, t.mint, t.unit, t.proofs@, t.created_at)
}

/// Secrets of the checked proofs in a given state.
pub fn collect_secrets(checked: &Vec<CheckedProof>, st: MintProofState) -> (r: (Vec<String>, u64))
    requires
        value_in(checked@, st) <= u64::MAX,
    ensures
        string_views(r.0@) == secrets_in(checked@, st),
        r.1 == value_in(checked@, st),
{
    let mut secrets: Vec<String> = Vec::new();
    let mut value: u64 = 0;
    for i in 0..checked.len()
        invariant
            value_in(checked@, st) <= u64::MAX,
            string_views(secrets@) == secrets_in(checked@.take(i as int), st),
            value == value_in(checked@.take(i as int), st),
    {
        assert(checked@.take(i + 1).drop_last() =~= checked@.take(i as int));
        proof {
            lemma_value_in_prefix(checked@, st, i + 1);
        }
        if checked[i].2 == st {
            let ghost before = secrets@;
            secrets.push(checked[i].0.clone());
            assert(string_views(secrets@) =~= string_views(before).push(checked@[i as int].0@));
            value = value + checked[i].1;
        }
    }
    assert(checked@.take(checked.len() as int) =~= checked@);
    (secrets, value)
}

/// The value of a prefix is at most the value of the whole.
proof fn lemma_value_in_prefix(checked: Seq<CheckedProof>, st: MintProofState, i: int)
    requires
        0 <= i <= checked.len(),
    ensures
        value_in(checked.take(i), st) <= value_in(checked, st),
    decreases checked.len() - i,
{
    if i < checked.len() {
        lemma_value_in_prefix(checked, st, i + 1);
        assert(checked.take(i + 1).drop_last() =~= checked.take(i));
    } else {
        assert(checked.take(i) =~= checked);
    }
}

/// Applies the states a mint reported for proofs of `mint_url`: proofs it
/// reports unspent are recovered (Unspent, out of their transaction), proofs
/// it reports spent are removed, and tokens left empty are dropped. Proofs
/// it reports pending or reserved stay as they are.
pub fn apply_proof_check_results(tokens: &mut Vec<TokenData>, mint_url: &str, checked: &Vec<CheckedProof>) -> (r: ProofRecoveryResult)
    requires
        value_in(checked@, MintProofState::Unspent) <= u64::MAX,
        value_in(checked@, MintProofState::Spent) <= u64::MAX,
    ensures
        final(tokens)@.map_values(|t: TokenData| token_fields(t)) == updated_tokens(
            old(tokens)@,
            mint_url@,
            secrets_in(checked@, MintProofState::Unspent),
            secrets_in(checked@, MintProofState::Spent),
        ),
        r.recovered_count == secrets_in(checked@, MintProofState::Unspent).len(),
        r.recovered_value == value_in(checked@, MintProofState::Unspent),
        r.spent_count == secrets_in(checked@, MintProofState::Spent).len(),
        r.spent_value == value_in(checked@, MintProofState::Spent),
        r.errors@.len() == 0,
{
    let (recovered, recovered_value) = collect_secrets(checked, MintProofState::Unspent);
    let (spent, spent_value) = collect_secrets(checked, MintProofState::Spent);
    let ghost rv = string_views(recovered@);
    let ghost sv = string_views(spent@);
    let ghost old_tokens = tokens@;
    let mut out: Vec<TokenData> = Vec::new();
    for i in 0..tokens.len()
        invariant
            tokens@ == old_tokens,
            rv == string_views(recovered@),
            sv == string_views(spent@),
            out@.map_values(|t: TokenData| token_fields(t)) == updated_tokens(old_tokens.take(i as int), mint_url@, rv, sv),
    {
        assert(old_tokens.take(i + 1).drop_last() =~= old_tokens.take(i as int));
        let t = &tokens[i];
        let proofs = if mint_matches(t.mint.as_str(), mint_url) {
            let mut kept: Vec<ProofData> = Vec::new();
            for k in 0..t.proofs.len()
                invariant
                    rv == string_views(recovered@),
                    sv == string_views(spent@),
                    kept@ == updated_proofs(t.proofs@.take(k as int), rv, sv),
            {
                assert(t.proofs@.take(k + 1).drop_last() =~= t.proofs@.take(k as int));
                let mut q = t.proofs[k].clone();
                if contains_string(&recovered, &q.secret) {
                    q.state = ProofState::Unspent;
                    q.transaction_id = None;
                } else if contains_string(&spent, &q.secret) {
                    q.state = ProofState::Spent;
                }
                if !contains_string(&spent, &q.secret) {
                    kept.push(q);
                }
            }
            assert(t.proofs@.take(t.proofs.len() as int) =~= t.proofs@);
            kept
        } else {
            clone_proofs(&t.proofs)
        };
        if proofs.len() > 0 {
            let ghost before = out@;
            out.push(TokenData {
                event_id: t.event_id.clone(),
                mint: t.mint.clone(),
                unit: t.unit.clone(),
                proofs,
                created_at: t.created_at,
            });
            assert(out@.map_values(|t: TokenData| token_fields(t)) =~= before.map_values(|t: TokenData| token_fields(t)).push(
                token_fields(out@.last()),
            ));
        }
    }
    assert(old_tokens.take(old_tokens.len() as int) =~= old_tokens);
    *tokens = out;
    ProofRecoveryResult {
        recovered_count: recovered.len(),
        recovered_value,
        spent_count: spent.len(),
        spent_value,
        errors: Vec::new(),
    }
}

} // verus!
