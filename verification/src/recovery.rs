//! Recovery and sync with the mints: what a NUT-07 state check of the
//! wallet's proofs changes, what to do with pending transactions and
//! in-flight melts after a restart, which proofs kept by the Cashu
//! library are missing from the wallet, and the summaries reported.
use vstd::prelude::*;
use crate::keyset::string_views;
use crate::lightning::MintQuoteState;
use crate::proof_recovery::{CheckedProof, MintProofState, secrets_in, value_in};
use crate::strmap::StrMap;
use crate::text::{append_decimal, decimal};
use crate::quotes::{PendingQuote, cleanup_expired_quotes, expired_ids, without_ids};
use crate::transactions::{ActiveTransaction, TransactionType};
use crate::types::{ProofData, TokenData, normalize_mint_url, normalized_mint};
use crate::wallet_init::opt_text;

verus! {

/// Proofs checked with a mint at a time.
pub const MAX_SYNC_INPUT_SIZE: usize = 200;

/// Attempts at taking a mint's lock before a sync gives up.
pub const MAX_LOCK_ATTEMPTS: u32 = 3;

/// What a state check with a mint found.
#[derive(Debug, Clone, Copy, PartialEq, Eq, Default)]
pub struct SyncResult {
    /// Proofs the mint reports spent.
    pub spent_found: usize,
    /// Proofs checked.
    pub proofs_cleaned: usize,
    /// Value of the spent proofs.
    pub sats_cleaned: u64,
    /// Proofs the mint holds as pending.
    pub pending_found: usize,
}

/// The wait before the next attempt at a busy mint's lock, after the
/// attempt numbered `attempt` (from 0) failed: 100 ms, doubling; none
/// after the last attempt.
pub fn lock_retry_delay_ms(attempt: u32) -> (r: Option<u32>)
    ensures
        attempt == 0 ==> r == Some(100u32),
        attempt == 1 ==> r == Some(200u32),
        attempt >= 2 ==> r is None,
{
    if attempt == 0 {
        Some(100)
    } else if attempt == 1 {
        Some(200)
    } else {
        None
    }
}

/// A state check in progress, as plain values: the pending-at-mint map,
/// the secrets to mark spent and to return to spendable, and the counts.
pub ghost struct SyncFold {
    pub pending: Map<Seq<char>, u64>,
    pub spent: Seq<Seq<char>>,
    pub revert: Seq<Seq<char>>,
    pub spent_found: nat,
    pub sats: nat,
    pub pending_found: nat,
}

/// One proof's state as the mint reports it, applied: a spent proof is
/// marked spent (and no longer pending at the mint); a pending one is
/// recorded as pending at the mint (`now`) unless it already is; an
/// unspent one that was pending at the mint failed its payment and returns
/// to spendable; a reserved one returns to spendable unless a transaction
/// holds it.
pub open spec fn sync_step(f: SyncFold, p: ProofData, st: MintProofState, now: u64) -> SyncFold {
    let s = p.secret@;
    match st {
        MintProofState::Spent => SyncFold {
            pending: f.pending.remove(s),
            spent: f.spent.push(s),
            spent_found: f.spent_found + 1,
            sats: f.sats + p.amount as nat,
            ..f
        },
        MintProofState::Pending | MintProofState::PendingSpent => SyncFold {
            pending: if f.pending.contains_key(s) { f.pending } else { f.pending.insert(s, now) },
            pending_found: f.pending_found + 1,
            ..f
        },
        MintProofState::Unspent => if f.pending.contains_key(s) {
            SyncFold { pending: f.pending.remove(s), revert: f.revert.push(s), ..f }
        } else {
            f
        },
        MintProofState::Reserved => if p.transaction_id is None {
            SyncFold { revert: f.revert.push(s), ..f }
        } else {
            f
        },
    }
}

/// The first `n` proofs of a batch, each with the state at the same place,
/// applied in order.
pub open spec fn sync_fold(pending: Map<Seq<char>, u64>, batch: Seq<ProofData>, states: Seq<MintProofState>, n: nat, now: u64) -> SyncFold
    decreases n,
{
    if n == 0 {
        SyncFold { pending, spent: Seq::empty(), revert: Seq::empty(), spent_found: 0, sats: 0, pending_found: 0 }
    } else {
        sync_step(sync_fold(pending, batch, states, (n - 1) as nat, now), batch[n - 1], states[n - 1], now)
    }
}

/// Proofs paired with a state: as many as the shorter list holds.
pub open spec fn paired(batch: Seq<ProofData>, states: Seq<MintProofState>) -> nat {
    if batch.len() <= states.len() { batch.len() } else { states.len() }
}

/// What applying a batch's states gives besides the pending map.
#[derive(Debug)]
pub struct SyncOutcome {
    /// Secrets to mark spent, in order.
    pub spent: Vec<String>,
    /// Secrets to return to spendable, in order.
    pub revert: Vec<String>,
    /// The counts of the check.
    pub result: SyncResult,
}

/// Each count of a state check, bounded.
proof fn lemma_fold_counts(pending: Map<Seq<char>, u64>, batch: Seq<ProofData>, states: Seq<MintProofState>, n: nat, now: u64)
    ensures
        sync_fold(pending, batch, states, n, now).spent_found <= n,
        sync_fold(pending, batch, states, n, now).pending_found <= n,
    decreases n,
{
    if n > 0 {
        lemma_fold_counts(pending, batch, states, (n - 1) as nat, now);
    }
}

/// The value of the spent proofs found so far grows with the batch.
proof fn lemma_fold_sats_grow(pending: Map<Seq<char>, u64>, batch: Seq<ProofData>, states: Seq<MintProofState>, i: nat, n: nat, now: u64)
    requires
        i <= n,
    ensures
        sync_fold(pending, batch, states, i, now).sats <= sync_fold(pending, batch, states, n, now).sats,
    decreases n - i,
{
    if i < n {
        lemma_fold_sats_grow(pending, batch, states, i, (n - 1) as nat, now);
    }
}

/// Applies the states a mint reported for a batch of proofs (the i-th
/// state to the i-th proof, as far as both go): updates the map of proofs
/// pending at the mint and gives the secrets to mark spent and to return
/// to spendable, with the counts; every state reported counts as checked.
pub fn sync_batch(pending: &mut StrMap<u64>, batch: &Vec<ProofData>, states: &Vec<MintProofState>, now: u64) -> (r: SyncOutcome)
    requires
        old(pending).wf(),
        sync_fold(old(pending).view(), batch@, states@, paired(batch@, states@), now).sats <= u64::MAX,
    ensures
        final(pending).wf(),
        ({
            let f = sync_fold(old(pending).view(), batch@, states@, paired(batch@, states@), now);
            &&& final(pending).view() == f.pending
            &&& string_views(r.spent@) == f.spent
            &&& string_views(r.revert@) == f.revert
            &&& r.result.spent_found == f.spent_found
            &&& r.result.sats_cleaned == f.sats
            &&& r.result.pending_found == f.pending_found
            &&& r.result.proofs_cleaned == states@.len()
        }),
{
    let n: usize = if batch.len() <= states.len() { batch.len() } else { states.len() };
    let ghost p0 = pending.view();
    let ghost total = sync_fold(p0, batch@, states@, n as nat, now).sats;
    let mut spent: Vec<String> = Vec::new();
    let mut revert: Vec<String> = Vec::new();
    let mut spent_found: usize = 0;
    let mut sats: u64 = 0;
    let mut pending_found: usize = 0;
    for i in 0..n
        invariant
            n <= batch.len(),
            n <= states.len(),
            total == sync_fold(p0, batch@, states@, n as nat, now).sats,
            total <= u64::MAX,
            pending.wf(),
            ({
                let f = sync_fold(p0, batch@, states@, i as nat, now);
                &&& pending.view() == f.pending
                &&& string_views(spent@) == f.spent
                &&& string_views(revert@) == f.revert
                &&& spent_found == f.spent_found
                &&& sats == f.sats
                &&& pending_found == f.pending_found
            }),
    {
        proof {
            lemma_fold_counts(p0, batch@, states@, (i + 1) as nat, now);
            lemma_fold_sats_grow(p0, batch@, states@, (i + 1) as nat, n as nat, now);
        }
        let p = &batch[i];
        let s = p.secret.as_str();
        let ghost f = sync_fold(p0, batch@, states@, i as nat, now);
        match states[i] {
            MintProofState::Spent => {
                let ghost before = spent@;
                spent.push(p.secret.clone());
                assert(string_views(spent@) =~= string_views(before).push(p.secret@));
                spent_found = spent_found + 1;
                sats = sats + p.amount;
                pending.remove(s);
            },
            MintProofState::Pending | MintProofState::PendingSpent => {
                pending_found = pending_found + 1;
                if !pending.contains_key(s) {
                    pending.insert(s, now);
                }
            },
            MintProofState::Unspent => {
                if pending.contains_key(s) {
                    pending.remove(s);
                    let ghost before = revert@;
                    revert.push(p.secret.clone());
                    assert(string_views(revert@) =~= string_views(before).push(p.secret@));
                }
            },
            MintProofState::Reserved => {
                if p.transaction_id.is_none() {
                    let ghost before = revert@;
                    revert.push(p.secret.clone());
                    assert(string_views(revert@) =~= string_views(before).push(p.secret@));
                }
            },
        }
    }
    SyncOutcome {
        spent,
        revert,
        result: SyncResult { spent_found, proofs_cleaned: states.len(), sats_cleaned: sats, pending_found },
    }
}

/// Adds one mint's check to the totals of a check of all mints.
pub fn add_sync_result(total: SyncResult, r: SyncResult) -> (t: SyncResult)
    requires
        total.spent_found + r.spent_found <= usize::MAX,
        total.proofs_cleaned + r.proofs_cleaned <= usize::MAX,
        total.sats_cleaned + r.sats_cleaned <= u64::MAX,
        total.pending_found + r.pending_found <= usize::MAX,
    ensures
        t.spent_found == total.spent_found + r.spent_found,
        t.proofs_cleaned == total.proofs_cleaned + r.proofs_cleaned,
        t.sats_cleaned == total.sats_cleaned + r.sats_cleaned,
        t.pending_found == total.pending_found + r.pending_found,
{
    SyncResult {
        spent_found: total.spent_found + r.spent_found,
        proofs_cleaned: total.proofs_cleaned + r.proofs_cleaned,
        sats_cleaned: total.sats_cleaned + r.sats_cleaned,
        pending_found: total.pending_found + r.pending_found,
    }
}

/// What a restart does about a pending transaction.
#[derive(Debug, Clone, PartialEq, Eq)]
pub enum PendingTxAction {
    /// Finish a top-up: recover its mint quote.
    RecoverMintQuote { quote_id: String },
    /// Finish a Lightning payment: recover its melt quote's change.
    RecoverMeltChange { quote_id: String },
    /// Check a send's proofs with the mint; spent ones complete it.
    ConfirmSend,
    /// Check the mint's proofs.
    Sync,
    /// Nothing to do (a quote-based transaction without its quote).
    Skip,
}

/// The action for a pending transaction, by its type and quote.
pub fn pending_tx_action(tx_type: TransactionType, quote_id: &Option<String>) -> (r: PendingTxAction)
    ensures
        tx_type == TransactionType::Topup ==> (match quote_id {
            Some(q) => r matches PendingTxAction::RecoverMintQuote { quote_id: x } && x@ == q@,
            None => r == PendingTxAction::Skip,
        }),
        tx_type == TransactionType::Transfer ==> (match quote_id {
            Some(q) => r matches PendingTxAction::RecoverMeltChange { quote_id: x } && x@ == q@,
            None => r == PendingTxAction::Skip,
        }),
        tx_type == TransactionType::Send ==> r == PendingTxAction::ConfirmSend,
        tx_type == TransactionType::Receive ==> r == PendingTxAction::Sync,
{
    match tx_type {
        TransactionType::Topup => match quote_id {
            Some(q) => PendingTxAction::RecoverMintQuote { quote_id: q.clone() },
            None => PendingTxAction::Skip,
        },
        TransactionType::Transfer => match quote_id {
            Some(q) => PendingTxAction::RecoverMeltChange { quote_id: q.clone() },
            None => PendingTxAction::Skip,
        },
        TransactionType::Send => PendingTxAction::ConfirmSend,
        TransactionType::Receive => PendingTxAction::Sync,
    }
}

/// What recovering an operation gave: the value recovered and a message.
#[derive(Debug, Clone, PartialEq, Eq)]
pub struct RecoveryResult {
    pub recovered_amount: u64,
    pub message: Option<String>,
}

impl RecoveryResult {
    /// Nothing recovered.
    pub fn none() -> (r: Self)
        ensures
            r.recovered_amount == 0,
            r.message is None,
    {
        RecoveryResult { recovered_amount: 0, message: None }
    }
}

/// What recovering a mint quote does, by the state the mint reports: a
/// paid quote is minted, an issued one may have left proofs unrecorded, an
/// unpaid one past its expiry is reported expired; otherwise nothing.
#[derive(Debug, Clone, Copy, PartialEq, Eq, Structural)]
pub enum MintQuoteRecovery {
    Mint,
    CheckUnrecorded,
    Expired,
    Nothing,
}

/// Chooses what recovering a mint quote does.
pub fn mint_quote_recovery(state: MintQuoteState, expiry: Option<u64>, now: u64) -> (r: MintQuoteRecovery)
    ensures
        state == MintQuoteState::Paid ==> r == MintQuoteRecovery::Mint,
        state == MintQuoteState::Issued ==> r == MintQuoteRecovery::CheckUnrecorded,
        state == MintQuoteState::Unpaid ==> (match expiry {
            Some(e) => if now >= e { r == MintQuoteRecovery::Expired } else { r == MintQuoteRecovery::Nothing },
            None => r == MintQuoteRecovery::Nothing,
        }),
{
    match state {
        MintQuoteState::Paid => MintQuoteRecovery::Mint,
        MintQuoteState::Issued => MintQuoteRecovery::CheckUnrecorded,
        MintQuoteState::Unpaid => match expiry {
            Some(e) => if now >= e { MintQuoteRecovery::Expired } else { MintQuoteRecovery::Nothing },
            None => MintQuoteRecovery::Nothing,
        },
    }
}

/// What recovering a minted quote reports.
pub fn minted_recovery(amount: u64) -> (r: RecoveryResult)
    ensures
        r.recovered_amount == amount,
        r.message matches Some(m) && m@ == "Minted "@ + decimal(amount as nat) + " sats from paid quote"@,
{
    let mut m = String::from_str("Minted ");
    append_decimal(&mut m, amount);
    m.append(" sats from paid quote");
    RecoveryResult { recovered_amount: amount, message: Some(m) }
}

/// What recovering an expired quote reports.
pub fn expired_recovery() -> (r: RecoveryResult)
    ensures
        r.recovered_amount == 0,
        r.message matches Some(m) && m@ == "Quote expired"@,
{
    RecoveryResult { recovered_amount: 0, message: Some(String::from_str("Quote expired")) }
}

/// Amounts added, stopping at `u64::MAX`.
pub open spec fn saturating_total(ps: Seq<ProofData>) -> u64
    decreases ps.len(),
{
    if ps.len() == 0 {
        0
    } else {
        let t = saturating_total(ps.drop_last()) + ps.last().amount;
        if t > u64::MAX { u64::MAX } else { t as u64 }
    }
}

/// The value of proofs, saturating.
pub fn saturating_value(ps: &Vec<ProofData>) -> (r: u64)
    ensures
        r == saturating_total(ps@),
{
    let mut t: u64 = 0;
    for i in 0..ps.len()
        invariant
            t == saturating_total(ps@.take(i as int)),
    {
        assert(ps@.take(i + 1).drop_last() =~= ps@.take(i as int));
        t = t.saturating_add(ps[i].amount);
    }
    assert(ps@.take(ps.len() as int) =~= ps@);
    t
}

/// The proofs of `held` whose secret is none of `known`'s, in order.
pub open spec fn unrecorded(known: Seq<ProofData>, held: Seq<ProofData>) -> Seq<ProofData>
    decreases held.len(),
{
    if held.len() == 0 {
        Seq::empty()
    } else {
        let rest = unrecorded(known, held.drop_last());
        if exists|j: int| 0 <= j < known.len() && known[j].secret@ == held.last().secret@ {
            rest
        } else {
            rest.push(held.last())
        }
    }
}

/// Whether some proof of `ps` has secret `s`.
fn has_secret(ps: &Vec<ProofData>, s: &String) -> (r: bool)
    ensures
        r == exists|j: int| 0 <= j < ps@.len() && ps@[j].secret@ == s@,
{
    for j in 0..ps.len()
        invariant
            forall|k: int| 0 <= k < j ==> ps@[k].secret@ != s@,
    {
        if ps[j].secret == *s {
            return true;
        }
    }
    false
}

/// The proofs the Cashu library holds for a mint that the wallet has not
/// recorded (by secret), in order.
pub fn unrecorded_proofs(known: &Vec<ProofData>, held: &Vec<ProofData>) -> (r: Vec<ProofData>)
    ensures
        r@ == unrecorded(known@, held@),
{
    let mut r: Vec<ProofData> = Vec::new();
    for i in 0..held.len()
        invariant
            r@ == unrecorded(known@, held@.take(i as int)),
    {
        assert(held@.take(i + 1).drop_last() =~= held@.take(i as int));
        if !has_secret(known, &held[i].secret) {
            r.push(held[i].clone());
        }
    }
    assert(held@.take(held.len() as int) =~= held@);
    r
}

/// What recovering unrecorded proofs reports: nothing when there are none,
/// else their value (saturating) and count.
pub fn unrecorded_recovery(missing: &Vec<ProofData>) -> (r: RecoveryResult)
    ensures
        missing@.len() == 0 ==> r.recovered_amount == 0 && r.message is None,
        missing@.len() > 0 ==> (r.recovered_amount == saturating_total(missing@) && (r.message matches Some(m) && m@
            == "Recovered "@ + decimal(missing@.len() as nat) + " unrecorded proofs ("@ + decimal(
            saturating_total(missing@) as nat,
        ) + " sats)"@)),
{
    if missing.len() == 0 {
        return RecoveryResult::none();
    }
    let amount = saturating_value(missing);
    let mut m = String::from_str("Recovered ");
    append_decimal(&mut m, missing.len() as u64);
    m.append(" unrecorded proofs (");
    append_decimal(&mut m, amount);
    m.append(" sats)");
    RecoveryResult { recovered_amount: amount, message: Some(m) }
}

/// The point `Y` that identifies a proof, computed from its secret, as
/// text; none when no point is found.
pub uninterp spec fn y_of_secret(secret: Seq<char>) -> Option<Seq<char>>;

/// `cdk::dhke::hash_to_curve` on the bytes of a proof's secret, the point
/// shown as text (`PublicKey`'s display); nothing when it fails. The result
/// is a function of the secret alone; nothing more of it is stated.
#[verifier::external_body]
fn secret_y(secret: &str) -> (r: Option<String>)
    ensures
        opt_text(r) == y_of_secret(secret@),
{
    cdk::dhke::hash_to_curve(secret.as_bytes()).ok().map(|y| y.to_string())
}

/// The `Y`s of proofs that have one, in order.
pub open spec fn ys_of(ps: Seq<ProofData>) -> Seq<Seq<char>>
    decreases ps.len(),
{
    if ps.len() == 0 {
        Seq::empty()
    } else {
        let rest = ys_of(ps.drop_last());
        match y_of_secret(ps.last().secret@) {
            Some(y) => rest.push(y),
            None => rest,
        }
    }
}

/// The `Y`s of the proofs of tokens, in order.
pub open spec fn tokens_ys(ts: Seq<TokenData>) -> Seq<Seq<char>>
    decreases ts.len(),
{
    if ts.len() == 0 {
        Seq::empty()
    } else {
        tokens_ys(ts.drop_last()) + ys_of(ts.last().proofs@)
    }
}

/// The `Y`s of the wallet's proofs, which identify the proofs it knows.
pub fn known_ys(tokens: &Vec<TokenData>) -> (r: Vec<String>)
    ensures
        string_views(r@) == tokens_ys(tokens@),
{
    let mut r: Vec<String> = Vec::new();
    for i in 0..tokens.len()
        invariant
            string_views(r@) == tokens_ys(tokens@.take(i as int)),
    {
        assert(tokens@.take(i + 1).drop_last() =~= tokens@.take(i as int));
        let ghost base = string_views(r@);
        let ps = &tokens[i].proofs;
        for j in 0..ps.len()
            invariant
                ps@ == tokens@[i as int].proofs@,
                string_views(r@) == base + ys_of(ps@.take(j as int)),
        {
            assert(ps@.take(j + 1).drop_last() =~= ps@.take(j as int));
            match secret_y(ps[j].secret.as_str()) {
                Some(y) => {
                    let ghost before = string_views(r@);
                    r.push(y);
                    assert(string_views(r@) =~= before.push(y@));
                    assert(base + ys_of(ps@.take(j + 1)) =~= (base + ys_of(ps@.take(j as int))).push(y@));
                },
                None => {},
            }
        }
        assert(ps@.take(ps.len() as int) =~= ps@);
    }
    assert(tokens@.take(tokens.len() as int) =~= tokens@);
    r
}

/// The proofs of `held` whose `Y` is known and none of `known`: a proof
/// whose `Y` cannot be computed is left out (counted as known, so that no
/// value is added twice).
pub open spec fn unknown_by_y(known: Seq<Seq<char>>, held: Seq<ProofData>, ys: Seq<Option<Seq<char>>>) -> Seq<ProofData>
    decreases held.len(),
{
    if held.len() == 0 || ys.len() == 0 {
        Seq::empty()
    } else {
        let rest = unknown_by_y(known, held.drop_last(), ys.drop_last());
        match ys.last() {
            Some(y) => if known.contains(y) { rest } else { rest.push(held.last()) },
            None => rest,
        }
    }
}

/// Selects, from the proofs the Cashu library holds and their `Y`s (the
/// i-th of `ys` being that of the i-th proof), those the wallet does not
/// know.
pub fn select_unknown_by_y(known: &Vec<String>, held: &Vec<ProofData>, ys: &Vec<Option<String>>) -> (r: Vec<ProofData>)
    requires
        held@.len() == ys@.len(),
    ensures
        r@ == unknown_by_y(string_views(known@), held@, ys@.map_values(|o: Option<String>| opt_text(o))),
{
    let ghost kv = string_views(known@);
    let ghost yv = ys@.map_values(|o: Option<String>| opt_text(o));
    let mut r: Vec<ProofData> = Vec::new();
    for i in 0..held.len()
        invariant
            held@.len() == ys@.len(),
            kv == string_views(known@),
            yv == ys@.map_values(|o: Option<String>| opt_text(o)),
            r@ == unknown_by_y(kv, held@.take(i as int), yv.take(i as int)),
    {
        assert(held@.take(i + 1).drop_last() =~= held@.take(i as int));
        assert(yv.take(i + 1).drop_last() =~= yv.take(i as int));
        assert(yv.take(i + 1).last() == opt_text(ys@[i as int]));
        match &ys[i] {
            Some(y) => {
                let mut found = false;
                for j in 0..known.len()
                    invariant
                        found == exists|k: int| 0 <= k < j && kv[k] == y@,
                        kv == string_views(known@),
                {
                    assert(kv[j as int] == known@[j as int]@);
                    if known[j] == *y {
                        found = true;
                    }
                    assert(found == exists|k: int| 0 <= k < j + 1 && kv[k] == y@) by {
                        if !(known@[j as int]@ == y@) {
                            assert forall|k: int| 0 <= k < j + 1 && kv[k] == y@ implies 0 <= k < j by {}
                        }
                    }
                }
                assert(found == kv.contains(y@));
                if !found {
                    r.push(held[i].clone());
                }
            },
            None => {},
        }
    }
    assert(held@.take(held.len() as int) =~= held@);
    assert(yv.take(held.len() as int) =~= yv);
    r
}

/// The `Y` of each proof, as the wallet computes it.
pub open spec fn proof_ys(ps: Seq<ProofData>) -> Seq<Option<Seq<char>>> {
    ps.map_values(|p: ProofData| y_of_secret(p.secret@))
}

/// The proofs the Cashu library holds that the wallet does not know, by
/// `Y`.
pub fn new_by_y(known: &Vec<String>, held: &Vec<ProofData>) -> (r: Vec<ProofData>)
    ensures
        r@ == unknown_by_y(string_views(known@), held@, proof_ys(held@)),
{
    let mut ys: Vec<Option<String>> = Vec::new();
    for i in 0..held.len()
        invariant
            ys@.len() == i,
            forall|j: int| 0 <= j < i ==> opt_text(#[trigger] ys@[j]) == y_of_secret(held@[j].secret@),
    {
        ys.push(secret_y(held[i].secret.as_str()));
    }
    let r = select_unknown_by_y(known, held, &ys);
    assert(ys@.map_values(|o: Option<String>| opt_text(o)) =~= proof_ys(held@));
    r
}

/// The candidates the mint reports unspent (the i-th state being that of
/// the i-th candidate), in order: only those are truly orphaned.
pub open spec fn unspent_ones(cands: Seq<ProofData>, states: Seq<MintProofState>) -> Seq<ProofData>
    decreases cands.len(),
{
    if cands.len() == 0 || states.len() == 0 {
        Seq::empty()
    } else if cands.len() <= states.len() {
        let rest = unspent_ones(cands.drop_last(), states.take(cands.len() - 1));
        if states[cands.len() - 1] == MintProofState::Unspent { rest.push(cands.last()) } else { rest }
    } else {
        unspent_ones(cands.take(states.len() as int), states)
    }
}

/// Keeps the candidates the mint reports unspent.
pub fn confirmed_unspent(cands: &Vec<ProofData>, states: &Vec<MintProofState>) -> (r: Vec<ProofData>)
    ensures
        r@ == unspent_ones(cands@, states@),
{
    let n: usize = if cands.len() <= states.len() { cands.len() } else { states.len() };
    let mut r: Vec<ProofData> = Vec::new();
    for i in 0..n
        invariant
            n <= cands.len(),
            n <= states.len(),
            n == cands.len() || n == states.len(),
            r@ == unspent_ones(cands@.take(i as int), states@.take(i as int)),
    {
        assert(cands@.take(i + 1).drop_last() =~= cands@.take(i as int));
        assert(states@.take(i + 1).take(i as int) =~= states@.take(i as int));
        if states[i] == MintProofState::Unspent {
            r.push(cands[i].clone());
        }
    }
    proof {
        if n == cands.len() {
            assert(cands@.take(n as int) =~= cands@);
            if n < states.len() {
                lemma_unspent_ones_longer(cands@, states@);
            } else {
                assert(states@.take(n as int) =~= states@);
            }
        } else {
            assert(states@.take(n as int) =~= states@);
            assert(unspent_ones(cands@, states@) == unspent_ones(cands@.take(states@.len() as int), states@));
        }
    }
    r
}

/// Extra states beyond the candidates change nothing.
proof fn lemma_unspent_ones_longer(cands: Seq<ProofData>, states: Seq<MintProofState>)
    requires
        cands.len() <= states.len(),
    ensures
        unspent_ones(cands, states) == unspent_ones(cands, states.take(cands.len() as int)),
    decreases cands.len(),
{
    if cands.len() > 0 {
        assert(states.take(cands.len() as int).take(cands.len() - 1) =~= states.take(cands.len() - 1));
    }
}

/// Mint errors after which an orphan check of one mint stops.
pub const MAX_ERRORS_PER_MINT: usize = 5;

/// Whether an orphan check of a mint stops after `errors` failed batches.
pub fn stop_orphan_check(errors: usize) -> (r: bool)
    ensures
        r == (errors >= MAX_ERRORS_PER_MINT),
{
    errors >= MAX_ERRORS_PER_MINT
}

/// The wallet token that records proofs recovered for a mint: under the
/// event that published them, the mint's URL normalized, in sats.
pub fn recovered_token(event_id: &str, mint_url: &str, proofs: Vec<ProofData>, now: u64) -> (r: TokenData)
    ensures
        r.event_id@ == event_id@,
        r.mint@ == normalized_mint(mint_url@),
        r.unit@ == "sat"@,
        r.proofs@ == proofs@,
        r.created_at == now,
{
    TokenData {
        event_id: String::from_str(event_id),
        mint: normalize_mint_url(mint_url),
        unit: String::from_str("sat"),
        proofs,
        created_at: now,
    }
}

/// State of a melt quote (NUT-05), as the mint reports it.
#[derive(Debug, Clone, Copy, PartialEq, Eq, Structural)]
pub enum MeltQuoteState {
    Unpaid,
    Paid,
    Pending,
    Failed,
    Unknown,
}

/// An in-flight melt older than this (a day) is given up after one last
/// check.
pub const IN_FLIGHT_MAX_AGE_SECS: u64 = 86400;

/// Whether an in-flight melt recorded at `created_at` is too old at `now`
/// (its age counted as zero when the clock went back).
pub fn in_flight_expired(created_at: u64, now: u64) -> (r: bool)
    ensures
        r == (now >= created_at && now - created_at > IN_FLIGHT_MAX_AGE_SECS),
{
    let age = now.saturating_sub(created_at);
    age > IN_FLIGHT_MAX_AGE_SECS
}

/// What a restart does with an in-flight melt, by its quote's state.
#[derive(Debug, Clone, Copy, PartialEq, Eq, Structural)]
pub enum InFlightStep {
    /// Paid: recover its change, then stop tracking it.
    RecoverChange,
    /// Still pending: keep tracking it, touching no proof.
    KeepTracking,
    /// Failed, unpaid or unknown: ask the mint the state of its proofs and
    /// act on that alone, then stop tracking it.
    VerifyProofs,
}

/// Chooses what a restart does with an in-flight melt.
pub fn in_flight_step(state: MeltQuoteState) -> (r: InFlightStep)
    ensures
        state == MeltQuoteState::Paid ==> r == InFlightStep::RecoverChange,
        state == MeltQuoteState::Pending ==> r == InFlightStep::KeepTracking,
        state == MeltQuoteState::Failed || state == MeltQuoteState::Unpaid || state == MeltQuoteState::Unknown
            ==> r == InFlightStep::VerifyProofs,
{
    match state {
        MeltQuoteState::Paid => InFlightStep::RecoverChange,
        MeltQuoteState::Pending => InFlightStep::KeepTracking,
        MeltQuoteState::Failed | MeltQuoteState::Unpaid | MeltQuoteState::Unknown => InFlightStep::VerifyProofs,
    }
}

/// The checked proofs the mint reports pending (or pending to be spent).
pub open spec fn pending_count(checked: Seq<CheckedProof>) -> nat
    decreases checked.len(),
{
    if checked.len() == 0 {
        0
    } else {
        let rest = pending_count(checked.drop_last());
        let st = checked.last().2;
        if st == MintProofState::Pending || st == MintProofState::PendingSpent { rest + 1 } else { rest }
    }
}

/// The pending count of a prefix is at most its length.
proof fn lemma_pending_count_bound(checked: Seq<CheckedProof>)
    ensures
        pending_count(checked) <= checked.len(),
    decreases checked.len(),
{
    if checked.len() > 0 {
        lemma_pending_count_bound(checked.drop_last());
    }
}

/// How a failed melt's proofs are settled from the states the mint
/// reports: the secrets it reports unspent (returned to spendable), those
/// it reports spent (marked spent), and how many it still holds pending;
/// reserved ones are left alone.
pub fn melt_proof_verdicts(checked: &Vec<CheckedProof>) -> (r: (Vec<String>, Vec<String>, usize))
    ensures
        string_views(r.0@) == secrets_in(checked@, MintProofState::Unspent),
        string_views(r.1@) == secrets_in(checked@, MintProofState::Spent),
        r.2 == pending_count(checked@),
{
    let mut unspent: Vec<String> = Vec::new();
    let mut spent: Vec<String> = Vec::new();
    let mut pending: usize = 0;
    for i in 0..checked.len()
        invariant
            string_views(unspent@) == secrets_in(checked@.take(i as int), MintProofState::Unspent),
            string_views(spent@) == secrets_in(checked@.take(i as int), MintProofState::Spent),
            pending == pending_count(checked@.take(i as int)),
    {
        assert(checked@.take(i + 1).drop_last() =~= checked@.take(i as int));
        proof {
            lemma_pending_count_bound(checked@.take(i + 1));
        }
        match checked[i].2 {
            MintProofState::Unspent => {
                let ghost before = unspent@;
                unspent.push(checked[i].0.clone());
                assert(string_views(unspent@) =~= string_views(before).push(checked@[i as int].0@));
            },
            MintProofState::Spent => {
                let ghost before = spent@;
                spent.push(checked[i].0.clone());
                assert(string_views(spent@) =~= string_views(before).push(checked@[i as int].0@));
            },
            MintProofState::Pending | MintProofState::PendingSpent => {
                pending = pending + 1;
            },
            MintProofState::Reserved => {},
        }
    }
    assert(checked@.take(checked.len() as int) =~= checked@);
    (unspent, spent, pending)
}

/// What can go wrong recovering an in-flight melt.
#[derive(Debug, Clone, Copy, PartialEq, Eq, Structural)]
pub enum InFlightError {
    MintBusy,
    WalletUnavailable,
    QuoteCheckFailed,
    ChangeRecoveryFailed,
    ProofCheckFailed,
}

/// The error recorded, about `subject` (a mint URL or a quote id), with
/// the cause `detail` where there is one.
pub open spec fn in_flight_error_text(kind: InFlightError, subject: Seq<char>, detail: Seq<char>) -> Seq<char> {
    match kind {
        InFlightError::MintBusy => "Mint "@ + subject + " busy, skipping"@,
        InFlightError::WalletUnavailable => "Wallet error for "@ + subject + ": "@ + detail,
        InFlightError::QuoteCheckFailed => "Quote "@ + subject + " check failed: "@ + detail,
        InFlightError::ChangeRecoveryFailed => "Change recovery failed for "@ + subject + ": "@ + detail,
        InFlightError::ProofCheckFailed => "NUT-07 check failed for "@ + subject + ": "@ + detail,
    }
}

/// The error recorded when recovering an in-flight melt fails.
pub fn in_flight_error_message(kind: InFlightError, subject: &str, detail: &str) -> (r: String)
    ensures
        r@ == in_flight_error_text(kind, subject@, detail@),
{
    match kind {
        InFlightError::MintBusy => {
            let mut m = String::from_str("Mint ");
            m.append(subject);
            m.append(" busy, skipping");
            m
        },
        InFlightError::WalletUnavailable => {
            let mut m = String::from_str("Wallet error for ");
            m.append(subject);
            m.append(": ");
            m.append(detail);
            m
        },
        InFlightError::QuoteCheckFailed => {
            let mut m = String::from_str("Quote ");
            m.append(subject);
            m.append(" check failed: ");
            m.append(detail);
            m
        },
        InFlightError::ChangeRecoveryFailed => {
            let mut m = String::from_str("Change recovery failed for ");
            m.append(subject);
            m.append(": ");
            m.append(detail);
            m
        },
        InFlightError::ProofCheckFailed => {
            let mut m = String::from_str("NUT-07 check failed for ");
            m.append(subject);
            m.append(": ");
            m.append(detail);
            m
        },
    }
}

/// Texts joined by a separator.
pub open spec fn joined(items: Seq<Seq<char>>, sep: Seq<char>) -> Seq<char>
    decreases items.len(),
{
    if items.len() == 0 {
        Seq::empty()
    } else if items.len() == 1 {
        items[0]
    } else {
        joined(items.drop_last(), sep) + sep + items.last()
    }
}

/// Appends texts joined by a separator.
fn append_joined(out: &mut String, items: &Vec<String>, sep: &str)
    ensures
        final(out)@ == old(out)@ + joined(string_views(items@), sep@),
{
    let ghost start = out@;
    for i in 0..items.len()
        invariant
            out@ == start + joined(string_views(items@.take(i as int)), sep@),
    {
        let ghost prev = string_views(items@.take(i as int));
        let ghost next = string_views(items@.take(i + 1));
        assert(next.drop_last() =~= prev);
        assert(next.last() == items@[i as int]@);
        if i > 0 {
            out.append(sep);
        }
        out.append(items[i].as_str());
        proof {
            if i == 0 {
                assert(prev =~= Seq::<Seq<char>>::empty());
                assert(joined(next, sep@) == next[0]);
            }
            assert(out@ =~= start + joined(next, sep@));
        }
    }
    assert(items@.take(items.len() as int) =~= items@);
}

/// What a recovery from the seed reports.
#[derive(Debug, Clone, PartialEq, Eq)]
pub struct RecoverySummary {
    /// Value recovered (sats).
    pub total_recovered: u64,
    /// Mints checked.
    pub mints_checked: usize,
    /// What happened, in words.
    pub message: String,
}

/// The message of a recovery from the seed.
pub open spec fn seed_recovery_text(total: u64, mints: usize, errors: Seq<Seq<char>>) -> Seq<char> {
    if errors.len() == 0 {
        if total > 0 {
            "Recovered "@ + decimal(total as nat) + " sats from "@ + decimal(mints as nat) + " mints"@
        } else {
            "Checked "@ + decimal(mints as nat) + " mints - no proofs to recover"@
        }
    } else {
        "Recovered "@ + decimal(total as nat) + " sats from "@ + decimal(mints as nat) + " mints, "@ + decimal(
            errors.len(),
        ) + " errors: "@ + joined(errors, "; "@)
    }
}

/// Sums up a recovery from the seed: the value recovered, the mints
/// checked and the errors met (one text per failed mint).
pub fn seed_recovery_summary(total_recovered: u64, mints_checked: usize, errors: &Vec<String>) -> (r: RecoverySummary)
    ensures
        r.total_recovered == total_recovered,
        r.mints_checked == mints_checked,
        r.message@ == seed_recovery_text(total_recovered, mints_checked, string_views(errors@)),
{
    let mut m: String;
    if errors.len() == 0 {
        if total_recovered > 0 {
            m = String::from_str("Recovered ");
            append_decimal(&mut m, total_recovered);
            m.append(" sats from ");
            append_decimal(&mut m, mints_checked as u64);
            m.append(" mints");
        } else {
            m = String::from_str("Checked ");
            append_decimal(&mut m, mints_checked as u64);
            m.append(" mints - no proofs to recover");
        }
    } else {
        m = String::from_str("Recovered ");
        append_decimal(&mut m, total_recovered);
        m.append(" sats from ");
        append_decimal(&mut m, mints_checked as u64);
        m.append(" mints, ");
        append_decimal(&mut m, errors.len() as u64);
        m.append(" errors: ");
        append_joined(&mut m, errors, "; ");
    }
    RecoverySummary { total_recovered, mints_checked, message: m }
}

/// What a recovery from the seed reports when the wallet has no mint.
pub fn no_mints_summary() -> (r: RecoverySummary)
    ensures
        r.total_recovered == 0,
        r.mints_checked == 0,
        r.message@ == "No mints configured"@,
{
    RecoverySummary { total_recovered: 0, mints_checked: 0, message: String::from_str("No mints configured") }
}

/// What a consolidation of all mints reports.
#[derive(Debug, Clone, PartialEq, Eq)]
pub struct ConsolidationSummary {
    /// Value consolidated (sats).
    pub consolidated_amount: u64,
    /// Proofs before.
    pub proofs_before: usize,
    /// Proofs after.
    pub proofs_after: usize,
    /// What happened, in words.
    pub message: String,
}

/// Sums up a consolidation of all mints.
pub fn consolidation_summary(consolidated_amount: u64, proofs_before: usize, proofs_after: usize) -> (r: ConsolidationSummary)
    ensures
        r.consolidated_amount == consolidated_amount,
        r.proofs_before == proofs_before,
        r.proofs_after == proofs_after,
        consolidated_amount > 0 ==> r.message@ == "Consolidated "@ + decimal(consolidated_amount as nat)
            + " sats, reduced proofs by "@ + decimal(
            (if proofs_before >= proofs_after { proofs_before - proofs_after } else { 0 }) as nat,
        ) + " ("@ + decimal(proofs_before as nat) + " -> "@ + decimal(proofs_after as nat) + ")"@,
        consolidated_amount == 0 ==> r.message@ == "No proofs needed consolidation"@,
{
    let message = if consolidated_amount > 0 {
        let reduced = proofs_before.saturating_sub(proofs_after);
        let mut m = String::from_str("Consolidated ");
        append_decimal(&mut m, consolidated_amount);
        m.append(" sats, reduced proofs by ");
        append_decimal(&mut m, reduced as u64);
        m.append(" (");
        append_decimal(&mut m, proofs_before as u64);
        m.append(" -> ");
        append_decimal(&mut m, proofs_after as u64);
        m.append(")");
        m
    } else {
        String::from_str("No proofs needed consolidation")
    };
    ConsolidationSummary { consolidated_amount, proofs_before, proofs_after, message }
}

/// The proof secrets of the transactions of a mint (named exactly so),
/// in order.
pub open spec fn secrets_of_mint_txs(txs: Seq<ActiveTransaction>, mint_url: Seq<char>) -> Seq<Seq<char>>
    decreases txs.len(),
{
    if txs.len() == 0 {
        Seq::empty()
    } else {
        let rest = secrets_of_mint_txs(txs.drop_last(), mint_url);
        if txs.last().mint_url@ == mint_url { rest + string_views(txs.last().proof_secrets@) } else { rest }
    }
}

/// The proofs to revert when a mint's pending transactions failed: the
/// secrets of those (given pending) transactions of the mint.
pub fn pending_secrets_for_mint(pending: &Vec<ActiveTransaction>, mint_url: &str) -> (r: Vec<String>)
    ensures
        string_views(r@) == secrets_of_mint_txs(pending@, mint_url@),
{
    let key = String::from_str(mint_url);
    let mut r: Vec<String> = Vec::new();
    for i in 0..pending.len()
        invariant
            key@ == mint_url@,
            string_views(r@) == secrets_of_mint_txs(pending@.take(i as int), mint_url@),
    {
        assert(pending@.take(i + 1).drop_last() =~= pending@.take(i as int));
        if pending[i].mint_url == key {
            let ghost base = string_views(r@);
            let ss = &pending[i].proof_secrets;
            for j in 0..ss.len()
                invariant
                    ss@ == pending@[i as int].proof_secrets@,
                    string_views(r@) == base + string_views(ss@.take(j as int)),
            {
                let ghost before = string_views(r@);
                r.push(ss[j].clone());
                assert(string_views(r@) =~= before.push(ss@[j as int]@));
                assert(string_views(ss@.take(j + 1)) =~= string_views(ss@.take(j as int)).push(ss@[j as int]@));
            }
            assert(ss@.take(ss.len() as int) =~= ss@);
        }
    }
    assert(pending@.take(pending.len() as int) =~= pending@);
    r
}

/// Whether a checked mint quote leaves the pending list: issued ones
/// always; paid ones only when the batch mint of paid quotes succeeded
/// (their tokens were minted).
pub fn mint_quote_settled(state: MintQuoteState, batch_minted: bool) -> (r: bool)
    ensures
        r == (state == MintQuoteState::Issued || (state == MintQuoteState::Paid && batch_minted)),
{
    match state {
        MintQuoteState::Issued => true,
        MintQuoteState::Paid => batch_minted,
        MintQuoteState::Unpaid => false,
    }
}

/// Processes the pending melt quotes: every quote is checked and the
/// expired ones are removed; gives (checked, completed, expired), none
/// being completed here.
pub fn process_pending_melt_quotes(quotes: &mut Vec<PendingQuote>, now: u64) -> (r: (usize, usize, usize))
    ensures
        r.0 == old(quotes)@.len(),
        r.1 == 0,
        r.2 == expired_ids(old(quotes)@, now).len(),
        final(quotes)@ == without_ids(old(quotes)@, expired_ids(old(quotes)@, now)),
{
    let checked = quotes.len();
    let expired = cleanup_expired_quotes(quotes, now);
    (checked, 0, expired)
}

/// The state of a quote in the wallet's own tracking.
#[derive(Debug, Clone, Copy, PartialEq, Eq, Structural)]
pub enum QuoteState {
    /// Created, waiting for payment.
    Pending,
    /// Paid.
    Paid,
    /// Expired.
    Expired,
    /// Failed.
    Failed,
    /// Tokens minted or melted.
    Completed,
}

/// What a wallet health check found and fixed.
#[derive(Debug, Clone, Copy, PartialEq, Eq)]
pub struct WalletHealthReport {
    pub proofs_checked: usize,
    pub spent_proofs_found: usize,
    pub pending_proofs_found: usize,
    pub mint_quotes_checked: usize,
    pub mint_quotes_paid: usize,
    pub amount_minted_sats: u64,
    pub melt_quotes_checked: usize,
    pub melt_quotes_completed: usize,
    pub melt_quotes_expired: usize,
    pub change_recovered_sats: u64,
}

/// The parts of a health report's summary, in order.
pub open spec fn health_parts(r: WalletHealthReport) -> Seq<Seq<char>> {
    let a: Seq<Seq<char>> = if r.spent_proofs_found > 0 {
        seq![decimal(r.spent_proofs_found as nat) + " spent proofs cleaned"@]
    } else {
        Seq::empty()
    };
    let b: Seq<Seq<char>> = if r.mint_quotes_paid > 0 {
        seq![decimal(r.mint_quotes_paid as nat) + " quotes processed ("@ + decimal(r.amount_minted_sats as nat)
            + " sats minted)"@]
    } else {
        Seq::empty()
    };
    let c: Seq<Seq<char>> = if r.melt_quotes_expired > 0 {
        seq![decimal(r.melt_quotes_expired as nat) + " expired quotes removed"@]
    } else {
        Seq::empty()
    };
    let d: Seq<Seq<char>> = if r.change_recovered_sats > 0 {
        seq![decimal(r.change_recovered_sats as nat) + " sats change recovered"@]
    } else {
        Seq::empty()
    };
    a + b + c + d
}

impl WalletHealthReport {
    /// Whether the check found something to fix.
    pub fn has_issues(&self) -> (r: bool)
        ensures
            r == (self.spent_proofs_found > 0 || self.mint_quotes_paid > 0 || self.melt_quotes_expired > 0
                || self.change_recovered_sats > 0),
    {
        self.spent_proofs_found > 0 || self.mint_quotes_paid > 0 || self.melt_quotes_expired > 0
            || self.change_recovered_sats > 0
    }

    /// The report in words: what was fixed, joined by `, `, or that the
    /// wallet is healthy.
    pub fn summary(&self) -> (r: String)
        ensures
            health_parts(*self).len() == 0 ==> r@ == "Wallet is healthy - no issues found"@,
            health_parts(*self).len() > 0 ==> r@ == joined(health_parts(*self), ", "@),
    {
        let mut parts: Vec<String> = Vec::new();
        if self.spent_proofs_found > 0 {
            let mut m = String::new();
            append_decimal(&mut m, self.spent_proofs_found as u64);
            m.append(" spent proofs cleaned");
            parts.push(m);
        }
        let ghost pa = string_views(parts@);
        if self.mint_quotes_paid > 0 {
            let mut m = String::new();
            append_decimal(&mut m, self.mint_quotes_paid as u64);
            m.append(" quotes processed (");
            append_decimal(&mut m, self.amount_minted_sats);
            m.append(" sats minted)");
            parts.push(m);
        }
        let ghost pb = string_views(parts@);
        if self.melt_quotes_expired > 0 {
            let mut m = String::new();
            append_decimal(&mut m, self.melt_quotes_expired as u64);
            m.append(" expired quotes removed");
            parts.push(m);
        }
        let ghost pc = string_views(parts@);
        if self.change_recovered_sats > 0 {
            let mut m = String::new();
            append_decimal(&mut m, self.change_recovered_sats);
            m.append(" sats change recovered");
            parts.push(m);
        }
        proof {
            let r = *self;
            let a: Seq<Seq<char>> = if r.spent_proofs_found > 0 {
                seq![decimal(r.spent_proofs_found as nat) + " spent proofs cleaned"@]
            } else {
                Seq::empty()
            };
            assert(pa =~= a);
            assert(string_views(parts@) =~= health_parts(r));
        }
        if parts.len() == 0 {
            String::from_str("Wallet is healthy - no issues found")
        } else {
            let mut out = String::new();
            append_joined(&mut out, &parts, ", ");
            out
        }
    }
}

/// What recovering in-flight melts found.
#[derive(Debug)]
pub struct MeltRecoveryResult {
    pub quotes_checked: usize,
    pub quotes_paid: usize,
    pub change_recovered: u64,
    pub errors: Vec<String>,
}

impl MeltRecoveryResult {
    /// Nothing found yet.
    pub fn new() -> (r: Self)
        ensures
            r.quotes_checked == 0,
            r.quotes_paid == 0,
            r.change_recovered == 0,
            r.errors@.len() == 0,
    {
        MeltRecoveryResult { quotes_checked: 0, quotes_paid: 0, change_recovered: 0, errors: Vec::new() }
    }
}

/// How the recovery of one in-flight melt ended.
#[derive(Debug)]
pub enum InFlightOutcome {
    /// Too old, and its mint could not be reached for a last check.
    ExpiredUnreachable,
    /// Too old; its spent proofs were marked after a last check.
    ExpiredChecked,
    /// Its recovery failed on the way (busy mint, no wallet, quote check or
    /// change recovery failed, proof check failed): this error is recorded.
    Failed { error: String },
    /// Paid; this much change was recovered.
    ChangeRecovered { amount: u64 },
    /// Still pending at the mint.
    StillPending,
    /// None of its proofs could be converted to be checked.
    NothingToCheck,
    /// Its proofs were settled from the states the mint reported.
    ProofsSettled,
}

/// Records how one in-flight melt's recovery ended; says whether the melt
/// stops being tracked. Checked melts count as checked, paid ones as paid
/// with their change; failures leave the melt tracked for the next start.
pub fn record_in_flight_outcome(result: &mut MeltRecoveryResult, outcome: InFlightOutcome) -> (stop_tracking: bool)
    requires
        old(result).quotes_checked < usize::MAX,
        old(result).quotes_paid < usize::MAX,
        outcome matches InFlightOutcome::ChangeRecovered { amount } ==> old(result).change_recovered + amount <= u64::MAX,
    ensures
        match outcome {
            InFlightOutcome::ExpiredUnreachable => stop_tracking && final(result).quotes_checked == old(result).quotes_checked
                && final(result).quotes_paid == old(result).quotes_paid && final(result).change_recovered
                == old(result).change_recovered && final(result).errors@ == old(result).errors@,
            InFlightOutcome::ExpiredChecked => stop_tracking && final(result).quotes_checked == old(result).quotes_checked + 1
                && final(result).quotes_paid == old(result).quotes_paid && final(result).change_recovered
                == old(result).change_recovered && final(result).errors@ == old(result).errors@,
            InFlightOutcome::Failed { error } => !stop_tracking && final(result).quotes_checked
                == old(result).quotes_checked && final(result).quotes_paid == old(result).quotes_paid
                && final(result).change_recovered == old(result).change_recovered && final(result).errors@
                == old(result).errors@.push(error),
            InFlightOutcome::ChangeRecovered { amount } => stop_tracking && final(result).quotes_checked
                == old(result).quotes_checked && final(result).quotes_paid == old(result).quotes_paid + 1
                && final(result).change_recovered == old(result).change_recovered + amount && final(result).errors@
                == old(result).errors@,
            InFlightOutcome::StillPending => !stop_tracking && final(result).quotes_checked
                == old(result).quotes_checked + 1 && final(result).quotes_paid == old(result).quotes_paid
                && final(result).change_recovered == old(result).change_recovered && final(result).errors@
                == old(result).errors@,
            InFlightOutcome::NothingToCheck => stop_tracking && final(result).quotes_checked
                == old(result).quotes_checked && final(result).quotes_paid == old(result).quotes_paid
                && final(result).change_recovered == old(result).change_recovered && final(result).errors@
                == old(result).errors@,
            InFlightOutcome::ProofsSettled => stop_tracking && final(result).quotes_checked
                == old(result).quotes_checked + 1 && final(result).quotes_paid == old(result).quotes_paid
                && final(result).change_recovered == old(result).change_recovered && final(result).errors@
                == old(result).errors@,
        },
{
    match outcome {
        InFlightOutcome::ExpiredUnreachable => true,
        InFlightOutcome::ExpiredChecked => {
            result.quotes_checked = result.quotes_checked + 1;
            true
        },
        InFlightOutcome::Failed { error } => {
            result.errors.push(error);
            false
        },
        InFlightOutcome::ChangeRecovered { amount } => {
            result.change_recovered = result.change_recovered + amount;
            result.quotes_paid = result.quotes_paid + 1;
            true
        },
        InFlightOutcome::StillPending => {
            result.quotes_checked = result.quotes_checked + 1;
            false
        },
        InFlightOutcome::NothingToCheck => true,
        InFlightOutcome::ProofsSettled => {
            result.quotes_checked = result.quotes_checked + 1;
            true
        },
    }
}

/// Whether the wallet's state is synchronised after recovering in-flight
/// melts: when change was recovered or some melt was checked.
pub fn resync_after_melt_recovery(result: &MeltRecoveryResult) -> (r: bool)
    ensures
        r == (result.change_recovered > 0 || result.quotes_checked > 0),
{
    result.change_recovered > 0 || result.quotes_checked > 0
}

} // verus!
