//! The course of a consolidation of one mint's proofs: the swap batches in
//! turn, what a failed batch leads to, when the new proofs must be made
//! visible before they are published, how the publish ends, and which
//! token the published one replaces.
use vstd::prelude::*;
use crate::keyset::string_views;
use crate::text::{append_decimal, decimal};
use crate::receive::PublishVerdict;
use crate::types::{ProofData, TokenData};

verus! {

/// A consolidation under way: the batches to swap, the next one, the proofs
/// the swaps gave so far, and how many swapped batches failed to persist.
#[derive(Debug)]
pub struct ConsolidationRun {
    pub total_batches: usize,
    pub next_batch: usize,
    pub new_proofs: Vec<ProofData>,
    pub persistence_failures: usize,
}

/// How a batch's swap ended.
#[derive(Debug)]
pub enum BatchOutcome {
    /// The swap gave these proofs (none when the mint returned none), and
    /// saving them to the wallet database succeeded or not.
    Swapped { proofs: Vec<ProofData>, persisted: bool },
    /// The swap failed with this error; the mint reports some of the
    /// batch's proofs spent, or not.
    Failed { error: String, any_spent: bool },
}

/// What the consolidation does next.
#[derive(Debug)]
pub enum ConsolidationAction {
    /// Swap the batch of this index.
    SwapBatch { index: usize },
    /// All batches are swapped: publish the new proofs, first making them
    /// visible under a temporary token when some batch failed to persist.
    Publish { emergency_token: bool },
    /// The consolidation fails with this error; the wallet's state is
    /// synchronised with the Cashu library when proofs were spent despite
    /// the error, or when earlier batches were swapped.
    Fail { error: String, resync: bool },
}

/// Starts a consolidation of `total_batches` batches.
pub fn start_consolidation(total_batches: usize) -> (r: (ConsolidationRun, ConsolidationAction))
    ensures
        r.0.total_batches == total_batches,
        r.0.next_batch == 0,
        r.0.new_proofs@.len() == 0,
        r.0.persistence_failures == 0,
        total_batches > 0 ==> (r.1 matches ConsolidationAction::SwapBatch { index } && index == 0),
        total_batches == 0 ==> (r.1 matches ConsolidationAction::Fail { error, resync } && error@
            == "Swap returned no proofs"@ && !resync),
{
    let run = ConsolidationRun { total_batches, next_batch: 0, new_proofs: Vec::new(), persistence_failures: 0 };
    if total_batches > 0 {
        (run, ConsolidationAction::SwapBatch { index: 0 })
    } else {
        (run, ConsolidationAction::Fail { error: String::from_str("Swap returned no proofs"), resync: false })
    }
}

/// The error of a failed batch swap (batches counted from one).
pub open spec fn batch_failure_text(index: usize, total: usize, err: Seq<char>) -> Seq<char> {
    "Swap failed on batch "@ + decimal(index as nat + 1) + "/"@ + decimal(total as nat) + ": "@ + err
}

/// Takes the outcome of the current batch's swap and says what comes next.
pub fn consolidation_step(run: &mut ConsolidationRun, outcome: BatchOutcome) -> (a: ConsolidationAction)
    requires
        old(run).next_batch < old(run).total_batches,
        old(run).persistence_failures <= old(run).next_batch,
    ensures
        final(run).total_batches == old(run).total_batches,
        final(run).persistence_failures <= final(run).next_batch,
        match outcome {
            BatchOutcome::Failed { error, any_spent } => {
                &&& final(run).next_batch == old(run).next_batch
                &&& final(run).new_proofs@ == old(run).new_proofs@
                &&& final(run).persistence_failures == old(run).persistence_failures
                &&& a matches ConsolidationAction::Fail { error: e, resync } && e@ == batch_failure_text(
                    old(run).next_batch,
                    old(run).total_batches,
                    error@,
                ) && resync == (any_spent || old(run).next_batch > 0)
            },
            BatchOutcome::Swapped { proofs, persisted } => {
                let failures = if persisted || proofs@.len() == 0 {
                    old(run).persistence_failures as int
                } else {
                    old(run).persistence_failures + 1
                };
                &&& final(run).next_batch == old(run).next_batch + 1
                &&& final(run).new_proofs@ == old(run).new_proofs@ + proofs@
                &&& final(run).persistence_failures == failures
                &&& final(run).next_batch < final(run).total_batches ==> (a matches ConsolidationAction::SwapBatch {
                    index,
                } && index == final(run).next_batch)
                &&& final(run).next_batch == final(run).total_batches ==> (if final(run).new_proofs@.len() == 0 {
                    a matches ConsolidationAction::Fail { error: e, resync } && e@ == "Swap returned no proofs"@
                        && !resync
                } else {
                    a matches ConsolidationAction::Publish { emergency_token } && emergency_token == (failures > 0)
                })
            },
        },
{
    let ghost old_proofs = run.new_proofs@;
    match outcome {
        BatchOutcome::Failed { error, any_spent } => {
            let mut e = String::from_str("Swap failed on batch ");
            append_decimal(&mut e, run.next_batch as u64 + 1);
            e.append("/");
            append_decimal(&mut e, run.total_batches as u64);
            e.append(": ");
            e.append(error.as_str());
            ConsolidationAction::Fail { error: e, resync: any_spent || run.next_batch > 0 }
        },
        BatchOutcome::Swapped { proofs, persisted } => {
            let mut proofs = proofs;
            if !persisted && proofs.len() > 0 {
                run.persistence_failures = run.persistence_failures + 1;
            }
            run.new_proofs.append(&mut proofs);
            run.next_batch = run.next_batch + 1;
            if run.next_batch < run.total_batches {
                ConsolidationAction::SwapBatch { index: run.next_batch }
            } else if run.new_proofs.len() == 0 {
                ConsolidationAction::Fail { error: String::from_str("Swap returned no proofs"), resync: false }
            } else {
                ConsolidationAction::Publish { emergency_token: run.persistence_failures > 0 }
            }
        },
    }
}

/// How the publish of the consolidated proofs' event ends.
#[derive(Debug, Clone, Copy, PartialEq, Eq, Structural)]
pub enum PublishEnd {
    /// A relay took it: the event keeps its own id.
    Published,
    /// All attempts failed in a way worth retrying: a pending id, and the
    /// event queued for a later retry.
    Queued,
    /// A permanent failure: the proofs are kept under a local-only token
    /// and the consolidation fails.
    LocalOnly,
}

/// How the publish ends, from whether an attempt succeeded and whether
/// the failures were worth retrying.
pub fn publish_end(succeeded: bool, retryable: bool) -> (r: PublishEnd)
    ensures
        succeeded ==> r == PublishEnd::Published,
        !succeeded && retryable ==> r == PublishEnd::Queued,
        !succeeded && !retryable ==> r == PublishEnd::LocalOnly,
{
    if succeeded {
        PublishEnd::Published
    } else if retryable {
        PublishEnd::Queued
    } else {
        PublishEnd::LocalOnly
    }
}

/// How many times a token event is sent before the publish gives up.
pub const PUBLISH_ATTEMPTS: usize = 4;

/// The base wait before the retry that follows attempt `attempt` (counted
/// from one): 500, 1000, then 2000 milliseconds.
pub open spec fn publish_retry_base_ms(attempt: nat) -> u64 {
    if attempt == 1 {
        500
    } else if attempt == 2 {
        1000
    } else {
        2000
    }
}

/// What follows a publish attempt.
#[derive(Debug, Clone, Copy, PartialEq, Eq, Structural)]
pub enum PublishStep {
    /// Send again after waiting about this many milliseconds (see
    /// `jittered_delay_ms`).
    RetryAfter { base_delay_ms: u64 },
    /// Stop: the event was published, or the failures were permanent, or
    /// they were all worth retrying (`publish_end` tells which ending).
    Stop { succeeded: bool, retryable: bool },
}

/// Takes the verdict on attempt `attempt` (counted from one) and says
/// what follows: a success stops, a permanent failure stops, and a failure
/// worth retrying is retried after the next wait, up to the fourth
/// attempt.
pub fn publish_retry_step(attempt: usize, verdict: PublishVerdict) -> (r: PublishStep)
    requires
        1 <= attempt <= PUBLISH_ATTEMPTS,
    ensures
        match verdict {
            PublishVerdict::Published | PublishVerdict::AlreadyPublished => r == PublishStep::Stop {
                succeeded: true,
                retryable: true,
            },
            PublishVerdict::Permanent => r == PublishStep::Stop { succeeded: false, retryable: false },
            PublishVerdict::Retry => if attempt < PUBLISH_ATTEMPTS {
                r == PublishStep::RetryAfter { base_delay_ms: publish_retry_base_ms(attempt as nat) }
            } else {
                r == PublishStep::Stop { succeeded: false, retryable: true }
            },
        },
        r is RetryAfter ==> attempt < PUBLISH_ATTEMPTS,
{
    match verdict {
        PublishVerdict::Published | PublishVerdict::AlreadyPublished => PublishStep::Stop {
            succeeded: true,
            retryable: true,
        },
        PublishVerdict::Permanent => PublishStep::Stop { succeeded: false, retryable: false },
        PublishVerdict::Retry => {
            if attempt < PUBLISH_ATTEMPTS {
                let base: u64 = if attempt == 1 {
                    500
                } else if attempt == 2 {
                    1000
                } else {
                    2000
                };
                PublishStep::RetryAfter { base_delay_ms: base }
            } else {
                PublishStep::Stop { succeeded: false, retryable: true }
            }
        },
    }
}

/// A wait spread around its base so that clients do not retry in step:
/// the base less half the jitter range, plus a jitter drawn from
/// `0..range`.
pub fn jittered_delay_ms(base_ms: u64, range_ms: u64, jitter_ms: u64) -> (r: u64)
    requires
        jitter_ms < range_ms,
        base_ms + range_ms <= u64::MAX,
    ensures
        r == (if base_ms >= range_ms / 2 { base_ms - range_ms / 2 } else { 0 }) + jitter_ms,
{
    let half = range_ms / 2;
    let low = if base_ms >= half { base_ms - half } else { 0 };
    low + jitter_ms
}

/// The jitter range of publish retries and of the background saves of
/// swapped proofs, in milliseconds.
pub const RETRY_JITTER_MS: u64 = 200;

/// How many times saving swapped proofs is retried in the background.
pub const PERSISTENCE_RETRIES: usize = 3;

/// The base wait before background save retry `retry` (counted from
/// zero): 1000, 2000, then 4000 milliseconds.
pub open spec fn persistence_retry_base_ms(retry: nat) -> u64 {
    if retry == 0 {
        1000
    } else if retry == 1 {
        2000
    } else {
        4000
    }
}

/// The wait before background save retry `retry` (counted from zero),
/// with a jitter drawn below `RETRY_JITTER_MS`; none after the last.
pub fn persistence_retry_delay_ms(retry: usize, jitter_ms: u64) -> (r: Option<u64>)
    requires
        jitter_ms < RETRY_JITTER_MS,
    ensures
        retry >= PERSISTENCE_RETRIES ==> r is None,
        retry < PERSISTENCE_RETRIES ==> r == Some((persistence_retry_base_ms(retry as nat) - RETRY_JITTER_MS / 2
            + jitter_ms) as u64),
{
    if retry >= PERSISTENCE_RETRIES {
        return None;
    }
    let base: u64 = if retry == 0 {
        1000
    } else if retry == 1 {
        2000
    } else {
        4000
    };
    Some(jittered_delay_ms(base, RETRY_JITTER_MS, jitter_ms))
}

/// The error a consolidation ends with after a permanent publish failure.
pub fn non_retryable_publish_error(last_error: &str) -> (r: String)
    ensures
        r@ == "Non-retryable publish error: "@ + last_error@,
{
    let mut m = String::from_str("Non-retryable publish error: ");
    m.append(last_error);
    m
}

/// The token holding the consolidated proofs under `event_id`, and the
/// event ids of the tokens it replaces: the temporary token when one was
/// made visible, else the tokens consolidated.
pub fn consolidated_replacement(
    event_id: &str,
    mint_url: &str,
    unit: &str,
    proofs: Vec<ProofData>,
    now: u64,
    emergency_id: &Option<String>,
    consolidated_ids: &Vec<String>,
) -> (r: (TokenData, Vec<String>))
    ensures
        r.0.event_id@ == event_id@,
        r.0.mint@ == mint_url@,
        r.0.unit@ == unit@,
        r.0.proofs@ == proofs@,
        r.0.created_at == now,
        match emergency_id {
            Some(id) => string_views(r.1@) == seq![id@],
            None => string_views(r.1@) == string_views(consolidated_ids@),
        },
{
    let token = TokenData {
        event_id: String::from_str(event_id),
        mint: String::from_str(mint_url),
        unit: String::from_str(unit),
        proofs,
        created_at: now,
    };
    let mut ids: Vec<String> = Vec::new();
    match emergency_id {
        Some(id) => {
            ids.push(id.clone());
            assert(string_views(ids@) =~= seq![id@]);
        },
        None => {
            for i in 0..consolidated_ids.len()
                invariant
                    string_views(ids@) == string_views(consolidated_ids@.take(i as int)),
            {
                let ghost before = ids@;
                ids.push(consolidated_ids[i].clone());
                assert(string_views(ids@) =~= string_views(before).push(consolidated_ids@[i as int]@));
                assert(string_views(consolidated_ids@.take(i + 1)) =~= string_views(consolidated_ids@.take(i as int)).push(
                    consolidated_ids@[i as int]@,
                ));
            }
            assert(consolidated_ids@.take(consolidated_ids.len() as int) =~= consolidated_ids@);
        },
    }
    (token, ids)
}

} // verus!
