//! The lifecycle of outgoing and incoming transactions while they are in
//! flight: creation, status updates with their history, lookup, and
//! cleanup of finished ones.
use vstd::prelude::*;
use vstd::string::*;
use crate::keyset::string_views;
use crate::types::clone_opt_string;

verus! {

/// Kind of a transaction.
#[derive(Debug, Clone, Copy, PartialEq, Eq, Structural)]
pub enum TransactionType {
    /// Minting from a Lightning payment.
    Topup,
    /// Paying a Lightning invoice.
    Transfer,
    /// Sending ecash.
    Send,
    /// Receiving ecash.
    Receive,
}

/// Status of a transaction.
#[derive(Debug, Clone, Copy, PartialEq, Eq, Structural)]
pub enum TransactionStatus {
    Draft,
    Prepared,
    Pending,
    Completed,
    Failed,
    Reverted,
    Recovered,
}

impl TransactionStatus {
    /// Still in flight: draft, prepared or pending.
    pub open spec fn in_flight(self) -> bool {
        self is Draft || self is Prepared || self is Pending
    }

    /// Whether the transaction is still in flight.
    pub fn is_in_flight(&self) -> (r: bool)
        ensures
            r == self.in_flight(),
    {
        match self {
            TransactionStatus::Draft | TransactionStatus::Prepared | TransactionStatus::Pending => true,
            _ => false,
        }
    }
}

/// One entry of a transaction's status history.
#[derive(Debug)]
pub struct TransactionStatusUpdate {
    pub status: TransactionStatus,
    pub timestamp: u64,
    pub message: Option<String>,
    pub fee_paid: Option<u64>,
}

impl Clone for TransactionStatusUpdate {
    fn clone(&self) -> (c: Self)
        ensures
            c == *self,
    {
        TransactionStatusUpdate {
            status: self.status,
            timestamp: self.timestamp,
            message: clone_opt_string(&self.message),
            fee_paid: self.fee_paid,
        }
    }
}

/// A transaction in flight.
#[derive(Debug)]
pub struct ActiveTransaction {
    pub id: u64,
    pub tx_type: TransactionType,
    pub amount: u64,
    pub unit: String,
    pub mint_url: String,
    pub status: TransactionStatus,
    pub proof_secrets: Vec<String>,
    pub quote_id: Option<String>,
    pub memo: Option<String>,
    pub expires_at: Option<u64>,
    pub created_at: u64,
    pub updated_at: u64,
    pub history: Vec<TransactionStatusUpdate>,
}

/// The fields of a transaction, its lists by their contents.
pub open spec fn tx_fields(t: ActiveTransaction) -> (
    u64,
    TransactionType,
    u64,
    Seq<char>,
    Seq<char>,
    TransactionStatus,
    Seq<Seq<char>>,
    Option<String>,
    Option<String>,
    Option<u64>,
    u64,
    u64,
    Seq<TransactionStatusUpdate>,
) {
    (
        t.id,
        t.tx_type,
        t.amount,
        t.unit@,
        t.mint_url@,
        t.status,
        string_views(t.proof_secrets@),
        t.quote_id,
        t.memo,
        t.expires_at,
        t.created_at,
        t.updated_at,
        t.history@,
    )
}

/// A copy of a list of strings.
fn clone_strings(v: &Vec<String>) -> (r: Vec<String>)
    ensures
        r@ == v@,
{
    let mut r: Vec<String> = Vec::new();
    for i in 0..v.len()
        invariant
            r@ == v@.take(i as int),
    {
        r.push(v[i].clone());
        assert(r@ =~= v@.take(i + 1));
    }
    assert(v@.take(v.len() as int) =~= v@);
    r
}

/// A copy of a status history.
fn clone_history(v: &Vec<TransactionStatusUpdate>) -> (r: Vec<TransactionStatusUpdate>)
    ensures
        r@ == v@,
{
    let mut r: Vec<TransactionStatusUpdate> = Vec::new();
    for i in 0..v.len()
        invariant
            r@ == v@.take(i as int),
    {
        r.push(v[i].clone());
        assert(r@ =~= v@.take(i + 1));
    }
    assert(v@.take(v.len() as int) =~= v@);
    r
}

impl Clone for ActiveTransaction {
    fn clone(&self) -> (c: Self)
        ensures
            tx_fields(c) == tx_fields(*self),
    {
        ActiveTransaction {
            id: self.id,
            tx_type: self.tx_type,
            amount: self.amount,
            unit: self.unit.clone(),
            mint_url: self.mint_url.clone(),
            status: self.status,
            proof_secrets: clone_strings(&self.proof_secrets),
            quote_id: clone_opt_string(&self.quote_id),
            memo: clone_opt_string(&self.memo),
            expires_at: self.expires_at,
            created_at: self.created_at,
            updated_at: self.updated_at,
            history: clone_history(&self.history),
        }
    }
}

/// Creates a transaction in `Draft` at time `now`, with the id `*next_id`
/// (the counter then moves on, wrapping), and returns its id.
pub fn create_transaction(
    transactions: &mut Vec<ActiveTransaction>,
    next_id: &mut u64,
    tx_type: TransactionType,
    amount: u64,
    mint_url: &str,
    proof_secrets: Vec<String>,
    quote_id: Option<String>,
    memo: Option<String>,
    now: u64,
) -> (r: u64)
    ensures
        r == *old(next_id),
        *final(next_id) == (if *old(next_id) == u64::MAX { 0 } else { *old(next_id) + 1 }),
        final(transactions)@.len() == old(transactions)@.len() + 1,
        final(transactions)@.drop_last() == old(transactions)@,
        ({
            let t = final(transactions)@.last();
            &&& t.id == r
            &&& t.tx_type == tx_type
            &&& t.amount == amount
            &&& t.unit@ == "sat"@
            &&& t.mint_url@ == mint_url@
            &&& t.status == TransactionStatus::Draft
            &&& t.proof_secrets@ == proof_secrets@
            &&& t.quote_id == quote_id
            &&& t.memo == memo
            &&& t.expires_at is None
            &&& t.created_at == now
            &&& t.updated_at == now
            &&& t.history@ == seq![
                TransactionStatusUpdate {
                    status: TransactionStatus::Draft,
                    timestamp: now,
                    message: None,
                    fee_paid: None,
                },
            ]
        }),
{
    let id = *next_id;
    *next_id = next_id.wrapping_add(1);
    let mut history: Vec<TransactionStatusUpdate> = Vec::new();
    history.push(TransactionStatusUpdate { status: TransactionStatus::Draft, timestamp: now, message: None, fee_paid: None });
    let tx = ActiveTransaction {
        id,
        tx_type,
        amount,
        unit: String::from_str("sat"),
        mint_url: String::from_str(mint_url),
        status: TransactionStatus::Draft,
        proof_secrets,
        quote_id,
        memo,
        expires_at: None,
        created_at: now,
        updated_at: now,
        history,
    };
    let ghost before = transactions@;
    transactions.push(tx);
    assert(transactions@.drop_last() =~= before);
    id
}

/// Position of the first transaction with an id.
pub open spec fn first_with_id(txs: Seq<ActiveTransaction>, id: u64) -> Option<int> {
    if exists|i: int| 0 <= i < txs.len() && txs[i].id == id {
        Some(choose|i: int| 0 <= i < txs.len() && txs[i].id == id && forall|j: int| 0 <= j < i ==> txs[j].id != id)
    } else {
        None
    }
}

/// Position of the first transaction with an id, computed.
fn find_transaction(txs: &Vec<ActiveTransaction>, id: u64) -> (r: Option<usize>)
    ensures
        r matches Some(i) ==> i < txs@.len() && txs@[i as int].id == id && first_with_id(txs@, id) == Some(i as int),
        r is None ==> first_with_id(txs@, id) is None,
{
    for i in 0..txs.len()
        invariant
            forall|j: int| 0 <= j < i ==> txs@[j].id != id,
    {
        if txs[i].id == id {
            proof {
                let c = choose|c: int| 0 <= c < txs@.len() && txs@[c].id == id && forall|j: int| 0 <= j < c ==> txs@[j].id != id;
                assert(txs@[i as int].id == id);
                if c < i {
                } else if c > i {
                    assert(txs@[i as int].id != id);
                }
            }
            return Some(i);
        }
    }
    None
}

/// The fields of a transaction after a status update: the new status, the
/// time of the update, and the entry added to the history.
pub open spec fn updated_fields(t: ActiveTransaction, status: TransactionStatus, now: u64, entry: TransactionStatusUpdate) -> (
    u64,
    TransactionType,
    u64,
    Seq<char>,
    Seq<char>,
    TransactionStatus,
    Seq<Seq<char>>,
    Option<String>,
    Option<String>,
    Option<u64>,
    u64,
    u64,
    Seq<TransactionStatusUpdate>,
) {
    (
        t.id,
        t.tx_type,
        t.amount,
        t.unit@,
        t.mint_url@,
        status,
        string_views(t.proof_secrets@),
        t.quote_id,
        t.memo,
        t.expires_at,
        t.created_at,
        now,
        t.history@.push(entry),
    )
}

/// Records a new status of a transaction at time `now`, with its entry in
/// the history; an unknown id changes nothing.
pub fn update_transaction_status(
    transactions: &mut Vec<ActiveTransaction>,
    tx_id: u64,
    status: TransactionStatus,
    message: Option<String>,
    fee_paid: Option<u64>,
    now: u64,
)
    ensures
        match first_with_id(old(transactions)@, tx_id) {
            None => final(transactions)@ == old(transactions)@,
            Some(i) => {
                &&& final(transactions)@.len() == old(transactions)@.len()
                &&& forall|j: int| 0 <= j < old(transactions)@.len() && j != i ==> #[trigger] final(transactions)@[j]
                    == old(transactions)@[j]
                &&& tx_fields(final(transactions)@[i]) == updated_fields(
                    old(transactions)@[i],
                    status,
                    now,
                    TransactionStatusUpdate { status, timestamp: now, message, fee_paid },
                )
            },
        },
{
    match find_transaction(transactions, tx_id) {
        None => {},
        Some(i) => {
            let ghost before = transactions@;
            let old_tx = &transactions[i];
            let mut history = clone_history(&old_tx.history);
            history.push(TransactionStatusUpdate { status, timestamp: now, message, fee_paid });
            let updated = ActiveTransaction {
                id: old_tx.id,
                tx_type: old_tx.tx_type,
                amount: old_tx.amount,
                unit: old_tx.unit.clone(),
                mint_url: old_tx.mint_url.clone(),
                status,
                proof_secrets: clone_strings(&old_tx.proof_secrets),
                quote_id: clone_opt_string(&old_tx.quote_id),
                memo: clone_opt_string(&old_tx.memo),
                expires_at: old_tx.expires_at,
                created_at: old_tx.created_at,
                updated_at: now,
                history,
            };
            transactions.set(i, updated);
        },
    }
}

/// A copy of the first transaction with an id, if any.
pub fn get_transaction(transactions: &Vec<ActiveTransaction>, tx_id: u64) -> (r: Option<ActiveTransaction>)
    ensures
        match first_with_id(transactions@, tx_id) {
            None => r is None,
            Some(i) => r matches Some(t) && tx_fields(t) == tx_fields(transactions@[i]),
        },
{
    match find_transaction(transactions, tx_id) {
        Some(i) => Some(transactions[i].clone()),
        None => None,
    }
}

/// The transactions still in flight, in order.
pub open spec fn in_flight_of(txs: Seq<ActiveTransaction>) -> Seq<ActiveTransaction>
    decreases txs.len(),
{
    if txs.len() == 0 {
        Seq::empty()
    } else {
        let rest = in_flight_of(txs.drop_last());
        if txs.last().status.in_flight() { rest.push(txs.last()) } else { rest }
    }
}

/// Copies of the transactions still in flight (draft, prepared or pending).
pub fn get_pending_transactions(transactions: &Vec<ActiveTransaction>) -> (r: Vec<ActiveTransaction>)
    ensures
        r@.len() == in_flight_of(transactions@).len(),
        forall|k: int| 0 <= k < r@.len() ==> tx_fields(#[trigger] r@[k]) == tx_fields(in_flight_of(transactions@)[k]),
{
    let mut r: Vec<ActiveTransaction> = Vec::new();
    for i in 0..transactions.len()
        invariant
            r@.len() == in_flight_of(transactions@.take(i as int)).len(),
            forall|k: int| 0 <= k < r@.len() ==> tx_fields(#[trigger] r@[k]) == tx_fields(
                in_flight_of(transactions@.take(i as int))[k],
            ),
    {
        assert(transactions@.take(i + 1).drop_last() =~= transactions@.take(i as int));
        if transactions[i].status.is_in_flight() {
            r.push(transactions[i].clone());
        }
    }
    assert(transactions@.take(transactions.len() as int) =~= transactions@);
    r
}

/// A transaction is kept by the cleanup: still in flight, or updated after
/// `cutoff`.
pub open spec fn kept_at(t: ActiveTransaction, cutoff: u64) -> bool {
    t.status.in_flight() || t.updated_at > cutoff
}

/// The transactions the cleanup keeps, in order.
pub open spec fn kept_transactions(txs: Seq<ActiveTransaction>, cutoff: u64) -> Seq<ActiveTransaction>
    decreases txs.len(),
{
    if txs.len() == 0 {
        Seq::empty()
    } else {
        let rest = kept_transactions(txs.drop_last(), cutoff);
        if kept_at(txs.last(), cutoff) { rest.push(txs.last()) } else { rest }
    }
}

/// Forgets the finished transactions last updated an hour or more before
/// `now`.
pub fn cleanup_old_transactions(transactions: &mut Vec<ActiveTransaction>, now: u64)
    requires
        now >= 3600,
    ensures
        final(transactions)@ == kept_transactions(old(transactions)@, (now - 3600) as u64),
{
    let cutoff = now - 3600;
    let ghost orig = transactions@;
    let n: usize = transactions.len();
    let mut rest: Vec<ActiveTransaction> = Vec::new();
    std::mem::swap(&mut rest, transactions);
    let mut kept: Vec<ActiveTransaction> = Vec::new();
    let mut i: usize = 0;
    assert(rest@ == orig);
    while rest.len() > 0
        invariant
            i <= n,
            n == orig.len(),
            rest@ == orig.skip(i as int),
            kept@ == kept_transactions(orig.take(i as int), cutoff),
        decreases rest.len(),
    {
        let t = rest.remove(0);
        assert(t == orig[i as int]);
        assert(rest@ =~= orig.skip(i + 1));
        assert(orig.take(i + 1).drop_last() =~= orig.take(i as int));
        if t.status.is_in_flight() || t.updated_at > cutoff {
            kept.push(t);
        }
        i = i + 1;
    }
    assert(orig.take(orig.len() as int) =~= orig);
    *transactions = kept;
}

} // verus!
