//! Transaction history entries with fees, descriptions and swap details.
use vstd::prelude::*;
use vstd::string::*;
use crate::text::substring;

verus! {

/// Direction of a transaction.
#[derive(Clone, Copy, Debug, PartialEq, Eq, Structural)]
pub enum Direction {
    /// Incoming transaction.
    In,
    /// Outgoing transaction.
    Out,
}

/// Base history data.
#[derive(Debug)]
pub struct HistoryItemData {
    pub event_id: String,
    pub direction: Direction,
    pub amount: u64,
    pub unit: String,
    pub created_at: u64,
    pub created_tokens: Vec<String>,
    pub destroyed_tokens: Vec<String>,
    pub redeemed_events: Vec<String>,
}

/// Specific transaction types.
#[derive(Clone, Copy, Debug, PartialEq, Eq, Structural)]
pub enum TransactionType {
    LightningReceive,
    LightningSend,
    EcashSend,
    EcashReceive,
    P2pkSend,
    P2pkReceive,
    HtlcSend,
    HtlcReceive,
    Swap,
    Transfer,
    KeysetMigration,
    Restore,
}

/// Human-readable name of each transaction type.
pub open spec fn tx_type_label(t: TransactionType) -> Seq<char> {
    match t {
        TransactionType::LightningReceive => "Lightning Receive"@,
        TransactionType::LightningSend => "Lightning Send"@,
        TransactionType::EcashSend => "Ecash Send"@,
        TransactionType::EcashReceive => "Ecash Receive"@,
        TransactionType::P2pkSend => "P2PK Send"@,
        TransactionType::P2pkReceive => "P2PK Receive"@,
        TransactionType::HtlcSend => "HTLC Send"@,
        TransactionType::HtlcReceive => "HTLC Receive"@,
        TransactionType::Swap => "Swap"@,
        TransactionType::Transfer => "Transfer"@,
        TransactionType::KeysetMigration => "Keyset Migration"@,
        TransactionType::Restore => "Restore"@,
    }
}

/// Icon name of each transaction type.
pub open spec fn type_icon(t: TransactionType) -> Seq<char> {
    match t {
        TransactionType::LightningReceive => "lightning-in"@,
        TransactionType::LightningSend => "lightning-out"@,
        TransactionType::EcashSend | TransactionType::P2pkSend | TransactionType::HtlcSend => "send"@,
        TransactionType::EcashReceive | TransactionType::P2pkReceive | TransactionType::HtlcReceive => "receive"@,
        TransactionType::Swap | TransactionType::KeysetMigration => "swap"@,
        TransactionType::Transfer => "transfer"@,
        TransactionType::Restore => "restore"@,
    }
}

impl TransactionType {
    /// Human-readable name.
    pub fn display_name(&self) -> (r: &'static str)
        ensures
            r@ == tx_type_label(*self),
    {
        match self {
            TransactionType::LightningReceive => "Lightning Receive",
            TransactionType::LightningSend => "Lightning Send",
            TransactionType::EcashSend => "Ecash Send",
            TransactionType::EcashReceive => "Ecash Receive",
            TransactionType::P2pkSend => "P2PK Send",
            TransactionType::P2pkReceive => "P2PK Receive",
            TransactionType::HtlcSend => "HTLC Send",
            TransactionType::HtlcReceive => "HTLC Receive",
            TransactionType::Swap => "Swap",
            TransactionType::Transfer => "Transfer",
            TransactionType::KeysetMigration => "Keyset Migration",
            TransactionType::Restore => "Restore",
        }
    }

    /// Icon name for display.
    pub fn icon(&self) -> (r: &'static str)
        ensures
            r@ == type_icon(*self),
    {
        match self {
            TransactionType::LightningReceive => "lightning-in",
            TransactionType::LightningSend => "lightning-out",
            TransactionType::EcashSend | TransactionType::P2pkSend | TransactionType::HtlcSend => "send",
            TransactionType::EcashReceive | TransactionType::P2pkReceive | TransactionType::HtlcReceive => "receive",
            TransactionType::Swap | TransactionType::KeysetMigration => "swap",
            TransactionType::Transfer => "transfer",
            TransactionType::Restore => "restore",
        }
    }
}

/// Keyset information of a transaction.
#[derive(Debug)]
pub struct KeysetInfo {
    /// Source keyset id (for spends and swaps).
    pub source_keyset: Option<String>,
    /// Destination keyset id (for receives and swaps).
    pub dest_keyset: Option<String>,
    /// Whether this was a keyset migration.
    pub is_migration: bool,
}

/// Reason for a swap.
#[derive(Clone, Copy, Debug, PartialEq, Eq, Structural)]
pub enum SwapReason {
    /// Consolidation to reduce proof count.
    Consolidation,
    /// Denomination optimization.
    Optimization,
    /// Keyset migration.
    Migration,
    /// Privacy refresh.
    Privacy,
    /// Split for exact amount.
    Split,
    /// Unknown/other.
    Other,
}

/// Details of a swap.
#[derive(Debug, Clone, Copy, PartialEq, Eq, Structural)]
pub struct SwapDetails {
    /// Number of input proofs.
    pub input_count: usize,
    /// Number of output proofs.
    pub output_count: usize,
    /// Input value.
    pub input_value: u64,
    /// Output value.
    pub output_value: u64,
    /// Reason for the swap.
    pub reason: SwapReason,
}

/// A history entry with additional data. The fee percentage of Lightning
/// payments, a float, is added where the entry is serialized.
#[derive(Debug)]
pub struct EnrichedHistoryItem {
    pub base: HistoryItemData,
    pub fee_paid: Option<u64>,
    pub description: Option<String>,
    pub mint_url: Option<String>,
    pub tx_type: Option<TransactionType>,
    pub error: Option<String>,
    pub quote_id: Option<String>,
    pub invoice: Option<String>,
    pub preimage: Option<String>,
    pub keyset_info: Option<KeysetInfo>,
    pub p2pk_recipient: Option<String>,
    pub swap_details: Option<SwapDetails>,
}

/// The view of an optional string.
pub open spec fn opt_view(o: Option<String>) -> Option<Seq<char>> {
    match o {
        Some(s) => Some(s@),
        None => None,
    }
}

/// The base data has the given fields and no token or event lists.
pub open spec fn base_is(b: HistoryItemData, event_id: Seq<char>, direction: Direction, amount: u64, created_at: u64) -> bool {
    &&& b.event_id@ == event_id
    &&& b.direction == direction
    &&& b.amount == amount
    &&& b.unit@ == "sat"@
    &&& b.created_at == created_at
    &&& b.created_tokens@.len() == 0
    &&& b.destroyed_tokens@.len() == 0
    &&& b.redeemed_events@.len() == 0
}

/// Base data in sats with empty token and event lists.
fn sat_base(event_id: String, direction: Direction, amount: u64, created_at: u64) -> (r: HistoryItemData)
    ensures
        base_is(r, event_id@, direction, amount, created_at),
{
    HistoryItemData {
        event_id,
        direction,
        amount,
        unit: String::from_str("sat"),
        created_at,
        created_tokens: Vec::new(),
        destroyed_tokens: Vec::new(),
        redeemed_events: Vec::new(),
    }
}

/// Wraps base history data with a fee, a description and a type.
pub fn enrich_history_item(
    item: HistoryItemData,
    fee_paid: Option<u64>,
    description: Option<String>,
    tx_type: Option<TransactionType>,
) -> (r: EnrichedHistoryItem)
    ensures
        r.base == item,
        r.fee_paid == fee_paid,
        r.description == description,
        r.tx_type == tx_type,
        r.mint_url is None && r.error is None && r.quote_id is None && r.invoice is None,
        r.preimage is None && r.keyset_info is None && r.p2pk_recipient is None && r.swap_details is None,
{
    EnrichedHistoryItem {
        base: item,
        fee_paid,
        description,
        mint_url: None,
        tx_type,
        error: None,
        quote_id: None,
        invoice: None,
        preimage: None,
        keyset_info: None,
        p2pk_recipient: None,
        swap_details: None,
    }
}

/// History entry of a Lightning receive (mint).
pub fn create_lightning_receive_history(
    event_id: String,
    amount: u64,
    mint_url: String,
    quote_id: String,
    invoice: String,
    created_at: u64,
) -> (r: EnrichedHistoryItem)
    ensures
        base_is(r.base, event_id@, Direction::In, amount, created_at),
        r.fee_paid is None,
        opt_view(r.description) == Some("Lightning deposit"@),
        opt_view(r.mint_url) == Some(mint_url@),
        r.tx_type == Some(TransactionType::LightningReceive),
        opt_view(r.quote_id) == Some(quote_id@),
        opt_view(r.invoice) == Some(invoice@),
        r.error is None && r.preimage is None && r.keyset_info is None,
        r.p2pk_recipient is None && r.swap_details is None,
{
    EnrichedHistoryItem {
        base: sat_base(event_id, Direction::In, amount, created_at),
        fee_paid: None,
        description: Some(String::from_str("Lightning deposit")),
        mint_url: Some(mint_url),
        tx_type: Some(TransactionType::LightningReceive),
        error: None,
        quote_id: Some(quote_id),
        invoice: Some(invoice),
        preimage: None,
        keyset_info: None,
        p2pk_recipient: None,
        swap_details: None,
    }
}

/// History entry of a Lightning send (melt).
pub fn create_lightning_send_history(
    event_id: String,
    amount: u64,
    fee_paid: u64,
    mint_url: String,
    quote_id: String,
    invoice: String,
    preimage: Option<String>,
    created_at: u64,
) -> (r: EnrichedHistoryItem)
    ensures
        base_is(r.base, event_id@, Direction::Out, amount, created_at),
        r.fee_paid == Some(fee_paid),
        opt_view(r.description) == Some("Lightning payment"@),
        opt_view(r.mint_url) == Some(mint_url@),
        r.tx_type == Some(TransactionType::LightningSend),
        opt_view(r.quote_id) == Some(quote_id@),
        opt_view(r.invoice) == Some(invoice@),
        r.preimage == preimage,
        r.error is None && r.keyset_info is None && r.p2pk_recipient is None && r.swap_details is None,
{
    EnrichedHistoryItem {
        base: sat_base(event_id, Direction::Out, amount, created_at),
        fee_paid: Some(fee_paid),
        description: Some(String::from_str("Lightning payment")),
        mint_url: Some(mint_url),
        tx_type: Some(TransactionType::LightningSend),
        error: None,
        quote_id: Some(quote_id),
        invoice: Some(invoice),
        preimage,
        keyset_info: None,
        p2pk_recipient: None,
        swap_details: None,
    }
}

/// The first `n` characters of `s` (all of it when shorter).
pub open spec fn prefix_chars(s: Seq<char>, n: nat) -> Seq<char> {
    if s.len() <= n { s } else { s.subrange(0, n as int) }
}

/// History entry of a send locked to a public key.
pub fn create_p2pk_send_history(
    event_id: String,
    amount: u64,
    fee_paid: Option<u64>,
    mint_url: String,
    recipient: String,
    created_at: u64,
) -> (r: EnrichedHistoryItem)
    ensures
        base_is(r.base, event_id@, Direction::Out, amount, created_at),
        r.fee_paid == fee_paid,
        opt_view(r.description) == Some("P2PK send to "@ + prefix_chars(recipient@, 8)),
        opt_view(r.mint_url) == Some(mint_url@),
        r.tx_type == Some(TransactionType::P2pkSend),
        opt_view(r.p2pk_recipient) == Some(recipient@),
        r.error is None && r.quote_id is None && r.invoice is None && r.preimage is None,
        r.keyset_info is None && r.swap_details is None,
{
    let len = recipient.as_str().unicode_len();
    let short = if len <= 8 { recipient.clone() } else { substring(recipient.as_str(), 0, 8) };
    let mut description = String::from_str("P2PK send to ");
    description.append(short.as_str());
    EnrichedHistoryItem {
        base: sat_base(event_id, Direction::Out, amount, created_at),
        fee_paid,
        description: Some(description),
        mint_url: Some(mint_url),
        tx_type: Some(TransactionType::P2pkSend),
        error: None,
        quote_id: None,
        invoice: None,
        preimage: None,
        keyset_info: None,
        p2pk_recipient: Some(recipient),
        swap_details: None,
    }
}

/// Description of each swap reason.
pub open spec fn swap_description(reason: SwapReason) -> Seq<char> {
    match reason {
        SwapReason::Consolidation => "Proof consolidation"@,
        SwapReason::Optimization => "Denomination optimization"@,
        SwapReason::Migration => "Keyset migration"@,
        SwapReason::Privacy => "Privacy refresh"@,
        SwapReason::Split => "Amount split"@,
        SwapReason::Other => "Swap"@,
    }
}

/// History entry of a swap; its fee is what the swap did not return.
pub fn create_swap_history(
    event_id: String,
    mint_url: String,
    input_count: usize,
    output_count: usize,
    input_value: u64,
    output_value: u64,
    reason: SwapReason,
    created_at: u64,
) -> (r: EnrichedHistoryItem)
    ensures
        base_is(r.base, event_id@, Direction::In, output_value, created_at),
        r.fee_paid == Some((if input_value >= output_value { input_value - output_value } else { 0 }) as u64),
        opt_view(r.description) == Some(swap_description(reason)),
        opt_view(r.mint_url) == Some(mint_url@),
        r.tx_type == Some(TransactionType::Swap),
        r.swap_details == Some(SwapDetails { input_count, output_count, input_value, output_value, reason }),
        r.error is None && r.quote_id is None && r.invoice is None && r.preimage is None,
        r.keyset_info is None && r.p2pk_recipient is None,
{
    let fee_paid = input_value.saturating_sub(output_value);
    let description = match reason {
        SwapReason::Consolidation => String::from_str("Proof consolidation"),
        SwapReason::Optimization => String::from_str("Denomination optimization"),
        SwapReason::Migration => String::from_str("Keyset migration"),
        SwapReason::Privacy => String::from_str("Privacy refresh"),
        SwapReason::Split => String::from_str("Amount split"),
        SwapReason::Other => String::from_str("Swap"),
    };
    EnrichedHistoryItem {
        base: sat_base(event_id, Direction::In, output_value, created_at),
        fee_paid: Some(fee_paid),
        description: Some(description),
        mint_url: Some(mint_url),
        tx_type: Some(TransactionType::Swap),
        error: None,
        quote_id: None,
        invoice: None,
        preimage: None,
        keyset_info: None,
        p2pk_recipient: None,
        swap_details: Some(SwapDetails { input_count, output_count, input_value, output_value, reason }),
    }
}

} // verus!
