//! NUT error codes and recognition of error messages.
use vstd::prelude::*;
use vstd::string::*;
use crate::text::{append_decimal, chars_of, contains_seq, decimal, has_infix, has_prefix, lowercase_of, to_lowercase};

verus! {

/// NUT error codes from the Cashu specification.
#[derive(Debug, Clone, Copy, PartialEq, Eq, Structural)]
pub enum NutErrorCode {
    /// Token already spent (11001)
    TokenAlreadySpent,
    /// Token pending (11002)
    TokenPending,
    /// Transaction unbalanced (11003)
    TransactionUnbalanced,
    /// Unit not supported by mint (11004)
    UnsupportedUnit,
    /// Minting disabled (11005)
    MintingDisabled,
    /// Quote not paid (11006)
    QuoteNotPaid,
    /// Quote expired (11007)
    QuoteExpired,
    /// Quote pending (11008)
    QuotePending,
    /// Blinded message already signed (11009)
    BlindedMessageAlreadySigned,
    /// Amount out of limit range (11010)
    AmountOutOfLimitRange,
    /// Duplicate inputs (11011)
    DuplicateInputs,
    /// Duplicate outputs (11012)
    DuplicateOutputs,
    /// Multiple units in single request (11013)
    MultipleUnits,
    /// Unit mismatch (11014)
    UnitMismatch,
    /// Witness missing or invalid (11015)
    WitnessMissingOrInvalid,
    /// Duplicate signature (11016)
    DuplicateSignature,
    /// Lightning error (20001)
    LightningError,
    /// Invoice already paid (20002)
    InvoiceAlreadyPaid,
    /// Clear auth required (21001)
    ClearAuthRequired,
    /// Clear auth failed (21002)
    ClearAuthFailed,
    /// Blind auth required (22001)
    BlindAuthRequired,
    /// Blind auth failed (22002)
    BlindAuthFailed,
    /// Unknown/generic error (65535)
    Unknown,
}

/// The numeric value of each code.
pub open spec fn code_value(c: NutErrorCode) -> u16 {
    match c {
        NutErrorCode::TokenAlreadySpent => 11001,
        NutErrorCode::TokenPending => 11002,
        NutErrorCode::TransactionUnbalanced => 11003,
        NutErrorCode::UnsupportedUnit => 11004,
        NutErrorCode::MintingDisabled => 11005,
        NutErrorCode::QuoteNotPaid => 11006,
        NutErrorCode::QuoteExpired => 11007,
        NutErrorCode::QuotePending => 11008,
        NutErrorCode::BlindedMessageAlreadySigned => 11009,
        NutErrorCode::AmountOutOfLimitRange => 11010,
        NutErrorCode::DuplicateInputs => 11011,
        NutErrorCode::DuplicateOutputs => 11012,
        NutErrorCode::MultipleUnits => 11013,
        NutErrorCode::UnitMismatch => 11014,
        NutErrorCode::WitnessMissingOrInvalid => 11015,
        NutErrorCode::DuplicateSignature => 11016,
        NutErrorCode::LightningError => 20001,
        NutErrorCode::InvoiceAlreadyPaid => 20002,
        NutErrorCode::ClearAuthRequired => 21001,
        NutErrorCode::ClearAuthFailed => 21002,
        NutErrorCode::BlindAuthRequired => 22001,
        NutErrorCode::BlindAuthFailed => 22002,
        NutErrorCode::Unknown => 65535,
    }
}

/// The code named by a number; numbers without a code give `Unknown`.
pub open spec fn code_of(n: u16) -> NutErrorCode {
    if n == 11001 { NutErrorCode::TokenAlreadySpent }
    else if n == 11002 { NutErrorCode::TokenPending }
    else if n == 11003 { NutErrorCode::TransactionUnbalanced }
    else if n == 11004 { NutErrorCode::UnsupportedUnit }
    else if n == 11005 { NutErrorCode::MintingDisabled }
    else if n == 11006 { NutErrorCode::QuoteNotPaid }
    else if n == 11007 { NutErrorCode::QuoteExpired }
    else if n == 11008 { NutErrorCode::QuotePending }
    else if n == 11009 { NutErrorCode::BlindedMessageAlreadySigned }
    else if n == 11010 { NutErrorCode::AmountOutOfLimitRange }
    else if n == 11011 { NutErrorCode::DuplicateInputs }
    else if n == 11012 { NutErrorCode::DuplicateOutputs }
    else if n == 11013 { NutErrorCode::MultipleUnits }
    else if n == 11014 { NutErrorCode::UnitMismatch }
    else if n == 11015 { NutErrorCode::WitnessMissingOrInvalid }
    else if n == 11016 { NutErrorCode::DuplicateSignature }
    else if n == 20001 { NutErrorCode::LightningError }
    else if n == 20002 { NutErrorCode::InvoiceAlreadyPaid }
    else if n == 21001 { NutErrorCode::ClearAuthRequired }
    else if n == 21002 { NutErrorCode::ClearAuthFailed }
    else if n == 22001 { NutErrorCode::BlindAuthRequired }
    else if n == 22002 { NutErrorCode::BlindAuthFailed }
    else { NutErrorCode::Unknown }
}

/// Display text of each code.
pub open spec fn code_text(c: NutErrorCode) -> Seq<char> {
    match c {
        NutErrorCode::TokenAlreadySpent => "Token already spent (11001)"@,
        NutErrorCode::TokenPending => "Token pending (11002)"@,
        NutErrorCode::TransactionUnbalanced => "Transaction unbalanced (11003)"@,
        NutErrorCode::UnsupportedUnit => "Unsupported unit (11004)"@,
        NutErrorCode::MintingDisabled => "Minting disabled (11005)"@,
        NutErrorCode::QuoteNotPaid => "Quote not paid (11006)"@,
        NutErrorCode::QuoteExpired => "Quote expired (11007)"@,
        NutErrorCode::QuotePending => "Quote pending (11008)"@,
        NutErrorCode::BlindedMessageAlreadySigned => "Blinded message already signed (11009)"@,
        NutErrorCode::AmountOutOfLimitRange => "Amount out of limit range (11010)"@,
        NutErrorCode::DuplicateInputs => "Duplicate inputs (11011)"@,
        NutErrorCode::DuplicateOutputs => "Duplicate outputs (11012)"@,
        NutErrorCode::MultipleUnits => "Multiple units (11013)"@,
        NutErrorCode::UnitMismatch => "Unit mismatch (11014)"@,
        NutErrorCode::WitnessMissingOrInvalid => "Witness missing or invalid (11015)"@,
        NutErrorCode::DuplicateSignature => "Duplicate signature (11016)"@,
        NutErrorCode::LightningError => "Lightning error (20001)"@,
        NutErrorCode::InvoiceAlreadyPaid => "Invoice already paid (20002)"@,
        NutErrorCode::ClearAuthRequired => "Clear auth required (21001)"@,
        NutErrorCode::ClearAuthFailed => "Clear auth failed (21002)"@,
        NutErrorCode::BlindAuthRequired => "Blind auth required (22001)"@,
        NutErrorCode::BlindAuthFailed => "Blind auth failed (22002)"@,
        NutErrorCode::Unknown => "Unknown error (65535)"@,
    }
}

impl NutErrorCode {
    /// The code for a number; unknown numbers give `Unknown`.
    pub fn from_code(code: u16) -> (r: Self)
        ensures
            r == code_of(code),
    {
        match code {
            11001 => NutErrorCode::TokenAlreadySpent,
            11002 => NutErrorCode::TokenPending,
            11003 => NutErrorCode::TransactionUnbalanced,
            11004 => NutErrorCode::UnsupportedUnit,
            11005 => NutErrorCode::MintingDisabled,
            11006 => NutErrorCode::QuoteNotPaid,
            11007 => NutErrorCode::QuoteExpired,
            11008 => NutErrorCode::QuotePending,
            11009 => NutErrorCode::BlindedMessageAlreadySigned,
            11010 => NutErrorCode::AmountOutOfLimitRange,
            11011 => NutErrorCode::DuplicateInputs,
            11012 => NutErrorCode::DuplicateOutputs,
            11013 => NutErrorCode::MultipleUnits,
            11014 => NutErrorCode::UnitMismatch,
            11015 => NutErrorCode::WitnessMissingOrInvalid,
            11016 => NutErrorCode::DuplicateSignature,
            20001 => NutErrorCode::LightningError,
            20002 => NutErrorCode::InvoiceAlreadyPaid,
            21001 => NutErrorCode::ClearAuthRequired,
            21002 => NutErrorCode::ClearAuthFailed,
            22001 => NutErrorCode::BlindAuthRequired,
            22002 => NutErrorCode::BlindAuthFailed,
            _ => NutErrorCode::Unknown,
        }
    }

    /// The numeric code.
    pub fn code(&self) -> (r: u16)
        ensures
            r == code_value(*self),
    {
        match self {
            NutErrorCode::TokenAlreadySpent => 11001,
            NutErrorCode::TokenPending => 11002,
            NutErrorCode::TransactionUnbalanced => 11003,
            NutErrorCode::UnsupportedUnit => 11004,
            NutErrorCode::MintingDisabled => 11005,
            NutErrorCode::QuoteNotPaid => 11006,
            NutErrorCode::QuoteExpired => 11007,
            NutErrorCode::QuotePending => 11008,
            NutErrorCode::BlindedMessageAlreadySigned => 11009,
            NutErrorCode::AmountOutOfLimitRange => 11010,
            NutErrorCode::DuplicateInputs => 11011,
            NutErrorCode::DuplicateOutputs => 11012,
            NutErrorCode::MultipleUnits => 11013,
            NutErrorCode::UnitMismatch => 11014,
            NutErrorCode::WitnessMissingOrInvalid => 11015,
            NutErrorCode::DuplicateSignature => 11016,
            NutErrorCode::LightningError => 20001,
            NutErrorCode::InvoiceAlreadyPaid => 20002,
            NutErrorCode::ClearAuthRequired => 21001,
            NutErrorCode::ClearAuthFailed => 21002,
            NutErrorCode::BlindAuthRequired => 22001,
            NutErrorCode::BlindAuthFailed => 22002,
            NutErrorCode::Unknown => 65535,
        }
    }

    /// Whether the error is worth retrying.
    pub fn is_recoverable(&self) -> (r: bool)
        ensures
            r == (*self is TokenPending || *self is QuotePending || *self is LightningError
                || *self is Unknown),
    {
        match self {
            NutErrorCode::TokenPending | NutErrorCode::QuotePending | NutErrorCode::LightningError
            | NutErrorCode::Unknown => true,
            _ => false,
        }
    }

    /// Whether the tokens involved are unusable.
    pub fn is_token_lost(&self) -> (r: bool)
        ensures
            r == (*self is TokenAlreadySpent || *self is BlindedMessageAlreadySigned),
    {
        match self {
            NutErrorCode::TokenAlreadySpent | NutErrorCode::BlindedMessageAlreadySigned => true,
            _ => false,
        }
    }

    /// Display text: the name of the error and its number.
    pub fn description(&self) -> (r: &'static str)
        ensures
            r@ == code_text(*self),
    {
        match self {
            NutErrorCode::TokenAlreadySpent => "Token already spent (11001)",
            NutErrorCode::TokenPending => "Token pending (11002)",
            NutErrorCode::TransactionUnbalanced => "Transaction unbalanced (11003)",
            NutErrorCode::UnsupportedUnit => "Unsupported unit (11004)",
            NutErrorCode::MintingDisabled => "Minting disabled (11005)",
            NutErrorCode::QuoteNotPaid => "Quote not paid (11006)",
            NutErrorCode::QuoteExpired => "Quote expired (11007)",
            NutErrorCode::QuotePending => "Quote pending (11008)",
            NutErrorCode::BlindedMessageAlreadySigned => "Blinded message already signed (11009)",
            NutErrorCode::AmountOutOfLimitRange => "Amount out of limit range (11010)",
            NutErrorCode::DuplicateInputs => "Duplicate inputs (11011)",
            NutErrorCode::DuplicateOutputs => "Duplicate outputs (11012)",
            NutErrorCode::MultipleUnits => "Multiple units (11013)",
            NutErrorCode::UnitMismatch => "Unit mismatch (11014)",
            NutErrorCode::WitnessMissingOrInvalid => "Witness missing or invalid (11015)",
            NutErrorCode::DuplicateSignature => "Duplicate signature (11016)",
            NutErrorCode::LightningError => "Lightning error (20001)",
            NutErrorCode::InvoiceAlreadyPaid => "Invoice already paid (20002)",
            NutErrorCode::ClearAuthRequired => "Clear auth required (21001)",
            NutErrorCode::ClearAuthFailed => "Clear auth failed (21002)",
            NutErrorCode::BlindAuthRequired => "Blind auth required (22001)",
            NutErrorCode::BlindAuthFailed => "Blind auth failed (22002)",
            NutErrorCode::Unknown => "Unknown error (65535)",
        }
    }
}

/// Reading a code back from its number gives the code; a number read as a
/// known code is that code's number.
pub proof fn lemma_code_round_trip(c: NutErrorCode, n: u16)
    ensures
        code_of(code_value(c)) == c,
        !(code_of(n) is Unknown) ==> code_value(code_of(n)) == n,
{
}

/// The message, lowercased, says that tokens were already spent.
pub open spec fn says_token_spent(lower: Seq<char>) -> bool {
    has_infix(lower, "already spent"@) || has_infix(lower, "already redeemed"@) || has_infix(lower, "token pending"@)
}

/// Whether an error message indicates that tokens are already spent.
pub fn is_token_spent_error_string(error_msg: &str) -> (r: bool)
    ensures
        r == says_token_spent(lowercase_of(error_msg@)),
{
    let lower = to_lowercase(error_msg);
    let msg = chars_of(lower.as_str());
    contains_seq(&msg, &chars_of("already spent")) || contains_seq(&msg, &chars_of("already redeemed"))
        || contains_seq(&msg, &chars_of("token pending"))
}

/// Whether an error message indicates insufficient funds.
pub fn is_insufficient_funds_error_string(error_msg: &str) -> (r: bool)
    ensures
        r == has_infix(lowercase_of(error_msg@), "insufficient"@),
{
    let lower = to_lowercase(error_msg);
    let msg = chars_of(lower.as_str());
    contains_seq(&msg, &chars_of("insufficient"))
}

/// The error type of the Cashu Development Kit.
#[verifier::external_type_specification]
#[verifier::external_body]
pub struct ExCdkError(cdk::Error);

/// The `cdk::Error` variants that the wallet tells apart.
#[derive(Debug, Clone, Copy, PartialEq, Eq, Structural)]
pub enum CdkErrorKind {
    TokenAlreadySpent,
    TokenPending,
    UnsupportedUnit,
    MintingDisabled,
    PaymentFailed,
    RequestAlreadyPaid,
    SignatureMissingOrInvalid,
    TransactionUnbalanced,
    BlindAuthRequired,
    ClearAuthRequired,
    BlindAuthFailed,
    ClearAuthFailed,
    InsufficientFunds,
    DleqProofNotProvided,
    CouldNotVerifyDleq,
    Other,
}

/// Which of the told-apart variants a `cdk::Error` is (`Other` for the
/// rest): a function of the error alone.
pub uninterp spec fn cdk_kind_of(e: cdk::Error) -> CdkErrorKind;

/// The display text of a `cdk::Error`: a function of the error alone.
pub uninterp spec fn cdk_text_of(e: cdk::Error) -> Seq<char>;

/// Tells apart the variants of a `cdk::Error`, one arm per variant; the
/// result is the error's kind.
#[verifier::external_body]
pub(crate) fn cdk_error_kind(e: &cdk::Error) -> (r: CdkErrorKind)
    ensures
        r == cdk_kind_of(*e),
{
    match e {
        cdk::Error::TokenAlreadySpent => CdkErrorKind::TokenAlreadySpent, cdk::Error::TokenPending => CdkErrorKind::TokenPending,
        cdk::Error::UnsupportedUnit => CdkErrorKind::UnsupportedUnit, cdk::Error::MintingDisabled => CdkErrorKind::MintingDisabled,
        cdk::Error::PaymentFailed => CdkErrorKind::PaymentFailed, cdk::Error::RequestAlreadyPaid => CdkErrorKind::RequestAlreadyPaid,
        cdk::Error::SignatureMissingOrInvalid => CdkErrorKind::SignatureMissingOrInvalid, cdk::Error::TransactionUnbalanced(..) => CdkErrorKind::TransactionUnbalanced,
        cdk::Error::BlindAuthRequired => CdkErrorKind::BlindAuthRequired, cdk::Error::ClearAuthRequired => CdkErrorKind::ClearAuthRequired,
        cdk::Error::BlindAuthFailed => CdkErrorKind::BlindAuthFailed, cdk::Error::ClearAuthFailed => CdkErrorKind::ClearAuthFailed,
        cdk::Error::InsufficientFunds => CdkErrorKind::InsufficientFunds, cdk::Error::DleqProofNotProvided => CdkErrorKind::DleqProofNotProvided,
        cdk::Error::CouldNotVerifyDleq => CdkErrorKind::CouldNotVerifyDleq, _ => CdkErrorKind::Other,
    }
}

/// The display text of a `cdk::Error` (its `Display` impl, through
/// `to_string`): the error's text.
#[verifier::external_body]
pub(crate) fn cdk_error_message(e: &cdk::Error) -> (r: String)
    ensures
        r@ == cdk_text_of(*e),
{
    e.to_string()
}

/// The NUT code that each CDK error kind maps to.
pub open spec fn nut_code_for_kind(k: CdkErrorKind) -> NutErrorCode {
    match k {
        CdkErrorKind::TokenAlreadySpent => NutErrorCode::TokenAlreadySpent,
        CdkErrorKind::TokenPending => NutErrorCode::TokenPending,
        CdkErrorKind::UnsupportedUnit => NutErrorCode::UnsupportedUnit,
        CdkErrorKind::MintingDisabled => NutErrorCode::MintingDisabled,
        CdkErrorKind::PaymentFailed => NutErrorCode::LightningError,
        CdkErrorKind::RequestAlreadyPaid => NutErrorCode::InvoiceAlreadyPaid,
        CdkErrorKind::SignatureMissingOrInvalid => NutErrorCode::WitnessMissingOrInvalid,
        CdkErrorKind::TransactionUnbalanced => NutErrorCode::TransactionUnbalanced,
        CdkErrorKind::BlindAuthRequired => NutErrorCode::BlindAuthRequired,
        CdkErrorKind::ClearAuthRequired => NutErrorCode::ClearAuthRequired,
        CdkErrorKind::BlindAuthFailed => NutErrorCode::BlindAuthFailed,
        CdkErrorKind::ClearAuthFailed => NutErrorCode::ClearAuthFailed,
        _ => NutErrorCode::Unknown,
    }
}

/// The NUT code for a CDK error kind.
pub fn nut_code_for_cdk_kind(kind: CdkErrorKind) -> (r: NutErrorCode)
    ensures
        r == nut_code_for_kind(kind),
{
    match kind {
        CdkErrorKind::TokenAlreadySpent => NutErrorCode::TokenAlreadySpent,
        CdkErrorKind::TokenPending => NutErrorCode::TokenPending,
        CdkErrorKind::UnsupportedUnit => NutErrorCode::UnsupportedUnit,
        CdkErrorKind::MintingDisabled => NutErrorCode::MintingDisabled,
        CdkErrorKind::PaymentFailed => NutErrorCode::LightningError,
        CdkErrorKind::RequestAlreadyPaid => NutErrorCode::InvoiceAlreadyPaid,
        CdkErrorKind::SignatureMissingOrInvalid => NutErrorCode::WitnessMissingOrInvalid,
        CdkErrorKind::TransactionUnbalanced => NutErrorCode::TransactionUnbalanced,
        CdkErrorKind::BlindAuthRequired => NutErrorCode::BlindAuthRequired,
        CdkErrorKind::ClearAuthRequired => NutErrorCode::ClearAuthRequired,
        CdkErrorKind::BlindAuthFailed => NutErrorCode::BlindAuthFailed,
        CdkErrorKind::ClearAuthFailed => NutErrorCode::ClearAuthFailed,
        _ => NutErrorCode::Unknown,
    }
}

/// Maps a CDK error to its NUT error code.
pub fn cdk_error_to_nut_code(error: &cdk::Error) -> (r: NutErrorCode)
    ensures
        r == nut_code_for_kind(cdk_kind_of(*error)),
{
    let kind = cdk_error_kind(error);
    nut_code_for_cdk_kind(kind)
}

/// Whether a CDK error of a kind, with a display text, means the tokens are
/// already spent: by its kind, or else by its text.
pub open spec fn cdk_spent(kind: CdkErrorKind, text: Seq<char>) -> bool {
    kind is TokenAlreadySpent || kind is TokenPending || says_token_spent(lowercase_of(text))
}

/// Decides from a CDK error's kind and text whether tokens are already spent.
pub fn token_spent_from_cdk_parts(kind: CdkErrorKind, text: &str) -> (r: bool)
    ensures
        r == cdk_spent(kind, text@),
{
    match kind {
        CdkErrorKind::TokenAlreadySpent | CdkErrorKind::TokenPending => true,
        _ => is_token_spent_error_string(text),
    }
}

/// Whether a CDK error indicates that tokens are already spent.
pub fn is_token_already_spent_error(error: &cdk::Error) -> (r: bool)
    ensures
        r == cdk_spent(cdk_kind_of(*error), cdk_text_of(*error)),
{
    let kind = cdk_error_kind(error);
    let text = cdk_error_message(error);
    token_spent_from_cdk_parts(kind, text.as_str())
}

/// Whether a CDK error of a kind, with a display text, means insufficient funds.
pub open spec fn cdk_insufficient(kind: CdkErrorKind, text: Seq<char>) -> bool {
    kind is InsufficientFunds || has_infix(lowercase_of(text), "insufficient"@)
}

/// Decides from a CDK error's kind and text whether funds are insufficient.
pub fn insufficient_from_cdk_parts(kind: CdkErrorKind, text: &str) -> (r: bool)
    ensures
        r == cdk_insufficient(kind, text@),
{
    match kind {
        CdkErrorKind::InsufficientFunds => true,
        _ => is_insufficient_funds_error_string(text),
    }
}

/// Whether a CDK error indicates insufficient funds.
pub fn is_insufficient_funds_error(error: &cdk::Error) -> (r: bool)
    ensures
        r == cdk_insufficient(cdk_kind_of(*error), cdk_text_of(*error)),
{
    let kind = cdk_error_kind(error);
    let text = cdk_error_message(error);
    insufficient_from_cdk_parts(kind, text.as_str())
}

/// Whether a CDK error says that DLEQ proofs are missing (NUT-12).
pub fn is_dleq_missing_error(error: &cdk::Error) -> (r: bool)
    ensures
        r == (cdk_kind_of(*error) is DleqProofNotProvided),
{
    let kind = cdk_error_kind(error);
    match kind {
        CdkErrorKind::DleqProofNotProvided => true,
        _ => false,
    }
}

/// Whether a CDK error says that DLEQ verification failed (NUT-12).
pub fn is_dleq_verification_error(error: &cdk::Error) -> (r: bool)
    ensures
        r == (cdk_kind_of(*error) is CouldNotVerifyDleq),
{
    let kind = cdk_error_kind(error);
    match kind {
        CdkErrorKind::CouldNotVerifyDleq => true,
        _ => false,
    }
}

/// Errors of wallet operations.
#[derive(Debug)]
pub enum CashuWalletError {
    WalletNotInitialized,
    SeedDerivation(String),
    SignerUnavailable,
    TermsNotAccepted,
    MintNotFound { mint_url: String },
    MintConnection { mint_url: String, message: String },
    MintOperationLocked { mint_url: String },
    MintFeatureNotSupported { feature: String },
    InvalidToken { reason: String },
    TokenAlreadySpent,
    TokenPending,
    InsufficientFunds { available: u64, required: u64 },
    NoSpendableProofs,
    QuoteNotFound { quote_id: String },
    QuoteExpired { quote_id: String },
    QuoteUnpaid { quote_id: String },
    QuoteFailed { message: String },
    /// DLEQ proofs are missing from a token (the mint may not support NUT-12).
    DleqProofMissing,
    /// DLEQ proof verification failed (invalid signature).
    DleqVerificationFailed,
    InvalidPubkey(String),
    P2PKConditionsNotMet(String),
    NostrPublish(String),
    Encryption(String),
    Decryption(String),
    NostrEventNotFound,
    Database(String),
    IndexedDb(String),
    Cdk(cdk::Error),
    TransactionNotFound { tx_id: u64 },
    InvalidTransactionState { expected: String, actual: String },
    Internal(String),
    Cancelled,
    Timeout(String),
}

/// The display text of each wallet error but `Cdk`, whose text is that of
/// the CDK error behind `"CDK error: "`.
pub open spec fn wallet_error_text(e: CashuWalletError) -> Seq<char> {
    match e {
        CashuWalletError::WalletNotInitialized => "Wallet not initialized"@,
        CashuWalletError::SeedDerivation(m) => "Seed derivation failed: "@ + m@,
        CashuWalletError::SignerUnavailable => "Signer not available"@,
        CashuWalletError::TermsNotAccepted => "Terms not accepted"@,
        CashuWalletError::MintNotFound { mint_url } => "Mint not found: "@ + mint_url@,
        CashuWalletError::MintConnection { mint_url, message } => "Failed to connect to mint "@ + mint_url@ + ": "@ + message@,
        CashuWalletError::MintOperationLocked { mint_url } => "Mint operation already in progress: "@ + mint_url@,
        CashuWalletError::MintFeatureNotSupported { feature } => "Mint does not support required feature: "@ + feature@,
        CashuWalletError::InvalidToken { reason } => "Invalid token format: "@ + reason@,
        CashuWalletError::TokenAlreadySpent => "Token already spent"@,
        CashuWalletError::TokenPending => "Token pending at mint"@,
        CashuWalletError::InsufficientFunds { available, required } => "Insufficient funds: available="@
            + decimal(available as nat) + ", required="@ + decimal(required as nat),
        CashuWalletError::NoSpendableProofs => "No spendable proofs available"@,
        CashuWalletError::QuoteNotFound { quote_id } => "Quote not found: "@ + quote_id@,
        CashuWalletError::QuoteExpired { quote_id } => "Quote expired: "@ + quote_id@,
        CashuWalletError::QuoteUnpaid { quote_id } => "Quote unpaid: "@ + quote_id@,
        CashuWalletError::QuoteFailed { message } => "Quote failed: "@ + message@,
        CashuWalletError::DleqProofMissing => "Token does not contain DLEQ proofs for offline verification"@,
        CashuWalletError::DleqVerificationFailed => "DLEQ proof verification failed - invalid signature"@,
        CashuWalletError::InvalidPubkey(m) => "Invalid pubkey format: "@ + m@,
        CashuWalletError::P2PKConditionsNotMet(m) => "P2PK spending conditions not met: "@ + m@,
        CashuWalletError::NostrPublish(m) => "Failed to publish Nostr event: "@ + m@,
        CashuWalletError::Encryption(m) => "Failed to encrypt content: "@ + m@,
        CashuWalletError::Decryption(m) => "Failed to decrypt content: "@ + m@,
        CashuWalletError::NostrEventNotFound => "Nostr event not found"@,
        CashuWalletError::Database(m) => "Database error: "@ + m@,
        CashuWalletError::IndexedDb(m) => "IndexedDB error: "@ + m@,
        CashuWalletError::Cdk(e) => "CDK error: "@ + cdk_text_of(e),
        CashuWalletError::TransactionNotFound { tx_id } => "Transaction not found: "@ + decimal(tx_id as nat),
        CashuWalletError::InvalidTransactionState { expected, actual } => "Transaction in invalid state: expected "@
            + expected@ + ", got "@ + actual@,
        CashuWalletError::Internal(m) => "Internal error: "@ + m@,
        CashuWalletError::Cancelled => "Operation cancelled"@,
        CashuWalletError::Timeout(m) => "Timeout: "@ + m@,
    }
}

/// The wallet error that an error message is read as.
pub open spec fn error_from_text(msg: Seq<char>) -> CashuWalletError {
    let lower = lowercase_of(msg);
    if has_infix(lower, "already spent"@) || has_infix(lower, "already redeemed"@) {
        CashuWalletError::TokenAlreadySpent
    } else if has_infix(lower, "token pending"@) {
        CashuWalletError::TokenPending
    } else if has_infix(lower, "not initialized"@) && !has_infix(lower, "insufficient"@) && !has_infix(lower, "expired"@) {
        CashuWalletError::WalletNotInitialized
    } else {
        CashuWalletError::Internal(arbitrary())
    }
}

/// Appends the text of `s`.
fn push_str(out: &mut String, s: &String)
    ensures
        final(out)@ == old(out)@ + s@,
{
    out.append(s.as_str());
}

impl CashuWalletError {
    /// The display text of the error.
    pub fn message(&self) -> (r: String)
        ensures
            r@ == wallet_error_text(*self),
    {
        match self {
            CashuWalletError::WalletNotInitialized => String::from_str("Wallet not initialized"),
            CashuWalletError::SeedDerivation(m) => {
                let mut r = String::from_str("Seed derivation failed: ");
                push_str(&mut r, m);
                r
            },
            CashuWalletError::SignerUnavailable => String::from_str("Signer not available"),
            CashuWalletError::TermsNotAccepted => String::from_str("Terms not accepted"),
            CashuWalletError::MintNotFound { mint_url } => {
                let mut r = String::from_str("Mint not found: ");
                push_str(&mut r, mint_url);
                r
            },
            CashuWalletError::MintConnection { mint_url, message } => {
                let mut r = String::from_str("Failed to connect to mint ");
                push_str(&mut r, mint_url);
                r.append(": ");
                push_str(&mut r, message);
                r
            },
            CashuWalletError::MintOperationLocked { mint_url } => {
                let mut r = String::from_str("Mint operation already in progress: ");
                push_str(&mut r, mint_url);
                r
            },
            CashuWalletError::MintFeatureNotSupported { feature } => {
                let mut r = String::from_str("Mint does not support required feature: ");
                push_str(&mut r, feature);
                r
            },
            CashuWalletError::InvalidToken { reason } => {
                let mut r = String::from_str("Invalid token format: ");
                push_str(&mut r, reason);
                r
            },
            CashuWalletError::TokenAlreadySpent => String::from_str("Token already spent"),
            CashuWalletError::TokenPending => String::from_str("Token pending at mint"),
            CashuWalletError::InsufficientFunds { available, required } => {
                let mut r = String::from_str("Insufficient funds: available=");
                append_decimal(&mut r, *available);
                r.append(", required=");
                append_decimal(&mut r, *required);
                r
            },
            CashuWalletError::NoSpendableProofs => String::from_str("No spendable proofs available"),
            CashuWalletError::QuoteNotFound { quote_id } => {
                let mut r = String::from_str("Quote not found: ");
                push_str(&mut r, quote_id);
                r
            },
            CashuWalletError::QuoteExpired { quote_id } => {
                let mut r = String::from_str("Quote expired: ");
                push_str(&mut r, quote_id);
                r
            },
            CashuWalletError::QuoteUnpaid { quote_id } => {
                let mut r = String::from_str("Quote unpaid: ");
                push_str(&mut r, quote_id);
                r
            },
            CashuWalletError::QuoteFailed { message } => {
                let mut r = String::from_str("Quote failed: ");
                push_str(&mut r, message);
                r
            },
            CashuWalletError::DleqProofMissing => String::from_str(
                "Token does not contain DLEQ proofs for offline verification",
            ),
            CashuWalletError::DleqVerificationFailed => String::from_str(
                "DLEQ proof verification failed - invalid signature",
            ),
            CashuWalletError::InvalidPubkey(m) => {
                let mut r = String::from_str("Invalid pubkey format: ");
                push_str(&mut r, m);
                r
            },
            CashuWalletError::P2PKConditionsNotMet(m) => {
                let mut r = String::from_str("P2PK spending conditions not met: ");
                push_str(&mut r, m);
                r
            },
            CashuWalletError::NostrPublish(m) => {
                let mut r = String::from_str("Failed to publish Nostr event: ");
                push_str(&mut r, m);
                r
            },
            CashuWalletError::Encryption(m) => {
                let mut r = String::from_str("Failed to encrypt content: ");
                push_str(&mut r, m);
                r
            },
            CashuWalletError::Decryption(m) => {
                let mut r = String::from_str("Failed to decrypt content: ");
                push_str(&mut r, m);
                r
            },
            CashuWalletError::NostrEventNotFound => String::from_str("Nostr event not found"),
            CashuWalletError::Database(m) => {
                let mut r = String::from_str("Database error: ");
                push_str(&mut r, m);
                r
            },
            CashuWalletError::IndexedDb(m) => {
                let mut r = String::from_str("IndexedDB error: ");
                push_str(&mut r, m);
                r
            },
            CashuWalletError::Cdk(err) => {
                let mut r = String::from_str("CDK error: ");
                let text = cdk_error_message(err);
                push_str(&mut r, &text);
                r
            },
            CashuWalletError::TransactionNotFound { tx_id } => {
                let mut r = String::from_str("Transaction not found: ");
                append_decimal(&mut r, *tx_id);
                r
            },
            CashuWalletError::InvalidTransactionState { expected, actual } => {
                let mut r = String::from_str("Transaction in invalid state: expected ");
                push_str(&mut r, expected);
                r.append(", got ");
                push_str(&mut r, actual);
                r
            },
            CashuWalletError::Internal(m) => {
                let mut r = String::from_str("Internal error: ");
                push_str(&mut r, m);
                r
            },
            CashuWalletError::Cancelled => String::from_str("Operation cancelled"),
            CashuWalletError::Timeout(m) => {
                let mut r = String::from_str("Timeout: ");
                push_str(&mut r, m);
                r
            },
        }
    }

    /// Whether the error means the tokens were already spent: by its variant,
    /// or else by its text.
    pub fn is_token_spent(&self) -> (r: bool)
        ensures
            r == (*self is TokenAlreadySpent || *self is TokenPending || (*self matches CashuWalletError::Cdk(
                e,
            ) && cdk_kind_of(e) is TokenAlreadySpent) || says_token_spent(lowercase_of(wallet_error_text(*self)))),
    {
        match self {
            CashuWalletError::TokenAlreadySpent | CashuWalletError::TokenPending => true,
            CashuWalletError::Cdk(err) => {
                let kind = cdk_error_kind(err);
                match kind {
                    CdkErrorKind::TokenAlreadySpent => true,
                    _ => {
                        let text = self.message();
                        is_token_spent_error_string(text.as_str())
                    },
                }
            },
            _ => {
                let text = self.message();
                is_token_spent_error_string(text.as_str())
            },
        }
    }

    /// Whether the error means insufficient funds.
    pub fn is_insufficient_funds(&self) -> (r: bool)
        ensures
            r == (*self is InsufficientFunds || *self is NoSpendableProofs || (*self matches CashuWalletError::Cdk(
                e,
            ) && cdk_kind_of(e) is InsufficientFunds) || has_infix(
                lowercase_of(wallet_error_text(*self)),
                "insufficient"@,
            )),
    {
        match self {
            CashuWalletError::InsufficientFunds { .. } | CashuWalletError::NoSpendableProofs => true,
            CashuWalletError::Cdk(err) => {
                let kind = cdk_error_kind(err);
                match kind {
                    CdkErrorKind::InsufficientFunds => true,
                    _ => {
                        let text = self.message();
                        is_insufficient_funds_error_string(text.as_str())
                    },
                }
            },
            _ => {
                let text = self.message();
                is_insufficient_funds_error_string(text.as_str())
            },
        }
    }

    /// Whether the error means a quote expired.
    pub fn is_quote_expired(&self) -> (r: bool)
        ensures
            r == (*self is QuoteExpired || has_infix(
                lowercase_of(wallet_error_text(*self)),
                "expired"@,
            )),
    {
        match self {
            CashuWalletError::QuoteExpired { .. } => true,
            _ => {
                let text = self.message();
                let lower = to_lowercase(text.as_str());
                contains_seq(&chars_of(lower.as_str()), &chars_of("expired"))
            },
        }
    }

    /// Whether the error is a connection or network error.
    pub fn is_connection_error(&self) -> (r: bool)
        ensures
            r == (*self is MintConnection || *self is Timeout),
    {
        match self {
            CashuWalletError::MintConnection { .. } | CashuWalletError::Timeout(_) => true,
            _ => false,
        }
    }

    /// Whether the error says that DLEQ proofs are missing.
    pub fn is_dleq_missing(&self) -> (r: bool)
        ensures
            r == (*self is DleqProofMissing || (*self matches CashuWalletError::Cdk(e) && cdk_kind_of(
                e,
            ) is DleqProofNotProvided)),
    {
        match self {
            CashuWalletError::DleqProofMissing => true,
            CashuWalletError::Cdk(err) => {
                let kind = cdk_error_kind(err);
                match kind {
                    CdkErrorKind::DleqProofNotProvided => true,
                    _ => false,
                }
            },
            _ => false,
        }
    }

    /// Whether the error says that DLEQ verification failed.
    pub fn is_dleq_invalid(&self) -> (r: bool)
        ensures
            r == (*self is DleqVerificationFailed || (*self matches CashuWalletError::Cdk(e) && cdk_kind_of(
                e,
            ) is CouldNotVerifyDleq)),
    {
        match self {
            CashuWalletError::DleqVerificationFailed => true,
            CashuWalletError::Cdk(err) => {
                let kind = cdk_error_kind(err);
                match kind {
                    CdkErrorKind::CouldNotVerifyDleq => true,
                    _ => false,
                }
            },
            _ => false,
        }
    }

    /// Reads an error message as a wallet error: spent and pending tokens
    /// and an uninitialized wallet are recognized; anything else keeps its
    /// text as an internal error.
    pub fn from_string(s: String) -> (r: Self)
        ensures
            r is Internal <==> error_from_text(s@) is Internal,
            !(r is Internal) ==> r == error_from_text(s@),
            r matches CashuWalletError::Internal(m) ==> m@ == s@,
    {
        let lower = to_lowercase(s.as_str());
        let t = chars_of(lower.as_str());
        if contains_seq(&t, &chars_of("already spent")) || contains_seq(&t, &chars_of("already redeemed")) {
            return CashuWalletError::TokenAlreadySpent;
        }
        if contains_seq(&t, &chars_of("token pending")) {
            return CashuWalletError::TokenPending;
        }
        if contains_seq(&t, &chars_of("insufficient")) {
            return CashuWalletError::Internal(s);
        }
        if contains_seq(&t, &chars_of("expired")) {
            return CashuWalletError::Internal(s);
        }
        if contains_seq(&t, &chars_of("not initialized")) {
            return CashuWalletError::WalletNotInitialized;
        }
        CashuWalletError::Internal(s)
    }

    /// The NUT error code of the error, when it has one.
    pub fn nut_error_code(&self) -> (r: Option<NutErrorCode>)
        ensures
            *self is TokenAlreadySpent ==> r == Some(NutErrorCode::TokenAlreadySpent),
            *self is TokenPending ==> r == Some(NutErrorCode::TokenPending),
            *self is QuoteExpired ==> r == Some(NutErrorCode::QuoteExpired),
            *self is QuoteUnpaid ==> r == Some(NutErrorCode::QuoteNotPaid),
            *self matches CashuWalletError::Cdk(e) ==> r == Some(nut_code_for_kind(cdk_kind_of(e))),
            !(*self is TokenAlreadySpent || *self is TokenPending || *self is QuoteExpired
                || *self is QuoteUnpaid || *self is Cdk) ==> r is None,
    {
        match self {
            CashuWalletError::TokenAlreadySpent => Some(NutErrorCode::TokenAlreadySpent),
            CashuWalletError::TokenPending => Some(NutErrorCode::TokenPending),
            CashuWalletError::QuoteExpired { .. } => Some(NutErrorCode::QuoteExpired),
            CashuWalletError::QuoteUnpaid { .. } => Some(NutErrorCode::QuoteNotPaid),
            CashuWalletError::Cdk(err) => Some(nut_code_for_cdk_kind(cdk_error_kind(err))),
            _ => None,
        }
    }

    /// Whether the error is worth retrying: by its NUT code, and errors
    /// without a code count as recoverable.
    pub fn is_recoverable(&self) -> (r: bool)
        ensures
            !(*self is Cdk) ==> r == (*self is TokenPending || !(*self is TokenAlreadySpent
                || *self is QuoteExpired || *self is QuoteUnpaid)),
            *self matches CashuWalletError::Cdk(e) ==> r == (nut_code_for_kind(cdk_kind_of(e)) is TokenPending
                || nut_code_for_kind(cdk_kind_of(e)) is LightningError || nut_code_for_kind(cdk_kind_of(e)) is Unknown),
    {
        match self.nut_error_code() {
            Some(code) => code.is_recoverable(),
            None => true,
        }
    }

    /// Whether the tokens involved in the error are lost.
    pub fn are_tokens_lost(&self) -> (r: bool)
        ensures
            !(*self is Cdk) ==> r == (*self is TokenAlreadySpent),
            *self matches CashuWalletError::Cdk(e) ==> r == (cdk_kind_of(e) is TokenAlreadySpent),
    {
        match self.nut_error_code() {
            Some(code) => code.is_token_lost(),
            None => false,
        }
    }
}

} // verus!
