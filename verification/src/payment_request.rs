//! Paying a payment request (NUT-18): the amount, the mint to pay from, the
//! transport to deliver by, and the proofs the payment starts from.
use vstd::prelude::*;
use vstd::string::*;
use crate::keyset::{mint_proofs, proofs_of_mint, string_views};
use crate::lightning::{checked_sum, u64_sum};
use crate::mint_mgmt::{event_ids_of, tokens_of_mint};
use crate::text::{append_decimal, decimal, trim, trimmed_of};
use crate::types::{ProofData, TokenData, mint_matches, same_mint};

verus! {

/// The amount to pay, or why there is none: the request's own, else the
/// one given; it must be positive.
pub open spec fn payment_amount_result(request_amount: Option<u64>, custom_amount: Option<u64>) -> Result<u64, Seq<char>> {
    let a = match request_amount {
        Some(a) => Some(a),
        None => custom_amount,
    };
    match a {
        None => Err("Amount required but not specified in request or provided"@),
        Some(a) => if a == 0 {
            Err("Amount must be greater than 0"@)
        } else {
            Ok(a)
        },
    }
}

/// The amount to pay: the request's own, else the one given; it must be
/// positive.
pub fn resolve_payment_amount(request_amount: Option<u64>, custom_amount: Option<u64>) -> (r: Result<u64, String>)
    ensures
        match payment_amount_result(request_amount, custom_amount) {
            Ok(a) => r == Ok::<u64, String>(a),
            Err(e) => r matches Err(x) && x@ == e,
        },
        request_amount is None && custom_amount is None ==> (r matches Err(e) && e@
            == "Amount required but not specified in request or provided"@),
        request_amount matches Some(a) ==> (if a == 0 {
            r matches Err(e) && e@ == "Amount must be greater than 0"@
        } else {
            r == Ok::<u64, String>(a)
        }),
        request_amount is None ==> (custom_amount matches Some(a) ==> (if a == 0 {
            r matches Err(e) && e@ == "Amount must be greater than 0"@
        } else {
            r == Ok::<u64, String>(a)
        })),
{
    let amount = match (request_amount, custom_amount) {
        (Some(a), _) => a,
        (None, Some(a)) => a,
        (None, None) => {
            return Err(String::from_str("Amount required but not specified in request or provided"));
        },
    };
    if amount == 0 {
        return Err(String::from_str("Amount must be greater than 0"));
    }
    Ok(amount)
}

/// `m` names one of the accepted mints.
pub open spec fn accepted_by(m: Seq<char>, accepted: Seq<Seq<char>>) -> bool {
    exists|j: int| 0 <= j < accepted.len() && same_mint(m, #[trigger] accepted[j])
}

/// The first of our mints that the request accepts.
pub open spec fn first_accepted(ours: Seq<Seq<char>>, accepted: Seq<Seq<char>>) -> Option<Seq<char>>
    decreases ours.len(),
{
    if ours.len() == 0 {
        None
    } else if accepted_by(ours[0], accepted) {
        Some(ours[0])
    } else {
        first_accepted(ours.drop_first(), accepted)
    }
}

/// The mint to pay from: the first of ours that the request accepts, or,
/// when the request names no mints, our first.
pub open spec fn payment_mint(ours: Seq<Seq<char>>, accepted: Option<Seq<Seq<char>>>) -> Option<Seq<char>> {
    match accepted {
        Some(a) => first_accepted(ours, a),
        None => if ours.len() > 0 { Some(ours[0]) } else { None },
    }
}

/// Whether a mint is accepted.
fn is_accepted(m: &String, accepted: &Vec<String>) -> (r: bool)
    ensures
        r == accepted_by(m@, string_views(accepted@)),
{
    for j in 0..accepted.len()
        invariant
            forall|k: int| 0 <= k < j ==> !same_mint(m@, #[trigger] string_views(accepted@)[k]),
    {
        assert(string_views(accepted@)[j as int] == accepted@[j as int]@);
        if mint_matches(m.as_str(), accepted[j].as_str()) {
            return true;
        }
    }
    false
}

/// Picks the mint to pay a request from.
pub fn find_compatible_mint(our_mints: &Vec<String>, accepted_mints: &Option<Vec<String>>) -> (r: Result<String, String>)
    ensures
        ({
            let acc = match *accepted_mints {
                Some(v) => Some(string_views(v@)),
                None => None,
            };
            match payment_mint(string_views(our_mints@), acc) {
                Some(m) => r matches Ok(s) && s@ == m,
                None => r matches Err(e) && e@
                    == "No compatible mint found. You don't have tokens from any of the accepted mints."@,
            }
        }),
{
    let ghost ours = string_views(our_mints@);
    match accepted_mints {
        Some(acc) => {
            let mut i: usize = 0;
            assert(ours.skip(0) =~= ours);
            while i < our_mints.len()
                invariant
                    i <= our_mints@.len(),
                    ours == string_views(our_mints@),
                    *accepted_mints == Some(*acc),
                    first_accepted(ours, string_views(acc@)) == first_accepted(ours.skip(i as int), string_views(acc@)),
                decreases our_mints.len() - i,
            {
                assert(ours.skip(i as int)[0] == our_mints@[i as int]@);
                if is_accepted(&our_mints[i], acc) {
                    return Ok(our_mints[i].clone());
                }
                assert(ours.skip(i as int).drop_first() =~= ours.skip(i + 1));
                i = i + 1;
            }
            assert(ours.skip(i as int).len() == 0);
            Err(String::from_str("No compatible mint found. You don't have tokens from any of the accepted mints."))
        },
        None => {
            if our_mints.len() > 0 {
                assert(ours[0] == our_mints@[0]@);
                Ok(our_mints[0].clone())
            } else {
                Err(String::from_str("No compatible mint found. You don't have tokens from any of the accepted mints."))
            }
        },
    }
}

/// Refuses a payment larger than the mint's balance; `mint_label` is how
/// the mint is named in the message.
pub fn check_payment_balance(mint_label: &str, balance: u64, amount: u64) -> (r: Result<(), String>)
    ensures
        balance >= amount <==> r is Ok,
        r matches Err(e) ==> e@ == "Insufficient balance at "@ + mint_label@ + ". Have: "@ + decimal(balance as nat)
            + " sats, need: "@ + decimal(amount as nat) + " sats"@,
{
    if balance < amount {
        let mut e = String::from_str("Insufficient balance at ");
        e.append(mint_label);
        e.append(". Have: ");
        append_decimal(&mut e, balance);
        e.append(" sats, need: ");
        append_decimal(&mut e, amount);
        e.append(" sats");
        return Err(e);
    }
    Ok(())
}

/// A transport a payment request offers.
#[derive(Debug, Clone, Copy, PartialEq, Eq, Structural)]
pub enum TransportKind {
    /// Nostr (NIP-17 direct message).
    Nostr,
    /// HTTP POST.
    HttpPost,
}

/// Position of the first transport of a kind, computed.
fn find_kind(ts: &Vec<TransportKind>, k: TransportKind) -> (r: Option<usize>)
    ensures
        r matches Some(i) ==> i < ts@.len() && ts@[i as int] == k && forall|j: int| 0 <= j < i ==> ts@[j] != k,
        r is None ==> forall|j: int| 0 <= j < ts@.len() ==> ts@[j] != k,
{
    for i in 0..ts.len()
        invariant
            forall|j: int| 0 <= j < i ==> ts@[j] != k,
    {
        if ts[i] == k {
            return Some(i);
        }
    }
    None
}

/// The transport a payment is delivered by: the first Nostr one, else the
/// first HTTP one.
pub fn choose_transport(transports: &Vec<TransportKind>) -> (r: Option<usize>)
    ensures
        r matches Some(i) ==> i < transports@.len(),
        (exists|i: int| 0 <= i < transports@.len() && transports@[i] == TransportKind::Nostr) ==> (r matches Some(i)
            && transports@[i as int] == TransportKind::Nostr && forall|j: int| 0 <= j < i ==> transports@[j]
            != TransportKind::Nostr),
        !(exists|i: int| 0 <= i < transports@.len() && transports@[i] == TransportKind::Nostr) ==> (match r {
            Some(i) => transports@[i as int] == TransportKind::HttpPost && forall|j: int| 0 <= j < i ==> transports@[j]
                != TransportKind::HttpPost,
            None => forall|j: int| 0 <= j < transports@.len() ==> transports@[j] != TransportKind::HttpPost,
        }),
{
    match find_kind(transports, TransportKind::Nostr) {
        Some(i) => Some(i),
        None => find_kind(transports, TransportKind::HttpPost),
    }
}

/// What paying from a mint starts from: all its proofs and the event ids of
/// its tokens (replaced once the payment is made).
pub fn payment_inputs(tokens: &Vec<TokenData>, mint_url: &str) -> (r: (Vec<ProofData>, Vec<String>))
    ensures
        r.0@ == mint_proofs(tokens@, mint_url@),
        string_views(r.1@) == event_ids_of(tokens_of_mint(tokens@, mint_url@)),
{
    let mut ids: Vec<String> = Vec::new();
    for i in 0..tokens.len()
        invariant
            string_views(ids@) == event_ids_of(tokens_of_mint(tokens@.take(i as int), mint_url@)),
    {
        assert(tokens@.take(i + 1).drop_last() =~= tokens@.take(i as int));
        if mint_matches(tokens[i].mint.as_str(), mint_url) {
            let ghost before = ids@;
            ids.push(tokens[i].event_id.clone());
            assert(string_views(ids@) =~= string_views(before).push(tokens@[i as int].event_id@));
            assert(event_ids_of(tokens_of_mint(tokens@.take(i + 1), mint_url@)) =~= event_ids_of(
                tokens_of_mint(tokens@.take(i as int), mint_url@),
            ).push(tokens@[i as int].event_id@));
        }
    }
    assert(tokens@.take(tokens.len() as int) =~= tokens@);
    (proofs_of_mint(tokens, mint_url), ids)
}

/// Where waiting for a payment to a request stands.
#[derive(Debug, Clone, PartialEq)]
pub enum PaymentRequestProgress {
    WaitingForPayment,
    Received { amount: u64 },
    Cancelled,
    Error { message: String },
}

/// How a wait for a payment ends: the progress to report (none: leave it
/// as it is), whether the request is forgotten, and what the wait returns.
#[derive(Debug)]
pub struct PaymentWaitEnd {
    pub progress: Option<PaymentRequestProgress>,
    pub forget_request: bool,
    pub result: Result<u64, String>,
}

/// What a wait returns once its request was cancelled.
pub open spec fn cancelled_text() -> Seq<char> {
    "Payment request cancelled"@
}

/// Before each round of waiting: a request that is no longer pending was
/// cancelled; past the timeout the wait gives up (and forgets the request);
/// otherwise it goes on (`None`).
pub fn payment_wait_round(still_pending: bool, elapsed_secs: u64, timeout_secs: u64) -> (r: Option<PaymentWaitEnd>)
    ensures
        !still_pending ==> (r matches Some(e) && (e.progress is None && !e.forget_request && (e.result matches Err(
            m) && m@ == cancelled_text()))),
        still_pending && elapsed_secs > timeout_secs ==> (r matches Some(e) && (e.progress == Some(
            PaymentRequestProgress::Cancelled) && e.forget_request && (e.result matches Err(m) && m@
            == "Timeout waiting for payment"@))),
        still_pending && elapsed_secs <= timeout_secs ==> r is None,
{
    if !still_pending {
        return Some(
            PaymentWaitEnd {
                progress: None,
                forget_request: false,
                result: Err(String::from_str("Payment request cancelled")),
            },
        );
    }
    if elapsed_secs > timeout_secs {
        return Some(
            PaymentWaitEnd {
                progress: Some(PaymentRequestProgress::Cancelled),
                forget_request: true,
                result: Err(String::from_str("Timeout waiting for payment")),
            },
        );
    }
    None
}

/// The value of a received payment: the sum of its proof amounts, or
/// `u64::MAX` when that sum does not fit.
pub fn payload_amount(amounts: &Vec<u64>) -> (r: u64)
    ensures
        u64_sum(amounts@) <= u64::MAX ==> r == u64_sum(amounts@),
        u64_sum(amounts@) > u64::MAX ==> r == u64::MAX,
{
    match checked_sum(amounts) {
        Some(t) => t,
        None => u64::MAX,
    }
}

/// After a payment payload arrived and its proofs were received (or not):
/// once received the wait ends with the payload's value; otherwise it goes
/// on (`None`).
pub fn payment_wait_payload(amounts: &Vec<u64>, received: bool) -> (r: Option<PaymentWaitEnd>)
    ensures
        !received ==> r is None,
        received ==> (r matches Some(e) && e.forget_request && ({
            let v = if u64_sum(amounts@) <= u64::MAX { u64_sum(amounts@) } else { u64::MAX as int };
            &&& e.progress matches Some(PaymentRequestProgress::Received { amount }) && amount == v
            &&& e.result matches Ok(a) && a == v
        })),
{
    if !received {
        return None;
    }
    let amount = payload_amount(amounts);
    Some(
        PaymentWaitEnd {
            progress: Some(PaymentRequestProgress::Received { amount }),
            forget_request: true,
            result: Ok(amount),
        },
    )
}

/// When the relays' notifications end: a request no longer pending was
/// cancelled; otherwise the wait fails and forgets the request.
pub fn payment_wait_closed(still_pending: bool) -> (r: PaymentWaitEnd)
    ensures
        !still_pending ==> (r.progress is None && !r.forget_request && (r.result matches Err(m) && m@
            == cancelled_text())),
        still_pending ==> ((r.progress matches Some(PaymentRequestProgress::Error { message }) && message@
            == "Connection closed"@) && r.forget_request && (r.result matches Err(m) && m@
            == "Connection closed while waiting for payment"@)),
{
    if !still_pending {
        return PaymentWaitEnd {
            progress: None,
            forget_request: false,
            result: Err(String::from_str("Payment request cancelled")),
        };
    }
    PaymentWaitEnd {
        progress: Some(PaymentRequestProgress::Error { message: String::from_str("Connection closed") }),
        forget_request: true,
        result: Err(String::from_str("Connection closed while waiting for payment")),
    }
}

/// The value of the proofs a payment delivered, which must fit in 64 bits.
pub fn received_payment_amount(amounts: &Vec<u64>) -> (r: Result<u64, String>)
    ensures
        u64_sum(amounts@) <= u64::MAX ==> r == Ok::<u64, String>(u64_sum(amounts@) as u64),
        u64_sum(amounts@) > u64::MAX ==> (r matches Err(e) && e@ == "Amount overflow"@),
{
    match checked_sum(amounts) {
        Some(t) => Ok(t),
        None => Err(String::from_str("Amount overflow")),
    }
}

/// A payment request (NUT-18), as the Cashu library holds it.
#[verifier::external_type_specification]
#[verifier::external_body]
pub struct ExPaymentRequest(cdk::nuts::PaymentRequest);

/// What `PaymentRequest::from_str` gives for a text (either encoding,
/// `creqA` or bech32m `creqb`): the request, or the display text of the
/// error. A function of the text alone.
pub uninterp spec fn decoded_request(text: Seq<char>) -> Result<cdk::nuts::PaymentRequest, Seq<char>>;

/// Decodes a payment request with `PaymentRequest::from_str`, the error
/// shown as its display text.
#[verifier::external_body]
fn decode_payment_request(text: &str) -> (r: Result<cdk::nuts::PaymentRequest, String>)
    ensures
        match r {
            Ok(pr) => decoded_request(text@) == Ok::<cdk::nuts::PaymentRequest, Seq<char>>(pr),
            Err(e) => decoded_request(text@) == Err::<cdk::nuts::PaymentRequest, Seq<char>>(e@),
        },
{
    <cdk::nuts::PaymentRequest as core::str::FromStr>::from_str(text).map_err(|e| e.to_string())
}

/// Parses a payment request, ignoring surrounding whitespace.
pub fn parse_payment_request(request_string: &str) -> (r: Result<cdk::nuts::PaymentRequest, String>)
    ensures
        match decoded_request(trimmed_of(request_string@)) {
            Ok(pr) => r == Ok::<cdk::nuts::PaymentRequest, String>(pr),
            Err(m) => r matches Err(e) && e@ == "Failed to parse payment request: "@ + m,
        },
{
    let t = trim(request_string);
    match decode_payment_request(t) {
        Ok(pr) => Ok(pr),
        Err(e) => {
            let mut m = String::from_str("Failed to parse payment request: ");
            m.append(e.as_str());
            Err(m)
        },
    }
}

/// What a payment reads of a payment request: the amount asked for (in
/// the request's unit), the mints accepted, and the kinds of the
/// transports offered, in the request's order.
#[derive(Debug)]
pub struct PaymentRequestDetails {
    pub amount: Option<u64>,
    pub mints: Vec<String>,
    pub transports: Vec<TransportKind>,
}

/// A decoded payment request's amount (`u64::from` its `Amount`), its
/// mints' URLs as text, and its transports' types: a function of the
/// request alone.
pub uninterp spec fn request_details_of(pr: cdk::nuts::PaymentRequest) -> (Option<u64>, Seq<Seq<char>>, Seq<TransportKind>);

/// Reads a payment request's amount, mints (`MintUrl`'s `Display`) and
/// transport types (`TransportType`, one arm per variant).
#[verifier::external_body]
fn request_details(pr: &cdk::nuts::PaymentRequest) -> (r: PaymentRequestDetails)
    ensures
        (r.amount, string_views(r.mints@), r.transports@) == request_details_of(*pr),
{
    PaymentRequestDetails {
        amount: pr.amount.map(u64::from),
        mints: pr.mints.iter().map(|m| m.to_string()).collect(),
        transports: pr.transports.iter().map(|t| match t._type {
            cdk::nuts::TransportType::Nostr => TransportKind::Nostr,
            cdk::nuts::TransportType::HttpPost => TransportKind::HttpPost,
        }).collect(),
    }
}

/// The mints a request restricts payment to: none when it lists none.
pub open spec fn accepted_of(mints: Seq<Seq<char>>) -> Option<Seq<Seq<char>>> {
    if mints.len() == 0 {
        None
    } else {
        Some(mints)
    }
}

/// The kind of transport a payment goes by: Nostr when offered, else
/// HTTP POST when offered, else none (delivered in band).
pub open spec fn chosen_transport(ts: Seq<TransportKind>) -> Option<TransportKind> {
    if ts.contains(TransportKind::Nostr) {
        Some(TransportKind::Nostr)
    } else if ts.contains(TransportKind::HttpPost) {
        Some(TransportKind::HttpPost)
    } else {
        None
    }
}

/// How a payment request is to be paid: how much, from which mint, and by
/// which transport.
#[derive(Debug)]
pub struct PaymentPlan {
    pub amount: u64,
    pub mint_url: String,
    pub transport: Option<TransportKind>,
}

/// The plan of a payment, or why there is none.
pub open spec fn plan_result(
    amount: Option<u64>,
    mints: Seq<Seq<char>>,
    transports: Seq<TransportKind>,
    custom_amount: Option<u64>,
    ours: Seq<Seq<char>>,
) -> Result<(u64, Seq<char>, Option<TransportKind>), Seq<char>> {
    match payment_amount_result(amount, custom_amount) {
        Err(e) => Err(e),
        Ok(a) => match payment_mint(ours, accepted_of(mints)) {
            None => Err("No compatible mint found. You don't have tokens from any of the accepted mints."@),
            Some(m) => Ok((a, m, chosen_transport(transports))),
        },
    }
}

/// Plans paying a request from what it asks for: the amount (its own, or
/// the one given), the first of our mints that it accepts, and the
/// transport.
pub fn plan_payment(details: &PaymentRequestDetails, custom_amount: Option<u64>, our_mints: &Vec<String>) -> (r: Result<
    PaymentPlan,
    String,
>)
    ensures
        match plan_result(
            details.amount,
            string_views(details.mints@),
            details.transports@,
            custom_amount,
            string_views(our_mints@),
        ) {
            Ok((a, m, t)) => r matches Ok(p) && p.amount == a && p.mint_url@ == m && p.transport == t,
            Err(e) => r matches Err(x) && x@ == e,
        },
{
    let amount = match resolve_payment_amount(details.amount, custom_amount) {
        Ok(a) => a,
        Err(e) => {
            return Err(e);
        },
    };
    let accepted = if details.mints.len() == 0 {
        None
    } else {
        Some(details.mints.clone())
    };
    proof {
        let acc = match &accepted {
            Some(v) => Some(string_views(v@)),
            None => None,
        };
        assert(acc == accepted_of(string_views(details.mints@)));
    }
    let mint_url = match find_compatible_mint(our_mints, &accepted) {
        Ok(m) => m,
        Err(e) => {
            return Err(e);
        },
    };
    let transport = match choose_transport(&details.transports) {
        Some(i) => Some(details.transports[i]),
        None => None,
    };
    proof {
        let ts = details.transports@;
        if ts.contains(TransportKind::Nostr) {
            let w = choose|w: int| 0 <= w < ts.len() && ts[w] == TransportKind::Nostr;
            assert(ts[w] == TransportKind::Nostr);
        } else if ts.contains(TransportKind::HttpPost) {
            let w = choose|w: int| 0 <= w < ts.len() && ts[w] == TransportKind::HttpPost;
            assert(!(exists|i: int| 0 <= i < ts.len() && ts[i] == TransportKind::Nostr));
            assert(ts[w] == TransportKind::HttpPost);
        } else {
            assert(!(exists|i: int| 0 <= i < ts.len() && ts[i] == TransportKind::Nostr));
        }
    }
    Ok(PaymentPlan { amount, mint_url, transport })
}

/// Plans paying a decoded payment request (see `plan_payment`).
pub fn plan_request_payment(request: &cdk::nuts::PaymentRequest, custom_amount: Option<u64>, our_mints: &Vec<String>) -> (r: Result<
    PaymentPlan,
    String,
>)
    ensures
        match plan_result(
            request_details_of(*request).0,
            request_details_of(*request).1,
            request_details_of(*request).2,
            custom_amount,
            string_views(our_mints@),
        ) {
            Ok((a, m, t)) => r matches Ok(p) && p.amount == a && p.mint_url@ == m && p.transport == t,
            Err(e) => r matches Err(x) && x@ == e,
        },
{
    let details = request_details(request);
    plan_payment(&details, custom_amount, our_mints)
}

} // verus!
