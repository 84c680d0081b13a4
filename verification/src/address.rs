//! Payment address recognition: Lightning Addresses (user@domain),
//! LNURL strings and Lightning invoices, and the LNURL-pay request rules.
use vstd::prelude::*;
use vstd::string::*;
use crate::text::{
    chars_of, find_char, first_occurrence, has_prefix, lemma_first_occurrence_unique, lowercase_of,
    starts_with, substring, to_lowercase, trim, trimmed_of, decimal, append_decimal,
};

verus! {

/// Type of payment address.
#[derive(Debug, Clone, Copy, PartialEq, Eq, Structural)]
pub enum AddressType {
    /// Lightning Address (user@domain.com)
    Lightning,
    /// BIP353 DNS-based address (user@domain)
    Bip353,
    /// LNURL (lnurl1...)
    Lnurl,
    /// Lightning Invoice (lnbc...)
    Invoice,
    /// Unknown format
    Unknown,
}

/// A parsed payment address.
#[derive(Debug)]
pub struct PaymentAddress {
    /// Original address string, as given.
    pub original: String,
    /// Address type.
    pub address_type: AddressType,
    /// Username portion (for user@domain formats).
    pub username: Option<String>,
    /// Domain portion (for user@domain formats).
    pub domain: Option<String>,
}

/// The view of an optional string.
pub open spec fn opt_str_view(o: Option<String>) -> Option<Seq<char>> {
    match o {
        Some(s) => Some(s@),
        None => None,
    }
}

/// The text that address recognition looks at: trimmed, then lowercased.
pub open spec fn normalized_text(s: Seq<char>) -> Seq<char> {
    lowercase_of(trimmed_of(s))
}

/// A Lightning invoice prefix (`lnbc`, `lntb` or `lnbcrt`) starts `t`.
pub open spec fn has_invoice_prefix(t: Seq<char>) -> bool {
    has_prefix(t, "lnbc"@) || has_prefix(t, "lntb"@) || has_prefix(t, "lnbcrt"@)
}

/// `t` starts with `lnurl`.
pub open spec fn has_lnurl_prefix(t: Seq<char>) -> bool {
    has_prefix(t, "lnurl"@)
}

/// `t` split at its first `@`: the part before and the part after.
pub open spec fn split_at_first_at(t: Seq<char>) -> Option<(Seq<char>, Seq<char>)> {
    if exists|i: int| first_occurrence(t, '@', i) {
        let i = choose|i: int| first_occurrence(t, '@', i);
        Some((t.subrange(0, i), t.subrange(i + 1, t.len() as int)))
    } else {
        None
    }
}

/// The user and domain of a Lightning Address: both non-empty, and the
/// domain holds a dot.
pub open spec fn lightning_parts(t: Seq<char>) -> Option<(Seq<char>, Seq<char>)> {
    if let Some((user, domain)) = split_at_first_at(t) {
        if user.len() > 0 && domain.len() > 0 && domain.contains('.') {
            Some((user, domain))
        } else {
            None
        }
    } else {
        None
    }
}

/// The type that parsing gives to an address string.
pub open spec fn address_type_of(s: Seq<char>) -> AddressType {
    let t = normalized_text(s);
    if has_invoice_prefix(t) {
        AddressType::Invoice
    } else if has_lnurl_prefix(t) {
        AddressType::Lnurl
    } else if lightning_parts(t) is Some {
        AddressType::Lightning
    } else {
        AddressType::Unknown
    }
}

/// The LNURL-pay endpoint of a Lightning Address.
pub open spec fn lnurlp_url_of(user: Seq<char>, domain: Seq<char>) -> Seq<char> {
    "https://"@ + domain + "/.well-known/lnurlp/"@ + user
}

impl PaymentAddress {
    /// Parses a payment address string.
    pub fn parse(address: &str) -> (r: Self)
        ensures
            r.original@ == address@,
            r.address_type == address_type_of(address@),
            r.address_type is Lightning ==> {
                let (user, domain) = lightning_parts(normalized_text(address@))->0;
                &&& opt_str_view(r.username) == Some(user)
                &&& opt_str_view(r.domain) == Some(domain)
            },
            !(r.address_type is Lightning) ==> r.username is None && r.domain is None,
    {
        let lowered = to_lowercase(trim(address));
        let t = chars_of(lowered.as_str());
        let ghost tv = normalized_text(address@);
        assert(t@ == tv);
        let original = String::from_str(address);
        if starts_with(&t, &chars_of("lnbc")) || starts_with(&t, &chars_of("lntb"))
            || starts_with(&t, &chars_of("lnbcrt")) {
            return PaymentAddress {
                original,
                address_type: AddressType::Invoice,
                username: None,
                domain: None,
            };
        }
        if starts_with(&t, &chars_of("lnurl")) {
            return PaymentAddress {
                original,
                address_type: AddressType::Lnurl,
                username: None,
                domain: None,
            };
        }
        match find_char(&t, '@') {
            Some(i) => {
                proof {
                    assert forall|k: int| first_occurrence(tv, '@', k) implies k == i by {
                        lemma_first_occurrence_unique(tv, '@', i as int, k);
                    }
                }
                let user = substring(lowered.as_str(), 0, i);
                let domain = substring(lowered.as_str(), i + 1, t.len());
                let dchars = chars_of(domain.as_str());
                let has_dot = match find_char(&dchars, '.') {
                    Some(k) => {
                        assert(dchars@[k as int] == '.');
                        true
                    },
                    None => false,
                };
                if i > 0 && i + 1 < t.len() && has_dot {
                    return PaymentAddress {
                        original,
                        address_type: AddressType::Lightning,
                        username: Some(user),
                        domain: Some(domain),
                    };
                }
            },
            None => {
                assert(!exists|k: int| first_occurrence(tv, '@', k));
            },
        }
        PaymentAddress { original, address_type: AddressType::Unknown, username: None, domain: None }
    }

    /// Whether this address can be resolved to an invoice (not an invoice already).
    pub fn is_resolvable(&self) -> (r: bool)
        ensures
            r == (self.address_type is Lightning || self.address_type is Bip353
                || self.address_type is Lnurl),
    {
        match self.address_type {
            AddressType::Lightning | AddressType::Bip353 | AddressType::Lnurl => true,
            _ => false,
        }
    }

    /// Whether this is a Lightning Address (user@domain).
    pub fn is_lightning_address(&self) -> (r: bool)
        ensures
            r == self.address_type is Lightning,
    {
        match self.address_type {
            AddressType::Lightning => true,
            _ => false,
        }
    }

    /// The LNURL-pay endpoint URL, when both user and domain are known.
    pub fn lnurlp_url(&self) -> (r: Option<String>)
        ensures
            match (opt_str_view(self.username), opt_str_view(self.domain)) {
                (Some(user), Some(domain)) => opt_str_view(r) == Some(lnurlp_url_of(user, domain)),
                _ => r is None,
            },
    {
        match (&self.username, &self.domain) {
            (Some(user), Some(domain)) => {
                let mut url = String::from_str("https://");
                url.append(domain.as_str());
                url.append("/.well-known/lnurlp/");
                url.append(user.as_str());
                Some(url)
            },
            _ => None,
        }
    }
}

/// Whether a string parses as a Lightning Address.
pub fn is_lightning_address(s: &str) -> (r: bool)
    ensures
        r == (address_type_of(s@) is Lightning),
{
    let parsed = PaymentAddress::parse(s);
    parsed.is_lightning_address()
}

/// Whether a string looks like a Lightning invoice.
pub fn is_lightning_invoice(s: &str) -> (r: bool)
    ensures
        r == has_invoice_prefix(normalized_text(s@)),
{
    let lowered = to_lowercase(trim(s));
    let t = chars_of(lowered.as_str());
    starts_with(&t, &chars_of("lnbc")) || starts_with(&t, &chars_of("lntb"))
        || starts_with(&t, &chars_of("lnbcrt"))
}

/// Whether a string looks like an LNURL.
pub fn is_lnurl(s: &str) -> (r: bool)
    ensures
        r == has_lnurl_prefix(normalized_text(s@)),
{
    let lowered = to_lowercase(trim(s));
    let t = chars_of(lowered.as_str());
    starts_with(&t, &chars_of("lnurl"))
}

/// The minimal fields of an LNURL-pay response.
#[derive(Debug)]
pub struct LnurlPayResponse {
    /// Callback URL to get an invoice from.
    pub callback: String,
    /// Minimum sendable amount in millisats.
    pub min_sendable: u64,
    /// Maximum sendable amount in millisats.
    pub max_sendable: u64,
    /// Comment length allowed (0 if comments are not allowed).
    pub comment_allowed: u16,
    /// Metadata string.
    pub metadata: String,
    /// Tag (should be "payRequest").
    pub tag: String,
}

/// Percent-encoding of a string as `urlencoding::encode` computes it.
pub uninterp spec fn url_encoded(s: Seq<char>) -> Seq<char>;

/// Percent-encodes a string with `urlencoding::encode`.
#[verifier::external_body]
fn url_encode(s: &str) -> (r: String)
    ensures
        r@ == url_encoded(s@),
{
    urlencoding::encode(s).into_owned()
}

/// The first `n` characters of `s` (all of it when it is shorter).
pub open spec fn take_chars(s: Seq<char>, n: nat) -> Seq<char> {
    if s.len() <= n { s } else { s.subrange(0, n as int) }
}

/// The invoice request URL for an amount and an optional comment.
pub open spec fn invoice_url_of(
    callback: Seq<char>,
    amount_msats: nat,
    comment: Option<Seq<char>>,
    comment_allowed: nat,
) -> Seq<char> {
    let base = callback + "?amount="@ + decimal(amount_msats);
    match comment {
        Some(c) => if comment_allowed > 0 {
            base + "&comment="@ + url_encoded(take_chars(c, comment_allowed))
        } else {
            base
        },
        None => base,
    }
}

/// The view of an optional string slice.
pub open spec fn opt_slice_view(o: Option<&str>) -> Option<Seq<char>> {
    match o {
        Some(s) => Some(s@),
        None => None,
    }
}

/// Validates an amount against an LNURL-pay response and builds the
/// callback URL that requests an invoice for it.
pub fn invoice_request_url(
    lnurl_pay: &LnurlPayResponse,
    amount_msats: u64,
    comment: Option<&str>,
) -> (r: Result<String, String>)
    ensures
        amount_msats < lnurl_pay.min_sendable ==> (r matches Err(e) && e@ == "Amount "@ + decimal(
            amount_msats as nat,
        ) + " msats is below minimum "@ + decimal(lnurl_pay.min_sendable as nat) + " msats"@),
        lnurl_pay.min_sendable <= amount_msats && amount_msats > lnurl_pay.max_sendable ==> (r matches Err(e)
            && e@ == "Amount "@ + decimal(amount_msats as nat) + " msats exceeds maximum "@ + decimal(
            lnurl_pay.max_sendable as nat,
        ) + " msats"@),
        lnurl_pay.min_sendable <= amount_msats <= lnurl_pay.max_sendable ==> (r matches Ok(url)
            && url@ == invoice_url_of(
            lnurl_pay.callback@,
            amount_msats as nat,
            opt_slice_view(comment),
            lnurl_pay.comment_allowed as nat,
        )),
{
    if amount_msats < lnurl_pay.min_sendable {
        let mut e = String::from_str("Amount ");
        append_decimal(&mut e, amount_msats);
        e.append(" msats is below minimum ");
        append_decimal(&mut e, lnurl_pay.min_sendable);
        e.append(" msats");
        return Err(e);
    }
    if amount_msats > lnurl_pay.max_sendable {
        let mut e = String::from_str("Amount ");
        append_decimal(&mut e, amount_msats);
        e.append(" msats exceeds maximum ");
        append_decimal(&mut e, lnurl_pay.max_sendable);
        e.append(" msats");
        return Err(e);
    }
    let mut url = lnurl_pay.callback.clone();
    url.append("?amount=");
    append_decimal(&mut url, amount_msats);
    match comment {
        Some(text) => {
            if lnurl_pay.comment_allowed > 0 {
                let allowed = lnurl_pay.comment_allowed as usize;
                let len = text.unicode_len();
                let truncated = if len <= allowed {
                    String::from_str(text)
                } else {
                    substring(text, 0, allowed)
                };
                url.append("&comment=");
                let encoded = url_encode(truncated.as_str());
                url.append(encoded.as_str());
            }
        },
        None => {},
    }
    Ok(url)
}

/// Checks that an LNURL-pay response carries the `payRequest` tag.
pub fn check_pay_response_tag(lnurl_pay: &LnurlPayResponse) -> (r: Result<(), String>)
    ensures
        lnurl_pay.tag@ == "payRequest"@ <==> r is Ok,
        r matches Err(e) ==> e@ == "Invalid LNURL response tag: "@ + lnurl_pay.tag@,
{
    let expected = String::from_str("payRequest");
    if lnurl_pay.tag == expected {
        Ok(())
    } else {
        let mut e = String::from_str("Invalid LNURL response tag: ");
        e.append(lnurl_pay.tag.as_str());
        Err(e)
    }
}

/// Converts sats to millisats, refusing amounts whose millisat value
/// overflows a `u64`.
pub fn sats_to_msats(amount_sats: u64) -> (r: Result<u64, String>)
    ensures
        amount_sats * 1000 <= u64::MAX ==> r == Ok::<u64, String>((amount_sats * 1000) as u64),
        amount_sats * 1000 > u64::MAX ==> (r matches Err(e)
            && e@ == "Amount overflow when converting to millisatoshis"@),
{
    match amount_sats.checked_mul(1000) {
        Some(v) => Ok(v),
        None => Err(String::from_str("Amount overflow when converting to millisatoshis")),
    }
}

/// Checks that an address string is a Lightning Address before it is
/// resolved; the error is the one the wallet shows.
pub fn require_lightning_address(address: &str) -> (r: Result<PaymentAddress, String>)
    ensures
        r matches Ok(p) ==> p.original@ == address@ && p.address_type is Lightning && {
            let (user, domain) = lightning_parts(normalized_text(address@))->0;
            &&& opt_str_view(p.username) == Some(user)
            &&& opt_str_view(p.domain) == Some(domain)
        },
        (address_type_of(address@) is Lightning) <==> r is Ok,
        r matches Err(e) ==> e@ == "Not a valid Lightning Address (expected user@domain.com)"@,
{
    let parsed = PaymentAddress::parse(address);
    if !parsed.is_lightning_address() {
        return Err(String::from_str("Not a valid Lightning Address (expected user@domain.com)"));
    }
    Ok(parsed)
}

} // verus!
