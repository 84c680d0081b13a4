//! Receiving ecash: reading a pasted token string, the messages shown when
//! reading, verifying or redeeming fails, publishing the new token event,
//! and the preview of a token's memo.
use vstd::prelude::*;
use vstd::string::*;
use crate::errors::{CdkErrorKind, cdk_error_kind, cdk_error_message, cdk_kind_of, cdk_text_of};
use crate::text::{
    append_decimal, chars_of, contains_text, decimal, has_infix, has_prefix, lowercase_of, starts_with, substring,
    to_lowercase,
};
use crate::types::{normalize_mint_url, normalized_mint};

verus! {

/// A control character (general category Cc): U+0000 to U+001F and
/// U+007F to U+009F.
pub open spec fn is_control_char(c: char) -> bool {
    (c as int) <= 0x1f || (0x7f <= (c as int) && (c as int) <= 0x9f)
}

/// Whether a char is a control character, as `char::is_control` answers.
pub fn char_is_control(c: char) -> (r: bool)
    ensures
        r == is_control_char(c),
{
    let u = c as u32;
    u <= 0x1f || (0x7f <= u && u <= 0x9f)
}

/// Bytes of a char in UTF-8.
pub open spec fn char_utf8_len(c: char) -> int {
    if (c as int) < 0x80 {
        1
    } else if (c as int) < 0x800 {
        2
    } else if (c as int) < 0x10000 {
        3
    } else {
        4
    }
}

/// Bytes of a string in UTF-8.
pub open spec fn utf8_len(s: Seq<char>) -> int
    decreases s.len(),
{
    if s.len() == 0 { 0 } else { utf8_len(s.drop_last()) + char_utf8_len(s.last()) }
}

/// Bytes of a char in UTF-8, computed.
fn char_len_utf8(c: char) -> (r: usize)
    ensures
        r == char_utf8_len(c),
{
    let u = c as u32;
    if u < 0x80 {
        1
    } else if u < 0x800 {
        2
    } else if u < 0x10000 {
        3
    } else {
        4
    }
}

/// The base64 part of a token string: what follows `cashuA` or `cashuB`,
/// or nothing for another prefix.
pub open spec fn base64_part(t: Seq<char>) -> Seq<char> {
    if has_prefix(t, "cashuA"@) || has_prefix(t, "cashuB"@) { t.skip(6) } else { Seq::empty() }
}

/// The token string to parse: base64 parts two or three bytes short of a
/// multiple of four get their `=` padding back.
pub open spec fn padded_token(t: Seq<char>) -> Seq<char> {
    let rem = utf8_len(base64_part(t)) % 4;
    if rem == 2 { t + "=="@ } else if rem == 3 { t + "="@ } else { t }
}

/// Checks a pasted token string (already trimmed of surrounding noise) and
/// restores missing base64 padding. Returns the string to parse, the byte
/// length of its base64 part before padding, and that length modulo four.
pub fn prepare_token_string(token: &str) -> (r: Result<(String, usize, usize), String>)
    requires
        utf8_len(token@) <= usize::MAX,
    ensures
        (exists|i: int| 0 <= i < token@.len() && is_control_char(#[trigger] token@[i])) ==> (r matches Err(e)
            && e@ == "Token contains invalid control characters. Please copy the token again."@),
        !(exists|i: int| 0 <= i < token@.len() && is_control_char(#[trigger] token@[i])) ==> (r matches Ok((t, n, rem))
            && t@ == padded_token(token@) && n == utf8_len(base64_part(token@)) && rem == n % 4),
{
    let cs = chars_of(token);
    for i in 0..cs.len()
        invariant
            cs@ == token@,
            forall|k: int| 0 <= k < i ==> !is_control_char(#[trigger] token@[k]),
    {
        if char_is_control(cs[i]) {
            return Err(String::from_str("Token contains invalid control characters. Please copy the token again."));
        }
    }
    let pa = chars_of("cashuA");
    let pb = chars_of("cashuB");
    proof {
        reveal_strlit("cashuA");
        reveal_strlit("cashuB");
    }
    let start: usize = if starts_with(&cs, &pa) || starts_with(&cs, &pb) { 6 } else { cs.len() };
    let ghost part = base64_part(token@);
    assert(part =~= token@.skip(start as int));
    proof {
        if start < cs.len() {
            assert(token@ =~= token@.take(start as int) + part);
            lemma_utf8_len_concat(token@.take(start as int), part);
            lemma_utf8_len_nonneg(token@.take(start as int));
        } else {
            assert(part.len() == 0);
        }
    }
    let mut n: usize = 0;
    let mut i: usize = start;
    while i < cs.len()
        invariant
            start <= i <= cs.len(),
            cs@ == token@,
            part == token@.skip(start as int),
            n == utf8_len(part.take(i - start)),
            utf8_len(part) <= usize::MAX,
        decreases cs.len() - i,
    {
        assert(part.take(i - start + 1).drop_last() =~= part.take(i - start));
        proof {
            lemma_utf8_len_prefix(part, i - start + 1, part.len() as int);
            assert(part.take(part.len() as int) =~= part);
        }
        assert(part[i - start] == cs@[i as int]);
        n = n + char_len_utf8(cs[i]);
        i = i + 1;
    }
    assert(part.take(i - start) =~= part);
    let rem = n % 4;
    let mut t = String::from_str(token);
    if rem == 2 {
        t.append("==");
    } else if rem == 3 {
        t.append("=");
    }
    Ok((t, n, rem))
}

/// The message shown when a token does not parse, from the parser's error
/// text and the base64 length and remainder.
pub open spec fn parse_failure_text(err: Seq<char>, len: nat, rem: nat) -> Seq<char> {
    if has_infix(err, "6-bit remainder"@) || has_infix(err, "InvalidLength"@) {
        "Token appears to be incomplete or corrupted (base64 length: "@ + decimal(len) + ", remainder: "@ + decimal(rem)
            + "). Please ensure you copied the entire token."@
    } else if has_infix(err, "InvalidByte"@) {
        "Token contains invalid characters. Please copy the token again carefully."@
    } else {
        "Invalid token format: "@ + err
    }
}

/// The message shown when a token does not parse.
pub fn token_parse_error_message(err: &str, base64_len: usize, remainder: usize) -> (r: String)
    ensures
        r@ == parse_failure_text(err@, base64_len as nat, remainder as nat),
{
    let cs = chars_of(err);
    if contains_text(&cs, "6-bit remainder") || contains_text(&cs, "InvalidLength") {
        let mut m = String::from_str("Token appears to be incomplete or corrupted (base64 length: ");
        append_decimal(&mut m, base64_len as u64);
        m.append(", remainder: ");
        append_decimal(&mut m, remainder as u64);
        m.append("). Please ensure you copied the entire token.");
        m
    } else if contains_text(&cs, "InvalidByte") {
        String::from_str("Token contains invalid characters. Please copy the token again carefully.")
    } else {
        let mut m = String::from_str("Invalid token format: ");
        m.append(err);
        m
    }
}

/// A Cashu token (NUT-00) of the Cashu Development Kit.
#[verifier::external_type_specification]
#[verifier::external_body]
pub struct ExToken(cdk::nuts::Token);

/// What `Token::from_str` gives for a text: the token, or the display
/// text of the parse error. A function of the text alone.
pub uninterp spec fn token_parse(s: Seq<char>) -> Result<cdk::nuts::Token, Seq<char>>;

/// What `Token::mint_url` gives for a token: its mint URL as text, or the
/// display text of the error. A function of the token alone.
pub uninterp spec fn token_mint_of(t: cdk::nuts::Token) -> Result<Seq<char>, Seq<char>>;

/// Whether `Token::from_str` accepts a string (it decodes a `cashuA` JSON
/// or a `cashuB` CBOR token).
pub open spec fn token_parses(s: Seq<char>) -> bool {
    token_parse(s) is Ok
}

/// Parses a token with `cdk::nuts::Token::from_str`, the error turned into
/// its display text. The source refuses any string that starts with
/// neither `cashuA` nor `cashuB`.
#[verifier::external_body]
fn parse_token(s: &str) -> (r: Result<cdk::nuts::Token, String>)
    ensures
        match r {
            Ok(t) => token_parse(s@) == Ok::<cdk::nuts::Token, Seq<char>>(t),
            Err(e) => token_parse(s@) == Err::<cdk::nuts::Token, Seq<char>>(e@),
        },
        !(has_prefix(s@, "cashuA"@) || has_prefix(s@, "cashuB"@)) ==> r is Err,
{
    <cdk::nuts::Token as core::str::FromStr>::from_str(s).map_err(|e| e.to_string())
}

/// The mint URL of a token (`Token::mint_url`, then the URL's `Display`),
/// or the error's display text.
#[verifier::external_body]
fn token_mint_url(t: &cdk::nuts::Token) -> (r: Result<String, String>)
    ensures
        match r {
            Ok(m) => token_mint_of(*t) == Ok::<Seq<char>, Seq<char>>(m@),
            Err(e) => token_mint_of(*t) == Err::<Seq<char>, Seq<char>>(e@),
        },
{
    t.mint_url().map(|u| u.to_string()).map_err(|e| e.to_string())
}

/// Some character of the text is a control character.
pub open spec fn has_control_char(t: Seq<char>) -> bool {
    exists|i: int| 0 <= i < t.len() && is_control_char(#[trigger] t[i])
}

/// What reading a pasted token gives: an error text, or the token, the
/// padded text and the normalized mint URL.
pub open spec fn token_read_result(token: Seq<char>) -> Result<(cdk::nuts::Token, Seq<char>, Seq<char>), Seq<char>> {
    if has_control_char(token) {
        Err("Token contains invalid control characters. Please copy the token again."@)
    } else {
        let n = utf8_len(base64_part(token));
        match token_parse(padded_token(token)) {
            Err(e) => Err(parse_failure_text(e, n as nat, (n % 4) as nat)),
            Ok(t) => match token_mint_of(t) {
                Err(e) => Err("Failed to get mint URL: "@ + e),
                Ok(m) => Ok((t, padded_token(token), normalized_mint(m))),
            },
        }
    }
}

/// Reads a pasted token string: refuses control characters, restores
/// missing padding, parses it and takes its normalized mint URL.
pub fn read_token(token: &str) -> (r: Result<(cdk::nuts::Token, String, String), String>)
    requires
        utf8_len(token@) <= usize::MAX,
    ensures
        match token_read_result(token@) {
            Ok((tok, t, m)) => r matches Ok((tok2, t2, m2)) && tok2 == tok && t2@ == t && m2@ == m,
            Err(e) => r matches Err(e2) && e2@ == e,
        },
{
    let (t, n, rem) = match prepare_token_string(token) {
        Ok(x) => x,
        Err(e) => {
            return Err(e);
        },
    };
    let parsed = match parse_token(t.as_str()) {
        Ok(p) => p,
        Err(e) => {
            return Err(token_parse_error_message(e.as_str(), n, rem));
        },
    };
    let mint = match token_mint(token_mint_url(&parsed)) {
        Ok(m) => m,
        Err(e) => {
            return Err(e);
        },
    };
    Ok((parsed, t, mint))
}

/// The mint of a decoded token from the outcome of taking its mint URL:
/// the URL normalized, or the error behind its explanation.
pub fn token_mint(mint_result: Result<String, String>) -> (r: Result<String, String>)
    ensures
        match mint_result {
            Ok(m) => r matches Ok(n) && n@ == normalized_mint(m@),
            Err(e) => r matches Err(e2) && e2@ == "Failed to get mint URL: "@ + e@,
        },
{
    match mint_result {
        Ok(m) => Ok(normalize_mint_url(m.as_str())),
        Err(e) => {
            let mut m = String::from_str("Failed to get mint URL: ");
            m.append(e.as_str());
            Err(m)
        },
    }
}

/// The message shown when DLEQ verification (NUT-12) of a token fails.
pub open spec fn dleq_failure_text(kind: CdkErrorKind, msg: Seq<char>) -> Seq<char> {
    match kind {
        CdkErrorKind::DleqProofNotProvided => "Token verification failed: This token does not contain DLEQ proofs for offline verification. The mint may not support NUT-12."@,
        CdkErrorKind::CouldNotVerifyDleq => "Token verification failed: Invalid DLEQ proof signature."@,
        _ => "Token verification failed: "@ + msg,
    }
}

/// The message shown when DLEQ verification fails, from the error's kind
/// and display text.
pub fn dleq_failure_message(kind: CdkErrorKind, msg: &str) -> (r: String)
    ensures
        r@ == dleq_failure_text(kind, msg@),
{
    match kind {
        CdkErrorKind::DleqProofNotProvided => String::from_str(
            "Token verification failed: This token does not contain DLEQ proofs for offline verification. The mint may not support NUT-12.",
        ),
        CdkErrorKind::CouldNotVerifyDleq => String::from_str("Token verification failed: Invalid DLEQ proof signature."),
        _ => {
            let mut m = String::from_str("Token verification failed: ");
            m.append(msg);
            m
        },
    }
}

/// The message shown when DLEQ verification fails with a CDK error.
pub fn dleq_verification_error(e: &cdk::Error) -> (r: String)
    ensures
        r@ == dleq_failure_text(cdk_kind_of(*e), cdk_text_of(*e)),
{
    let kind = cdk_error_kind(e);
    let msg = cdk_error_message(e);
    dleq_failure_message(kind, msg.as_str())
}

/// The message shown when redeeming a token fails: an already spent token
/// is reported with what the cleanup of spent proofs removed (count and
/// value), if it removed any; other failures with the error text.
pub open spec fn receive_failure_text(already_spent: bool, cleaned: Option<(usize, u64)>, err: Seq<char>) -> Seq<char> {
    if already_spent {
        match cleaned {
            Some((n, v)) if n > 0 => "This token has already been spent. However, we cleaned up "@ + decimal(n as nat)
                + " spent proofs ("@ + decimal(v as nat) + " sats) from your wallet."@,
            _ => "This token has already been spent and cannot be redeemed."@,
        }
    } else {
        "Failed to receive token: "@ + err
    }
}

/// The message shown when redeeming a token fails (see
/// `receive_failure_text`); `cleaned` is `None` when the cleanup failed.
pub fn receive_failure_message(already_spent: bool, cleaned: Option<(usize, u64)>, err: &str) -> (r: String)
    ensures
        r@ == receive_failure_text(already_spent, cleaned, err@),
{
    if already_spent {
        match cleaned {
            Some((n, v)) => {
                if n > 0 {
                    let mut m = String::from_str("This token has already been spent. However, we cleaned up ");
                    append_decimal(&mut m, n as u64);
                    m.append(" spent proofs (");
                    append_decimal(&mut m, v);
                    m.append(" sats) from your wallet.");
                    return m;
                }
            },
            None => {},
        }
        String::from_str("This token has already been spent and cannot be redeemed.")
    } else {
        let mut m = String::from_str("Failed to receive token: ");
        m.append(err);
        m
    }
}

/// What relays answered one attempt to publish an event.
#[derive(Debug)]
pub enum PublishReply {
    /// At least one relay accepted the event.
    Accepted,
    /// No relay accepted it; the failure message of each relay that answered.
    AllFailed(Vec<String>),
    /// Sending failed with this error text.
    Error(String),
}

/// What to do after an attempt to publish.
#[derive(Debug, Clone, Copy, PartialEq, Eq, Structural)]
pub enum PublishVerdict {
    /// Published: use the signed event's id.
    Published,
    /// The relays already have the event: use its id, do not retry.
    AlreadyPublished,
    /// A permanent error: stop retrying.
    Permanent,
    /// Try again (or, once attempts are used up, queue for later).
    Retry,
}

/// Every message, lowercased, starts with `duplicate:`.
pub open spec fn all_duplicates(msgs: Seq<String>) -> bool {
    forall|i: int| 0 <= i < msgs.len() ==> has_prefix(lowercase_of(#[trigger] msgs[i]@), "duplicate:"@)
}

/// How receiving judges a publish attempt: relays that all report a
/// duplicate mean the event is there already; an error mentioning a ban or
/// an invalid event is permanent, one mentioning a duplicate means the
/// event is there already.
pub open spec fn receive_verdict(reply: PublishReply) -> PublishVerdict {
    match reply {
        PublishReply::Accepted => PublishVerdict::Published,
        PublishReply::AllFailed(msgs) => if msgs@.len() > 0 && all_duplicates(msgs@) {
            PublishVerdict::AlreadyPublished
        } else {
            PublishVerdict::Retry
        },
        PublishReply::Error(e) => {
            let l = lowercase_of(e@);
            if has_infix(l, "banned"@) || has_infix(l, "invalid"@) {
                PublishVerdict::Permanent
            } else if has_infix(l, "duplicate"@) || has_infix(l, "already exists"@) {
                PublishVerdict::AlreadyPublished
            } else {
                PublishVerdict::Retry
            }
        },
    }
}

/// Judges a publish attempt of a received token's event.
pub fn receive_publish_verdict(reply: &PublishReply) -> (r: PublishVerdict)
    ensures
        r == receive_verdict(*reply),
{
    match reply {
        PublishReply::Accepted => PublishVerdict::Published,
        PublishReply::AllFailed(msgs) => {
            if msgs.len() == 0 {
                return PublishVerdict::Retry;
            }
            let prefix = chars_of("duplicate:");
            for i in 0..msgs.len()
                invariant
                    prefix@ == "duplicate:"@,
                    msgs@.len() > 0,
                    *reply == PublishReply::AllFailed(*msgs),
                    forall|k: int| 0 <= k < i ==> has_prefix(lowercase_of(#[trigger] msgs@[k]@), "duplicate:"@),
            {
                let l = to_lowercase(msgs[i].as_str());
                let lc = chars_of(l.as_str());
                if !starts_with(&lc, &prefix) {
                    return PublishVerdict::Retry;
                }
            }
            PublishVerdict::AlreadyPublished
        },
        PublishReply::Error(e) => {
            let l = to_lowercase(e.as_str());
            let lc = chars_of(l.as_str());
            if contains_text(&lc, "banned") || contains_text(&lc, "invalid") {
                PublishVerdict::Permanent
            } else if contains_text(&lc, "duplicate") || contains_text(&lc, "already exists") {
                PublishVerdict::AlreadyPublished
            } else {
                PublishVerdict::Retry
            }
        },
    }
}

/// The error text an unsuccessful attempt leaves: the number of relays
/// that failed, or the error.
pub open spec fn reply_error_text(reply: PublishReply) -> Seq<char> {
    match reply {
        PublishReply::Accepted => Seq::empty(),
        PublishReply::AllFailed(msgs) => "All "@ + decimal(msgs@.len()) + " relays failed"@,
        PublishReply::Error(e) => e@,
    }
}

/// The error text an unsuccessful attempt leaves.
pub fn publish_error_text(reply: &PublishReply) -> (r: String)
    ensures
        r@ == reply_error_text(*reply),
{
    match reply {
        PublishReply::Accepted => String::new(),
        PublishReply::AllFailed(msgs) => {
            let mut m = String::from_str("All ");
            append_decimal(&mut m, msgs.len() as u64);
            m.append(" relays failed");
            m
        },
        PublishReply::Error(e) => e.clone(),
    }
}

/// Which id a new token event gets once publishing has ended.
#[derive(Debug, Clone, Copy, PartialEq, Eq, Structural)]
pub enum EventIdChoice {
    /// The signed event's own id.
    Signed,
    /// A `pending_` id; the event is queued for a later retry.
    Pending,
    /// A `local_` id; the event is kept locally only.
    LocalOnly,
}

/// The id a new token event gets from the verdict of the last attempt:
/// its own when it reached the relays, a pending one while retrying makes
/// sense, a local one after a permanent error.
pub open spec fn id_choice(last: PublishVerdict) -> EventIdChoice {
    match last {
        PublishVerdict::Published | PublishVerdict::AlreadyPublished => EventIdChoice::Signed,
        PublishVerdict::Retry => EventIdChoice::Pending,
        PublishVerdict::Permanent => EventIdChoice::LocalOnly,
    }
}

/// The id a new token event gets from the verdict of the last attempt.
pub fn event_id_choice(last: PublishVerdict) -> (r: EventIdChoice)
    ensures
        r == id_choice(last),
{
    match last {
        PublishVerdict::Published | PublishVerdict::AlreadyPublished => EventIdChoice::Signed,
        PublishVerdict::Retry => EventIdChoice::Pending,
        PublishVerdict::Permanent => EventIdChoice::LocalOnly,
    }
}

/// How many leading chars of `s` fit in `limit` UTF-8 bytes.
pub open spec fn fitting_chars(s: Seq<char>, limit: int) -> nat
    decreases s.len(),
{
    if s.len() == 0 || utf8_len(s) <= limit {
        s.len()
    } else {
        fitting_chars(s.drop_last(), limit)
    }
}

/// A memo as a preview shows it: one over 256 bytes is cut to the chars
/// that fit in 253 bytes, followed by `...`.
pub open spec fn preview_memo_text(m: Seq<char>) -> Seq<char> {
    if utf8_len(m) > 256 { m.take(fitting_chars(m, 253) as int) + "..."@ } else { m }
}

/// UTF-8 lengths of prefixes grow with the prefix.
proof fn lemma_utf8_len_prefix(s: Seq<char>, i: int, j: int)
    requires
        0 <= i <= j <= s.len(),
    ensures
        utf8_len(s.take(i)) <= utf8_len(s.take(j)),
    decreases j - i,
{
    if i < j {
        lemma_utf8_len_prefix(s, i, j - 1);
        assert(s.take(j).drop_last() =~= s.take(j - 1));
    }
}

/// UTF-8 lengths are never negative.
pub proof fn lemma_utf8_len_nonneg(s: Seq<char>)
    ensures
        utf8_len(s) >= 0,
    decreases s.len(),
{
    if s.len() > 0 {
        lemma_utf8_len_nonneg(s.drop_last());
    }
}

/// The UTF-8 length of a concatenation is the sum of the lengths.
pub proof fn lemma_utf8_len_concat(a: Seq<char>, b: Seq<char>)
    ensures
        utf8_len(a + b) == utf8_len(a) + utf8_len(b),
    decreases b.len(),
{
    if b.len() == 0 {
        assert(a + b =~= a);
    } else {
        lemma_utf8_len_concat(a, b.drop_last());
        assert((a + b).drop_last() =~= a + b.drop_last());
        assert((a + b).last() == b.last());
    }
}

/// `fitting_chars` is the longest prefix within the limit.
proof fn lemma_fitting_chars(s: Seq<char>, limit: int)
    requires
        limit >= 0,
    ensures
        fitting_chars(s, limit) <= s.len(),
        utf8_len(s.take(fitting_chars(s, limit) as int)) <= limit,
        fitting_chars(s, limit) < s.len() ==> utf8_len(s.take(fitting_chars(s, limit) as int + 1)) > limit,
    decreases s.len(),
{
    if s.len() == 0 {
        assert(s.take(0) =~= s);
    } else if utf8_len(s) <= limit {
        assert(s.take(s.len() as int) =~= s);
    } else {
        lemma_fitting_chars(s.drop_last(), limit);
        let k = fitting_chars(s.drop_last(), limit);
        assert(s.drop_last().take(k as int) =~= s.take(k as int));
        if k < s.drop_last().len() {
            assert(s.drop_last().take(k as int + 1) =~= s.take(k as int + 1));
        } else {
            assert(s.take(k as int + 1) =~= s);
        }
    }
}

/// A token's memo as the preview shows it.
pub fn preview_memo(m: &str) -> (r: String)
    requires
        utf8_len(m@) <= usize::MAX,
    ensures
        r@ == preview_memo_text(m@),
{
    let cs = chars_of(m);
    let mut total: usize = 0;
    let mut i: usize = 0;
    while i < cs.len()
        invariant
            i <= cs.len(),
            cs@ == m@,
            total == utf8_len(m@.take(i as int)),
            utf8_len(m@) <= usize::MAX,
        decreases cs.len() - i,
    {
        assert(m@.take(i + 1).drop_last() =~= m@.take(i as int));
        proof {
            lemma_utf8_len_prefix(m@, i + 1, m@.len() as int);
            assert(m@.take(m@.len() as int) =~= m@);
        }
        total = total + char_len_utf8(cs[i]);
        i = i + 1;
    }
    assert(m@.take(i as int) =~= m@);
    if total <= 256 {
        return String::from_str(m);
    }
    let mut end: usize = 0;
    let mut used: usize = 0;
    let mut stop = false;
    proof {
        lemma_fitting_chars(m@, 253);
    }
    let ghost k = fitting_chars(m@, 253);
    while end < cs.len() && !stop
        invariant
            end <= cs.len(),
            cs@ == m@,
            used == utf8_len(m@.take(end as int)),
            used <= 253,
            k == fitting_chars(m@, 253),
            k <= m@.len(),
            utf8_len(m@.take(k as int)) <= 253,
            k < m@.len() ==> utf8_len(m@.take(k as int + 1)) > 253,
            end <= k,
            stop ==> end == k,
        decreases cs.len() - end + (if stop { 0int } else { 1int }),
    {
        assert(m@.take(end + 1).drop_last() =~= m@.take(end as int));
        let w = char_len_utf8(cs[end]);
        if used + w > 253 {
            proof {
                if end < k {
                    lemma_utf8_len_prefix(m@, end + 1, k as int);
                }
            }
            stop = true;
        } else {
            used = used + w;
            end = end + 1;
            proof {
                if end > k {
                    lemma_utf8_len_prefix(m@, k as int + 1, end as int);
                }
            }
        }
    }
    proof {
        if !stop {
            assert(end == cs.len());
            assert(k == end);
        }
    }
    let mut out = substring(m, 0, end);
    out.append("...");
    out
}

} // verus!
