//! Creating and loading the wallet: the mint URLs it is made with, the
//! content of its wallet event (NIP-60 `[name, value]` pairs), what reading
//! that content gives back, and which wallet snapshot a start loads.
use vstd::prelude::*;
use crate::keyset::string_views;
use crate::text::{chars_of, contains_text, has_infix};
use crate::types::{normalize_mint_url, normalized_mint};

verus! {

/// What parsing a URL gives: its serialization, scheme and host, or the
/// text of the parse error.
pub uninterp spec fn parsed_url(input: Seq<char>) -> Result<(Seq<char>, Seq<char>, Option<Seq<char>>), Seq<char>>;

/// An optional string as text.
pub open spec fn opt_text(o: Option<String>) -> Option<Seq<char>> {
    match o {
        Some(s) => Some(s@),
        None => None,
    }
}

/// A parsed URL (serialization, scheme, host) or the parse error, as text.
pub open spec fn url_view(r: Result<(String, String, Option<String>), String>) -> Result<(Seq<char>, Seq<char>, Option<Seq<char>>), Seq<char>> {
    match r {
        Ok(p) => Ok((p.0@, p.1@, opt_text(p.2))),
        Err(e) => Err(e@),
    }
}

/// `url::Url::parse`: the URL's serialization (`as_str`), scheme and host,
/// or the text of the parse error. The result is a function of the input
/// alone; nothing more of it is stated.
#[verifier::external_body]
fn parse_url(input: &str) -> (r: Result<(String, String, Option<String>), String>)
    ensures
        url_view(r) == parsed_url(input@),
{
    match url::Url::parse(input) {
        Ok(u) => Ok((u.as_str().to_string(), u.scheme().to_string(), u.host_str().map(String::from))),
        Err(e) => Err(e.to_string()),
    }
}

/// A unit result as text.
pub open spec fn unit_view(r: Result<(), String>) -> Result<(), Seq<char>> {
    match r {
        Ok(()) => Ok(()),
        Err(e) => Err(e@),
    }
}

/// The host, or nothing.
pub open spec fn host_text(h: Option<Seq<char>>) -> Seq<char> {
    match h {
        Some(x) => x,
        None => Seq::empty(),
    }
}

/// Whether a parsed URL may name a new mint: it must parse, and use HTTPS
/// unless its host is a local one.
pub open spec fn mint_url_verdict(p: Result<(Seq<char>, Seq<char>, Option<Seq<char>>), Seq<char>>) -> Result<(), Seq<char>> {
    match p {
        Err(e) => Err("Invalid URL format: "@ + e),
        Ok(u) => if u.1 != "https"@ && !has_infix(host_text(u.2), "localhost"@) {
            Err("Mint URL must use HTTPS"@)
        } else {
            Ok(())
        },
    }
}

/// Judges the parse of a new mint's URL.
pub fn check_parsed_mint_url(parsed: &Result<(String, String, Option<String>), String>) -> (r: Result<(), String>)
    ensures
        unit_view(r) == mint_url_verdict(url_view(*parsed)),
{
    match parsed {
        Err(e) => {
            let mut m = String::from_str("Invalid URL format: ");
            m.append(e.as_str());
            Err(m)
        },
        Ok(u) => {
            let https = String::from_str("https");
            let is_https = u.1 == https;
            let host: Vec<char> = match &u.2 {
                Some(h) => chars_of(h.as_str()),
                None => Vec::new(),
            };
            let local = contains_text(&host, "localhost");
            if !is_https && !local {
                Err(String::from_str("Mint URL must use HTTPS"))
            } else {
                Ok(())
            }
        },
    }
}

/// Checks the URL of a mint being added.
pub fn check_mint_url(mint_url: &str) -> (r: Result<(), String>)
    ensures
        unit_view(r) == mint_url_verdict(parsed_url(mint_url@)),
{
    let parsed = parse_url(mint_url);
    check_parsed_mint_url(&parsed)
}

/// The serializations of the URLs that parsed, in order.
pub open spec fn parsed_hrefs(ps: Seq<Result<(Seq<char>, Seq<char>, Option<Seq<char>>), Seq<char>>>) -> Seq<Seq<char>>
    decreases ps.len(),
{
    if ps.len() == 0 {
        Seq::empty()
    } else {
        let rest = parsed_hrefs(ps.drop_last());
        match ps.last() {
            Ok(u) => rest.push(u.0),
            Err(_) => rest,
        }
    }
}

/// Each URL that did not parse, as `url: error`, in order.
pub open spec fn invalid_entries(mints: Seq<Seq<char>>, ps: Seq<Result<(Seq<char>, Seq<char>, Option<Seq<char>>), Seq<char>>>) -> Seq<Seq<char>>
    decreases ps.len(),
{
    if ps.len() == 0 || mints.len() == 0 {
        Seq::empty()
    } else {
        let rest = invalid_entries(mints.drop_last(), ps.drop_last());
        match ps.last() {
            Ok(_) => rest,
            Err(e) => rest.push(mints.last() + ": "@ + e),
        }
    }
}

/// Texts joined by `, `.
pub open spec fn comma_joined(items: Seq<Seq<char>>) -> Seq<char>
    decreases items.len(),
{
    if items.len() == 0 {
        Seq::empty()
    } else if items.len() == 1 {
        items[0]
    } else {
        comma_joined(items.drop_last()) + ", "@ + items.last()
    }
}

/// The mints a new wallet is made with, from their URLs and the parse of
/// each: every URL must parse; the wallet lists their serializations.
pub open spec fn wallet_mints_verdict(mints: Seq<Seq<char>>, ps: Seq<Result<(Seq<char>, Seq<char>, Option<Seq<char>>), Seq<char>>>) -> Result<Seq<Seq<char>>, Seq<char>> {
    let bad = invalid_entries(mints, ps);
    if bad.len() > 0 {
        Err("Invalid mint URLs: "@ + comma_joined(bad))
    } else {
        Ok(parsed_hrefs(ps))
    }
}

/// A list of strings, or an error, as text.
pub open spec fn list_view(r: Result<Vec<String>, String>) -> Result<Seq<Seq<char>>, Seq<char>> {
    match r {
        Ok(v) => Ok(string_views(v@)),
        Err(e) => Err(e@),
    }
}

/// Judges the URLs a new wallet is made with, given the parse of each.
pub fn check_parsed_wallet_mints(mints: &Vec<String>, parsed: &Vec<Result<(String, String, Option<String>), String>>) -> (r: Result<Vec<String>, String>)
    requires
        mints@.len() == parsed@.len(),
    ensures
        list_view(r) == wallet_mints_verdict(string_views(mints@), parsed@.map_values(
            |p: Result<(String, String, Option<String>), String>| url_view(p),
        )),
{
    let ghost ms = string_views(mints@);
    let ghost ps = parsed@.map_values(|p: Result<(String, String, Option<String>), String>| url_view(p));
    let mut hrefs: Vec<String> = Vec::new();
    let mut msg = String::from_str("Invalid mint URLs: ");
    let ghost prefix = msg@;
    let mut any_bad = false;
    for i in 0..parsed.len()
        invariant
            mints@.len() == parsed@.len(),
            ms == string_views(mints@),
            ps == parsed@.map_values(|p: Result<(String, String, Option<String>), String>| url_view(p)),
            prefix == "Invalid mint URLs: "@,
            string_views(hrefs@) == parsed_hrefs(ps.take(i as int)),
            any_bad == (invalid_entries(ms.take(i as int), ps.take(i as int)).len() > 0),
            msg@ == prefix + comma_joined(invalid_entries(ms.take(i as int), ps.take(i as int))),
    {
        assert(ps.take(i + 1).drop_last() =~= ps.take(i as int));
        assert(ms.take(i + 1).drop_last() =~= ms.take(i as int));
        assert(ps.take(i + 1).last() == url_view(parsed@[i as int]));
        assert(ms.take(i + 1).last() == mints@[i as int]@);
        match &parsed[i] {
            Ok(u) => {
                let ghost before = hrefs@;
                hrefs.push(u.0.clone());
                assert(string_views(hrefs@) =~= string_views(before).push(u.0@));
            },
            Err(e) => {
                let ghost items = invalid_entries(ms.take(i as int), ps.take(i as int));
                if any_bad {
                    msg.append(", ");
                }
                msg.append(mints[i].as_str());
                msg.append(": ");
                msg.append(e.as_str());
                proof {
                    let items2 = invalid_entries(ms.take(i + 1), ps.take(i + 1));
                    assert(items2 =~= items.push(mints@[i as int]@ + ": "@ + e@));
                    if items.len() == 0 {
                        assert(comma_joined(items2) =~= mints@[i as int]@ + ": "@ + e@);
                    } else {
                        assert(items2.drop_last() =~= items);
                    }
                    assert(msg@ =~= prefix + comma_joined(items2));
                }
                any_bad = true;
            },
        }
    }
    assert(ps.take(parsed.len() as int) =~= ps);
    assert(ms.take(parsed.len() as int) =~= ms);
    if any_bad {
        Err(msg)
    } else {
        Ok(hrefs)
    }
}

/// Parses the URLs a new wallet is made with.
fn parse_all(mints: &Vec<String>) -> (r: Vec<Result<(String, String, Option<String>), String>>)
    ensures
        r@.len() == mints@.len(),
        forall|i: int| 0 <= i < mints@.len() ==> url_view(#[trigger] r@[i]) == parsed_url(mints@[i]@),
{
    let mut r: Vec<Result<(String, String, Option<String>), String>> = Vec::new();
    for i in 0..mints.len()
        invariant
            r@.len() == i,
            forall|j: int| 0 <= j < i ==> url_view(#[trigger] r@[j]) == parsed_url(mints@[j]@),
    {
        r.push(parse_url(mints[i].as_str()));
    }
    r
}

/// The parse of each URL, as text.
pub open spec fn parses_of(urls: Seq<Seq<char>>) -> Seq<Result<(Seq<char>, Seq<char>, Option<Seq<char>>), Seq<char>>> {
    urls.map_values(|u: Seq<char>| parsed_url(u))
}

/// Checks the URLs a new wallet is made with and gives their
/// serializations.
pub fn check_wallet_mints(mints: &Vec<String>) -> (r: Result<Vec<String>, String>)
    ensures
        list_view(r) == wallet_mints_verdict(string_views(mints@), parses_of(string_views(mints@))),
{
    let parsed = parse_all(mints);
    let r = check_parsed_wallet_mints(mints, &parsed);
    assert(parsed@.map_values(|p: Result<(String, String, Option<String>), String>| url_view(p)) =~= parses_of(
        string_views(mints@),
    ));
    r
}

/// The content of a wallet event: the private key, then one entry per
/// mint.
pub open spec fn content_pairs(privkey: Seq<char>, mints: Seq<Seq<char>>) -> Seq<Seq<Seq<char>>> {
    seq![seq!["privkey"@, privkey]] + mints.map_values(|m: Seq<char>| seq!["mint"@, m])
}

/// Pairs as text.
pub open spec fn pairs_view(v: Seq<Vec<String>>) -> Seq<Seq<Seq<char>>> {
    v.map_values(|p: Vec<String>| string_views(p@))
}

/// A `[name, value]` pair.
fn name_value(name: &str, value: &str) -> (r: Vec<String>)
    ensures
        string_views(r@) == seq![name@, value@],
{
    let mut r: Vec<String> = Vec::new();
    r.push(String::from_str(name));
    r.push(String::from_str(value));
    assert(string_views(r@) =~= seq![name@, value@]);
    r
}

/// The content of a new wallet's event.
pub fn wallet_content(privkey: &str, mints: &Vec<String>) -> (r: Vec<Vec<String>>)
    ensures
        pairs_view(r@) == content_pairs(privkey@, string_views(mints@)),
{
    let mut r: Vec<Vec<String>> = Vec::new();
    r.push(name_value("privkey", privkey));
    proof {
        reveal_strlit("privkey");
    }
    assert(pairs_view(r@) =~= seq![seq!["privkey"@, privkey@]]);
    for i in 0..mints.len()
        invariant
            r@.len() == i + 1,
            pairs_view(r@) == content_pairs(privkey@, string_views(mints@.take(i as int))),
    {
        let ghost before = r@;
        r.push(name_value("mint", mints[i].as_str()));
        proof {
            reveal_strlit("mint");
            assert(string_views(mints@.take(i + 1)) =~= string_views(mints@.take(i as int)).push(mints@[i as int]@));
            assert(pairs_view(r@) =~= pairs_view(before).push(seq!["mint"@, mints@[i as int]@]));
            assert(pairs_view(r@) =~= content_pairs(privkey@, string_views(mints@.take(i + 1))));
        }
    }
    assert(mints@.take(mints.len() as int) =~= mints@);
    r
}

/// Reading a wallet event's pairs, before any URL is parsed: the private
/// key (the first non-empty one), whether a second one came, and the mint
/// URLs in order. Entries that are not pairs, and unknown names, are
/// skipped.
pub open spec fn pair_scan(pairs: Seq<Seq<Seq<char>>>) -> (Seq<char>, bool, Seq<Seq<char>>)
    decreases pairs.len(),
{
    if pairs.len() == 0 {
        (Seq::empty(), false, Seq::empty())
    } else {
        let prev = pair_scan(pairs.drop_last());
        let p = pairs.last();
        if p.len() != 2 {
            prev
        } else if p[0] == "privkey"@ {
            if prev.0.len() > 0 {
                (prev.0, true, prev.2)
            } else {
                (p[1], prev.1, prev.2)
            }
        } else if p[0] == "mint"@ {
            (prev.0, prev.1, prev.2.push(p[1]))
        } else {
            prev
        }
    }
}

/// Scans a wallet event's pairs.
pub fn scan_wallet_pairs(pairs: &Vec<Vec<String>>) -> (r: (String, bool, Vec<String>))
    ensures
        (r.0@, r.1, string_views(r.2@)) == pair_scan(pairs_view(pairs@)),
{
    let privkey_name = String::from_str("privkey");
    let mint_name = String::from_str("mint");
    let mut privkey = String::new();
    let mut multiple = false;
    let mut mints: Vec<String> = Vec::new();
    proof {
        reveal_strlit("privkey");
        reveal_strlit("mint");
    }
    for i in 0..pairs.len()
        invariant
            privkey_name@ == "privkey"@,
            mint_name@ == "mint"@,
            (privkey@, multiple, string_views(mints@)) == pair_scan(pairs_view(pairs@.take(i as int))),
    {
        assert(pairs_view(pairs@.take(i + 1)).drop_last() =~= pairs_view(pairs@.take(i as int)));
        assert(pairs_view(pairs@.take(i + 1)).last() == string_views(pairs@[i as int]@));
        let pair = &pairs[i];
        if pair.len() == 2 {
            if pair[0] == privkey_name {
                if !privkey.as_str().is_empty() {
                    multiple = true;
                } else {
                    privkey = pair[1].clone();
                }
            } else if pair[0] == mint_name {
                let ghost before = mints@;
                mints.push(pair[1].clone());
                assert(string_views(mints@) =~= string_views(before).push(pair@[1]@));
            }
        }
    }
    assert(pairs@.take(pairs.len() as int) =~= pairs@);
    (privkey, multiple, mints)
}

/// What reading a wallet event gives from the scan and the parse of each
/// mint URL: the private key and the serializations of the URLs that
/// parse (those that do not are skipped).
pub open spec fn wallet_verdict(privkey: Seq<char>, multiple: bool, ps: Seq<Result<(Seq<char>, Seq<char>, Option<Seq<char>>), Seq<char>>>) -> Result<(Seq<char>, Seq<Seq<char>>), Seq<char>> {
    if multiple {
        Err("Wallet event contains multiple privkeys (invalid per NIP-60)"@)
    } else if privkey.len() == 0 {
        Err("Missing required field: privkey"@)
    } else if parsed_hrefs(ps).len() == 0 {
        Err("Missing required field: mint (at least one mint URL required)"@)
    } else {
        Ok((privkey, parsed_hrefs(ps)))
    }
}

/// What reading a wallet event's pairs gives.
pub open spec fn read_wallet_pairs(pairs: Seq<Seq<Seq<char>>>) -> Result<(Seq<char>, Seq<Seq<char>>), Seq<char>> {
    let s = pair_scan(pairs);
    wallet_verdict(s.0, s.1, parses_of(s.2))
}

/// A wallet (private key and mints), or an error, as text.
pub open spec fn wallet_view(r: Result<(String, Vec<String>), String>) -> Result<(Seq<char>, Seq<Seq<char>>), Seq<char>> {
    match r {
        Ok(w) => Ok((w.0@, string_views(w.1@))),
        Err(e) => Err(e@),
    }
}

/// The wallet a scan describes, given the parse of each of its mint URLs.
pub fn wallet_from_parsed(privkey: String, multiple: bool, parsed: &Vec<Result<(String, String, Option<String>), String>>) -> (r: Result<(String, Vec<String>), String>)
    ensures
        wallet_view(r) == wallet_verdict(privkey@, multiple, parsed@.map_values(
            |p: Result<(String, String, Option<String>), String>| url_view(p),
        )),
{
    if multiple {
        return Err(String::from_str("Wallet event contains multiple privkeys (invalid per NIP-60)"));
    }
    if privkey.as_str().is_empty() {
        return Err(String::from_str("Missing required field: privkey"));
    }
    let ghost ps = parsed@.map_values(|p: Result<(String, String, Option<String>), String>| url_view(p));
    let mut hrefs: Vec<String> = Vec::new();
    for i in 0..parsed.len()
        invariant
            ps == parsed@.map_values(|p: Result<(String, String, Option<String>), String>| url_view(p)),
            string_views(hrefs@) == parsed_hrefs(ps.take(i as int)),
    {
        assert(ps.take(i + 1).drop_last() =~= ps.take(i as int));
        assert(ps.take(i + 1).last() == url_view(parsed@[i as int]));
        match &parsed[i] {
            Ok(u) => {
                let ghost before = hrefs@;
                hrefs.push(u.0.clone());
                assert(string_views(hrefs@) =~= string_views(before).push(u.0@));
            },
            Err(_) => {},
        }
    }
    assert(ps.take(parsed.len() as int) =~= ps);
    if hrefs.len() == 0 {
        return Err(String::from_str("Missing required field: mint (at least one mint URL required)"));
    }
    Ok((privkey, hrefs))
}

/// Reads a wallet event's pairs into the wallet's private key and mints.
pub fn wallet_from_pairs(pairs: &Vec<Vec<String>>) -> (r: Result<(String, Vec<String>), String>)
    ensures
        wallet_view(r) == read_wallet_pairs(pairs_view(pairs@)),
{
    let (privkey, multiple, mints) = scan_wallet_pairs(pairs);
    let parsed = parse_all(&mints);
    assert(parsed@.map_values(|p: Result<(String, String, Option<String>), String>| url_view(p)) =~= parses_of(
        string_views(mints@),
    ));
    wallet_from_parsed(privkey, multiple, &parsed)
}

/// The wallet's mint list once loaded: each URL normalized.
pub fn loaded_mint_urls(mints: &Vec<String>) -> (r: Vec<String>)
    ensures
        string_views(r@) == string_views(mints@).map_values(|m: Seq<char>| normalized_mint(m)),
{
    let mut r: Vec<String> = Vec::new();
    for i in 0..mints.len()
        invariant
            string_views(r@) == string_views(mints@.take(i as int)).map_values(|m: Seq<char>| normalized_mint(m)),
    {
        let ghost before = r@;
        r.push(normalize_mint_url(mints[i].as_str()));
        assert(string_views(r@) =~= string_views(before).push(normalized_mint(mints@[i as int]@)));
        assert(string_views(mints@.take(i + 1)).map_values(|m: Seq<char>| normalized_mint(m)) =~= string_views(
            mints@.take(i as int),
        ).map_values(|m: Seq<char>| normalized_mint(m)).push(normalized_mint(mints@[i as int]@)));
    }
    assert(mints@.take(mints.len() as int) =~= mints@);
    r
}

/// Where a wallet snapshot comes from.
#[derive(Debug, Clone, Copy, PartialEq, Eq, Structural)]
pub enum SnapshotSource {
    /// Queued locally, waiting to be published.
    Queued,
    /// Found on the relays.
    Relay,
}

/// A source's name in messages.
pub open spec fn source_label(s: SnapshotSource) -> Seq<char> {
    match s {
        SnapshotSource::Queued => "queued"@,
        SnapshotSource::Relay => "relay"@,
    }
}

impl SnapshotSource {
    /// The source's name in messages.
    pub fn label(&self) -> (r: String)
        ensures
            r@ == source_label(*self),
    {
        match self {
            SnapshotSource::Queued => String::from_str("queued"),
            SnapshotSource::Relay => String::from_str("relay"),
        }
    }
}

/// What a start of the wallet does.
#[derive(Debug)]
pub enum WalletInitPlan {
    /// Load these snapshots in turn until one loads.
    Load(Vec<SnapshotSource>),
    /// There is no wallet yet.
    NoWallet,
    /// The start fails with this error.
    Fail(String),
}

/// What a start does, from the creation time of the newest queued
/// snapshot (if any) and what the relays answered: the creation time of
/// their wallet event (if any), or an error. With both snapshots, the newer
/// comes first (the queued one when they are as old); when the relays fail,
/// only the queued one can load.
pub fn wallet_init_plan(queued_created_at: Option<u64>, relay: Result<Option<u64>, String>) -> (r: WalletInitPlan)
    ensures
        (match (queued_created_at, relay) {
            (Some(q), Ok(Some(t))) => r matches WalletInitPlan::Load(v) && (if q >= t {
                v@ == seq![SnapshotSource::Queued, SnapshotSource::Relay]
            } else {
                v@ == seq![SnapshotSource::Relay, SnapshotSource::Queued]
            }),
            (Some(_), Ok(None)) => r matches WalletInitPlan::Load(v) && v@ == seq![SnapshotSource::Queued],
            (None, Ok(Some(_))) => r matches WalletInitPlan::Load(v) && v@ == seq![SnapshotSource::Relay],
            (None, Ok(None)) => r is NoWallet,
            (Some(_), Err(_)) => r matches WalletInitPlan::Load(v) && v@ == seq![SnapshotSource::Queued],
            (None, Err(e)) => r matches WalletInitPlan::Fail(m) && m@ == "Failed to fetch wallet: "@ + e@,
        }),
{
    match (queued_created_at, relay) {
        (Some(q), Ok(Some(t))) => {
            if q >= t {
                WalletInitPlan::Load(vec![SnapshotSource::Queued, SnapshotSource::Relay])
            } else {
                WalletInitPlan::Load(vec![SnapshotSource::Relay, SnapshotSource::Queued])
            }
        },
        (Some(_), Ok(None)) => WalletInitPlan::Load(vec![SnapshotSource::Queued]),
        (None, Ok(Some(_))) => WalletInitPlan::Load(vec![SnapshotSource::Relay]),
        (None, Ok(None)) => WalletInitPlan::NoWallet,
        (Some(_), Err(_)) => WalletInitPlan::Load(vec![SnapshotSource::Queued]),
        (None, Err(e)) => {
            let mut m = String::from_str("Failed to fetch wallet: ");
            m.append(e.as_str());
            WalletInitPlan::Fail(m)
        },
    }
}

/// The error when a snapshot fails to load.
pub fn snapshot_failure_message(source: SnapshotSource, error: &str) -> (r: String)
    ensures
        r@ == "Failed to initialize "@ + source_label(source) + " wallet snapshot: "@ + error@,
{
    let mut m = String::from_str("Failed to initialize ");
    let label = source.label();
    m.append(label.as_str());
    m.append(" wallet snapshot: ");
    m.append(error);
    m
}

} // verus!
