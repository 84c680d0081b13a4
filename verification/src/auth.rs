//! Mint authentication: clear auth (NUT-21, a JWT from an OpenID provider)
//! and blind auth (NUT-22, blind-signed single-use tokens). Which endpoints
//! of a mint are protected, and by which kind, follows from its settings;
//! requests to them carry an auth header.
use vstd::prelude::*;
use vstd::string::*;
use crate::auth_cache::{BlindAuthCache, left_after_take, next_token};
use crate::keyset::string_views;
use crate::strmap::StrMap;
use crate::text::{chars_of, contains_text, has_infix, has_prefix};

verus! {

/// The kind of authentication an endpoint asks for.
#[derive(Clone, Copy, Debug, PartialEq, Eq, Structural, Hash)]
pub enum AuthRequired {
    /// A clear auth token (JWT).
    Clear,
    /// A blind auth token.
    Blind,
}

/// The HTTP method of an endpoint.
#[derive(Clone, Copy, Debug, PartialEq, Eq, Structural, Hash)]
pub enum HttpMethod {
    Get,
    Post,
}

/// An endpoint of a mint: a method and a route path such as `/v1/swap`.
#[derive(Clone, Debug)]
pub struct ProtectedEndpoint {
    pub method: HttpMethod,
    pub path: String,
}

impl ProtectedEndpoint {
    /// What identifies the endpoint.
    pub open spec fn key(&self) -> (HttpMethod, Seq<char>) {
        (self.method, self.path@)
    }

    /// The endpoint with a method and a path.
    pub fn new(method: HttpMethod, path: &str) -> (r: Self)
        ensures
            r.key() == (method, path@),
    {
        ProtectedEndpoint { method, path: String::from_str(path) }
    }

    /// A copy of the endpoint.
    fn duplicate(&self) -> (r: Self)
        ensures
            r.key() == self.key(),
    {
        ProtectedEndpoint { method: self.method, path: self.path.clone() }
    }

    /// Whether two endpoints are the same.
    fn same(&self, other: &Self) -> (r: bool)
        ensures
            r == (self.key() == other.key()),
    {
        self.method == other.method && self.path == other.path
    }
}

/// The keys of a list of endpoints.
pub open spec fn endpoint_keys(v: Seq<ProtectedEndpoint>) -> Seq<(HttpMethod, Seq<char>)> {
    v.map_values(|e: ProtectedEndpoint| e.key())
}

/// Clear auth settings (NUT-21) of a mint.
#[derive(Clone, Debug)]
pub struct ClearAuthSettings {
    /// Where the OpenID provider describes itself.
    pub openid_discovery: String,
    /// The client id at the provider.
    pub client_id: String,
    /// The endpoints that ask for a clear auth token.
    pub protected_endpoints: Vec<ProtectedEndpoint>,
}

/// Blind auth settings (NUT-22) of a mint.
#[derive(Clone, Debug)]
pub struct BlindAuthSettings {
    /// The most blind auth tokens one request can mint.
    pub bat_max_mint: u64,
    /// The endpoints that ask for a blind auth token.
    pub protected_endpoints: Vec<ProtectedEndpoint>,
}

/// A token that authenticates one request.
#[derive(Debug)]
pub enum AuthToken {
    /// A clear auth token (JWT).
    ClearAuth(String),
    /// A blind auth token.
    BlindAuth(cdk::nuts::BlindAuthToken),
}

/// What a mint asks for on an endpoint, by its settings: blind auth where
/// the blind settings list it, otherwise clear auth where the clear settings
/// list it.
pub open spec fn settings_requirement(
    clear: Option<ClearAuthSettings>,
    blind: Option<BlindAuthSettings>,
    k: (HttpMethod, Seq<char>),
) -> Option<AuthRequired> {
    if blind matches Some(b) && endpoint_keys(b.protected_endpoints@).contains(k) {
        Some(AuthRequired::Blind)
    } else if clear matches Some(c) && endpoint_keys(c.protected_endpoints@).contains(k) {
        Some(AuthRequired::Clear)
    } else {
        None
    }
}

/// What a table of protected endpoints says of an endpoint: its last entry
/// for it, if any.
pub open spec fn required_in(entries: Seq<(ProtectedEndpoint, AuthRequired)>, k: (HttpMethod, Seq<char>)) -> Option<
    AuthRequired,
>
    decreases entries.len(),
{
    if entries.len() == 0 {
        None
    } else if entries.last().0.key() == k {
        Some(entries.last().1)
    } else {
        required_in(entries.drop_last(), k)
    }
}

/// Auth state of one mint.
#[derive(Clone)]
pub struct MintAuthState {
    /// Clear auth settings (NUT-21), if the mint has them.
    pub clear_auth: Option<ClearAuthSettings>,
    /// Blind auth settings (NUT-22), if the mint has them.
    pub blind_auth: Option<BlindAuthSettings>,
    /// The current clear auth token (JWT).
    pub clear_token: Option<String>,
    /// The refresh token of clear auth.
    pub refresh_token: Option<String>,
    /// Protected endpoints with the kind of auth each asks for.
    pub protected_map: Vec<(ProtectedEndpoint, AuthRequired)>,
}

impl Default for MintAuthState {
    /// No settings, no tokens, nothing protected.
    fn default() -> (r: Self)
        ensures
            r.clear_auth is None,
            r.blind_auth is None,
            r.clear_token is None,
            r.refresh_token is None,
            r.protected_map@ == Seq::<(ProtectedEndpoint, AuthRequired)>::empty(),
    {
        MintAuthState {
            clear_auth: None,
            blind_auth: None,
            clear_token: None,
            refresh_token: None,
            protected_map: Vec::new(),
        }
    }
}

/// Pushing an entry makes it the answer for its endpoint.
proof fn lemma_required_push(
    entries: Seq<(ProtectedEndpoint, AuthRequired)>,
    x: (ProtectedEndpoint, AuthRequired),
    k: (HttpMethod, Seq<char>),
)
    ensures
        required_in(entries.push(x), k) == if x.0.key() == k {
            Some(x.1)
        } else {
            required_in(entries, k)
        },
{
    assert(entries.push(x).drop_last() =~= entries);
}

impl MintAuthState {
    /// Whether the mint asks for any authentication.
    pub fn requires_auth(&self) -> (r: bool)
        ensures
            r == (self.clear_auth is Some || self.blind_auth is Some),
    {
        self.clear_auth.is_some() || self.blind_auth.is_some()
    }

    /// The authentication an endpoint asks for, by the protected map.
    pub fn endpoint_requires_auth(&self, endpoint: &ProtectedEndpoint) -> (r: Option<AuthRequired>)
        ensures
            r == required_in(self.protected_map@, endpoint.key()),
    {
        let ghost m = self.protected_map@;
        let mut i: usize = self.protected_map.len();
        assert(m.take(m.len() as int) =~= m);
        while i > 0
            invariant
                m == self.protected_map@,
                i <= m.len(),
                required_in(m, endpoint.key()) == required_in(m.take(i as int), endpoint.key()),
            decreases i,
        {
            let ghost t = m.take(i as int);
            assert(t.drop_last() =~= m.take(i - 1));
            if self.protected_map[i - 1].0.same(endpoint) {
                return Some(self.protected_map[i - 1].1);
            }
            i = i - 1;
        }
        None
    }

    /// The authentication a method and path ask for.
    pub fn requires_auth_for(&self, method: HttpMethod, path: &str) -> (r: Option<AuthRequired>)
        ensures
            r == required_in(self.protected_map@, (method, path@)),
    {
        let endpoint = ProtectedEndpoint::new(method, path);
        self.endpoint_requires_auth(&endpoint)
    }

    /// Rebuilds the protected map from the settings: the clear auth
    /// endpoints, then the blind auth endpoints, which win over clear auth.
    pub fn build_protected_map(&mut self)
        ensures
            final(self).clear_auth == old(self).clear_auth,
            final(self).blind_auth == old(self).blind_auth,
            final(self).clear_token == old(self).clear_token,
            final(self).refresh_token == old(self).refresh_token,
            forall|k: (HttpMethod, Seq<char>)| #[trigger] required_in(final(self).protected_map@, k)
                == settings_requirement(final(self).clear_auth, final(self).blind_auth, k),
    {
        let mut m: Vec<(ProtectedEndpoint, AuthRequired)> = Vec::new();
        match &self.clear_auth {
            Some(c) => {
                let eps = &c.protected_endpoints;
                let mut j: usize = 0;
                while j < eps.len()
                    invariant
                        j <= eps@.len(),
                        forall|k: (HttpMethod, Seq<char>)| #[trigger] required_in(m@, k) == if endpoint_keys(
                            eps@.take(j as int),
                        ).contains(k) {
                            Some(AuthRequired::Clear)
                        } else {
                            None
                        },
                    decreases eps@.len() - j,
                {
                    let e = eps[j].duplicate();
                    let ghost before = m@;
                    m.push((e, AuthRequired::Clear));
                    proof {
                        let ks = endpoint_keys(eps@.take(j + 1));
                        assert(ks =~= endpoint_keys(eps@.take(j as int)).push(e.key()));
                        assert forall|k: (HttpMethod, Seq<char>)| #[trigger] required_in(m@, k)
                            == if ks.contains(k) {
                            Some(AuthRequired::Clear)
                        } else {
                            None
                        } by {
                            lemma_required_push(before, (e, AuthRequired::Clear), k);
                            if e.key() == k {
                                assert(ks[j as int] == k);
                            } else if endpoint_keys(eps@.take(j as int)).contains(k) {
                                let w = choose|w: int| 0 <= w < j && endpoint_keys(eps@.take(j as int))[w] == k;
                                assert(ks[w] == k);
                            } else if ks.contains(k) {
                                let w = choose|w: int| 0 <= w < ks.len() && ks[w] == k;
                                assert(w < j);
                                assert(endpoint_keys(eps@.take(j as int))[w] == k);
                            }
                        }
                    }
                    j = j + 1;
                }
                assert(eps@.take(j as int) =~= eps@);
            },
            None => {},
        }
        let ghost base = m@;
        match &self.blind_auth {
            Some(b) => {
                let eps = &b.protected_endpoints;
                let mut j: usize = 0;
                assert(endpoint_keys(eps@.take(0)) =~= Seq::<(HttpMethod, Seq<char>)>::empty());
                while j < eps.len()
                    invariant
                        j <= eps@.len(),
                        forall|k: (HttpMethod, Seq<char>)| #[trigger] required_in(m@, k) == if endpoint_keys(
                            eps@.take(j as int),
                        ).contains(k) {
                            Some(AuthRequired::Blind)
                        } else {
                            required_in(base, k)
                        },
                    decreases eps@.len() - j,
                {
                    let e = eps[j].duplicate();
                    let ghost before = m@;
                    m.push((e, AuthRequired::Blind));
                    proof {
                        let ks = endpoint_keys(eps@.take(j + 1));
                        assert(ks =~= endpoint_keys(eps@.take(j as int)).push(e.key()));
                        assert forall|k: (HttpMethod, Seq<char>)| #[trigger] required_in(m@, k)
                            == if ks.contains(k) {
                            Some(AuthRequired::Blind)
                        } else {
                            required_in(base, k)
                        } by {
                            lemma_required_push(before, (e, AuthRequired::Blind), k);
                            if e.key() == k {
                                assert(ks[j as int] == k);
                            } else if endpoint_keys(eps@.take(j as int)).contains(k) {
                                let w = choose|w: int| 0 <= w < j && endpoint_keys(eps@.take(j as int))[w] == k;
                                assert(ks[w] == k);
                            } else if ks.contains(k) {
                                let w = choose|w: int| 0 <= w < ks.len() && ks[w] == k;
                                assert(w < j);
                                assert(endpoint_keys(eps@.take(j as int))[w] == k);
                            }
                        }
                    }
                    j = j + 1;
                }
                assert(eps@.take(j as int) =~= eps@);
            },
            None => {},
        }
        self.protected_map = m;
    }
}

/// The auth state of a mint with the given settings, its map built.
pub fn auth_state_from_settings(clear_auth: Option<ClearAuthSettings>, blind_auth: Option<BlindAuthSettings>) -> (r:
    MintAuthState)
    ensures
        r.clear_auth == clear_auth,
        r.blind_auth == blind_auth,
        r.clear_token is None,
        r.refresh_token is None,
        forall|k: (HttpMethod, Seq<char>)| #[trigger] required_in(r.protected_map@, k)
            == settings_requirement(clear_auth, blind_auth, k),
{
    let mut state = MintAuthState {
        clear_auth,
        blind_auth,
        clear_token: None,
        refresh_token: None,
        protected_map: Vec::new(),
    };
    state.build_protected_map();
    state
}

/// Whether a mint's info lists clear or blind auth among its NUTs; the
/// argument holds the keys of its `nuts` object, `None` where it has none.
pub fn is_protected_mint(nut_keys: &Option<Vec<String>>) -> (r: bool)
    ensures
        r == match nut_keys {
            Some(keys) => string_views(keys@).contains("21"@) || string_views(keys@).contains("22"@),
            None => false,
        },
{
    match nut_keys {
        None => false,
        Some(keys) => {
            let k21 = String::from_str("21");
            let k22 = String::from_str("22");
            let mut i: usize = 0;
            while i < keys.len()
                invariant
                    *nut_keys == Some(*keys),
                    i <= keys@.len(),
                    k21@ == "21"@,
                    k22@ == "22"@,
                    forall|j: int| 0 <= j < i ==> string_views(keys@)[j] != "21"@ && string_views(keys@)[j] != "22"@,
                decreases keys@.len() - i,
            {
                if keys[i] == k21 {
                    assert(string_views(keys@)[i as int] == "21"@);
                    return true;
                }
                if keys[i] == k22 {
                    assert(string_views(keys@)[i as int] == "22"@);
                    return true;
                }
                i = i + 1;
            }
            proof {
                if string_views(keys@).contains("21"@) {
                    let w = choose|w: int| 0 <= w < keys@.len() && string_views(keys@)[w] == "21"@;
                    assert(string_views(keys@)[w] != "21"@);
                }
                if string_views(keys@).contains("22"@) {
                    let w = choose|w: int| 0 <= w < keys@.len() && string_views(keys@)[w] == "22"@;
                    assert(string_views(keys@)[w] != "22"@);
                }
            }
            false
        },
    }
}

/// The kind of authentication that an error response (401 or 403) asks for,
/// by the error codes 30001 (clear) and 31001 (blind) or their names.
pub open spec fn auth_error_kind(status: u16, body: Seq<char>) -> Option<AuthRequired> {
    if status == 401 || status == 403 {
        if has_infix(body, "30001"@) || has_infix(body, "clear_auth_required"@) || has_infix(body, "Clear-auth"@) {
            Some(AuthRequired::Clear)
        } else if has_infix(body, "31001"@) || has_infix(body, "blind_auth_required"@) || has_infix(
            body,
            "Blind-auth"@,
        ) {
            Some(AuthRequired::Blind)
        } else {
            None
        }
    } else {
        None
    }
}

/// Whether an error response says that the request needed authentication,
/// and of which kind.
pub fn is_auth_required_error(status: u16, body: &str) -> (r: Option<AuthRequired>)
    ensures
        r == auth_error_kind(status, body@),
{
    if status == 401 || status == 403 {
        let b = chars_of(body);
        if contains_text(&b, "30001") || contains_text(&b, "clear_auth_required") || contains_text(&b, "Clear-auth") {
            return Some(AuthRequired::Clear);
        }
        if contains_text(&b, "31001") || contains_text(&b, "blind_auth_required") || contains_text(&b, "Blind-auth") {
            return Some(AuthRequired::Blind);
        }
        return None;
    }
    None
}

/// A blind auth token with its DLEQ proof dropped
/// (`BlindAuthToken::without_dleq`): a function of the token alone.
pub uninterp spec fn dleq_stripped(t: cdk::nuts::BlindAuthToken) -> cdk::nuts::BlindAuthToken;

/// The header text of a blind auth token (its `Display`): a function of
/// the token alone.
pub uninterp spec fn blind_header_of(t: cdk::nuts::BlindAuthToken) -> Seq<char>;

/// The same blind auth token without its DLEQ proof, with
/// `BlindAuthToken::without_dleq`.
#[verifier::external_body]
fn without_dleq(t: &cdk::nuts::BlindAuthToken) -> (r: cdk::nuts::BlindAuthToken)
    ensures
        r == dleq_stripped(*t),
{
    t.without_dleq()
}

/// The header text of a blind auth token (its `Display`): `authA` and the
/// URL-safe base64 of its proof's JSON. Beyond the prefix, the encoding
/// is carried by the name `blind_header_of`.
#[verifier::external_body]
fn blind_token_text(t: &cdk::nuts::BlindAuthToken) -> (r: String)
    ensures
        r@ == blind_header_of(*t),
        has_prefix(r@, "authA"@),
{
    t.to_string()
}

/// Takes a blind auth token of a mint from the cache for one request,
/// without its DLEQ proof (which would link its minting to its use).
pub fn get_blind_auth_for_request(cache: &mut BlindAuthCache, mint_url: &str, now: u64) -> (r: Option<AuthToken>)
    requires
        old(cache).wf(),
    ensures
        final(cache).wf(),
        final(cache).ttl() == old(cache).ttl(),
        r == match next_token(old(cache).tokens_of(mint_url@), now) {
            Some(t) => Some(AuthToken::BlindAuth(dleq_stripped(t))),
            None => None,
        },
        final(cache).tokens_of(mint_url@) == left_after_take(old(cache).tokens_of(mint_url@), now),
        forall|m: Seq<char>| m != mint_url@ ==> #[trigger] final(cache).tokens_of(m) == old(cache).tokens_of(m),
{
    match cache.consume_token(mint_url, now) {
        Some(t) => Some(AuthToken::BlindAuth(without_dleq(&t))),
        None => None,
    }
}

/// The error of `add_auth_header` when clear auth is needed and no token
/// is set.
pub open spec fn clear_missing_text() -> Seq<char> {
    "Clear auth required but no token available"@
}

/// The error when blind auth is needed and no token is cached.
pub open spec fn blind_missing_text() -> Seq<char> {
    "Blind auth required but no tokens available. Please request blind auth tokens."@
}

/// The error of `get_auth_for_endpoint` when clear auth is needed and no
/// token is set.
pub open spec fn clear_unauthenticated_text() -> Seq<char> {
    "Clear auth required but no token available. Please authenticate with the mint."@
}

/// Adds the auth header that an endpoint asks for: `Clear-auth` with the
/// clear token, or `Blind-auth` with a blind token taken from the cache.
pub fn add_auth_header(
    headers: &mut Vec<(String, String)>,
    auth_state: &MintAuthState,
    cache: &mut BlindAuthCache,
    mint_url: &str,
    endpoint: &ProtectedEndpoint,
    now: u64,
) -> (r: Result<(), String>)
    requires
        old(cache).wf(),
    ensures
        final(cache).wf(),
        final(cache).ttl() == old(cache).ttl(),
        match required_in(auth_state.protected_map@, endpoint.key()) {
            None => r is Ok && final(headers)@ == old(headers)@ && *final(cache) == *old(cache),
            Some(AuthRequired::Clear) => *final(cache) == *old(cache) && match auth_state.clear_token {
                Some(t) => r is Ok && final(headers)@.len() == old(headers)@.len() + 1
                    && final(headers)@.drop_last() == old(headers)@
                    && final(headers)@.last().0@ == "Clear-auth"@ && final(headers)@.last().1@ == t@,
                None => r matches Err(e) && e@ == clear_missing_text() && final(headers)@ == old(
                    headers,
                )@,
            },
            Some(AuthRequired::Blind) => final(cache).tokens_of(mint_url@) == left_after_take(
                old(cache).tokens_of(mint_url@),
                now,
            ) && (forall|m: Seq<char>| m != mint_url@ ==> #[trigger] final(cache).tokens_of(m)
                == old(cache).tokens_of(m)) && if next_token(old(cache).tokens_of(mint_url@), now) is Some {
                r is Ok && final(headers)@.len() == old(headers)@.len() + 1
                    && final(headers)@.drop_last() == old(headers)@
                    && final(headers)@.last().0@ == "Blind-auth"@ && final(headers)@.last().1@
                    == blind_header_of(dleq_stripped(next_token(old(cache).tokens_of(mint_url@), now)->0))
                    && has_prefix(final(headers)@.last().1@, "authA"@)
            } else {
                r matches Err(e) && e@ == blind_missing_text() && final(headers)@ == old(headers)@
            },
        },
{
    match auth_state.endpoint_requires_auth(endpoint) {
        None => Ok(()),
        Some(AuthRequired::Clear) => {
            match &auth_state.clear_token {
                Some(t) => {
                    headers.push((String::from_str("Clear-auth"), t.clone()));
                    Ok(())
                },
                None => Err(String::from_str("Clear auth required but no token available")),
            }
        },
        Some(AuthRequired::Blind) => {
            match get_blind_auth_for_request(cache, mint_url, now) {
                Some(AuthToken::BlindAuth(bat)) => {
                    headers.push((String::from_str("Blind-auth"), blind_token_text(&bat)));
                    Ok(())
                },
                _ => Err(
                    String::from_str(
                        "Blind auth required but no tokens available. Please request blind auth tokens.",
                    ),
                ),
            }
        },
    }
}

/// `add_auth_header` for a method and a path.
pub fn add_auth_header_for(
    headers: &mut Vec<(String, String)>,
    auth_state: &MintAuthState,
    cache: &mut BlindAuthCache,
    mint_url: &str,
    method: HttpMethod,
    path: &str,
    now: u64,
) -> (r: Result<(), String>)
    requires
        old(cache).wf(),
    ensures
        final(cache).wf(),
        final(cache).ttl() == old(cache).ttl(),
        required_in(auth_state.protected_map@, (method, path@)) is None ==> r is Ok && final(headers)@
            == old(headers)@ && *final(cache) == *old(cache),
        required_in(auth_state.protected_map@, (method, path@)) == Some(AuthRequired::Clear) ==> (
        *final(cache) == *old(cache) && (r is Ok <==> auth_state.clear_token is Some)),
        required_in(auth_state.protected_map@, (method, path@)) == Some(AuthRequired::Blind) ==> (
        final(cache).tokens_of(mint_url@) == left_after_take(old(cache).tokens_of(mint_url@), now) && (r is Ok
            <==> next_token(old(cache).tokens_of(mint_url@), now) is Some)),
{
    let endpoint = ProtectedEndpoint::new(method, path);
    add_auth_header(headers, auth_state, cache, mint_url, &endpoint, now)
}

/// The auth token for a request to an endpoint: none where it asks for
/// none, the clear token, or a blind token taken from the cache.
pub fn get_auth_for_endpoint(
    auth_state: &MintAuthState,
    cache: &mut BlindAuthCache,
    mint_url: &str,
    endpoint: &ProtectedEndpoint,
    now: u64,
) -> (r: Result<Option<AuthToken>, String>)
    requires
        old(cache).wf(),
    ensures
        final(cache).wf(),
        final(cache).ttl() == old(cache).ttl(),
        match required_in(auth_state.protected_map@, endpoint.key()) {
            None => r matches Ok(None) && *final(cache) == *old(cache),
            Some(AuthRequired::Clear) => *final(cache) == *old(cache) && match auth_state.clear_token {
                Some(t) => r matches Ok(Some(AuthToken::ClearAuth(c))) && c@ == t@,
                None => r matches Err(e) && e@ == clear_unauthenticated_text(),
            },
            Some(AuthRequired::Blind) => final(cache).tokens_of(mint_url@) == left_after_take(
                old(cache).tokens_of(mint_url@),
                now,
            ) && (forall|m: Seq<char>| m != mint_url@ ==> #[trigger] final(cache).tokens_of(m)
                == old(cache).tokens_of(m)) && if next_token(old(cache).tokens_of(mint_url@), now) is Some {
                r == Ok::<Option<AuthToken>, String>(Some(AuthToken::BlindAuth(dleq_stripped(next_token(
                    old(cache).tokens_of(mint_url@),
                    now,
                )->0))))
            } else {
                r matches Err(e) && e@ == blind_missing_text()
            },
        },
{
    match auth_state.endpoint_requires_auth(endpoint) {
        None => Ok(None),
        Some(AuthRequired::Clear) => {
            match &auth_state.clear_token {
                Some(t) => Ok(Some(AuthToken::ClearAuth(t.clone()))),
                None => Err(
                    String::from_str(
                        "Clear auth required but no token available. Please authenticate with the mint.",
                    ),
                ),
            }
        },
        Some(AuthRequired::Blind) => {
            match get_blind_auth_for_request(cache, mint_url, now) {
                Some(token) => Ok(Some(token)),
                None => Err(
                    String::from_str(
                        "Blind auth required but no tokens available. Please request blind auth tokens.",
                    ),
                ),
            }
        },
    }
}

/// The error when an operation needs clear auth and no token is set.
pub open spec fn clear_needed_text() -> Seq<char> {
    "This mint requires Clear Auth (NUT-21). Please authenticate with the mint's OAuth provider."@
}

/// The error when an operation needs blind auth and no token is cached.
pub open spec fn blind_needed_text() -> Seq<char> {
    "This mint requires Blind Auth (NUT-22). Please request blind auth tokens first."@
}

/// Whether an operation that asks for `required` can go ahead: clear auth
/// needs the mint's known state with a clear token, blind auth needs a
/// cached blind token.
pub fn auth_availability(
    required: Option<AuthRequired>,
    state: Option<&MintAuthState>,
    has_blind_tokens: bool,
) -> (r: Result<(), String>)
    ensures
        match required {
            None => r is Ok,
            Some(AuthRequired::Clear) => match state {
                None => r matches Err(e) && e@ == "Auth state not found"@,
                Some(s) => if s.clear_token is None {
                    r matches Err(e) && e@ == clear_needed_text()
                } else {
                    r is Ok
                },
            },
            Some(AuthRequired::Blind) => if has_blind_tokens {
                r is Ok
            } else {
                r matches Err(e) && e@ == blind_needed_text()
            },
        },
{
    match required {
        None => Ok(()),
        Some(AuthRequired::Clear) => {
            match state {
                None => Err(String::from_str("Auth state not found")),
                Some(s) => {
                    if s.clear_token.is_none() {
                        Err(
                            String::from_str(
                                "This mint requires Clear Auth (NUT-21). Please authenticate with the mint's OAuth provider.",
                            ),
                        )
                    } else {
                        Ok(())
                    }
                },
            }
        },
        Some(AuthRequired::Blind) => {
            if has_blind_tokens {
                Ok(())
            } else {
                Err(
                    String::from_str(
                        "This mint requires Blind Auth (NUT-22). Please request blind auth tokens first.",
                    ),
                )
            }
        },
    }
}

/// Records a mint's auth state, its protected map rebuilt first.
pub fn set_mint_auth_state(states: &mut StrMap<MintAuthState>, mint_url: &str, state: MintAuthState)
    requires
        old(states).wf(),
    ensures
        final(states).wf(),
        final(states)@.dom() == old(states)@.dom().insert(mint_url@),
        forall|m: Seq<char>| m != mint_url@ && #[trigger] old(states)@.contains_key(m) ==> final(states)@[m] == old(
            states,
        )@[m],
        final(states)@[mint_url@].clear_auth == state.clear_auth,
        final(states)@[mint_url@].blind_auth == state.blind_auth,
        final(states)@[mint_url@].clear_token == state.clear_token,
        final(states)@[mint_url@].refresh_token == state.refresh_token,
        forall|k: (HttpMethod, Seq<char>)| #[trigger] required_in(final(states)@[mint_url@].protected_map@, k)
            == settings_requirement(state.clear_auth, state.blind_auth, k),
{
    let mut s = state;
    s.build_protected_map();
    states.insert(mint_url, s);
}

/// Whether a mint is known to ask for authentication.
pub fn mint_requires_auth(states: &StrMap<MintAuthState>, mint_url: &str) -> (r: bool)
    requires
        states.wf(),
    ensures
        r == (states@.contains_key(mint_url@) && (states@[mint_url@].clear_auth is Some
            || states@[mint_url@].blind_auth is Some)),
{
    match states.get(mint_url) {
        Some(s) => s.requires_auth(),
        None => false,
    }
}

} // verus!
