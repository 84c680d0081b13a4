//! Blind auth tokens (NUT-22) cached per mint, with expiry.
use vstd::prelude::*;
use vstd::string::*;

verus! {

/// A blind auth token of the Cashu Development Kit.
#[verifier::external_type_specification]
#[verifier::external_body]
pub struct ExBlindAuthToken(cdk::nuts::BlindAuthToken);

/// Seconds a cached token lives by default (one hour).
pub const DEFAULT_TOKEN_TTL: u64 = 3600;

/// The fewest tokens to ask a mint for when replenishing.
pub const MIN_TOKEN_REQUEST: u32 = 5;

/// A cached token with its bookkeeping.
#[derive(Debug)]
pub struct CachedAuthToken {
    /// The token.
    pub token: cdk::nuts::BlindAuthToken,
    /// When it was cached (Unix seconds).
    pub cached_at: u64,
    /// When it expires, if known.
    pub expires_at: Option<u64>,
    /// How often it was used.
    pub use_count: u32,
}

/// A token is live at `now` unless it has an expiry that `now` has reached.
pub open spec fn token_live(t: CachedAuthToken, now: u64) -> bool {
    match t.expires_at {
        Some(e) => now < e,
        None => true,
    }
}

impl CachedAuthToken {
    /// Whether the token has expired at `now`.
    pub fn is_expired(&self, now: u64) -> (r: bool)
        ensures
            r == !token_live(*self, now),
    {
        match self.expires_at {
            Some(e) => now >= e,
            None => false,
        }
    }

    /// Whether the token can still be used at `now`.
    pub fn is_valid(&self, now: u64) -> (r: bool)
        ensures
            r == token_live(*self, now),
    {
        !self.is_expired(now)
    }
}

/// The live tokens of a list, in order.
pub open spec fn live_tokens(s: Seq<CachedAuthToken>, now: u64) -> Seq<CachedAuthToken>
    decreases s.len(),
{
    if s.len() == 0 {
        s
    } else {
        let rest = live_tokens(s.drop_last(), now);
        if token_live(s.last(), now) {
            rest.push(s.last())
        } else {
            rest
        }
    }
}

/// The position of the first live token of a list.
pub open spec fn first_live(s: Seq<CachedAuthToken>, now: u64) -> Option<int>
    decreases s.len(),
{
    if s.len() == 0 {
        None
    } else if token_live(s[0], now) {
        Some(0)
    } else {
        match first_live(s.subrange(1, s.len() as int), now) {
            Some(i) => Some(i + 1),
            None => None,
        }
    }
}

/// `first_live` is the least position of a live token.
pub proof fn lemma_first_live(s: Seq<CachedAuthToken>, now: u64)
    ensures
        match first_live(s, now) {
            Some(i) => 0 <= i < s.len() && token_live(s[i], now) && forall|j: int|
                0 <= j < i ==> !token_live(#[trigger] s[j], now),
            None => forall|j: int| 0 <= j < s.len() ==> !token_live(#[trigger] s[j], now),
        },
    decreases s.len(),
{
    if s.len() > 0 && !token_live(s[0], now) {
        let t = s.subrange(1, s.len() as int);
        lemma_first_live(t, now);
        assert forall|j: int| 1 <= j < s.len() implies s[j] == #[trigger] t[j - 1] by {}
        match first_live(t, now) {
            Some(i) => {
                assert forall|j: int| 0 <= j < i + 1 implies !token_live(#[trigger] s[j], now) by {
                    if j > 0 {
                        assert(s[j] == t[j - 1]);
                    }
                }
            },
            None => {
                assert forall|j: int| 0 <= j < s.len() implies !token_live(#[trigger] s[j], now) by {
                    if j > 0 {
                        assert(s[j] == t[j - 1]);
                    }
                }
            },
        }
    }
}

/// The number of live tokens never exceeds the number of tokens.
pub proof fn lemma_live_len(s: Seq<CachedAuthToken>, now: u64)
    ensures
        live_tokens(s, now).len() <= s.len(),
    decreases s.len(),
{
    if s.len() > 0 {
        lemma_live_len(s.drop_last(), now);
    }
}

/// The token that a consumer takes from a mint's list, if any.
pub open spec fn next_token(t: Option<Seq<CachedAuthToken>>, now: u64) -> Option<
    cdk::nuts::BlindAuthToken,
> {
    match t {
        Some(s) => match first_live(s, now) {
            Some(i) => Some(s[i].token),
            None => None,
        },
        None => None,
    }
}

/// A mint's list after a consumer took its first live token.
pub open spec fn left_after_take(t: Option<Seq<CachedAuthToken>>, now: u64) -> Option<
    Seq<CachedAuthToken>,
> {
    match t {
        Some(s) => match first_live(s, now) {
            Some(i) => Some(s.remove(i)),
            None => Some(s),
        },
        None => None,
    }
}

/// A fresh, unused cache entry for each token.
pub open spec fn fresh_entries(
    tokens: Seq<cdk::nuts::BlindAuthToken>,
    expires_at: Option<u64>,
    now: u64,
) -> Seq<CachedAuthToken> {
    Seq::new(
        tokens.len(),
        |i: int| CachedAuthToken { token: tokens[i], cached_at: now, expires_at, use_count: 0 },
    )
}

/// The position of key `k` in a list of pairs, searching from the end.
pub open spec fn key_index<V>(p: Seq<(Seq<char>, V)>, k: Seq<char>) -> Option<int>
    decreases p.len(),
{
    if p.len() == 0 {
        None
    } else if p.last().0 == k {
        Some(p.len() - 1)
    } else {
        key_index(p.drop_last(), k)
    }
}

/// The value paired with key `k`, if any.
pub open spec fn lookup<V>(p: Seq<(Seq<char>, V)>, k: Seq<char>) -> Option<V> {
    match key_index(p, k) {
        Some(i) => Some(p[i].1),
        None => None,
    }
}

/// No key occurs twice in a list of pairs.
pub open spec fn distinct_keys<V>(p: Seq<(Seq<char>, V)>) -> bool {
    forall|i: int, j: int| 0 <= i < p.len() && 0 <= j < p.len() && i != j ==> p[i].0 != p[j].0
}

/// `key_index` finds the last pair with the key, or reports that none has it.
pub proof fn lemma_key_index<V>(p: Seq<(Seq<char>, V)>, k: Seq<char>)
    ensures
        match key_index(p, k) {
            Some(i) => 0 <= i < p.len() && p[i].0 == k,
            None => forall|j: int| 0 <= j < p.len() ==> p[j].0 != k,
        },
    decreases p.len(),
{
    if p.len() > 0 && p.last().0 != k {
        let q = p.drop_last();
        lemma_key_index(q, k);
        assert forall|j: int| 0 <= j < q.len() implies #[trigger] p[j] == q[j] by {}
    }
}

/// With distinct keys, the pair that holds a key is the one `key_index` finds.
pub proof fn lemma_key_at<V>(p: Seq<(Seq<char>, V)>, k: Seq<char>, i: int)
    requires
        distinct_keys(p),
        0 <= i < p.len(),
        p[i].0 == k,
    ensures
        key_index(p, k) == Some(i),
        lookup(p, k) == Some(p[i].1),
{
    lemma_key_index(p, k);
}

/// The total number of tokens over all mints.
pub open spec fn token_total(p: Seq<(Seq<char>, Seq<CachedAuthToken>)>) -> nat
    decreases p.len(),
{
    if p.len() == 0 {
        0
    } else {
        token_total(p.drop_last()) + p.last().1.len()
    }
}

/// Replacing one mint's list changes the total by the difference in length.
pub proof fn lemma_total_update(
    p: Seq<(Seq<char>, Seq<CachedAuthToken>)>,
    i: int,
    x: (Seq<char>, Seq<CachedAuthToken>),
)
    requires
        0 <= i < p.len(),
    ensures
        token_total(p.update(i, x)) == token_total(p) - p[i].1.len() + x.1.len(),
    decreases p.len(),
{
    if i < p.len() - 1 {
        lemma_total_update(p.drop_last(), i, x);
        assert(p.update(i, x).drop_last() =~= p.drop_last().update(i, x));
    } else {
        assert(p.update(i, x).drop_last() =~= p.drop_last());
    }
}

/// Removing one mint changes the total by the length of its list.
pub proof fn lemma_total_remove(p: Seq<(Seq<char>, Seq<CachedAuthToken>)>, i: int)
    requires
        0 <= i < p.len(),
    ensures
        token_total(p.remove(i)) == token_total(p) - p[i].1.len(),
    decreases p.len(),
{
    if i < p.len() - 1 {
        lemma_total_remove(p.drop_last(), i);
        assert(p.remove(i).drop_last() =~= p.drop_last().remove(i));
    } else {
        assert(p.remove(i) =~= p.drop_last());
    }
}

/// A prefix holds no more tokens than the whole list.
pub proof fn lemma_total_prefix(p: Seq<(Seq<char>, Seq<CachedAuthToken>)>, n: int)
    requires
        0 <= n <= p.len(),
    ensures
        token_total(p.take(n)) <= token_total(p),
    decreases p.len() - n,
{
    if n < p.len() {
        lemma_total_prefix(p, n + 1);
        assert(p.take(n + 1).drop_last() =~= p.take(n));
    } else {
        assert(p.take(n) =~= p);
    }
}

/// The mints that keep live tokens, with only those tokens, in order.
pub open spec fn cleaned(p: Seq<(Seq<char>, Seq<CachedAuthToken>)>, now: u64) -> Seq<
    (Seq<char>, Seq<CachedAuthToken>),
>
    decreases p.len(),
{
    if p.len() == 0 {
        p
    } else {
        let rest = cleaned(p.drop_last(), now);
        let l = live_tokens(p.last().1, now);
        if l.len() > 0 {
            rest.push((p.last().0, l))
        } else {
            rest
        }
    }
}

/// What cleaning does to each mint, and to the total.
pub proof fn lemma_cleaned(p: Seq<(Seq<char>, Seq<CachedAuthToken>)>, now: u64)
    requires
        distinct_keys(p),
    ensures
        distinct_keys(cleaned(p, now)),
        token_total(cleaned(p, now)) <= token_total(p),
        forall|k: Seq<char>| #[trigger]
            lookup(cleaned(p, now), k) == cleaned_entry(lookup(p, k), now),
    decreases p.len(),
{
    if p.len() > 0 {
        let q = p.drop_last();
        assert(distinct_keys(q));
        lemma_cleaned(q, now);
        let l = live_tokens(p.last().1, now);
        lemma_live_len(p.last().1, now);
        let kl = p.last().0;
        lemma_key_index(q, kl);
        assert(lookup(q, kl) is None);
        if l.len() > 0 {
            let c = cleaned(q, now);
            assert(c.push((kl, l)).drop_last() =~= c);
            assert(lookup(c, kl) == cleaned_entry(lookup(q, kl), now));
            lemma_key_index(c, kl);
            assert forall|i: int, j: int|
                0 <= i < c.push((kl, l)).len() && 0 <= j < c.push((kl, l)).len() && i != j
                implies c.push((kl, l))[i].0 != c.push((kl, l))[j].0 by {
                if i == c.len() {
                    assert(c[j].0 != kl);
                } else if j == c.len() {
                    assert(c[i].0 != kl);
                }
            }
        }
        assert forall|k: Seq<char>| #[trigger]
            lookup(cleaned(p, now), k) == cleaned_entry(lookup(p, k), now) by {
            let c = cleaned(q, now);
            assert(lookup(c, k) == cleaned_entry(lookup(q, k), now));
            lemma_key_index(q, k);
            lemma_key_index(c, k);
            if l.len() > 0 {
                assert(cleaned(p, now).drop_last() =~= c);
            }
            if k != kl {
                assert(key_index(p, k) == key_index(q, k));
                if let Some(i) = key_index(q, k) {
                    assert(p[i] == q[i]);
                }
                if let Some(i) = key_index(c, k) {
                    assert(cleaned(p, now)[i] == c[i]);
                }
            }
        }
    }
}

/// What cleaning leaves of one mint's list.
pub open spec fn cleaned_entry(t: Option<Seq<CachedAuthToken>>, now: u64) -> Option<
    Seq<CachedAuthToken>,
> {
    match t {
        Some(s) => if live_tokens(s, now).len() > 0 {
            Some(live_tokens(s, now))
        } else {
            None
        },
        None => None,
    }
}

/// The view of the cache's storage: each mint with its token list.
pub open spec fn pair_views(v: Seq<(String, Vec<CachedAuthToken>)>) -> Seq<
    (Seq<char>, Seq<CachedAuthToken>),
> {
    v.map_values(|e: (String, Vec<CachedAuthToken>)| (e.0@, e.1@))
}

/// Blind auth tokens per mint.
#[derive(Debug)]
pub struct BlindAuthCache {
    tokens: Vec<(String, Vec<CachedAuthToken>)>,
    /// Default lifetime of a cached token (seconds).
    pub default_ttl: u64,
}

impl BlindAuthCache {
    /// Each mint with its tokens, in the order the mints were first seen.
    pub closed spec fn pairs(&self) -> Seq<(Seq<char>, Seq<CachedAuthToken>)> {
        pair_views(self.tokens@)
    }

    /// The default lifetime of a cached token.
    pub closed spec fn ttl(&self) -> u64 {
        self.default_ttl
    }

    /// The tokens cached for a mint; `None` if the mint has no entry.
    pub open spec fn tokens_of(&self, mint: Seq<char>) -> Option<Seq<CachedAuthToken>> {
        lookup(self.pairs(), mint)
    }

    /// The tokens cached for a mint, none if it has no entry.
    pub open spec fn tokens_or_none(&self, mint: Seq<char>) -> Seq<CachedAuthToken> {
        match self.tokens_of(mint) {
            Some(s) => s,
            None => Seq::empty(),
        }
    }

    /// The number of cached tokens over all mints.
    pub open spec fn total(&self) -> nat {
        token_total(self.pairs())
    }

    /// No mint has two entries.
    pub open spec fn wf(&self) -> bool {
        distinct_keys(self.pairs())
    }

    /// An empty cache whose tokens live one hour by default.
    pub fn new() -> (r: Self)
        ensures
            r.wf(),
            r.ttl() == DEFAULT_TOKEN_TTL,
            r.total() == 0,
            forall|m: Seq<char>| #[trigger] r.tokens_of(m) is None,
    {
        let r = BlindAuthCache { tokens: Vec::new(), default_ttl: DEFAULT_TOKEN_TTL };
        assert(r.pairs() =~= Seq::empty());
        r
    }

    /// Position of a mint's entry.
    fn find(&self, mint_url: &str) -> (r: Option<usize>)
        requires
            self.wf(),
        ensures
            r matches Some(i) ==> i < self.tokens@.len() && self.pairs()[i as int].0 == mint_url@
                && key_index(self.pairs(), mint_url@) == Some(i as int),
            r is None ==> key_index(self.pairs(), mint_url@) is None,
    {
        let k = String::from_str(mint_url);
        let mut i: usize = 0;
        while i < self.tokens.len()
            invariant
                self.wf(),
                i <= self.tokens.len(),
                k@ == mint_url@,
                forall|j: int| 0 <= j < i ==> self.pairs()[j].0 != mint_url@,
            decreases self.tokens.len() - i,
        {
            if self.tokens[i].0 == k {
                proof {
                    lemma_key_at(self.pairs(), mint_url@, i as int);
                }
                return Some(i);
            }
            i = i + 1;
        }
        proof {
            lemma_key_index(self.pairs(), mint_url@);
        }
        None
    }

    /// Caches one token for a mint at `now`.
    pub fn add_token(
        &mut self,
        mint_url: &str,
        token: cdk::nuts::BlindAuthToken,
        expires_at: Option<u64>,
        now: u64,
    )
        requires
            old(self).wf(),
        ensures
            final(self).wf(),
            final(self).ttl() == old(self).ttl(),
            final(self).tokens_of(mint_url@) == Some(
                old(self).tokens_or_none(mint_url@).push(
                    CachedAuthToken { token, cached_at: now, expires_at, use_count: 0 },
                ),
            ),
            forall|m: Seq<char>| m != mint_url@ ==> #[trigger] final(self).tokens_of(m) == old(
                self,
            ).tokens_of(m),
            final(self).total() == old(self).total() + 1,
    {
        let cached = CachedAuthToken { token, cached_at: now, expires_at, use_count: 0 };
        let ghost c = cached;
        let ghost p0 = self.pairs();
        match self.find(mint_url) {
            Some(i) => {
                let mut entry = self.tokens.remove(i);
                entry.1.push(cached);
                self.tokens.insert(i, entry);
                proof {
                    let x = (mint_url@, p0[i as int].1.push(c));
                    assert(self.pairs() =~= p0.update(i as int, x));
                    lemma_total_update(p0, i as int, x);
                    assert forall|a: int, b: int|
                        0 <= a < self.pairs().len() && 0 <= b < self.pairs().len() && a != b
                        implies self.pairs()[a].0 != self.pairs()[b].0 by {
                        assert(self.pairs()[a].0 == p0[a].0);
                        assert(self.pairs()[b].0 == p0[b].0);
                    }
                    assert(distinct_keys(self.pairs()));
                    lemma_key_at(self.pairs(), mint_url@, i as int);
                    assert forall|m: Seq<char>| m != mint_url@ implies #[trigger] lookup(
                        self.pairs(),
                        m,
                    ) == lookup(p0, m) by {
                        lemma_key_index(p0, m);
                        match key_index(p0, m) {
                            Some(j) => {
                                lemma_key_at(self.pairs(), m, j);
                            },
                            None => {
                                lemma_key_index(self.pairs(), m);
                                if key_index(self.pairs(), m) is Some {
                                    let j = key_index(self.pairs(), m)->0;
                                    assert(self.pairs()[j].0 == p0[j].0);
                                }
                            },
                        }
                    }
                }
            },
            None => {
                let mut v: Vec<CachedAuthToken> = Vec::new();
                v.push(cached);
                let k = String::from_str(mint_url);
                self.tokens.push((k, v));
                proof {
                    assert(self.pairs() =~= p0.push((mint_url@, seq![c])));
                    assert(self.pairs().drop_last() =~= p0);
                    lemma_key_index(p0, mint_url@);
                    assert(seq![c] =~= Seq::<CachedAuthToken>::empty().push(c));
                    assert forall|m: Seq<char>| m != mint_url@ implies #[trigger] lookup(
                        self.pairs(),
                        m,
                    ) == lookup(p0, m) by {
                        assert(self.pairs().last().0 != m);
                        assert(key_index(self.pairs(), m) == key_index(p0, m));
                        lemma_key_index(p0, m);
                        if let Some(j) = key_index(p0, m) {
                            assert(self.pairs()[j] == p0[j]);
                        }
                    }
                    assert forall|a: int, b: int|
                        0 <= a < self.pairs().len() && 0 <= b < self.pairs().len() && a != b
                        implies self.pairs()[a].0 != self.pairs()[b].0 by {
                        if a < p0.len() && b < p0.len() {
                            assert(self.pairs()[a] == p0[a]);
                            assert(self.pairs()[b] == p0[b]);
                        } else if a < p0.len() {
                            assert(self.pairs()[a] == p0[a]);
                        } else {
                            assert(self.pairs()[b] == p0[b]);
                        }
                    }
                }
            },
        }
    }

    /// Caches several tokens for a mint at `now`, in order.
    pub fn add_tokens(
        &mut self,
        mint_url: &str,
        tokens: Vec<cdk::nuts::BlindAuthToken>,
        expires_at: Option<u64>,
        now: u64,
    )
        requires
            old(self).wf(),
        ensures
            final(self).wf(),
            final(self).ttl() == old(self).ttl(),
            tokens@.len() == 0 ==> final(self).tokens_of(mint_url@) == old(self).tokens_of(
                mint_url@,
            ),
            tokens@.len() > 0 ==> final(self).tokens_of(mint_url@) == Some(
                old(self).tokens_or_none(mint_url@) + fresh_entries(tokens@, expires_at, now),
            ),
            forall|m: Seq<char>| m != mint_url@ ==> #[trigger] final(self).tokens_of(m) == old(
                self,
            ).tokens_of(m),
            final(self).total() == old(self).total() + tokens@.len(),
    {
        let ghost all = tokens@;
        let ghost before = self.tokens_or_none(mint_url@);
        let mut rest = tokens;
        let mut i: usize = 0;
        assert(all.len() == rest.len());
        while rest.len() > 0
            invariant
                self.wf(),
                self.ttl() == old(self).ttl(),
                before == old(self).tokens_or_none(mint_url@),
                all.len() <= usize::MAX,
                i <= all.len(),
                rest@ == all.skip(i as int),
                i == 0 ==> self.tokens_of(mint_url@) == old(self).tokens_of(mint_url@),
                i > 0 ==> self.tokens_of(mint_url@) == Some(
                    before + fresh_entries(all.take(i as int), expires_at, now),
                ),
                forall|m: Seq<char>| m != mint_url@ ==> #[trigger] self.tokens_of(m) == old(
                    self,
                ).tokens_of(m),
                self.total() == old(self).total() + i,
            decreases rest.len(),
        {
            assert(rest@.len() == all.len() - i);
            let t = rest.remove(0);
            proof {
                assert(t == all[i as int]);
                assert(rest@ =~= all.skip(i + 1));
            }
            let ghost cur = self.tokens_or_none(mint_url@);
            self.add_token(mint_url, t, expires_at, now);
            proof {
                let c = CachedAuthToken { token: t, cached_at: now, expires_at, use_count: 0 };
                let f0 = fresh_entries(all.take(i as int), expires_at, now);
                let f1 = fresh_entries(all.take(i + 1), expires_at, now);
                assert(f1 =~= f0.push(c));
                if i == 0 {
                    assert(f0 =~= Seq::<CachedAuthToken>::empty());
                    assert(cur == before);
                    assert(before + f1 =~= cur.push(c));
                } else {
                    assert(cur == before + f0);
                    assert(before + f1 =~= cur.push(c));
                }
            }
            i = i + 1;
        }
        proof {
            assert(all.skip(i as int).len() == 0);
            assert(all.take(i as int) =~= all);
        }
    }

    /// Takes the first live token of a mint out of the cache.
    pub fn consume_token(&mut self, mint_url: &str, now: u64) -> (r: Option<
        cdk::nuts::BlindAuthToken,
    >)
        requires
            old(self).wf(),
        ensures
            final(self).wf(),
            final(self).ttl() == old(self).ttl(),
            r == next_token(old(self).tokens_of(mint_url@), now),
            final(self).tokens_of(mint_url@) == left_after_take(
                old(self).tokens_of(mint_url@),
                now,
            ),
            forall|m: Seq<char>| m != mint_url@ ==> #[trigger] final(self).tokens_of(m) == old(
                self,
            ).tokens_of(m),
            r is Some ==> final(self).total() + 1 == old(self).total(),
            r is None ==> final(self).total() == old(self).total(),
    {
        let ghost p0 = self.pairs();
        let i = match self.find(mint_url) {
            Some(i) => i,
            None => {
                return None;
            },
        };
        let ghost s = p0[i as int].1;
        proof {
            lemma_key_at(p0, mint_url@, i as int);
            lemma_first_live(s, now);
        }
        let mut pos: usize = 0;
        let n = self.tokens[i].1.len();
        while pos < n && !self.tokens[i].1[pos].is_valid(now)
            invariant
                self.pairs() == p0,
                i < p0.len(),
                s == p0[i as int].1,
                n == s.len(),
                pos <= n,
                forall|j: int| 0 <= j < pos ==> !token_live(#[trigger] s[j], now),
            decreases n - pos,
        {
            pos = pos + 1;
        }
        if pos == n {
            proof {
                if let Some(f) = first_live(s, now) {
                    assert(!token_live(s[f], now));
                }
            }
            return None;
        }
        proof {
            if let Some(f) = first_live(s, now) {
                assert(f == pos as int);
            } else {
                assert(!token_live(s[pos as int], now));
            }
        }
        let mut entry = self.tokens.remove(i);
        let taken = entry.1.remove(pos);
        self.tokens.insert(i, entry);
        proof {
            let x = (mint_url@, s.remove(pos as int));
            assert(self.pairs() =~= p0.update(i as int, x));
            lemma_total_update(p0, i as int, x);
            lemma_replace_at(p0, i as int, s.remove(pos as int));
        }
        Some(taken.token)
    }

    /// The live tokens of a mint, without taking them.
    pub fn peek_tokens(&self, mint_url: &str, now: u64) -> (r: Vec<&CachedAuthToken>)
        requires
            self.wf(),
        ensures
            r@.map_values(|t: &CachedAuthToken| *t) == live_tokens(
                self.tokens_or_none(mint_url@),
                now,
            ),
    {
        let mut out: Vec<&CachedAuthToken> = Vec::new();
        match self.find(mint_url) {
            None => {
                assert(out@.map_values(|t: &CachedAuthToken| *t) =~= Seq::<
                    CachedAuthToken,
                >::empty());
                out
            },
            Some(i) => {
                proof {
                    lemma_key_at(self.pairs(), mint_url@, i as int);
                }
                let v = &self.tokens[i].1;
                let ghost s = v@;
                let mut j: usize = 0;
                while j < v.len()
                    invariant
                        s == v@,
                        j <= s.len(),
                        out@.map_values(|t: &CachedAuthToken| *t) == live_tokens(
                            s.take(j as int),
                            now,
                        ),
                    decreases s.len() - j,
                {
                    proof {
                        assert(s.take(j + 1).drop_last() =~= s.take(j as int));
                    }
                    if v[j].is_valid(now) {
                        out.push(&v[j]);
                        assert(out@.map_values(|t: &CachedAuthToken| *t) =~= live_tokens(
                            s.take(j as int),
                            now,
                        ).push(s[j as int]));
                    }
                    j = j + 1;
                }
                assert(s.take(j as int) =~= s);
                out
            },
        }
    }

    /// The number of live tokens of a mint.
    pub fn available_count(&self, mint_url: &str, now: u64) -> (r: usize)
        requires
            self.wf(),
        ensures
            r == live_tokens(self.tokens_or_none(mint_url@), now).len(),
    {
        match self.find(mint_url) {
            None => 0,
            Some(i) => {
                proof {
                    lemma_key_at(self.pairs(), mint_url@, i as int);
                }
                self.available_count_at(i, now)
            },
        }
    }

    /// Whether a mint has a live token.
    pub fn has_tokens(&self, mint_url: &str, now: u64) -> (r: bool)
        requires
            self.wf(),
        ensures
            r == (live_tokens(self.tokens_or_none(mint_url@), now).len() > 0),
    {
        self.available_count(mint_url, now) > 0
    }

    /// Drops every expired token, and every mint left without tokens;
    /// returns how many tokens were dropped.
    pub fn cleanup_expired(&mut self, now: u64) -> (r: usize)
        requires
            old(self).wf(),
            old(self).total() <= usize::MAX,
        ensures
            final(self).wf(),
            final(self).ttl() == old(self).ttl(),
            forall|m: Seq<char>| #[trigger] final(self).tokens_of(m) == cleaned_entry(
                old(self).tokens_of(m),
                now,
            ),
            r == old(self).total() - final(self).total(),
    {
        let mut pending: Vec<(String, Vec<CachedAuthToken>)> = Vec::new();
        std::mem::swap(&mut pending, &mut self.tokens);
        let ghost p0 = pair_views(pending@);
        assert(p0 == old(self).pairs());
        let mut kept: Vec<(String, Vec<CachedAuthToken>)> = Vec::new();
        let mut removed: usize = 0;
        let mut idx: usize = 0;
        proof {
            assert(p0.take(0) =~= Seq::<(Seq<char>, Seq<CachedAuthToken>)>::empty());
            assert(pair_views(kept@) =~= cleaned(p0.take(0), now));
            assert(pair_views(pending@) =~= p0.skip(0));
        }
        assert(p0.len() == pending.len());
        while pending.len() > 0
            invariant
                p0.len() <= usize::MAX,
                idx <= p0.len(),
                p0 == old(self).pairs(),
                distinct_keys(p0),
                token_total(p0) <= usize::MAX,
                pair_views(pending@) == p0.skip(idx as int),
                pair_views(kept@) == cleaned(p0.take(idx as int), now),
                token_total(cleaned(p0.take(idx as int), now)) <= token_total(p0.take(idx as int)),
                removed == token_total(p0.take(idx as int)) - token_total(
                    cleaned(p0.take(idx as int), now),
                ),
            decreases pending.len(),
        {
            let ghost pv = pair_views(pending@);
            assert(pv.len() == p0.len() - idx);
            let (k, toks) = pending.remove(0);
            proof {
                assert(pv[0] == (k@, toks@));
                assert(pair_views(pending@) =~= pv.skip(1));
                assert(p0[idx as int] == pv[0]);
                assert(p0.take(idx + 1).drop_last() =~= p0.take(idx as int));
                lemma_total_prefix(p0, idx + 1);
                lemma_live_len(toks@, now);
                assert(distinct_keys(p0.take(idx + 1)));
            }
            let n = toks.len();
            let live = keep_live(toks, now);
            removed = removed + (n - live.len());
            let ghost lv = live@;
            let ghost kv = k@;
            if live.len() > 0 {
                kept.push((k, live));
                proof {
                    assert(pair_views(kept@) =~= cleaned(p0.take(idx as int), now).push((kv, lv)));
                }
            }
            proof {
                let pt = p0.take(idx + 1);
                assert(pt.last() == (kv, toks@));
                let c0 = cleaned(p0.take(idx as int), now);
                if lv.len() > 0 {
                    assert(cleaned(pt, now) == c0.push((kv, lv)));
                    assert(c0.push((kv, lv)).drop_last() =~= c0);
                    assert(token_total(cleaned(pt, now)) == token_total(c0) + lv.len());
                } else {
                    assert(cleaned(pt, now) == c0);
                }
                assert(token_total(pt) == token_total(p0.take(idx as int)) + toks@.len());
            }
            idx = idx + 1;
        }
        proof {
            assert(p0.skip(idx as int).len() == 0);
            assert(p0.take(idx as int) =~= p0);
            lemma_cleaned(p0, now);
        }
        self.tokens = kept;
        removed
    }

    /// Drops all tokens of a mint.
    pub fn clear_mint(&mut self, mint_url: &str)
        requires
            old(self).wf(),
        ensures
            final(self).wf(),
            final(self).ttl() == old(self).ttl(),
            final(self).tokens_of(mint_url@) is None,
            forall|m: Seq<char>| m != mint_url@ ==> #[trigger] final(self).tokens_of(m) == old(
                self,
            ).tokens_of(m),
            final(self).total() == old(self).total() - old(self).tokens_or_none(mint_url@).len(),
    {
        let ghost p0 = self.pairs();
        match self.find(mint_url) {
            None => {},
            Some(i) => {
                proof {
                    lemma_key_at(p0, mint_url@, i as int);
                }
                self.tokens.remove(i);
                proof {
                    assert(self.pairs() =~= p0.remove(i as int));
                    lemma_total_remove(p0, i as int);
                    lemma_remove_at(p0, i as int);
                }
            },
        }
    }

    /// Drops every cached token.
    pub fn clear_all(&mut self)
        ensures
            final(self).wf(),
            final(self).ttl() == old(self).ttl(),
            final(self).total() == 0,
            forall|m: Seq<char>| #[trigger] final(self).tokens_of(m) is None,
    {
        self.tokens = Vec::new();
        assert(self.pairs() =~= Seq::empty());
    }

    /// The number of cached tokens over all mints, live or not, when it
    /// fits in a `usize`; none otherwise.
    pub fn checked_total_count(&self) -> (r: Option<usize>)
        ensures
            self.total() <= usize::MAX ==> r == Some(self.total() as usize),
            self.total() > usize::MAX ==> r is None,
    {
        let ghost p = self.pairs();
        let mut sum: usize = 0;
        let mut i: usize = 0;
        while i < self.tokens.len()
            invariant
                p == self.pairs(),
                i <= p.len(),
                sum == token_total(p.take(i as int)),
            decreases p.len() - i,
        {
            proof {
                assert(p.take(i + 1).drop_last() =~= p.take(i as int));
            }
            match sum.checked_add(self.tokens[i].1.len()) {
                Some(t) => {
                    sum = t;
                },
                None => {
                    proof {
                        lemma_total_prefix(p, i + 1);
                    }
                    return None;
                },
            }
            i = i + 1;
        }
        assert(p.take(i as int) =~= p);
        Some(sum)
    }

    /// The number of cached tokens over all mints, live or not.
    pub fn total_count(&self) -> (r: usize)
        requires
            self.total() <= usize::MAX,
        ensures
            r == self.total(),
    {
        let ghost p = self.pairs();
        let mut sum: usize = 0;
        let mut i: usize = 0;
        while i < self.tokens.len()
            invariant
                p == self.pairs(),
                token_total(p) <= usize::MAX,
                i <= p.len(),
                sum == token_total(p.take(i as int)),
            decreases p.len() - i,
        {
            proof {
                assert(p.take(i + 1).drop_last() =~= p.take(i as int));
                lemma_total_prefix(p, i + 1);
            }
            sum = sum + self.tokens[i].1.len();
            i = i + 1;
        }
        assert(p.take(i as int) =~= p);
        sum
    }
}

/// The live tokens of a list, in order.
fn keep_live(toks: Vec<CachedAuthToken>, now: u64) -> (r: Vec<CachedAuthToken>)
    ensures
        r@ == live_tokens(toks@, now),
{
    let ghost all = toks@;
    let mut rest = toks;
    let mut out: Vec<CachedAuthToken> = Vec::new();
    let mut j: usize = 0;
    assert(all.take(0) =~= Seq::<CachedAuthToken>::empty());
    assert(all.len() == rest.len());
    while rest.len() > 0
        invariant
            all.len() <= usize::MAX,
            j <= all.len(),
            rest@ == all.skip(j as int),
            out@ == live_tokens(all.take(j as int), now),
        decreases rest.len(),
    {
        assert(rest@.len() == all.len() - j);
        let t = rest.remove(0);
        proof {
            assert(t == all[j as int]);
            assert(rest@ =~= all.skip(j + 1));
            assert(all.take(j + 1).drop_last() =~= all.take(j as int));
        }
        if t.is_valid(now) {
            out.push(t);
        }
        j = j + 1;
    }
    assert(all.skip(j as int).len() == 0);
    assert(all.take(j as int) =~= all);
    out
}

/// Giving one key a new value keeps the keys distinct and leaves the other
/// keys' values alone.
pub proof fn lemma_replace_at<V>(p: Seq<(Seq<char>, V)>, i: int, v: V)
    requires
        distinct_keys(p),
        0 <= i < p.len(),
    ensures
        distinct_keys(p.update(i, (p[i].0, v))),
        lookup(p.update(i, (p[i].0, v)), p[i].0) == Some(v),
        forall|m: Seq<char>| m != p[i].0 ==> #[trigger] lookup(p.update(i, (p[i].0, v)), m)
            == lookup(p, m),
{
    let q = p.update(i, (p[i].0, v));
    assert forall|a: int, b: int| 0 <= a < q.len() && 0 <= b < q.len() && a != b implies q[a].0
        != q[b].0 by {
        assert(q[a].0 == p[a].0);
        assert(q[b].0 == p[b].0);
    }
    lemma_key_at(q, p[i].0, i);
    assert forall|m: Seq<char>| m != p[i].0 implies #[trigger] lookup(q, m) == lookup(p, m) by {
        lemma_key_index(p, m);
        lemma_key_index(q, m);
        if let Some(j) = key_index(p, m) {
            lemma_key_at(q, m, j);
        } else if let Some(j) = key_index(q, m) {
            assert(q[j].0 == p[j].0);
        }
    }
}

/// Dropping one key keeps the keys distinct and leaves the other keys'
/// values alone.
pub proof fn lemma_remove_at<V>(p: Seq<(Seq<char>, V)>, i: int)
    requires
        distinct_keys(p),
        0 <= i < p.len(),
    ensures
        distinct_keys(p.remove(i)),
        lookup(p.remove(i), p[i].0) is None,
        forall|m: Seq<char>| m != p[i].0 ==> #[trigger] lookup(p.remove(i), m) == lookup(p, m),
{
    let q = p.remove(i);
    assert forall|a: int| 0 <= a < q.len() implies #[trigger] q[a] == p[if a < i {
        a
    } else {
        a + 1
    }] by {}
    assert forall|a: int, b: int| 0 <= a < q.len() && 0 <= b < q.len() && a != b implies q[a].0
        != q[b].0 by {
        assert(q[a] == p[if a < i { a } else { a + 1 }]);
        assert(q[b] == p[if b < i { b } else { b + 1 }]);
    }
    lemma_key_index(q, p[i].0);
    if let Some(j) = key_index(q, p[i].0) {
        assert(q[j] == p[if j < i { j } else { j + 1 }]);
    }
    assert forall|m: Seq<char>| m != p[i].0 implies #[trigger] lookup(q, m) == lookup(p, m) by {
        lemma_key_index(p, m);
        lemma_key_index(q, m);
        if let Some(j) = key_index(p, m) {
            assert(j != i);
            let a = if j < i { j } else { j - 1 };
            assert(q[a] == p[j]);
            lemma_key_at(q, m, a);
        } else if let Some(j) = key_index(q, m) {
            assert(q[j] == p[if j < i { j } else { j + 1 }]);
        }
    }
}


impl Default for BlindAuthCache {
    /// An empty cache with no default lifetime.
    fn default() -> (r: Self)
        ensures
            r.wf(),
            r.ttl() == 0,
            r.total() == 0,
            forall|m: Seq<char>| #[trigger] r.tokens_of(m) is None,
    {
        let r = BlindAuthCache { tokens: Vec::new(), default_ttl: 0 };
        assert(r.pairs() =~= Seq::empty());
        r
    }
}

/// Whether a mint has fewer live tokens than a replenishing request asks for.
pub fn needs_token_replenishment(cache: &BlindAuthCache, mint_url: &str, now: u64) -> (r: bool)
    requires
        cache.wf(),
    ensures
        r == (live_tokens(cache.tokens_or_none(mint_url@), now).len() < MIN_TOKEN_REQUEST),
{
    cache.available_count(mint_url, now) < MIN_TOKEN_REQUEST as usize
}

/// When tokens requested at `now` expire: one default lifetime later.
pub fn fresh_token_expiry(now: u64) -> (r: u64)
    requires
        now + DEFAULT_TOKEN_TTL <= u64::MAX,
    ensures
        r == now + DEFAULT_TOKEN_TTL,
{
    now + DEFAULT_TOKEN_TTL
}

/// Token counts of the cache.
#[derive(Debug, Clone)]
pub struct AuthCacheStats {
    /// All cached tokens, live or not.
    pub total_tokens: usize,
    /// Mints with at least one live token.
    pub mints_with_tokens: usize,
    /// Each mint with its number of live tokens.
    pub tokens_per_mint: Vec<(String, usize)>,
}

/// Each mint of a list with its number of live tokens.
pub open spec fn live_counts(p: Seq<(Seq<char>, Seq<CachedAuthToken>)>, now: u64) -> Seq<
    (Seq<char>, nat),
> {
    Seq::new(p.len(), |i: int| (p[i].0, live_tokens(p[i].1, now).len()))
}

/// The number of pairs with a positive count.
pub open spec fn positive_count(c: Seq<(Seq<char>, nat)>) -> nat
    decreases c.len(),
{
    if c.len() == 0 {
        0
    } else {
        positive_count(c.drop_last()) + if c.last().1 > 0 {
            1nat
        } else {
            0nat
        }
    }
}

/// The counts of a stats value, keyed by mint.
pub open spec fn count_views(v: Seq<(String, usize)>) -> Seq<(Seq<char>, nat)> {
    v.map_values(|e: (String, usize)| (e.0@, e.1 as nat))
}

/// Counting live tokens keeps the positions of the mints.
pub proof fn lemma_live_counts_keys(p: Seq<(Seq<char>, Seq<CachedAuthToken>)>, now: u64, k: Seq<char>)
    ensures
        key_index(live_counts(p, now), k) == key_index(p, k),
    decreases p.len(),
{
    if p.len() > 0 {
        assert(live_counts(p, now).drop_last() =~= live_counts(p.drop_last(), now));
        lemma_live_counts_keys(p.drop_last(), now, k);
    }
}

impl BlindAuthCache {
    /// The cache's counts at `now`.
    pub fn stats(&self, now: u64) -> (r: AuthCacheStats)
        requires
            self.wf(),
            self.total() <= usize::MAX,
        ensures
            r.total_tokens == self.total(),
            count_views(r.tokens_per_mint@) == live_counts(self.pairs(), now),
            distinct_keys(count_views(r.tokens_per_mint@)),
            forall|m: Seq<char>| #[trigger] lookup(count_views(r.tokens_per_mint@), m) == match self.tokens_of(m) {
                Some(s) => Some(live_tokens(s, now).len()),
                None => None,
            },
            r.mints_with_tokens == positive_count(live_counts(self.pairs(), now)),
    {
        let ghost p = self.pairs();
        let mut per: Vec<(String, usize)> = Vec::new();
        let mut with_tokens: usize = 0;
        let mut i: usize = 0;
        while i < self.tokens.len()
            invariant
                p == self.pairs(),
                i <= p.len(),
                count_views(per@) == live_counts(p.take(i as int), now),
                with_tokens == positive_count(live_counts(p.take(i as int), now)),
                with_tokens <= i,
            decreases p.len() - i,
        {
            let k = self.tokens[i].0.clone();
            let c = self.available_count_at(i, now);
            per.push((k, c));
            proof {
                assert(live_counts(p.take(i + 1), now) =~= live_counts(p.take(i as int), now).push(
                    (p[i as int].0, live_tokens(p[i as int].1, now).len()),
                ));
                assert(count_views(per@) =~= live_counts(p.take(i + 1), now));
                assert(live_counts(p.take(i + 1), now).drop_last() =~= live_counts(
                    p.take(i as int),
                    now,
                ));
            }
            if c > 0 {
                with_tokens = with_tokens + 1;
            }
            i = i + 1;
        }
        proof {
            assert(p.take(i as int) =~= p);
            let q = live_counts(p, now);
            assert forall|a: int, b: int| 0 <= a < q.len() && 0 <= b < q.len() && a != b implies q[a].0
                != q[b].0 by {
                assert(q[a].0 == p[a].0);
                assert(q[b].0 == p[b].0);
            }
            assert forall|m: Seq<char>| #[trigger] lookup(q, m) == match self.tokens_of(m) {
                Some(s) => Some(live_tokens(s, now).len()),
                None => None,
            } by {
                lemma_live_counts_keys(p, now, m);
                lemma_key_index(p, m);
                if let Some(j) = key_index(p, m) {
                    assert(q[j] == (p[j].0, live_tokens(p[j].1, now).len()));
                }
            }
        }
        AuthCacheStats { total_tokens: self.total_count(), mints_with_tokens: with_tokens, tokens_per_mint: per }
    }

    /// The number of live tokens in the entry at a position.
    fn available_count_at(&self, i: usize, now: u64) -> (r: usize)
        requires
            i < self.pairs().len(),
        ensures
            r == live_tokens(self.pairs()[i as int].1, now).len(),
    {
        let v = &self.tokens[i].1;
        let ghost s = v@;
        let mut j: usize = 0;
        let mut count: usize = 0;
        while j < v.len()
            invariant
                s == v@,
                j <= s.len(),
                count == live_tokens(s.take(j as int), now).len(),
                count <= j,
            decreases s.len() - j,
        {
            proof {
                assert(s.take(j + 1).drop_last() =~= s.take(j as int));
            }
            if v[j].is_valid(now) {
                count = count + 1;
            }
            j = j + 1;
        }
        assert(s.take(j as int) =~= s);
        count
    }
}

} // verus!
