//! Cached mint metadata (info, keysets, keys) with a time to live, and a
//! cache of mint API responses that honours `Cache-Control: max-age`
//! (NUT-19).
use vstd::prelude::*;
use vstd::string::*;
use crate::history::{parse_u64, parsed_u64};
use crate::keyset::string_views;
use crate::strmap::StrMap;
use crate::text::{chars_of, has_prefix, starts_with, substring, trim, trimmed_of};
use crate::types::{clone_opt_string, normalize_mint_url, normalized_mint};

verus! {

/// A JSON value of `serde_json`, carried as it came.
#[verifier::external_type_specification]
#[verifier::external_body]
pub struct ExJsonValue(serde_json::Value);

/// Default lifetime of cached metadata (seconds).
pub const DEFAULT_TTL_SECS: u64 = 300;

/// Lifetime of a cached mint info response (seconds).
pub const MINT_INFO_TTL: u64 = 300;

/// Lifetime of a cached keysets response (seconds).
pub const KEYSETS_TTL: u64 = 300;

/// Lifetime of a cached keys response (seconds).
pub const KEYS_TTL: u64 = 600;

/// Lifetime of a cached quote response (seconds).
pub const QUOTE_TTL: u64 = 30;

/// Lifetime of a cached state check response (seconds).
pub const STATE_TTL: u64 = 5;

/// Something cached at `cached_at` is still fresh at `now` if less than
/// `ttl` seconds have passed (a clock behind the stamp counts as none).
pub open spec fn fresh_at(cached_at: u64, now: u64, ttl: u64) -> bool {
    (if now >= cached_at { now - cached_at } else { 0 }) < ttl
}

/// Whether something cached at `cached_at` is still fresh at `now`.
fn is_fresh(cached_at: u64, now: u64, ttl: u64) -> (r: bool)
    ensures
        r == fresh_at(cached_at, now, ttl),
{
    now.saturating_sub(cached_at) < ttl
}

/// A contact of a mint.
#[derive(Debug, Clone)]
pub struct ContactInfo {
    pub method: String,
    pub info: String,
}

/// Cached mint information.
#[derive(Debug, Clone)]
pub struct CachedMintInfo {
    pub name: Option<String>,
    pub description: Option<String>,
    /// The mint's public key (hex).
    pub pubkey: Option<String>,
    /// The supported NUTs with their settings, each NUT once.
    pub nuts: Vec<(String, serde_json::Value)>,
    pub contact: Option<Vec<ContactInfo>>,
    /// Message of the day.
    pub motd: Option<String>,
    pub icon_url: Option<String>,
    /// When this was cached (Unix seconds).
    pub cached_at: u64,
}

/// A cached keyset.
#[derive(Debug, Clone)]
pub struct CachedKeyset {
    pub id: String,
    /// Currency unit.
    pub unit: String,
    pub active: bool,
    /// Input fee per proof, in parts per thousand.
    pub input_fee_ppk: u64,
    /// When this was cached.
    pub cached_at: u64,
}

/// The cached keys of a keyset: each amount with its public key (hex).
#[derive(Debug, Clone)]
pub struct CachedKeys {
    pub keyset_id: String,
    /// Amounts with their public keys, each amount once.
    pub keys: Vec<(u64, String)>,
    /// When this was cached.
    pub cached_at: u64,
}

/// Cached metadata of one mint.
pub struct MintCacheEntry {
    /// Cached mint info.
    pub info: Option<CachedMintInfo>,
    /// Cached keysets by id.
    pub keysets: StrMap<CachedKeyset>,
    /// Cached keys by keyset id.
    pub keys: StrMap<CachedKeys>,
    /// Counts the updates of this entry.
    pub version: u64,
}

impl Default for MintCacheEntry {
    /// Nothing cached yet.
    fn default() -> (r: Self)
        ensures
            r.wf(),
            r.info is None,
            r.keysets@ == Map::<Seq<char>, CachedKeyset>::empty(),
            r.keys@ == Map::<Seq<char>, CachedKeys>::empty(),
            r.version == 0,
    {
        MintCacheEntry { info: None, keysets: StrMap::new(), keys: StrMap::new(), version: 0 }
    }
}

/// The keysets of an entry by id, with the keysets of a list put in, a
/// later one replacing an earlier one of the same id.
pub open spec fn keysets_put(m: Map<Seq<char>, CachedKeyset>, ks: Seq<CachedKeyset>) -> Map<
    Seq<char>,
    CachedKeyset,
>
    decreases ks.len(),
{
    if ks.len() == 0 {
        m
    } else {
        keysets_put(m, ks.drop_last()).insert(ks.last().id@, ks.last())
    }
}

/// The entry's mint info is cached and fresh at `now`.
pub open spec fn info_fresh(e: MintCacheEntry, now: u64, ttl: u64) -> bool {
    e.info matches Some(i) && fresh_at(i.cached_at, now, ttl)
}

impl MintCacheEntry {
    /// Both maps are well formed.
    pub open spec fn wf(&self) -> bool {
        self.keysets.wf() && self.keys.wf()
    }

    /// Whether the mint info is cached and fresh.
    pub fn is_info_valid(&self, now: u64, ttl_secs: u64) -> (r: bool)
        ensures
            r == (self.info matches Some(i) && fresh_at(i.cached_at, now, ttl_secs)),
    {
        match &self.info {
            Some(info) => is_fresh(info.cached_at, now, ttl_secs),
            None => false,
        }
    }

    /// Whether some cached keyset is still fresh.
    pub fn are_keysets_valid(&self, now: u64, ttl_secs: u64) -> (r: bool)
        requires
            self.wf(),
        ensures
            r == exists|k: Seq<char>| #[trigger] self.keysets@.contains_key(k) && fresh_at(
                self.keysets@[k].cached_at,
                now,
                ttl_secs,
            ),
    {
        proof {
            self.keysets.lemma_positions();
        }
        let n = self.keysets.len();
        let mut i: usize = 0;
        while i < n
            invariant
                self.wf(),
                n == self.keysets.size(),
                i <= n,
                forall|j: int| 0 <= j < i ==> !fresh_at(#[trigger] self.keysets.value_at(j).cached_at, now, ttl_secs),
            decreases n - i,
        {
            let (_, ks) = self.keysets.entry_at(i);
            if is_fresh(ks.cached_at, now, ttl_secs) {
                proof {
                    self.keysets.lemma_positions();
                    let k = self.keysets.key_at(i as int);
                    assert(self.keysets@.contains_key(k));
                }
                return true;
            }
            i = i + 1;
        }
        proof {
            assert forall|k: Seq<char>| #[trigger] self.keysets@.contains_key(k) implies !fresh_at(
                self.keysets@[k].cached_at,
                now,
                ttl_secs,
            ) by {
                let j = choose|j: int| 0 <= j < self.keysets.size() && #[trigger] self.keysets.key_at(j) == k;
                assert(!fresh_at(self.keysets.value_at(j).cached_at, now, ttl_secs));
            }
        }
        false
    }

    /// The ids of the active cached keysets, each once.
    pub fn active_keyset_ids(&self) -> (r: Vec<String>)
        requires
            self.wf(),
        ensures
            string_views(r@).no_duplicates(),
            forall|k: Seq<char>| #[trigger] string_views(r@).contains(k) <==> (self.keysets@.contains_key(k)
                && self.keysets@[k].active),
    {
        proof {
            self.keysets.lemma_positions();
        }
        let n = self.keysets.len();
        let mut r: Vec<String> = Vec::new();
        let ghost mut pos: Seq<int> = Seq::empty();
        let mut i: usize = 0;
        while i < n
            invariant
                n == self.keysets.size(),
                i <= n,
                r@.len() == pos.len(),
                forall|a: int| 0 <= a < pos.len() ==> 0 <= #[trigger] pos[a] < i && r@[a]@ == self.keysets.key_at(pos[a])
                    && self.keysets.value_at(pos[a]).active,
                forall|a: int, b: int| 0 <= a < b < pos.len() ==> pos[a] < pos[b],
                forall|j: int| 0 <= j < i && #[trigger] self.keysets.value_at(j).active ==> exists|a: int|
                    0 <= a < pos.len() && pos[a] == j,
            decreases n - i,
        {
            let (id, ks) = self.keysets.entry_at(i);
            if ks.active {
                r.push(id.clone());
                proof {
                    let old_pos = pos;
                    pos = pos.push(i as int);
                    assert forall|j: int| 0 <= j < i + 1 && #[trigger] self.keysets.value_at(j).active implies exists|a: int|
                        0 <= a < pos.len() && pos[a] == j by {
                        if j < i {
                            let a = choose|a: int| 0 <= a < old_pos.len() && old_pos[a] == j;
                            assert(pos[a] == j);
                        } else {
                            assert(pos[old_pos.len() as int] == j);
                        }
                    }
                }
            }
            i = i + 1;
        }
        proof {
            let sv = string_views(r@);
            assert forall|a: int, b: int| 0 <= a < sv.len() && 0 <= b < sv.len() && a != b implies sv[a] != sv[b] by {
                assert(sv[a] == self.keysets.key_at(pos[a]));
                assert(sv[b] == self.keysets.key_at(pos[b]));
                if a < b {
                    assert(pos[a] < pos[b]);
                } else {
                    assert(pos[b] < pos[a]);
                }
            }
            assert forall|k: Seq<char>| #[trigger] sv.contains(k) <==> (self.keysets@.contains_key(k)
                && self.keysets@[k].active) by {
                if sv.contains(k) {
                    let a = choose|a: int| 0 <= a < sv.len() && sv[a] == k;
                    assert(sv[a] == self.keysets.key_at(pos[a]));
                }
                if self.keysets@.contains_key(k) && self.keysets@[k].active {
                    let j = choose|j: int| 0 <= j < self.keysets.size() && #[trigger] self.keysets.key_at(j) == k;
                    assert(self.keysets.value_at(j).active);
                    let a = choose|a: int| 0 <= a < pos.len() && pos[a] == j;
                    assert(sv[a] == k);
                }
            }
        }
        r
    }

    /// A cached keyset, if present and fresh.
    pub fn get_keyset(&self, keyset_id: &str, now: u64, ttl_secs: u64) -> (r: Option<&CachedKeyset>)
        requires
            self.wf(),
        ensures
            r matches Some(k) ==> self.keysets@.contains_key(keyset_id@) && *k == self.keysets@[keyset_id@]
                && fresh_at(k.cached_at, now, ttl_secs),
            r is None ==> !(self.keysets@.contains_key(keyset_id@) && fresh_at(
                self.keysets@[keyset_id@].cached_at,
                now,
                ttl_secs,
            )),
    {
        match self.keysets.get(keyset_id) {
            Some(k) => if is_fresh(k.cached_at, now, ttl_secs) {
                Some(k)
            } else {
                None
            },
            None => None,
        }
    }

    /// The cached keys of a keyset, if present and fresh.
    pub fn get_keys(&self, keyset_id: &str, now: u64, ttl_secs: u64) -> (r: Option<&CachedKeys>)
        requires
            self.wf(),
        ensures
            r matches Some(k) ==> self.keys@.contains_key(keyset_id@) && *k == self.keys@[keyset_id@]
                && fresh_at(k.cached_at, now, ttl_secs),
            r is None ==> !(self.keys@.contains_key(keyset_id@) && fresh_at(
                self.keys@[keyset_id@].cached_at,
                now,
                ttl_secs,
            )),
    {
        match self.keys.get(keyset_id) {
            Some(k) => if is_fresh(k.cached_at, now, ttl_secs) {
                Some(k)
            } else {
                None
            },
            None => None,
        }
    }
}

/// Counts of the metadata cache.
#[derive(Debug, Clone)]
pub struct CacheStats {
    pub mint_count: usize,
    pub total_keysets: usize,
    pub total_keys: usize,
    pub version: u64,
}

/// Metadata of all mints, keyed by normalized mint URL.
pub struct MintMetadataCache {
    /// Entries by normalized mint URL.
    pub mints: StrMap<MintCacheEntry>,
    /// Lifetime of cached data (seconds).
    pub ttl_secs: u64,
    /// Counts the updates of the cache.
    pub version: u64,
}

/// The keysets of the first `n` entries of a cache.
pub open spec fn keyset_total(m: StrMap<MintCacheEntry>, n: int) -> nat
    decreases n,
{
    if n <= 0 {
        0
    } else {
        keyset_total(m, n - 1) + m.value_at(n - 1).keysets.size()
    }
}

/// The cached keys of the first `n` entries of a cache.
pub open spec fn keys_total(m: StrMap<MintCacheEntry>, n: int) -> nat
    decreases n,
{
    if n <= 0 {
        0
    } else {
        keys_total(m, n - 1) + m.value_at(n - 1).keys.size()
    }
}

impl MintMetadataCache {
    /// Every entry is well formed.
    pub open spec fn wf(&self) -> bool {
        &&& self.mints.wf()
        &&& forall|k: Seq<char>| #[trigger] self.mints@.contains_key(k) ==> self.mints@[k].wf()
    }

    /// The update count of a mint's entry; 0 if it has none.
    pub open spec fn entry_version(&self, key: Seq<char>) -> u64 {
        if self.mints@.contains_key(key) {
            self.mints@[key].version
        } else {
            0
        }
    }

    /// An empty cache with the default lifetime.
    pub fn new() -> (r: Self)
        ensures
            r.wf(),
            r.mints@ == Map::<Seq<char>, MintCacheEntry>::empty(),
            r.ttl_secs == DEFAULT_TTL_SECS,
            r.version == 0,
    {
        MintMetadataCache { mints: StrMap::new(), ttl_secs: DEFAULT_TTL_SECS, version: 0 }
    }

    /// Sets the lifetime of cached data.
    pub fn set_ttl(&mut self, ttl_secs: u64)
        ensures
            final(self).ttl_secs == ttl_secs,
            final(self).mints@ == old(self).mints@,
            final(self).version == old(self).version,
    {
        self.ttl_secs = ttl_secs;
    }

    /// The entry of a mint, if any.
    pub fn get_mint(&self, mint_url: &str) -> (r: Option<&MintCacheEntry>)
        requires
            self.wf(),
        ensures
            r matches Some(e) ==> self.mints@.contains_key(normalized_mint(mint_url@)) && *e == self.mints@[normalized_mint(
                mint_url@,
            )],
            r is None ==> !self.mints@.contains_key(normalized_mint(mint_url@)),
    {
        let key = normalize_mint_url(mint_url);
        self.mints.get(key.as_str())
    }

    /// Takes a mint's entry out of the map, or a fresh one.
    fn take_entry(&mut self, key: &str) -> (r: MintCacheEntry)
        requires
            old(self).wf(),
        ensures
            final(self).mints.wf(),
            final(self).mints@ == old(self).mints@.remove(key@),
            final(self).ttl_secs == old(self).ttl_secs,
            final(self).version == old(self).version,
            r.wf(),
            old(self).mints@.contains_key(key@) ==> r == old(self).mints@[key@],
            !old(self).mints@.contains_key(key@) ==> r.info is None && r.keysets@ == Map::<
                Seq<char>,
                CachedKeyset,
            >::empty() && r.keys@ == Map::<Seq<char>, CachedKeys>::empty() && r.version == 0,
    {
        match self.mints.take(key) {
            Some(e) => e,
            None => MintCacheEntry::default(),
        }
    }

    /// Caches a mint's info.
    pub fn cache_mint_info(&mut self, mint_url: &str, info: CachedMintInfo)
        requires
            old(self).wf(),
            old(self).version < u64::MAX,
            old(self).entry_version(normalized_mint(mint_url@)) < u64::MAX,
        ensures
            final(self).wf(),
            final(self).ttl_secs == old(self).ttl_secs,
            final(self).version == old(self).version + 1,
            ({
                let key = normalized_mint(mint_url@);
                let e = final(self).mints@[key];
                &&& final(self).mints@.dom() == old(self).mints@.dom().insert(key)
                &&& e.info == Some(info)
                &&& e.version == old(self).entry_version(key) + 1
                &&& old(self).mints@.contains_key(key) ==> e.keysets@ == old(self).mints@[key].keysets@
                    && e.keys@ == old(self).mints@[key].keys@
                &&& !old(self).mints@.contains_key(key) ==> e.keysets@ == Map::<Seq<char>, CachedKeyset>::empty()
                    && e.keys@ == Map::<Seq<char>, CachedKeys>::empty()
                &&& forall|k: Seq<char>| k != key && #[trigger] old(self).mints@.contains_key(k) ==> final(self).mints@[k]
                    == old(self).mints@[k]
            }),
    {
        let key = normalize_mint_url(mint_url);
        let mut e = self.take_entry(key.as_str());
        e.info = Some(info);
        e.version = e.version + 1;
        self.mints.insert(key.as_str(), e);
        self.version = self.version + 1;
        proof {
            assert(self.mints@.dom() =~= old(self).mints@.dom().insert(key@));
        }
    }

    /// Caches a mint's keysets, by id.
    pub fn cache_keysets(&mut self, mint_url: &str, keysets: Vec<CachedKeyset>)
        requires
            old(self).wf(),
            old(self).version < u64::MAX,
            old(self).entry_version(normalized_mint(mint_url@)) < u64::MAX,
        ensures
            final(self).wf(),
            final(self).ttl_secs == old(self).ttl_secs,
            final(self).version == old(self).version + 1,
            ({
                let key = normalized_mint(mint_url@);
                let e = final(self).mints@[key];
                &&& final(self).mints@.dom() == old(self).mints@.dom().insert(key)
                &&& e.version == old(self).entry_version(key) + 1
                &&& old(self).mints@.contains_key(key) ==> e.info == old(self).mints@[key].info
                    && e.keysets@ == keysets_put(old(self).mints@[key].keysets@, keysets@)
                    && e.keys@ == old(self).mints@[key].keys@
                &&& !old(self).mints@.contains_key(key) ==> e.info is None && e.keysets@ == keysets_put(
                    Map::empty(),
                    keysets@,
                ) && e.keys@ == Map::<Seq<char>, CachedKeys>::empty()
                &&& forall|k: Seq<char>| k != key && #[trigger] old(self).mints@.contains_key(k) ==> final(self).mints@[k]
                    == old(self).mints@[k]
            }),
    {
        let key = normalize_mint_url(mint_url);
        let mut e = self.take_entry(key.as_str());
        put_keysets(&mut e, keysets);
        e.version = e.version + 1;
        self.mints.insert(key.as_str(), e);
        self.version = self.version + 1;
        proof {
            assert(self.mints@.dom() =~= old(self).mints@.dom().insert(key@));
        }
    }

    /// Caches the keys of a keyset of a mint.
    pub fn cache_keys(&mut self, mint_url: &str, keys: CachedKeys)
        requires
            old(self).wf(),
            old(self).version < u64::MAX,
            old(self).entry_version(normalized_mint(mint_url@)) < u64::MAX,
        ensures
            final(self).wf(),
            final(self).ttl_secs == old(self).ttl_secs,
            final(self).version == old(self).version + 1,
            ({
                let key = normalized_mint(mint_url@);
                let e = final(self).mints@[key];
                &&& final(self).mints@.dom() == old(self).mints@.dom().insert(key)
                &&& e.version == old(self).entry_version(key) + 1
                &&& old(self).mints@.contains_key(key) ==> e.info == old(self).mints@[key].info
                    && e.keysets@ == old(self).mints@[key].keysets@
                    && e.keys@ == old(self).mints@[key].keys@.insert(keys.keyset_id@, keys)
                &&& !old(self).mints@.contains_key(key) ==> e.info is None && e.keysets@ == Map::<
                    Seq<char>,
                    CachedKeyset,
                >::empty() && e.keys@ == Map::<Seq<char>, CachedKeys>::empty().insert(keys.keyset_id@, keys)
                &&& forall|k: Seq<char>| k != key && #[trigger] old(self).mints@.contains_key(k) ==> final(self).mints@[k]
                    == old(self).mints@[k]
            }),
    {
        let key = normalize_mint_url(mint_url);
        let mut e = self.take_entry(key.as_str());
        let ghost kv = keys;
        let id = keys.keyset_id.clone();
        e.keys.insert(id.as_str(), keys);
        e.version = e.version + 1;
        self.mints.insert(key.as_str(), e);
        self.version = self.version + 1;
        proof {
            assert(self.mints@.dom() =~= old(self).mints@.dom().insert(key@));
        }
    }

    /// Whether a mint's info is cached and fresh.
    pub fn has_valid_info(&self, mint_url: &str, now: u64) -> (r: bool)
        requires
            self.wf(),
        ensures
            r == (self.mints@.contains_key(normalized_mint(mint_url@)) && info_fresh(
                self.mints@[normalized_mint(mint_url@)],
                now,
                self.ttl_secs,
            )),
    {
        match self.get_mint(mint_url) {
            Some(e) => e.is_info_valid(now, self.ttl_secs),
            None => false,
        }
    }

    /// Whether some keyset of a mint is cached and fresh.
    pub fn has_valid_keysets(&self, mint_url: &str, now: u64) -> (r: bool)
        requires
            self.wf(),
        ensures
            r == (self.mints@.contains_key(normalized_mint(mint_url@)) && exists|k: Seq<char>| #[trigger] self.mints@[normalized_mint(
                mint_url@,
            )].keysets@.contains_key(k) && fresh_at(
                self.mints@[normalized_mint(mint_url@)].keysets@[k].cached_at,
                now,
                self.ttl_secs,
            )),
    {
        match self.get_mint(mint_url) {
            Some(e) => e.are_keysets_valid(now, self.ttl_secs),
            None => false,
        }
    }

    /// A mint's cached info, if fresh.
    pub fn get_info(&self, mint_url: &str, now: u64) -> (r: Option<&CachedMintInfo>)
        requires
            self.wf(),
        ensures
            ({
                let key = normalized_mint(mint_url@);
                if self.mints@.contains_key(key) && info_fresh(self.mints@[key], now, self.ttl_secs) {
                    r == Some(&self.mints@[key].info->0)
                } else {
                    r is None
                }
            }),
    {
        match self.get_mint(mint_url) {
            Some(e) => {
                if e.is_info_valid(now, self.ttl_secs) {
                    e.info.as_ref()
                } else {
                    None
                }
            },
            None => None,
        }
    }

    /// Forgets everything cached of a mint.
    pub fn invalidate_mint(&mut self, mint_url: &str)
        requires
            old(self).wf(),
            old(self).version < u64::MAX,
        ensures
            final(self).wf(),
            final(self).mints@ == old(self).mints@.remove(normalized_mint(mint_url@)),
            final(self).ttl_secs == old(self).ttl_secs,
            final(self).version == old(self).version + 1,
    {
        let key = normalize_mint_url(mint_url);
        self.mints.remove(key.as_str());
        self.version = self.version + 1;
    }

    /// Forgets everything cached.
    pub fn clear(&mut self)
        requires
            old(self).version < u64::MAX,
        ensures
            final(self).wf(),
            final(self).mints@ == Map::<Seq<char>, MintCacheEntry>::empty(),
            final(self).ttl_secs == old(self).ttl_secs,
            final(self).version == old(self).version + 1,
    {
        self.mints.clear();
        self.version = self.version + 1;
    }

    /// The counts of the cache.
    pub fn stats(&self) -> (r: CacheStats)
        requires
            self.wf(),
            keyset_total(self.mints, self.mints.size() as int) <= usize::MAX,
            keys_total(self.mints, self.mints.size() as int) <= usize::MAX,
        ensures
            r.mint_count == self.mints.size(),
            r.total_keysets == keyset_total(self.mints, self.mints.size() as int),
            r.total_keys == keys_total(self.mints, self.mints.size() as int),
            r.version == self.version,
    {
        let n = self.mints.len();
        let mut total_keysets: usize = 0;
        let mut total_keys: usize = 0;
        let mut i: usize = 0;
        while i < n
            invariant
                n == self.mints.size(),
                i <= n,
                keyset_total(self.mints, n as int) <= usize::MAX,
                keys_total(self.mints, n as int) <= usize::MAX,
                total_keysets == keyset_total(self.mints, i as int),
                total_keys == keys_total(self.mints, i as int),
            decreases n - i,
        {
            proof {
                lemma_totals_grow(self.mints, i + 1, n as int);
            }
            let (_, e) = self.mints.entry_at(i);
            total_keysets = total_keysets + e.keysets.len();
            total_keys = total_keys + e.keys.len();
            i = i + 1;
        }
        CacheStats { mint_count: n, total_keysets, total_keys, version: self.version }
    }
}

/// Puts keysets into an entry by id, a later one replacing an earlier one.
fn put_keysets(e: &mut MintCacheEntry, keysets: Vec<CachedKeyset>)
    requires
        old(e).wf(),
    ensures
        final(e).wf(),
        final(e).info == old(e).info,
        final(e).keys@ == old(e).keys@,
        final(e).version == old(e).version,
        final(e).keysets@ == keysets_put(old(e).keysets@, keysets@),
{
    let ghost start = e.keysets@;
    let ghost all = keysets@;
    let mut rest = keysets;
    let mut i: usize = 0;
    assert(all.len() == rest.len());
    assert(all.take(0) =~= Seq::<CachedKeyset>::empty());
    while rest.len() > 0
        invariant
            e.wf(),
            e.info == old(e).info,
            e.keys@ == old(e).keys@,
            e.version == old(e).version,
            start == old(e).keysets@,
            all.len() <= usize::MAX,
            i <= all.len(),
            rest@ == all.skip(i as int),
            e.keysets@ == keysets_put(start, all.take(i as int)),
        decreases rest.len(),
    {
        assert(rest@.len() == all.len() - i);
        let ks = rest.remove(0);
        proof {
            assert(ks == all[i as int]);
            assert(rest@ =~= all.skip(i + 1));
            assert(all.take(i + 1).drop_last() =~= all.take(i as int));
        }
        let id = ks.id.clone();
        e.keysets.insert(id.as_str(), ks);
        i = i + 1;
    }
    assert(all.take(i as int) =~= all);
}

/// Totals over a prefix are at most the totals over a longer prefix.
proof fn lemma_totals_grow(m: StrMap<MintCacheEntry>, a: int, b: int)
    requires
        0 <= a <= b,
    ensures
        keyset_total(m, a) <= keyset_total(m, b),
        keys_total(m, a) <= keys_total(m, b),
    decreases b - a,
{
    if a < b {
        lemma_totals_grow(m, a, b - 1);
    }
}

/// Whether a mint's info and keysets are both cached and fresh.
pub fn is_mint_cached(cache: &MintMetadataCache, mint_url: &str, now: u64) -> (r: bool)
    requires
        cache.wf(),
    ensures
        ({
            let key = normalized_mint(mint_url@);
            r == (cache.mints@.contains_key(key) && info_fresh(cache.mints@[key], now, cache.ttl_secs) && exists|k: Seq<char>| #[trigger] cache.mints@[key].keysets@.contains_key(k) && fresh_at(
                cache.mints@[key].keysets@[k].cached_at,
                now,
                cache.ttl_secs,
            ))
        }),
{
    cache.has_valid_info(mint_url, now) && cache.has_valid_keysets(mint_url, now)
}

/// The ids of a mint's active cached keysets, each once; none if the mint
/// is not cached.
pub fn get_cached_active_keysets(cache: &MintMetadataCache, mint_url: &str) -> (r: Vec<String>)
    requires
        cache.wf(),
    ensures
        string_views(r@).no_duplicates(),
        ({
            let key = normalized_mint(mint_url@);
            forall|k: Seq<char>| #[trigger] string_views(r@).contains(k) <==> (cache.mints@.contains_key(key)
                && cache.mints@[key].keysets@.contains_key(k) && cache.mints@[key].keysets@[k].active)
        }),
{
    match cache.get_mint(mint_url) {
        Some(e) => e.active_keyset_ids(),
        None => {
            let r: Vec<String> = Vec::new();
            assert(string_views(r@) =~= Seq::<Seq<char>>::empty());
            r
        },
    }
}

/// The input fee of a mint's keyset, if the keyset is cached and fresh.
pub fn get_cached_keyset_fee(cache: &MintMetadataCache, mint_url: &str, keyset_id: &str, now: u64) -> (r: Option<u64>)
    requires
        cache.wf(),
    ensures
        ({
            let key = normalized_mint(mint_url@);
            if cache.mints@.contains_key(key) && cache.mints@[key].keysets@.contains_key(keyset_id@) && fresh_at(
                cache.mints@[key].keysets@[keyset_id@].cached_at,
                now,
                cache.ttl_secs,
            ) {
                r == Some(cache.mints@[key].keysets@[keyset_id@].input_fee_ppk)
            } else {
                r is None
            }
        }),
{
    match cache.get_mint(mint_url) {
        Some(e) => match e.get_keyset(keyset_id, now, cache.ttl_secs) {
            Some(ks) => Some(ks.input_fee_ppk),
            None => None,
        },
        None => None,
    }
}


/// A cached response of a mint API.
#[derive(Debug, Clone)]
pub struct CachedResponse {
    /// The response body.
    pub body: String,
    /// When it was cached.
    pub cached_at: u64,
    /// Its lifetime (seconds), from `Cache-Control` or a default.
    pub ttl_secs: u64,
    /// Its ETag, for conditional requests.
    pub etag: Option<String>,
}

impl CachedResponse {
    /// Whether the response is still fresh at `now`.
    pub fn is_valid(&self, now: u64) -> (r: bool)
        ensures
            r == fresh_at(self.cached_at, now, self.ttl_secs),
    {
        is_fresh(self.cached_at, now, self.ttl_secs)
    }
}

/// The responses of `m` still fresh at `now`.
pub open spec fn fresh_responses(m: Map<Seq<char>, CachedResponse>, now: u64) -> Map<Seq<char>, CachedResponse> {
    Map::new(|k: Seq<char>| m.contains_key(k) && fresh_at(m[k].cached_at, now, m[k].ttl_secs), |k: Seq<char>| m[k])
}

/// Mint API responses by URL (exact string).
pub struct ResponseCache {
    responses: StrMap<CachedResponse>,
}

impl ResponseCache {
    /// The cached responses by URL.
    pub closed spec fn view(&self) -> Map<Seq<char>, CachedResponse> {
        self.responses@
    }

    /// The map is well formed.
    pub closed spec fn wf(&self) -> bool {
        self.responses.wf()
    }

    /// An empty cache.
    pub fn new() -> (r: Self)
        ensures
            r.wf(),
            r@ == Map::<Seq<char>, CachedResponse>::empty(),
    {
        ResponseCache { responses: StrMap::new() }
    }

    /// The cached response of a URL, if it is still fresh.
    pub fn get(&self, url: &str, now: u64) -> (r: Option<&CachedResponse>)
        requires
            self.wf(),
        ensures
            r matches Some(c) ==> self@.contains_key(url@) && *c == self@[url@] && fresh_at(c.cached_at, now, c.ttl_secs),
            r is None ==> !(self@.contains_key(url@) && fresh_at(self@[url@].cached_at, now, self@[url@].ttl_secs)),
    {
        match self.responses.get(url) {
            Some(c) => if c.is_valid(now) {
                Some(c)
            } else {
                None
            },
            None => None,
        }
    }

    /// Caches the response of a URL at `now`.
    pub fn store(&mut self, url: String, body: String, ttl_secs: u64, etag: Option<String>, now: u64)
        requires
            old(self).wf(),
        ensures
            final(self).wf(),
            final(self)@ == old(self)@.insert(url@, CachedResponse { body, cached_at: now, ttl_secs, etag }),
    {
        self.responses.insert(url.as_str(), CachedResponse { body, cached_at: now, ttl_secs, etag });
    }

    /// Forgets the response of a URL.
    pub fn invalidate(&mut self, url: &str)
        requires
            old(self).wf(),
        ensures
            final(self).wf(),
            final(self)@ == old(self)@.remove(url@),
    {
        self.responses.remove(url);
    }

    /// Forgets every response.
    pub fn clear(&mut self)
        ensures
            final(self).wf(),
            final(self)@ == Map::<Seq<char>, CachedResponse>::empty(),
    {
        self.responses.clear();
    }

    /// Drops the responses that are no longer fresh.
    pub fn cleanup_expired(&mut self, now: u64)
        requires
            old(self).wf(),
        ensures
            final(self).wf(),
            final(self)@ == fresh_responses(old(self)@, now),
    {
        let ghost m = self.responses@;
        let keys = self.responses.keys();
        let ghost ks = string_views(keys@);
        let mut fresh: StrMap<CachedResponse> = StrMap::new();
        let mut i: usize = 0;
        while i < keys.len()
            invariant
                ks == string_views(keys@),
                ks.no_duplicates(),
                forall|k: Seq<char>| #[trigger] ks.contains(k) <==> m.contains_key(k),
                i <= keys@.len(),
                self.responses.wf(),
                fresh.wf(),
                forall|k: Seq<char>| #[trigger] self.responses@.contains_key(k) <==> (m.contains_key(k)
                    && !ks.take(i as int).contains(k)),
                forall|k: Seq<char>| #[trigger] self.responses@.contains_key(k) ==> self.responses@[k] == m[k],
                forall|k: Seq<char>| #[trigger] fresh@.contains_key(k) <==> (ks.take(i as int).contains(k)
                    && fresh_at(m[k].cached_at, now, m[k].ttl_secs)),
                forall|k: Seq<char>| #[trigger] fresh@.contains_key(k) ==> fresh@[k] == m[k],
            decreases keys@.len() - i,
        {
            let ghost k = ks[i as int];
            assert(ks.take(i + 1) =~= ks.take(i as int).push(k));
            assert(!ks.take(i as int).contains(k)) by {
                let t0 = ks.take(i as int);
                if t0.contains(k) {
                    let a = choose|a: int| 0 <= a < t0.len() && t0[a] == k;
                    assert(ks[a] == ks[i as int]);
                }
            }
            assert(ks.contains(k));
            let taken = self.responses.take(keys[i].as_str());
            match taken {
                Some(v) => {
                    if v.is_valid(now) {
                        fresh.insert(keys[i].as_str(), v);
                    }
                },
                None => {},
            }
            proof {
                let t1 = ks.take(i + 1);
                let t0 = ks.take(i as int);
                assert forall|q: Seq<char>| #[trigger] t1.contains(q) <==> (t0.contains(q) || q == k) by {
                    if t1.contains(q) {
                        let a = choose|a: int| 0 <= a < t1.len() && t1[a] == q;
                        if a < i {
                            assert(t0[a] == q);
                        }
                    }
                    if t0.contains(q) {
                        let a = choose|a: int| 0 <= a < t0.len() && t0[a] == q;
                        assert(t1[a] == q);
                    }
                    if q == k {
                        assert(t1[i as int] == q);
                    }
                }
            }
            i = i + 1;
        }
        proof {
            assert(ks.take(i as int) =~= ks);
        }
        self.responses = fresh;
        assert(self.responses@ =~= fresh_responses(m, now));
    }
}

impl Default for ResponseCache {
    /// An empty cache.
    fn default() -> (r: Self)
        ensures
            r.wf(),
            r@ == Map::<Seq<char>, CachedResponse>::empty(),
    {
        ResponseCache::new()
    }
}

/// What one comma-separated part of a `Cache-Control` header says of the
/// lifetime: `Some` of the parsed value (itself `None` if it does not parse)
/// where the part, trimmed, starts with `max-age=`; `None` otherwise.
pub open spec fn max_age_directive(part: Seq<char>) -> Option<Option<u64>> {
    if has_prefix(trimmed_of(part), "max-age="@) {
        Some(parsed_u64(trimmed_of(part).skip(8)))
    } else {
        None
    }
}

/// The lifetime that a header gives: the first part that is a `max-age`
/// directive decides; `cur` is the part read so far.
pub open spec fn scan_max_age(cur: Seq<char>, rest: Seq<char>) -> Option<u64>
    decreases rest.len(),
{
    if rest.len() == 0 {
        match max_age_directive(cur) {
            Some(v) => v,
            None => None,
        }
    } else if rest[0] == ',' {
        match max_age_directive(cur) {
            Some(v) => v,
            None => scan_max_age(Seq::empty(), rest.skip(1)),
        }
    } else {
        scan_max_age(cur.push(rest[0]), rest.skip(1))
    }
}

/// What one part of a header says of the lifetime.
fn part_max_age(part: &str) -> (r: Option<Option<u64>>)
    ensures
        r == max_age_directive(part@),
{
    let t = trim(part);
    let tc = chars_of(t);
    let p = chars_of("max-age=");
    proof {
        reveal_strlit("max-age=");
    }
    if starts_with(&tc, &p) {
        let n = tc.len();
        let rest = substring(t, 8, n);
        assert(rest@ =~= trimmed_of(part@).skip(8));
        Some(parse_u64(rest.as_str()))
    } else {
        None
    }
}

/// The `max-age` of a `Cache-Control` header, if it has one that parses.
pub fn parse_cache_control(header: Option<&str>) -> (r: Option<u64>)
    ensures
        r == match header {
            Some(h) => scan_max_age(Seq::empty(), h@),
            None => None,
        },
{
    let h = match header {
        Some(h) => h,
        None => {
            return None;
        },
    };
    let cs = chars_of(h);
    let n = cs.len();
    let mut start: usize = 0;
    let mut j: usize = 0;
    assert(h@.subrange(0, 0) =~= Seq::<char>::empty());
    assert(h@.skip(0) =~= h@);
    while j < n
        invariant
            header == Some(h),
            cs@ == h@,
            n == h@.len(),
            start <= j <= n,
            scan_max_age(Seq::empty(), h@) == scan_max_age(h@.subrange(start as int, j as int), h@.skip(j as int)),
        decreases n - j,
    {
        let ghost cur = h@.subrange(start as int, j as int);
        assert(h@.skip(j as int)[0] == cs@[j as int]);
        assert(h@.skip(j as int).skip(1) =~= h@.skip(j + 1));
        if cs[j] == ',' {
            let part = substring(h, start, j);
            match part_max_age(part.as_str()) {
                Some(v) => {
                    return v;
                },
                None => {},
            }
            start = j + 1;
            assert(h@.subrange(start as int, j + 1) =~= Seq::<char>::empty());
        } else {
            assert(h@.subrange(start as int, j + 1) =~= cur.push(cs@[j as int]));
        }
        j = j + 1;
    }
    let part = substring(h, start, n);
    assert(h@.skip(n as int).len() == 0);
    match part_max_age(part.as_str()) {
        Some(v) => v,
        None => None,
    }
}

} // verus!
