//! Proof batching sized from a mint's input limits, and a paginator over a
//! list of proofs.
use vstd::prelude::*;
use crate::types::{ProofData, clone_proofs};

verus! {

/// Default batch size when mint limits are unknown.
pub const DEFAULT_BATCH_SIZE: usize = 200;

/// Minimum batch size.
pub const MIN_BATCH_SIZE: usize = 10;

/// Maximum batch size (safety limit).
pub const MAX_BATCH_SIZE: usize = 500;

/// Default maximum inputs per request.
pub const DEFAULT_MAX_INPUTS: usize = 200;

/// Default maximum outputs per request.
pub const DEFAULT_MAX_OUTPUTS: usize = 200;

/// Mint operation limits.
#[derive(Debug, Clone, Copy, PartialEq, Eq, Structural)]
pub struct MintLimits {
    /// Maximum inputs per request.
    pub max_inputs: usize,
    /// Maximum outputs per request.
    pub max_outputs: usize,
    /// Maximum amount per mint operation.
    pub max_mint_amount: Option<u64>,
    /// Maximum amount per melt operation.
    pub max_melt_amount: Option<u64>,
}

/// The limits assumed for a mint whose limits are unknown.
pub open spec fn default_limits() -> MintLimits {
    MintLimits { max_inputs: 200, max_outputs: 200, max_mint_amount: None, max_melt_amount: None }
}

impl Default for MintLimits {
    fn default() -> (r: Self)
        ensures
            r == default_limits(),
    {
        MintLimits {
            max_inputs: DEFAULT_MAX_INPUTS,
            max_outputs: DEFAULT_MAX_OUTPUTS,
            max_mint_amount: None,
            max_melt_amount: None,
        }
    }
}

/// Mint limits known so far, keyed by mint URL (exact string).
#[derive(Debug)]
pub struct LimitsCache {
    entries: Vec<(String, MintLimits)>,
}

impl LimitsCache {
    /// The cache as a map from mint URL to limits.
    pub closed spec fn view(&self) -> Map<Seq<char>, MintLimits> {
        Map::new(
            |k: Seq<char>| exists|i: int| 0 <= i < self.entries@.len() && self.entries@[i].0@ == k,
            |k: Seq<char>| self.entries@[choose|i: int| 0 <= i < self.entries@.len() && self.entries@[i].0@ == k].1,
        )
    }

    /// No URL appears twice.
    pub closed spec fn wf(&self) -> bool {
        forall|i: int, j: int|
            0 <= i < self.entries@.len() && 0 <= j < self.entries@.len() && i != j
                ==> self.entries@[i].0@ != self.entries@[j].0@
    }

    /// An empty cache.
    pub fn new() -> (r: Self)
        ensures
            r.wf(),
            r.view() == Map::<Seq<char>, MintLimits>::empty(),
    {
        let r = LimitsCache { entries: Vec::new() };
        assert(r.view() =~= Map::<Seq<char>, MintLimits>::empty());
        r
    }

    /// Position of a URL in the entries.
    fn find(&self, mint_url: &str) -> (r: Option<usize>)
        requires
            self.wf(),
        ensures
            r matches Some(i) ==> i < self.entries@.len() && self.entries@[i as int].0@ == mint_url@,
            r is None ==> forall|i: int| 0 <= i < self.entries@.len() ==> self.entries@[i].0@ != mint_url@,
    {
        let key = String::from_str(mint_url);
        let mut i: usize = 0;
        while i < self.entries.len()
            invariant
                i <= self.entries.len(),
                key@ == mint_url@,
                forall|j: int| 0 <= j < i ==> self.entries@[j].0@ != mint_url@,
            decreases self.entries.len() - i,
        {
            if self.entries[i].0 == key {
                return Some(i);
            }
            i = i + 1;
        }
        None
    }

    /// The limits cached for a URL, if any.
    pub fn get(&self, mint_url: &str) -> (r: Option<MintLimits>)
        requires
            self.wf(),
        ensures
            r == (if self.view().contains_key(mint_url@) { Some(self.view()[mint_url@]) } else { None }),
    {
        match self.find(mint_url) {
            Some(i) => {
                proof {
                    let k = mint_url@;
                    assert(self.view().contains_key(k));
                    let c = choose|j: int| 0 <= j < self.entries@.len() && self.entries@[j].0@ == k;
                    assert(c == i);
                }
                Some(self.entries[i].1)
            },
            None => None,
        }
    }

    /// Caches the limits of a mint, replacing earlier ones.
    pub fn insert(&mut self, mint_url: &str, limits: MintLimits)
        requires
            old(self).wf(),
        ensures
            final(self).wf(),
            final(self).view() == old(self).view().insert(mint_url@, limits),
    {
        match self.find(mint_url) {
            Some(i) => {
                let key = String::from_str(mint_url);
                self.entries.set(i, (key, limits));
                proof {
                    assert forall|i2: int, j2: int|
                        0 <= i2 < self.entries@.len() && 0 <= j2 < self.entries@.len() && i2 != j2
                        implies self.entries@[i2].0@ != self.entries@[j2].0@ by {
                        assert(old(self).entries@[i2].0@ != old(self).entries@[j2].0@);
                    }
                    assert forall|k: Seq<char>| #![auto] self.view().contains_key(k) implies
                        self.view()[k] == old(self).view().insert(mint_url@, limits)[k] by {
                        let c = choose|j: int| 0 <= j < self.entries@.len() && self.entries@[j].0@ == k;
                        if k != mint_url@ {
                            assert(old(self).entries@[c].0@ == k);
                            let oc = choose|j: int| 0 <= j < old(self).entries@.len() && old(self).entries@[j].0@ == k;
                            assert(oc == c);
                        } else {
                            assert(c == i);
                        }
                    }
                    assert forall|k: Seq<char>| #![auto] old(self).view().insert(mint_url@, limits).contains_key(k)
                        implies self.view().contains_key(k) by {
                        if k != mint_url@ {
                            let oc = choose|j: int| 0 <= j < old(self).entries@.len() && old(self).entries@[j].0@ == k;
                            assert(self.entries@[oc].0@ == k);
                        } else {
                            assert(self.entries@[i as int].0@ == k);
                        }
                    }
                    assert(self.view() =~= old(self).view().insert(mint_url@, limits));
                }
            },
            None => {
                let key = String::from_str(mint_url);
                self.entries.push((key, limits));
                proof {
                    let n = old(self).entries@.len() as int;
                    assert forall|k: Seq<char>| #![auto] self.view().contains_key(k) implies
                        self.view()[k] == old(self).view().insert(mint_url@, limits)[k] by {
                        let c = choose|j: int| 0 <= j < self.entries@.len() && self.entries@[j].0@ == k;
                        if k != mint_url@ {
                            assert(c != n);
                            assert(old(self).entries@[c].0@ == k);
                            let oc = choose|j: int| 0 <= j < old(self).entries@.len() && old(self).entries@[j].0@ == k;
                            assert(oc == c);
                        } else {
                            assert(c == n);
                        }
                    }
                    assert forall|k: Seq<char>| #![auto] old(self).view().insert(mint_url@, limits).contains_key(k)
                        implies self.view().contains_key(k) by {
                        if k != mint_url@ {
                            let oc = choose|j: int| 0 <= j < old(self).entries@.len() && old(self).entries@[j].0@ == k;
                            assert(self.entries@[oc].0@ == k);
                        } else {
                            assert(self.entries@[n].0@ == k);
                        }
                    }
                    assert(self.view() =~= old(self).view().insert(mint_url@, limits));
                }
            },
        }
    }

    /// Forgets the limits of a mint.
    pub fn remove(&mut self, mint_url: &str)
        requires
            old(self).wf(),
        ensures
            final(self).wf(),
            final(self).view() == old(self).view().remove(mint_url@),
    {
        match self.find(mint_url) {
            Some(i) => {
                let ghost before = self.entries@;
                self.entries.remove(i);
                proof {
                    assert forall|a: int| 0 <= a < self.entries@.len() implies
                        #[trigger] self.entries@[a] == before[if a < i { a } else { a + 1 }] by {}
                    assert forall|i2: int, j2: int|
                        0 <= i2 < self.entries@.len() && 0 <= j2 < self.entries@.len() && i2 != j2
                        implies self.entries@[i2].0@ != self.entries@[j2].0@ by {
                        let oi = if i2 < i { i2 } else { i2 + 1 };
                        let oj = if j2 < i { j2 } else { j2 + 1 };
                        assert(self.entries@[i2] == before[oi]);
                        assert(self.entries@[j2] == before[oj]);
                    }
                    assert forall|k: Seq<char>| #![auto] self.view().contains_key(k) implies
                        old(self).view().remove(mint_url@).contains_key(k)
                        && self.view()[k] == old(self).view().remove(mint_url@)[k] by {
                        let c = choose|j: int| 0 <= j < self.entries@.len() && self.entries@[j].0@ == k;
                        let oc = if c < i { c } else { c + 1 };
                        assert(self.entries@[c] == before[oc]);
                        assert(oc != i);
                        let oc2 = choose|j: int| 0 <= j < old(self).entries@.len() && old(self).entries@[j].0@ == k;
                        assert(oc2 == oc);
                    }
                    assert forall|k: Seq<char>| #![auto] old(self).view().remove(mint_url@).contains_key(k)
                        implies self.view().contains_key(k) by {
                        let oc = choose|j: int| 0 <= j < old(self).entries@.len() && old(self).entries@[j].0@ == k;
                        assert(oc != i);
                        let c = if oc < i { oc } else { oc - 1 };
                        assert(self.entries@[c] == before[oc]);
                    }
                    assert(self.view() =~= old(self).view().remove(mint_url@));
                }
            },
            None => {
                assert(self.view() =~= old(self).view().remove(mint_url@));
            },
        }
    }
}

/// The limits known for a mint, or the defaults.
pub open spec fn cached_limits_of(cache: Map<Seq<char>, MintLimits>, mint_url: Seq<char>) -> MintLimits {
    if cache.contains_key(mint_url) { cache[mint_url] } else { default_limits() }
}

/// Cached limits of a mint, or the defaults when none are cached.
pub fn get_cached_limits(cache: &LimitsCache, mint_url: &str) -> (r: MintLimits)
    requires
        cache.wf(),
    ensures
        r == cached_limits_of(cache.view(), mint_url@),
{
    match cache.get(mint_url) {
        Some(limits) => limits,
        None => MintLimits::default(),
    }
}

/// Forgets the cached limits of a mint.
pub fn clear_limits_cache(cache: &mut LimitsCache, mint_url: &str)
    requires
        old(cache).wf(),
    ensures
        final(cache).wf(),
        final(cache).view() == old(cache).view().remove(mint_url@),
{
    cache.remove(mint_url);
}

/// `x` clamped to `[lo, hi]`.
pub open spec fn clamp(x: int, lo: int, hi: int) -> int {
    if x < lo { lo } else if x > hi { hi } else { x }
}

/// Batch size for given limits: 90% of the maximum inputs, within
/// `[MIN_BATCH_SIZE, MAX_BATCH_SIZE]`.
pub open spec fn batch_size_for(limits: MintLimits) -> int {
    clamp(limits.max_inputs * 9 / 10, 10, 500)
}

/// Batch size for given limits.
pub fn batch_size_for_limits(limits: MintLimits) -> (r: usize)
    ensures
        r == batch_size_for(limits),
        MIN_BATCH_SIZE <= r <= MAX_BATCH_SIZE,
{
    let x = limits.max_inputs;
    // floor(9x / 10) computed without the intermediate product
    let optimal = (x / 10) * 9 + (x % 10) * 9 / 10;
    assert(optimal == x * 9 / 10) by (nonlinear_arith)
        requires
            optimal == (x / 10) * 9 + (x % 10) * 9 / 10,
    ;
    if optimal < MIN_BATCH_SIZE {
        MIN_BATCH_SIZE
    } else if optimal > MAX_BATCH_SIZE {
        MAX_BATCH_SIZE
    } else {
        optimal
    }
}

/// Batch size for a mint from the cached limits (defaults when unknown).
pub fn get_batch_size(cache: &LimitsCache, mint_url: &str) -> (r: usize)
    requires
        cache.wf(),
    ensures
        r == batch_size_for(cached_limits_of(cache.view(), mint_url@)),
{
    batch_size_for_limits(get_cached_limits(cache, mint_url))
}

/// `s` cut into consecutive pieces of `b` elements (the last may be shorter).
pub open spec fn chunks<T>(s: Seq<T>, b: nat) -> Seq<Seq<T>>
    decreases s.len(),
{
    if s.len() == 0 || b == 0 {
        Seq::empty()
    } else if s.len() <= b {
        seq![s]
    } else {
        seq![s.take(b as int)] + chunks(s.skip(b as int), b)
    }
}

/// Concatenation of a sequence of sequences.
pub open spec fn flatten<T>(ss: Seq<Seq<T>>) -> Seq<T>
    decreases ss.len(),
{
    if ss.len() == 0 {
        Seq::empty()
    } else {
        ss[0] + flatten(ss.drop_first())
    }
}

/// The views of a list of proof lists.
pub open spec fn batch_views(v: Seq<Vec<ProofData>>) -> Seq<Seq<ProofData>> {
    v.map_values(|b: Vec<ProofData>| b@)
}

/// Splitting into batches loses and adds nothing: the batches, concatenated,
/// are the original sequence; every batch is non-empty and holds at most `b`
/// elements.
pub proof fn lemma_chunks_partition<T>(s: Seq<T>, b: nat)
    requires
        b > 0,
    ensures
        flatten(chunks(s, b)) == s,
        forall|i: int| 0 <= i < chunks(s, b).len() ==> 0 < #[trigger] chunks(s, b)[i].len() <= b,
        chunks(s, b).len() == (s.len() + b - 1) / (b as int),
    decreases s.len(),
{
    if s.len() == 0 {
        assert(flatten(chunks(s, b)) =~= s);
        assert((s.len() + b - 1) / (b as int) == 0) by (nonlinear_arith)
            requires
                s.len() == 0,
                b > 0,
        ;
    } else if s.len() <= b {
        let c = chunks(s, b);
        assert(c.drop_first() =~= Seq::<Seq<T>>::empty());
        assert(flatten(c.drop_first()) == Seq::<T>::empty());
        assert(flatten(c) == c[0] + flatten(c.drop_first()));
        assert(flatten(c) =~= s);
        assert((s.len() + b - 1) / (b as int) == 1) by (nonlinear_arith)
            requires
                0 < s.len() <= b,
        ;
    } else {
        lemma_chunks_partition(s.skip(b as int), b);
        let c = chunks(s, b);
        assert(c.drop_first() =~= chunks(s.skip(b as int), b));
        assert(flatten(c) =~= s.take(b as int) + s.skip(b as int));
        assert(s.take(b as int) + s.skip(b as int) =~= s);
        assert forall|i: int| 0 <= i < c.len() implies 0 < #[trigger] c[i].len() <= b by {
            if i > 0 {
                assert(c[i] == chunks(s.skip(b as int), b)[i - 1]);
            }
        }
        let rest = (s.len() - b) as nat;
        assert((rest + b - 1) / (b as int) + 1 == (s.len() + b - 1) / (b as int)) by (nonlinear_arith)
            requires
                rest == s.len() - b,
                b > 0,
        ;
    }
}

/// Splits proofs into consecutive batches of `batch_size`.
pub fn batch_proofs(proofs: Vec<ProofData>, batch_size: usize) -> (r: Vec<Vec<ProofData>>)
    requires
        batch_size > 0,
    ensures
        batch_views(r@) == chunks(proofs@, batch_size as nat),
{
    let mut r: Vec<Vec<ProofData>> = Vec::new();
    let mut start: usize = 0;
    let n = proofs.len();
    assert(proofs@.skip(0) =~= proofs@);
    while start < n
        invariant
            n == proofs@.len(),
            start <= n,
            batch_size > 0,
            batch_views(r@) + chunks(proofs@.skip(start as int), batch_size as nat) == chunks(
                proofs@,
                batch_size as nat,
            ),
        decreases n - start,
    {
        let end = if n - start <= batch_size { n } else { start + batch_size };
        let mut batch: Vec<ProofData> = Vec::new();
        let mut k = start;
        while k < end
            invariant
                start <= k <= end <= n,
                n == proofs@.len(),
                batch@ == proofs@.subrange(start as int, k as int),
            decreases end - k,
        {
            batch.push(proofs[k].clone());
            assert(batch@ =~= proofs@.subrange(start as int, k + 1));
            k = k + 1;
        }
        proof {
            let rest = proofs@.skip(start as int);
            let b = batch_size as nat;
            if rest.len() <= b {
                assert(rest =~= proofs@.subrange(start as int, end as int));
                assert(chunks(rest, b) =~= seq![rest]);
                assert(proofs@.skip(end as int) =~= Seq::<ProofData>::empty());
            } else {
                assert(rest.take(b as int) =~= proofs@.subrange(start as int, end as int));
                assert(rest.skip(b as int) =~= proofs@.skip(end as int));
            }
        }
        let ghost old_r = r@;
        r.push(batch);
        proof {
            assert(batch_views(r@) =~= batch_views(old_r).push(proofs@.subrange(start as int, end as int)));
            let rest = proofs@.skip(start as int);
            let b = batch_size as nat;
            assert(chunks(rest, b) =~= seq![proofs@.subrange(start as int, end as int)] + chunks(proofs@.skip(end as int), b));
            assert(batch_views(r@) + chunks(proofs@.skip(end as int), b) =~= batch_views(old_r) + chunks(rest, b));
        }
        start = end;
    }
    assert(proofs@.skip(n as int) =~= Seq::<ProofData>::empty());
    assert(batch_views(r@) + Seq::<Seq<ProofData>>::empty() =~= batch_views(r@));
    r
}

/// Splits proofs into batches sized from the mint's cached limits.
pub fn batch_proofs_for_mint(cache: &LimitsCache, mint_url: &str, proofs: Vec<ProofData>) -> (r: Vec<Vec<ProofData>>)
    requires
        cache.wf(),
    ensures
        batch_views(r@) == chunks(proofs@, batch_size_for(cached_limits_of(cache.view(), mint_url@)) as nat),
{
    let batch_size = get_batch_size(cache, mint_url);
    batch_proofs(proofs, batch_size)
}

/// Pagination over a list of proofs, one batch at a time.
#[derive(Debug)]
pub struct ProofPaginator {
    proofs: Vec<ProofData>,
    position: usize,
    batch_size: usize,
}

/// End of the batch that starts at `pos`.
pub open spec fn batch_end(pos: nat, size: nat, len: nat) -> nat {
    if pos + size <= len { pos + size } else { len }
}

/// The batches that calling `next_batch` until it gives none hands out,
/// from position `pos`: each call hands out the proofs from the position
/// to the batch's end and moves there.
pub open spec fn run_batches(items: Seq<ProofData>, size: nat, pos: nat) -> Seq<Seq<ProofData>>
    decreases items.len() - pos,
{
    if pos >= items.len() || size == 0 {
        Seq::empty()
    } else {
        let end = batch_end(pos, size, items.len());
        seq![items.subrange(pos as int, end as int)] + run_batches(items, size, end)
    }
}

impl ProofPaginator {
    /// The proofs paginated over.
    pub closed spec fn items(&self) -> Seq<ProofData> {
        self.proofs@
    }

    /// Index of the next proof to hand out.
    pub closed spec fn pos(&self) -> nat {
        self.position as nat
    }

    /// Batch size.
    pub closed spec fn size(&self) -> nat {
        self.batch_size as nat
    }

    #[verifier::type_invariant]
    spec fn inv(&self) -> bool {
        self.position <= self.proofs.len()
    }

    /// A paginator at the start of `proofs`.
    pub fn new(proofs: Vec<ProofData>, batch_size: usize) -> (r: Self)
        ensures
            r.items() == proofs@,
            r.pos() == 0,
            r.size() == batch_size,
    {
        ProofPaginator { proofs, position: 0, batch_size }
    }

    /// A paginator with the batch size of the mint's cached limits.
    pub fn for_mint(cache: &LimitsCache, mint_url: &str, proofs: Vec<ProofData>) -> (r: Self)
        requires
            cache.wf(),
        ensures
            r.items() == proofs@,
            r.pos() == 0,
            r.size() == batch_size_for(cached_limits_of(cache.view(), mint_url@)),
    {
        let batch_size = get_batch_size(cache, mint_url);
        Self::new(proofs, batch_size)
    }

    /// The next batch, or `None` once every proof has been handed out.
    /// With a positive batch size the batches come out as `chunks` cuts the
    /// proofs: the batch is the first chunk of what remains, and what remains
    /// afterwards is cut into the rest of those chunks.
    pub fn next_batch(&mut self) -> (r: Option<Vec<ProofData>>)
        ensures
            final(self).items() == old(self).items(),
            final(self).size() == old(self).size(),
            old(self).pos() >= old(self).items().len() ==> r is None && final(self).pos() == old(self).pos(),
            old(self).pos() < old(self).items().len() ==> {
                let end = batch_end(old(self).pos(), old(self).size(), old(self).items().len());
                &&& r matches Some(b) && b@ == old(self).items().subrange(old(self).pos() as int, end as int)
                &&& final(self).pos() == end
            },
            old(self).size() > 0 && old(self).pos() < old(self).items().len() ==> {
                let rest = chunks(old(self).items().skip(old(self).pos() as int), old(self).size());
                &&& r matches Some(b) && b@ == rest[0]
                &&& chunks(final(self).items().skip(final(self).pos() as int), final(self).size()) == rest.drop_first()
            },
    {
        proof {
            use_type_invariant(&*self);
        }
        if self.position >= self.proofs.len() {
            return None;
        }
        let len = self.proofs.len();
        let start = self.position;
        let end = if len - start <= self.batch_size { len } else { start + self.batch_size };
        let mut batch: Vec<ProofData> = Vec::new();
        let mut k = start;
        while k < end
            invariant
                start <= k <= end <= len,
                len == self.proofs@.len(),
                batch@ == self.proofs@.subrange(start as int, k as int),
            decreases end - k,
        {
            batch.push(self.proofs[k].clone());
            assert(batch@ =~= self.proofs@.subrange(start as int, k + 1));
            k = k + 1;
        }
        proof {
            let s = self.proofs@;
            let rest = s.skip(start as int);
            let b = self.batch_size as nat;
            if b > 0 {
                if rest.len() <= b {
                    assert(rest =~= s.subrange(start as int, end as int));
                    assert(chunks(rest, b) =~= seq![rest]);
                    assert(s.skip(end as int) =~= Seq::<ProofData>::empty());
                    assert(chunks(rest, b).drop_first() =~= chunks(s.skip(end as int), b));
                } else {
                    assert(rest.take(b as int) =~= s.subrange(start as int, end as int));
                    assert(rest.skip(b as int) =~= s.skip(end as int));
                    assert(chunks(rest, b).drop_first() =~= chunks(s.skip(end as int), b));
                }
            }
        }
        self.position = end;
        Some(batch)
    }

    /// Whether more batches are available.
    pub fn has_more(&self) -> (r: bool)
        ensures
            r == (self.pos() < self.items().len()),
    {
        self.position < self.proofs.len()
    }

    /// Total number of proofs.
    pub fn total_count(&self) -> (r: usize)
        ensures
            r == self.items().len(),
    {
        self.proofs.len()
    }

    /// Number of batches: the proof count divided by the batch size, rounded up.
    pub fn batch_count(&self) -> (r: usize)
        requires
            self.size() > 0,
        ensures
            r == (self.items().len() + self.size() - 1) / (self.size() as int),
    {
        let len = self.proofs.len();
        let b = self.batch_size;
        if len == 0 {
            assert((len + b - 1) / (b as int) == 0) by (nonlinear_arith)
                requires
                    len == 0,
                    b > 0,
            ;
            0
        } else {
            assert((len - 1) / (b as int) + 1 == (len + b - 1) / (b as int)) by (nonlinear_arith)
                requires
                    len > 0,
                    b > 0,
            ;
            (len - 1) / b + 1
        }
    }

    /// Index of the batch that `next_batch` hands out next.
    pub fn current_batch(&self) -> (r: usize)
        requires
            self.size() > 0,
        ensures
            r == self.pos() / self.size(),
    {
        self.position / self.batch_size
    }

    /// Goes back to the first batch.
    pub fn reset(&mut self)
        ensures
            final(self).items() == old(self).items(),
            final(self).size() == old(self).size(),
            final(self).pos() == 0,
    {
        self.position = 0;
    }
}


/// `total` cut into amounts of at most `max`: whole `max`es while more than
/// `max` is left, then the rest.
pub open spec fn amount_batches(total: u64, max: u64) -> Seq<u64>
    decreases total,
{
    if total <= max || max == 0 {
        seq![total]
    } else {
        seq![max] + amount_batches((total - max) as u64, max)
    }
}

/// The largest amount one mint operation may carry under the limits.
pub open spec fn mint_amount_cap(limits: MintLimits) -> u64 {
    match limits.max_mint_amount {
        Some(m) => m,
        None => u64::MAX,
    }
}

/// Splits an amount into mint operations that respect the mint's maximum
/// amount per operation.
pub fn batch_amount(limits: MintLimits, total_amount: u64) -> (r: Vec<u64>)
    requires
        !(limits.max_mint_amount == Some(0u64) && total_amount > 0),
    ensures
        r@ == amount_batches(total_amount, mint_amount_cap(limits)),
{
    let max = match limits.max_mint_amount {
        Some(m) => m,
        None => u64::MAX,
    };
    if total_amount <= max {
        return vec![total_amount];
    }
    let mut batches: Vec<u64> = Vec::new();
    let mut remaining = total_amount;
    while remaining > 0
        invariant
            max == mint_amount_cap(limits),
            max > 0,
            batches@ + (if remaining == 0 {
                Seq::<u64>::empty()
            } else {
                amount_batches(remaining, max)
            }) == amount_batches(total_amount, max),
        decreases remaining,
    {
        let ghost before = batches@;
        if remaining <= max {
            batches.push(remaining);
            assert(batches@ + Seq::<u64>::empty() =~= before + amount_batches(remaining, max));
            remaining = 0;
        } else {
            batches.push(max);
            let ghost rest = amount_batches((remaining - max) as u64, max);
            assert(batches@ + rest =~= before + (seq![max] + rest));
            remaining = remaining - max;
        }
    }
    assert(batches@ + Seq::<u64>::empty() =~= batches@);
    batches
}

} // verus!
