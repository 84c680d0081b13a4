//! Keyset rotation detection, migration planning and per-keyset fees.
use vstd::prelude::*;
use crate::fees::sat_u64;
use crate::types::{ProofData, TokenData, clone_proofs, mint_matches, same_mint};

verus! {

/// Keyset information as cached for a mint.
#[derive(Debug)]
pub struct CachedKeyset {
    /// Keyset id.
    pub id: String,
    /// Currency unit.
    pub unit: String,
    /// Whether the keyset is active at the mint.
    pub active: bool,
    /// Input fee per proof in parts per thousand.
    pub input_fee_ppk: u64,
    /// When this was cached.
    pub cached_at: u64,
}

/// Keyset info with local tracking.
#[derive(Debug)]
pub struct KeysetState {
    /// Keyset id.
    pub id: String,
    /// Whether the keyset is active at the mint.
    pub active: bool,
    /// Input fee in ppk.
    pub input_fee_ppk: u64,
    /// Number of proofs held from this keyset.
    pub proof_count: usize,
    /// Total value of proofs from this keyset.
    pub proof_value: u64,
}

/// Ids of the active keysets, in order.
pub open spec fn active_ids(ks: Seq<CachedKeyset>) -> Seq<Seq<char>>
    decreases ks.len(),
{
    if ks.len() == 0 {
        Seq::empty()
    } else {
        let rest = active_ids(ks.drop_last());
        if ks.last().active { rest.push(ks.last().id@) } else { rest }
    }
}

/// Ids of all keysets, in order.
pub open spec fn all_ids(ks: Seq<CachedKeyset>) -> Seq<Seq<char>> {
    ks.map_values(|k: CachedKeyset| k.id@)
}

/// The views of a list of strings.
pub open spec fn string_views(v: Seq<String>) -> Seq<Seq<char>> {
    v.map_values(|s: String| s@)
}

/// Active keyset ids of a mint's cached keysets.
pub fn get_active_keyset_ids(keysets: &Vec<CachedKeyset>) -> (r: Vec<String>)
    ensures
        string_views(r@) == active_ids(keysets@),
{
    let mut r: Vec<String> = Vec::new();
    for i in 0..keysets.len()
        invariant
            string_views(r@) == active_ids(keysets@.take(i as int)),
    {
        assert(keysets@.take(i + 1).drop_last() =~= keysets@.take(i as int));
        if keysets[i].active {
            let ghost before = r@;
            r.push(keysets[i].id.clone());
            assert(string_views(r@) =~= string_views(before).push(keysets@[i as int].id@));
        }
    }
    assert(keysets@.take(keysets.len() as int) =~= keysets@);
    r
}

/// All keyset ids of a mint's cached keysets.
pub fn get_all_keyset_ids(keysets: &Vec<CachedKeyset>) -> (r: Vec<String>)
    ensures
        string_views(r@) == all_ids(keysets@),
{
    let mut r: Vec<String> = Vec::new();
    for i in 0..keysets.len()
        invariant
            string_views(r@) == all_ids(keysets@.take(i as int)),
    {
        let ghost before = r@;
        r.push(keysets[i].id.clone());
        assert(all_ids(keysets@.take(i + 1)) =~= all_ids(keysets@.take(i as int)).push(keysets@[i as int].id@));
        assert(string_views(r@) =~= string_views(before).push(keysets@[i as int].id@));
    }
    assert(keysets@.take(keysets.len() as int) =~= keysets@);
    r
}

/// Whether a string is in a list of strings.
pub fn contains_string(v: &Vec<String>, s: &String) -> (r: bool)
    ensures
        r == string_views(v@).contains(s@),
{
    let mut i: usize = 0;
    while i < v.len()
        invariant
            i <= v.len(),
            forall|j: int| 0 <= j < i ==> v@[j]@ != s@,
        decreases v.len() - i,
    {
        if v[i] == *s {
            assert(string_views(v@)[i as int] == s@);
            return true;
        }
        i = i + 1;
    }
    assert forall|j: int| 0 <= j < string_views(v@).len() implies string_views(v@)[j] != s@ by {
        assert(string_views(v@)[j] == v@[j]@);
    }
    false
}

/// Whether a keyset is active among a mint's cached keysets.
pub fn is_keyset_active(keysets: &Vec<CachedKeyset>, keyset_id: &str) -> (r: bool)
    ensures
        r == active_ids(keysets@).contains(keyset_id@),
{
    let active = get_active_keyset_ids(keysets);
    contains_string(&active, &String::from_str(keyset_id))
}

/// All proofs of the tokens whose mint matches `mint`, token by token.
pub open spec fn mint_proofs(tokens: Seq<TokenData>, mint: Seq<char>) -> Seq<ProofData>
    decreases tokens.len(),
{
    if tokens.len() == 0 {
        Seq::empty()
    } else {
        let rest = mint_proofs(tokens.drop_last(), mint);
        if same_mint(tokens.last().mint@, mint) { rest + tokens.last().proofs@ } else { rest }
    }
}

/// All proofs of a mint, in token order.
pub fn proofs_of_mint(tokens: &Vec<TokenData>, mint_url: &str) -> (r: Vec<ProofData>)
    ensures
        r@ == mint_proofs(tokens@, mint_url@),
{
    let mut r: Vec<ProofData> = Vec::new();
    for i in 0..tokens.len()
        invariant
            r@ == mint_proofs(tokens@.take(i as int), mint_url@),
    {
        assert(tokens@.take(i + 1).drop_last() =~= tokens@.take(i as int));
        if mint_matches(tokens[i].mint.as_str(), mint_url) {
            let ps = &tokens[i].proofs;
            let ghost start = r@;
            for k in 0..ps.len()
                invariant
                    r@ == start + ps@.take(k as int),
            {
                r.push(ps[k].clone());
                assert(r@ =~= start + ps@.take(k + 1));
            }
            assert(ps@.take(ps.len() as int) =~= ps@);
        }
    }
    assert(tokens@.take(tokens.len() as int) =~= tokens@);
    r
}

/// Proofs of `ps` with keyset id `id`, in order.
pub open spec fn proofs_with_id(ps: Seq<ProofData>, id: Seq<char>) -> Seq<ProofData>
    decreases ps.len(),
{
    if ps.len() == 0 {
        Seq::empty()
    } else {
        let rest = proofs_with_id(ps.drop_last(), id);
        if ps.last().id@ == id { rest.push(ps.last()) } else { rest }
    }
}

/// Distinct keyset ids of proofs, in order of first appearance.
pub open spec fn distinct_ids(ps: Seq<ProofData>) -> Seq<Seq<char>>
    decreases ps.len(),
{
    if ps.len() == 0 {
        Seq::empty()
    } else {
        let d = distinct_ids(ps.drop_last());
        if d.contains(ps.last().id@) { d } else { d.push(ps.last().id@) }
    }
}

/// The view of a grouping of proofs.
pub open spec fn groups_view(v: Seq<(String, Vec<ProofData>)>) -> Seq<(Seq<char>, Seq<ProofData>)> {
    v.map_values(|g: (String, Vec<ProofData>)| (g.0@, g.1@))
}

/// Proofs of a mint grouped by keyset id: one group per distinct id, in
/// order of first appearance, each holding that id's proofs in order.
pub fn get_proofs_by_keyset(tokens: &Vec<TokenData>, mint_url: &str) -> (r: Vec<(String, Vec<ProofData>)>)
    ensures
        r@.len() == distinct_ids(mint_proofs(tokens@, mint_url@)).len(),
        forall|i: int| 0 <= i < r@.len() ==> {
            let ps = mint_proofs(tokens@, mint_url@);
            &&& (#[trigger] r@[i]).0@ == distinct_ids(ps)[i]
            &&& r@[i].1@ == proofs_with_id(ps, distinct_ids(ps)[i])
        },
{
    let all = proofs_of_mint(tokens, mint_url);
    let ghost ps = all@;
    let mut groups: Vec<(String, Vec<ProofData>)> = Vec::new();
    for i in 0..all.len()
        invariant
            ps == all@,
            groups@.len() == distinct_ids(ps.take(i as int)).len(),
            forall|g: int| 0 <= g < groups@.len() ==> {
                &&& (#[trigger] groups@[g]).0@ == distinct_ids(ps.take(i as int))[g]
                &&& groups@[g].1@ == proofs_with_id(ps.take(i as int), distinct_ids(ps.take(i as int))[g])
            },
    {
        let ghost pre = ps.take(i as int);
        let ghost post = ps.take(i + 1);
        assert(post.drop_last() =~= pre);
        let p = &all[i];
        let mut found: Option<usize> = None;
        let mut g: usize = 0;
        while g < groups.len()
            invariant
                g <= groups.len(),
                found matches Some(k) ==> k < g && groups@[k as int].0@ == p.id@,
                found is None ==> forall|k: int| 0 <= k < g ==> groups@[k].0@ != p.id@,
            decreases groups.len() - g,
        {
            if found.is_none() && groups[g].0 == p.id {
                found = Some(g);
            }
            g = g + 1;
        }
        let ghost dpre = distinct_ids(pre);
        proof {
            assert forall|a: int, b: int| 0 <= a < b < dpre.len() implies dpre[a] != dpre[b] by {
                lemma_distinct_ids_unique(pre, a, b);
            }
        }
        match found {
            Some(k) => {
                assert(dpre.contains(p.id@)) by {
                    assert(dpre[k as int] == p.id@);
                }
                let ghost old_groups = groups@;
                let mut members = clone_proofs(&groups[k].1);
                members.push(p.clone());
                let name = groups[k].0.clone();
                groups.set(k, (name, members));
                proof {
                    assert forall|h: int| 0 <= h < groups@.len() implies {
                        &&& (#[trigger] groups@[h]).0@ == distinct_ids(post)[h]
                        &&& groups@[h].1@ == proofs_with_id(post, distinct_ids(post)[h])
                    } by {
                        assert(distinct_ids(post) == dpre);
                        if h != k {
                            assert(groups@[h] == old_groups[h]);
                            assert(dpre[h] != dpre[k as int]);
                        }
                    }
                }
            },
            None => {
                assert(!dpre.contains(p.id@)) by {
                    if dpre.contains(p.id@) {
                        let k = choose|k: int| 0 <= k < dpre.len() && dpre[k] == p.id@;
                        assert(groups@[k].0@ == p.id@);
                    }
                }
                let mut v: Vec<ProofData> = Vec::new();
                v.push(p.clone());
                let ghost old_groups = groups@;
                groups.push((p.id.clone(), v));
                proof {
                    assert(distinct_ids(post) == dpre.push(p.id@));
                    assert forall|h: int| 0 <= h < groups@.len() implies {
                        &&& (#[trigger] groups@[h]).0@ == distinct_ids(post)[h]
                        &&& groups@[h].1@ == proofs_with_id(post, distinct_ids(post)[h])
                    } by {
                        if h < old_groups.len() {
                            assert(groups@[h] == old_groups[h]);
                            assert(dpre[h] != p.id@) by {
                                assert(dpre.contains(dpre[h]));
                            }
                        } else {
                            lemma_no_proofs_with_new_id(pre, p.id@);
                            assert(proofs_with_id(pre, p.id@) =~= Seq::<ProofData>::empty());
                            assert(groups@[h].1@ =~= seq![*p]);
                        }
                    }
                }
            },
        }
    }
    assert(ps.take(all.len() as int) =~= ps);
    groups
}

/// Distinct ids are pairwise different.
proof fn lemma_distinct_ids_unique(ps: Seq<ProofData>, a: int, b: int)
    requires
        0 <= a < b < distinct_ids(ps).len(),
    ensures
        distinct_ids(ps)[a] != distinct_ids(ps)[b],
    decreases ps.len(),
{
    let d = distinct_ids(ps.drop_last());
    if d.contains(ps.last().id@) {
        lemma_distinct_ids_unique(ps.drop_last(), a, b);
    } else if b < d.len() {
        lemma_distinct_ids_unique(ps.drop_last(), a, b);
    } else {
        assert(distinct_ids(ps)[b] == ps.last().id@);
        assert(distinct_ids(ps)[a] == d[a]);
        assert(d.contains(d[a]));
    }
}

/// An id that is not among the distinct ids has no proofs.
proof fn lemma_no_proofs_with_new_id(ps: Seq<ProofData>, id: Seq<char>)
    requires
        !distinct_ids(ps).contains(id),
    ensures
        proofs_with_id(ps, id).len() == 0,
    decreases ps.len(),
{
    if ps.len() > 0 {
        let d = distinct_ids(ps.drop_last());
        if !d.contains(ps.last().id@) {
            assert(distinct_ids(ps) == d.push(ps.last().id@));
            assert(ps.last().id@ != id) by {
                assert(distinct_ids(ps)[d.len() as int] == ps.last().id@);
            }
            assert forall|x: Seq<char>| d.contains(x) implies distinct_ids(ps).contains(x) by {
                let k = choose|k: int| 0 <= k < d.len() && d[k] == x;
                assert(distinct_ids(ps)[k] == x);
            }
        }
        lemma_no_proofs_with_new_id(ps.drop_last(), id);
    }
}

/// Proofs of `ps` whose keyset is active (`want`) or not active (`!want`).
pub open spec fn proofs_by_activity(ps: Seq<ProofData>, active: Seq<Seq<char>>, want: bool) -> Seq<ProofData>
    decreases ps.len(),
{
    if ps.len() == 0 {
        Seq::empty()
    } else {
        let rest = proofs_by_activity(ps.drop_last(), active, want);
        if active.contains(ps.last().id@) == want { rest.push(ps.last()) } else { rest }
    }
}

/// Proofs of a mint held in keysets that are not active: those to migrate.
pub fn get_proofs_to_migrate(tokens: &Vec<TokenData>, keysets: &Vec<CachedKeyset>, mint_url: &str) -> (r: Vec<ProofData>)
    ensures
        r@ == proofs_by_activity(mint_proofs(tokens@, mint_url@), active_ids(keysets@), false),
{
    let active = get_active_keyset_ids(keysets);
    let all = proofs_of_mint(tokens, mint_url);
    let mut r: Vec<ProofData> = Vec::new();
    for i in 0..all.len()
        invariant
            string_views(active@) == active_ids(keysets@),
            r@ == proofs_by_activity(all@.take(i as int), active_ids(keysets@), false),
    {
        assert(all@.take(i + 1).drop_last() =~= all@.take(i as int));
        if !contains_string(&active, &all[i].id) {
            r.push(all[i].clone());
        }
    }
    assert(all@.take(all.len() as int) =~= all@);
    r
}

/// Plain sum of proof amounts.
pub open spec fn amount_sum(ps: Seq<ProofData>) -> int
    decreases ps.len(),
{
    if ps.len() == 0 { 0 } else { amount_sum(ps.drop_last()) + ps.last().amount }
}

/// The sum of a prefix is at most the sum of the whole.
pub proof fn lemma_amount_sum_prefix(ps: Seq<ProofData>, i: int)
    requires
        0 <= i <= ps.len(),
    ensures
        amount_sum(ps.take(i)) <= amount_sum(ps),
    decreases ps.len() - i,
{
    if i < ps.len() {
        lemma_amount_sum_prefix(ps, i + 1);
        assert(ps.take(i + 1).drop_last() =~= ps.take(i));
    } else {
        assert(ps.take(i) =~= ps);
    }
}

/// Counts and values of a mint's proofs in active and in inactive keysets:
/// `(active count, inactive count, active value, inactive value)`.
pub open spec fn status_counts(tokens: Seq<TokenData>, keysets: Seq<CachedKeyset>, mint: Seq<char>) -> (int, int, int, int) {
    let ps = mint_proofs(tokens, mint);
    let act = proofs_by_activity(ps, active_ids(keysets), true);
    let ina = proofs_by_activity(ps, active_ids(keysets), false);
    (act.len() as int, ina.len() as int, amount_sum(act), amount_sum(ina))
}

/// Counts proofs of a mint by keyset activity.
pub fn count_proofs_by_status(tokens: &Vec<TokenData>, keysets: &Vec<CachedKeyset>, mint_url: &str) -> (r: (usize, usize, u64, u64))
    requires
        status_counts(tokens@, keysets@, mint_url@).2 <= u64::MAX,
        status_counts(tokens@, keysets@, mint_url@).3 <= u64::MAX,
    ensures
        (r.0 as int, r.1 as int, r.2 as int, r.3 as int) == status_counts(tokens@, keysets@, mint_url@),
{
    let active = get_active_keyset_ids(keysets);
    let all = proofs_of_mint(tokens, mint_url);
    let ghost act_ids = active_ids(keysets@);
    let ghost full_act = proofs_by_activity(all@, act_ids, true);
    let ghost full_ina = proofs_by_activity(all@, act_ids, false);
    let mut active_count: usize = 0;
    let mut inactive_count: usize = 0;
    let mut active_value: u64 = 0;
    let mut inactive_value: u64 = 0;
    for i in 0..all.len()
        invariant
            string_views(active@) == act_ids,
            full_act == proofs_by_activity(all@, act_ids, true),
            full_ina == proofs_by_activity(all@, act_ids, false),
            amount_sum(full_act) <= u64::MAX,
            amount_sum(full_ina) <= u64::MAX,
            active_count == proofs_by_activity(all@.take(i as int), act_ids, true).len(),
            inactive_count == proofs_by_activity(all@.take(i as int), act_ids, false).len(),
            active_value == amount_sum(proofs_by_activity(all@.take(i as int), act_ids, true)),
            inactive_value == amount_sum(proofs_by_activity(all@.take(i as int), act_ids, false)),
            active_count + inactive_count == i,
    {
        let ghost pre = all@.take(i as int);
        let ghost post = all@.take(i + 1);
        assert(post.drop_last() =~= pre);
        proof {
            lemma_activity_prefix(all@, act_ids, true, i + 1);
            lemma_activity_prefix(all@, act_ids, false, i + 1);
        }
        let is_active = contains_string(&active, &all[i].id);
        proof {
            let a = proofs_by_activity(post, act_ids, true);
            let b = proofs_by_activity(post, act_ids, false);
            if is_active {
                assert(a.drop_last() =~= proofs_by_activity(pre, act_ids, true));
                assert(amount_sum(a) == amount_sum(proofs_by_activity(pre, act_ids, true)) + all@[i as int].amount);
            } else {
                assert(b.drop_last() =~= proofs_by_activity(pre, act_ids, false));
                assert(amount_sum(b) == amount_sum(proofs_by_activity(pre, act_ids, false)) + all@[i as int].amount);
            }
        }
        if is_active {
            active_count = active_count + 1;
            active_value = active_value + all[i].amount;
        } else {
            inactive_count = inactive_count + 1;
            inactive_value = inactive_value + all[i].amount;
        }
    }
    assert(all@.take(all.len() as int) =~= all@);
    (active_count, inactive_count, active_value, inactive_value)
}

/// Filtering a prefix gives a prefix of the filtered sequence.
proof fn lemma_activity_prefix(ps: Seq<ProofData>, active: Seq<Seq<char>>, want: bool, i: int)
    requires
        0 <= i <= ps.len(),
    ensures
        proofs_by_activity(ps.take(i), active, want) == proofs_by_activity(ps, active, want).take(
            proofs_by_activity(ps.take(i), active, want).len() as int,
        ),
        proofs_by_activity(ps.take(i), active, want).len() <= proofs_by_activity(ps, active, want).len(),
        amount_sum(proofs_by_activity(ps.take(i), active, want)) <= amount_sum(proofs_by_activity(ps, active, want)),
    decreases ps.len() - i,
{
    if i == ps.len() {
        assert(ps.take(i) =~= ps);
        let f = proofs_by_activity(ps, active, want);
        assert(f.take(f.len() as int) =~= f);
    } else {
        lemma_activity_prefix(ps, active, want, i + 1);
        let a = proofs_by_activity(ps.take(i), active, want);
        let b = proofs_by_activity(ps.take(i + 1), active, want);
        let f = proofs_by_activity(ps, active, want);
        assert(ps.take(i + 1).drop_last() =~= ps.take(i));
        if active.contains(ps[i].id@) == want {
            assert(b == a.push(ps[i]));
            assert(a =~= b.take(a.len() as int));
            assert(a =~= f.take(a.len() as int));
            assert(amount_sum(b) == amount_sum(a) + ps[i].amount) by {
                assert(b.drop_last() =~= a);
            }
        } else {
            assert(b == a);
        }
        lemma_amount_sum_prefix(f, a.len() as int);
        lemma_amount_sum_prefix(f, b.len() as int);
    }
}

/// Whether migration is recommended: some proofs sit in inactive keysets.
pub fn should_migrate(tokens: &Vec<TokenData>, keysets: &Vec<CachedKeyset>, mint_url: &str) -> (r: bool)
    requires
        status_counts(tokens@, keysets@, mint_url@).2 <= u64::MAX,
        status_counts(tokens@, keysets@, mint_url@).3 <= u64::MAX,
    ensures
        r == (status_counts(tokens@, keysets@, mint_url@).1 > 0),
{
    let (_, inactive_count, _, _) = count_proofs_by_status(tokens, keysets, mint_url);
    inactive_count > 0
}

/// The proof count and value to migrate, when there is anything to migrate.
pub fn get_migration_recommendation(tokens: &Vec<TokenData>, keysets: &Vec<CachedKeyset>, mint_url: &str) -> (r: Option<(usize, u64)>)
    requires
        status_counts(tokens@, keysets@, mint_url@).2 <= u64::MAX,
        status_counts(tokens@, keysets@, mint_url@).3 <= u64::MAX,
    ensures
        status_counts(tokens@, keysets@, mint_url@).1 > 0 <==> r is Some,
        r matches Some((c, v)) ==> c == status_counts(tokens@, keysets@, mint_url@).1 && v
            == status_counts(tokens@, keysets@, mint_url@).3,
{
    let (_, inactive_count, _, inactive_value) = count_proofs_by_status(tokens, keysets, mint_url);
    if inactive_count > 0 {
        Some((inactive_count, inactive_value))
    } else {
        None
    }
}

/// Fee rate of the first keyset with the given id.
pub open spec fn fee_ppk_of(ks: Seq<CachedKeyset>, id: Seq<char>) -> Option<u64>
    decreases ks.len(),
{
    if ks.len() == 0 {
        None
    } else if ks[0].id@ == id {
        Some(ks[0].input_fee_ppk)
    } else {
        fee_ppk_of(ks.drop_first(), id)
    }
}

/// Fee rate (ppk) of a keyset, when it is cached.
pub fn get_keyset_fee_ppk(keysets: &Vec<CachedKeyset>, keyset_id: &str) -> (r: Option<u64>)
    ensures
        r == fee_ppk_of(keysets@, keyset_id@),
{
    let key = String::from_str(keyset_id);
    let mut i: usize = 0;
    assert(keysets@.skip(0) =~= keysets@);
    while i < keysets.len()
        invariant
            i <= keysets.len(),
            key@ == keyset_id@,
            fee_ppk_of(keysets@, keyset_id@) == fee_ppk_of(keysets@.skip(i as int), keyset_id@),
        decreases keysets.len() - i,
    {
        assert(keysets@.skip(i as int)[0] == keysets@[i as int]);
        if keysets[i].id == key {
            return Some(keysets[i].input_fee_ppk);
        }
        assert(keysets@.skip(i as int).drop_first() =~= keysets@.skip(i + 1));
        i = i + 1;
    }
    None
}

/// Fee of the proofs: for each proof whose keyset is cached, its fee rate
/// divided by 1000 and rounded up; summed with saturation.
pub open spec fn proofs_fee(ks: Seq<CachedKeyset>, ps: Seq<ProofData>) -> u64
    decreases ps.len(),
{
    if ps.len() == 0 {
        0
    } else {
        let rest = proofs_fee(ks, ps.drop_last());
        match fee_ppk_of(ks, ps.last().id@) {
            Some(ppk) => sat_u64(rest + sat_u64(ppk + 999) / 1000),
            None => rest,
        }
    }
}

/// Total fee for a set of proofs at their keysets' rates.
pub fn calculate_proofs_fee(keysets: &Vec<CachedKeyset>, proofs: &Vec<ProofData>) -> (r: u64)
    ensures
        r == proofs_fee(keysets@, proofs@),
{
    let mut total: u64 = 0;
    for i in 0..proofs.len()
        invariant
            total == proofs_fee(keysets@, proofs@.take(i as int)),
    {
        assert(proofs@.take(i + 1).drop_last() =~= proofs@.take(i as int));
        match get_keyset_fee_ppk(keysets, proofs[i].id.as_str()) {
            Some(ppk) => {
                total = total.saturating_add(ppk.saturating_add(999) / 1000);
            },
            None => {},
        }
    }
    assert(proofs@.take(proofs.len() as int) =~= proofs@);
    total
}

/// Elements of `a` not in `b`, in order.
pub open spec fn ids_not_in(a: Seq<Seq<char>>, b: Seq<Seq<char>>) -> Seq<Seq<char>>
    decreases a.len(),
{
    if a.len() == 0 {
        Seq::empty()
    } else {
        let rest = ids_not_in(a.drop_last(), b);
        if b.contains(a.last()) { rest } else { rest.push(a.last()) }
    }
}

/// The ids of `a` that `b` lacks.
fn strings_not_in(a: &Vec<String>, b: &Vec<String>) -> (r: Vec<String>)
    ensures
        string_views(r@) == ids_not_in(string_views(a@), string_views(b@)),
{
    let ghost av = string_views(a@);
    let mut r: Vec<String> = Vec::new();
    for i in 0..a.len()
        invariant
            av == string_views(a@),
            string_views(r@) == ids_not_in(av.take(i as int), string_views(b@)),
    {
        assert(av.take(i + 1).drop_last() =~= av.take(i as int));
        assert(av.take(i + 1).last() == a@[i as int]@);
        if !contains_string(b, &a[i]) {
            let ghost before = r@;
            r.push(a[i].clone());
            assert(string_views(r@) =~= string_views(before).push(a@[i as int]@));
        }
    }
    assert(av.take(a.len() as int) =~= av);
    r
}

/// What a refresh of a mint's keysets changed, by keyset id.
#[derive(Debug)]
pub struct KeysetChanges {
    /// Keysets that were not cached before.
    pub new_keysets: Vec<String>,
    /// Keysets that were active and are not any more.
    pub rotated_keysets: Vec<String>,
    /// Keysets that are active now.
    pub active_keysets: Vec<String>,
}

/// Compares the keysets cached before a refresh with the fresh ones.
pub fn analyze_keyset_refresh(old: &Vec<CachedKeyset>, fresh: &Vec<CachedKeyset>) -> (r: KeysetChanges)
    ensures
        string_views(r.new_keysets@) == ids_not_in(all_ids(fresh@), all_ids(old@)),
        string_views(r.rotated_keysets@) == ids_not_in(active_ids(old@), active_ids(fresh@)),
        string_views(r.active_keysets@) == active_ids(fresh@),
{
    let old_ids = get_all_keyset_ids(old);
    let old_active = get_active_keyset_ids(old);
    let new_ids = get_all_keyset_ids(fresh);
    let new_active = get_active_keyset_ids(fresh);
    KeysetChanges {
        new_keysets: strings_not_in(&new_ids, &old_ids),
        rotated_keysets: strings_not_in(&old_active, &new_active),
        active_keysets: new_active,
    }
}

} // verus!
