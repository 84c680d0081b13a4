//! Keyset counter backups: when a mint is removed its non-zero keyset
//! counters are kept, so that re-adding the mint resumes secret derivation
//! where it stopped instead of reusing secrets.
use vstd::prelude::*;

verus! {

/// The keyset counters of a removed mint.
#[derive(Debug)]
pub struct CounterBackup {
    /// The mint, as it was named when removed.
    pub mint_url: String,
    /// Keyset id and counter value, for the counters above zero.
    pub counters: Vec<(String, u64)>,
    /// When the backup was made (seconds).
    pub created_at: u64,
}

/// `i` is the first backup of `mint_url`.
pub open spec fn first_backup_at(bs: Seq<CounterBackup>, mint_url: Seq<char>, i: int) -> bool {
    &&& 0 <= i < bs.len()
    &&& bs[i].mint_url@ == mint_url
    &&& forall|j: int| 0 <= j < i ==> bs[j].mint_url@ != mint_url
}

/// Some backup is of `mint_url`.
pub open spec fn has_backup(bs: Seq<CounterBackup>, mint_url: Seq<char>) -> bool {
    exists|i: int| 0 <= i < bs.len() && bs[i].mint_url@ == mint_url
}

/// The first backup of a mint, if any.
pub open spec fn backup_of(bs: Seq<CounterBackup>, mint_url: Seq<char>) -> Option<CounterBackup> {
    if has_backup(bs, mint_url) {
        Some(bs[choose|i: int| first_backup_at(bs, mint_url, i)])
    } else {
        None
    }
}

/// The backups after storing `b`: it replaces the first backup of its
/// mint, or is added at the end.
pub open spec fn with_backup(bs: Seq<CounterBackup>, b: CounterBackup) -> Seq<CounterBackup> {
    if has_backup(bs, b.mint_url@) {
        bs.update(choose|i: int| first_backup_at(bs, b.mint_url@, i), b)
    } else {
        bs.push(b)
    }
}

/// The backups of other mints, in order.
pub open spec fn without_backup(bs: Seq<CounterBackup>, mint_url: Seq<char>) -> Seq<CounterBackup> {
    bs.filter(|b: CounterBackup| b.mint_url@ != mint_url)
}

/// Some backup of a mint is the first one, and only one is.
pub proof fn lemma_first_backup(bs: Seq<CounterBackup>, mint_url: Seq<char>)
    requires
        has_backup(bs, mint_url),
    ensures
        exists|i: int| first_backup_at(bs, mint_url, i),
        forall|i: int, j: int| first_backup_at(bs, mint_url, i) && first_backup_at(bs, mint_url, j) ==> i == j,
{
    let k = choose|k: int| 0 <= k < bs.len() && bs[k].mint_url@ == mint_url;
    lemma_first_backup_from(bs, mint_url, k);
    assert forall|i: int, j: int| first_backup_at(bs, mint_url, i) && first_backup_at(bs, mint_url, j) implies i == j by {
        if i < j {
            assert(bs[i].mint_url@ != mint_url);
        } else if j < i {
            assert(bs[j].mint_url@ != mint_url);
        }
    }
}

/// Below any backup of a mint lies its first one.
proof fn lemma_first_backup_from(bs: Seq<CounterBackup>, mint_url: Seq<char>, k: int)
    requires
        0 <= k < bs.len(),
        bs[k].mint_url@ == mint_url,
    ensures
        exists|i: int| first_backup_at(bs, mint_url, i),
    decreases k,
{
    if forall|j: int| 0 <= j < k ==> bs[j].mint_url@ != mint_url {
        assert(first_backup_at(bs, mint_url, k));
    } else {
        let j = choose|j: int| 0 <= j < k && bs[j].mint_url@ == mint_url;
        lemma_first_backup_from(bs, mint_url, j);
    }
}

/// Position of the first backup of a mint.
fn find_backup(backups: &Vec<CounterBackup>, mint_url: &str) -> (r: Option<usize>)
    ensures
        r matches Some(i) ==> first_backup_at(backups@, mint_url@, i as int),
        r is None ==> !has_backup(backups@, mint_url@),
{
    let key = String::from_str(mint_url);
    for i in 0..backups.len()
        invariant
            key@ == mint_url@,
            forall|j: int| 0 <= j < i ==> backups@[j].mint_url@ != mint_url@,
    {
        if backups[i].mint_url == key {
            return Some(i);
        }
    }
    None
}

/// Stores a mint's backup, replacing the one it had.
pub fn put_counter_backup(backups: &mut Vec<CounterBackup>, backup: CounterBackup)
    ensures
        final(backups)@ == with_backup(old(backups)@, backup),
{
    let ghost b = backup;
    match find_backup(backups, backup.mint_url.as_str()) {
        Some(i) => {
            proof {
                lemma_first_backup(old(backups)@, b.mint_url@);
            }
            backups.set(i, backup);
        },
        None => {
            backups.push(backup);
        },
    }
}

/// The backup of a mint, if there is one.
pub fn get_counter_backup<'a>(backups: &'a Vec<CounterBackup>, mint_url: &str) -> (r: Option<&'a CounterBackup>)
    ensures
        r matches Some(b) ==> backup_of(backups@, mint_url@) == Some(*b),
        r is None ==> backup_of(backups@, mint_url@) is None,
{
    match find_backup(backups, mint_url) {
        Some(i) => {
            proof {
                lemma_first_backup(backups@, mint_url@);
            }
            Some(&backups[i])
        },
        None => None,
    }
}

/// Drops the backups of a mint, once it no longer needs them.
pub fn remove_counter_backup(backups: &mut Vec<CounterBackup>, mint_url: &str)
    ensures
        final(backups)@ == without_backup(old(backups)@, mint_url@),
{
    let ghost orig = backups@;
    let key = String::from_str(mint_url);
    let mut rest: Vec<CounterBackup> = Vec::new();
    std::mem::swap(&mut rest, backups);
    let ghost n = rest@.len();
    while rest.len() > 0
        invariant
            key@ == mint_url@,
            n == orig.len(),
            rest@.len() <= n,
            rest@ == orig.subrange(n - rest@.len(), n as int),
            backups@ == without_backup(orig.subrange(0, n - rest@.len()), mint_url@),
        decreases rest@.len(),
    {
        let ghost k = n - rest@.len();
        let b = rest.remove(0);
        assert(orig.subrange(0, k + 1).drop_last() =~= orig.subrange(0, k));
        assert(orig.subrange(0, k + 1).last() == b);
        assert(rest@ =~= orig.subrange(k + 1, n as int));
        proof {
            reveal(Seq::filter);
        }
        if b.mint_url != key {
            backups.push(b);
        }
    }
    assert(orig.subrange(0, n as int) =~= orig);
}

/// The counters a backup keeps: those above zero, in order.
pub open spec fn kept_counters(read: Seq<(String, u32)>) -> Seq<(Seq<char>, u64)>
    decreases read.len(),
{
    if read.len() == 0 {
        Seq::empty()
    } else {
        let rest = kept_counters(read.drop_last());
        if read.last().1 > 0 { rest.push((read.last().0@, read.last().1 as u64)) } else { rest }
    }
}

/// Counters as text.
pub open spec fn counters_view(cs: Seq<(String, u64)>) -> Seq<(Seq<char>, u64)> {
    cs.map_values(|c: (String, u64)| (c.0@, c.1))
}

/// The counters to back up, from the keyset counters read from the wallet
/// database: the non-zero ones.
pub fn counters_to_back_up(read: &Vec<(String, u32)>) -> (r: Vec<(String, u64)>)
    ensures
        counters_view(r@) == kept_counters(read@),
{
    let mut r: Vec<(String, u64)> = Vec::new();
    for i in 0..read.len()
        invariant
            counters_view(r@) == kept_counters(read@.take(i as int)),
    {
        assert(read@.take(i + 1).drop_last() =~= read@.take(i as int));
        if read[i].1 > 0 {
            let ghost before = r@;
            r.push((read[i].0.clone(), read[i].1 as u64));
            assert(counters_view(r@) =~= counters_view(before).push((read@[i as int].0@, read@[i as int].1 as u64)));
        }
    }
    assert(read@.take(read.len() as int) =~= read@);
    r
}

/// How far to advance a keyset counter that stands at `current` to reach
/// the backed-up `target`, as the 32-bit increment the wallet database
/// takes (truncated); none when the counter is already there.
pub fn counter_increment(target: u64, current: u64) -> (r: Option<u32>)
    ensures
        target > current ==> r == Some(((target - current) as u64) as u32),
        target <= current ==> r is None,
{
    if target > current {
        Some((target - current) as u32)
    } else {
        None
    }
}

} // verus!
