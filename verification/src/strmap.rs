//! A map keyed by strings, held as a list of distinct keys with values.
use vstd::prelude::*;
use vstd::string::*;
use crate::keyset::string_views;

verus! {

/// A map from strings to values.
#[derive(Debug)]
pub struct StrMap<V> {
    entries: Vec<(String, V)>,
}

impl<V> StrMap<V> {
    /// The map.
    pub closed spec fn view(&self) -> Map<Seq<char>, V> {
        Map::new(
            |k: Seq<char>| exists|i: int| 0 <= i < self.entries@.len() && self.entries@[i].0@ == k,
            |k: Seq<char>| self.entries@[choose|i: int| 0 <= i < self.entries@.len() && self.entries@[i].0@ == k].1,
        )
    }

    /// No key appears twice.
    pub closed spec fn wf(&self) -> bool {
        forall|i: int, j: int|
            0 <= i < self.entries@.len() && 0 <= j < self.entries@.len() && i != j
                ==> self.entries@[i].0@ != self.entries@[j].0@
    }

    /// An empty map.
    pub fn new() -> (r: Self)
        ensures
            r.wf(),
            r.view() == Map::<Seq<char>, V>::empty(),
    {
        let r = StrMap { entries: Vec::new() };
        assert(r.view() =~= Map::<Seq<char>, V>::empty());
        r
    }

    /// Position of a key.
    fn find(&self, key: &str) -> (r: Option<usize>)
        ensures
            r matches Some(i) ==> i < self.entries@.len() && self.entries@[i as int].0@ == key@,
            r is None ==> forall|i: int| 0 <= i < self.entries@.len() ==> self.entries@[i].0@ != key@,
    {
        let k = String::from_str(key);
        let mut i: usize = 0;
        while i < self.entries.len()
            invariant
                i <= self.entries.len(),
                k@ == key@,
                forall|j: int| 0 <= j < i ==> self.entries@[j].0@ != key@,
            decreases self.entries.len() - i,
        {
            if self.entries[i].0 == k {
                return Some(i);
            }
            i = i + 1;
        }
        None
    }

    /// Whether a key is present.
    pub fn contains_key(&self, key: &str) -> (r: bool)
        ensures
            r == self.view().contains_key(key@),
    {
        match self.find(key) {
            Some(i) => {
                assert(self.entries@[i as int].0@ == key@);
                true
            },
            None => false,
        }
    }

    /// The value of a key, if present.
    pub fn get(&self, key: &str) -> (r: Option<&V>)
        requires
            self.wf(),
        ensures
            r matches Some(v) ==> self.view().contains_key(key@) && *v == self.view()[key@],
            r is None ==> !self.view().contains_key(key@),
    {
        match self.find(key) {
            Some(i) => {
                proof {
                    let k = key@;
                    assert(self.view().contains_key(k));
                    let c = choose|j: int| 0 <= j < self.entries@.len() && self.entries@[j].0@ == k;
                    assert(c == i);
                }
                Some(&self.entries[i].1)
            },
            None => None,
        }
    }

    /// Sets the value of a key.
    pub fn insert(&mut self, key: &str, value: V)
        requires
            old(self).wf(),
        ensures
            final(self).wf(),
            final(self).view() == old(self).view().insert(key@, value),
    {
        let k = String::from_str(key);
        match self.find(key) {
            Some(i) => {
                self.entries.set(i, (k, value));
                proof {
                    assert forall|i2: int, j2: int|
                        0 <= i2 < self.entries@.len() && 0 <= j2 < self.entries@.len() && i2 != j2
                        implies self.entries@[i2].0@ != self.entries@[j2].0@ by {
                        assert(old(self).entries@[i2].0@ != old(self).entries@[j2].0@);
                    }
                    assert forall|q: Seq<char>| #![auto] self.view().contains_key(q) implies
                        self.view()[q] == old(self).view().insert(key@, value)[q] by {
                        let c = choose|j: int| 0 <= j < self.entries@.len() && self.entries@[j].0@ == q;
                        if q != key@ {
                            assert(old(self).entries@[c].0@ == q);
                            let oc = choose|j: int| 0 <= j < old(self).entries@.len() && old(self).entries@[j].0@ == q;
                            assert(oc == c);
                        } else {
                            assert(c == i);
                        }
                    }
                    assert forall|q: Seq<char>| #![auto] old(self).view().insert(key@, value).contains_key(q)
                        implies self.view().contains_key(q) by {
                        if q != key@ {
                            let oc = choose|j: int| 0 <= j < old(self).entries@.len() && old(self).entries@[j].0@ == q;
                            assert(self.entries@[oc].0@ == q);
                        } else {
                            assert(self.entries@[i as int].0@ == q);
                        }
                    }
                    assert(self.view() =~= old(self).view().insert(key@, value));
                }
            },
            None => {
                self.entries.push((k, value));
                proof {
                    let n = old(self).entries@.len() as int;
                    assert forall|q: Seq<char>| #![auto] self.view().contains_key(q) implies
                        self.view()[q] == old(self).view().insert(key@, value)[q] by {
                        let c = choose|j: int| 0 <= j < self.entries@.len() && self.entries@[j].0@ == q;
                        if q != key@ {
                            assert(c != n);
                            assert(old(self).entries@[c].0@ == q);
                            let oc = choose|j: int| 0 <= j < old(self).entries@.len() && old(self).entries@[j].0@ == q;
                            assert(oc == c);
                        } else {
                            assert(c == n);
                        }
                    }
                    assert forall|q: Seq<char>| #![auto] old(self).view().insert(key@, value).contains_key(q)
                        implies self.view().contains_key(q) by {
                        if q != key@ {
                            let oc = choose|j: int| 0 <= j < old(self).entries@.len() && old(self).entries@[j].0@ == q;
                            assert(self.entries@[oc].0@ == q);
                        } else {
                            assert(self.entries@[n].0@ == q);
                        }
                    }
                    assert(self.view() =~= old(self).view().insert(key@, value));
                }
            },
        }
    }

    /// Removes a key.
    pub fn remove(&mut self, key: &str)
        requires
            old(self).wf(),
        ensures
            final(self).wf(),
            final(self).view() == old(self).view().remove(key@),
    {
        match self.find(key) {
            Some(i) => {
                let ghost before = self.entries@;
                self.entries.remove(i);
                proof {
                    assert forall|a: int| 0 <= a < self.entries@.len() implies
                        #[trigger] self.entries@[a] == before[if a < i { a } else { a + 1 }] by {}
                    assert forall|i2: int, j2: int|
                        0 <= i2 < self.entries@.len() && 0 <= j2 < self.entries@.len() && i2 != j2
                        implies self.entries@[i2].0@ != self.entries@[j2].0@ by {
                        let oi = if i2 < i { i2 } else { i2 + 1 };
                        let oj = if j2 < i { j2 } else { j2 + 1 };
                        assert(self.entries@[i2] == before[oi]);
                        assert(self.entries@[j2] == before[oj]);
                    }
                    assert forall|q: Seq<char>| #![auto] self.view().contains_key(q) implies
                        old(self).view().remove(key@).contains_key(q)
                        && self.view()[q] == old(self).view().remove(key@)[q] by {
                        let c = choose|j: int| 0 <= j < self.entries@.len() && self.entries@[j].0@ == q;
                        let oc = if c < i { c } else { c + 1 };
                        assert(self.entries@[c] == before[oc]);
                        assert(oc != i);
                        let oc2 = choose|j: int| 0 <= j < old(self).entries@.len() && old(self).entries@[j].0@ == q;
                        assert(oc2 == oc);
                    }
                    assert forall|q: Seq<char>| #![auto] old(self).view().remove(key@).contains_key(q)
                        implies self.view().contains_key(q) by {
                        let oc = choose|j: int| 0 <= j < old(self).entries@.len() && old(self).entries@[j].0@ == q;
                        assert(oc != i);
                        let c = if oc < i { oc } else { oc - 1 };
                        assert(self.entries@[c] == before[oc]);
                    }
                    assert(self.view() =~= old(self).view().remove(key@));
                }
            },
            None => {
                assert(self.view() =~= old(self).view().remove(key@));
            },
        }
    }

    /// Removes a key and hands back its value, if it was present.
    pub fn take(&mut self, key: &str) -> (r: Option<V>)
        requires
            old(self).wf(),
        ensures
            final(self).wf(),
            final(self).view() == old(self).view().remove(key@),
            r matches Some(v) ==> old(self).view().contains_key(key@) && v == old(self).view()[key@],
            r is None ==> !old(self).view().contains_key(key@),
    {
        match self.find(key) {
            Some(i) => {
                proof {
                    let k = key@;
                    let c = choose|j: int| 0 <= j < self.entries@.len() && self.entries@[j].0@ == k;
                    assert(c == i);
                }
                let ghost before = self.entries@;
                let (_, v) = self.entries.remove(i);
                proof {
                    assert forall|a: int| 0 <= a < self.entries@.len() implies
                        #[trigger] self.entries@[a] == before[if a < i { a } else { a + 1 }] by {}
                    assert forall|i2: int, j2: int|
                        0 <= i2 < self.entries@.len() && 0 <= j2 < self.entries@.len() && i2 != j2
                        implies self.entries@[i2].0@ != self.entries@[j2].0@ by {
                        let oi = if i2 < i { i2 } else { i2 + 1 };
                        let oj = if j2 < i { j2 } else { j2 + 1 };
                        assert(self.entries@[i2] == before[oi]);
                        assert(self.entries@[j2] == before[oj]);
                    }
                    assert forall|q: Seq<char>| #![auto] self.view().contains_key(q) implies
                        old(self).view().remove(key@).contains_key(q)
                        && self.view()[q] == old(self).view().remove(key@)[q] by {
                        let c = choose|j: int| 0 <= j < self.entries@.len() && self.entries@[j].0@ == q;
                        let oc = if c < i { c } else { c + 1 };
                        assert(self.entries@[c] == before[oc]);
                        assert(oc != i);
                        let oc2 = choose|j: int| 0 <= j < old(self).entries@.len() && old(self).entries@[j].0@ == q;
                        assert(oc2 == oc);
                    }
                    assert forall|q: Seq<char>| #![auto] old(self).view().remove(key@).contains_key(q)
                        implies self.view().contains_key(q) by {
                        let oc = choose|j: int| 0 <= j < old(self).entries@.len() && old(self).entries@[j].0@ == q;
                        assert(oc != i);
                        let c = if oc < i { oc } else { oc - 1 };
                        assert(self.entries@[c] == before[oc]);
                    }
                    assert(self.view() =~= old(self).view().remove(key@));
                }
                Some(v)
            },
            None => {
                assert(self.view() =~= old(self).view().remove(key@));
                None
            },
        }
    }

    /// The number of entries.
    pub closed spec fn size(&self) -> nat {
        self.entries@.len()
    }

    /// The key of the entry at a position.
    pub closed spec fn key_at(&self, i: int) -> Seq<char> {
        self.entries@[i].0@
    }

    /// The value of the entry at a position.
    pub closed spec fn value_at(&self, i: int) -> V {
        self.entries@[i].1
    }

    /// The entries by position are those of the map, each key once.
    pub proof fn lemma_positions(&self)
        requires
            self.wf(),
        ensures
            forall|i: int| 0 <= i < self.size() ==> self.view().contains_key(#[trigger] self.key_at(i))
                && self.view()[self.key_at(i)] == self.value_at(i),
            forall|k: Seq<char>| #[trigger] self.view().contains_key(k) ==> exists|i: int|
                0 <= i < self.size() && #[trigger] self.key_at(i) == k,
            forall|i: int, j: int| 0 <= i < self.size() && 0 <= j < self.size() && i != j ==> #[trigger] self.key_at(i)
                != #[trigger] self.key_at(j),
    {
        assert forall|i: int| 0 <= i < self.size() implies self.view().contains_key(#[trigger] self.key_at(i))
            && self.view()[self.key_at(i)] == self.value_at(i) by {
            let k = self.key_at(i);
            assert(self.entries@[i].0@ == k);
            let c = choose|j: int| 0 <= j < self.entries@.len() && self.entries@[j].0@ == k;
            assert(c == i);
        }
        assert forall|k: Seq<char>| #[trigger] self.view().contains_key(k) implies exists|i: int|
            0 <= i < self.size() && #[trigger] self.key_at(i) == k by {
            let c = choose|j: int| 0 <= j < self.entries@.len() && self.entries@[j].0@ == k;
            assert(self.key_at(c) == k);
        }
    }

    /// The number of entries.
    pub fn len(&self) -> (r: usize)
        ensures
            r == self.size(),
    {
        self.entries.len()
    }

    /// The entry at a position.
    pub fn entry_at(&self, i: usize) -> (r: (&String, &V))
        requires
            i < self.size(),
        ensures
            r.0@ == self.key_at(i as int),
            *r.1 == self.value_at(i as int),
    {
        (&self.entries[i].0, &self.entries[i].1)
    }

    /// Removes every key.
    pub fn clear(&mut self)
        ensures
            final(self).wf(),
            final(self).view() == Map::<Seq<char>, V>::empty(),
    {
        self.entries = Vec::new();
        assert(self.view() =~= Map::<Seq<char>, V>::empty());
    }

    /// The keys, each once, in no particular order.
    pub fn keys(&self) -> (r: Vec<String>)
        requires
            self.wf(),
        ensures
            string_views(r@).no_duplicates(),
            forall|k: Seq<char>| #[trigger] string_views(r@).contains(k) <==> self.view().contains_key(k),
    {
        let mut r: Vec<String> = Vec::new();
        for i in 0..self.entries.len()
            invariant
                self.wf(),
                r@.len() == i,
                forall|j: int| 0 <= j < i ==> #[trigger] r@[j]@ == self.entries@[j].0@,
        {
            r.push(self.entries[i].0.clone());
        }
        proof {
            let sv = string_views(r@);
            assert forall|a: int, b: int| 0 <= a < sv.len() && 0 <= b < sv.len() && a != b implies sv[a] != sv[b] by {
                assert(sv[a] == self.entries@[a].0@);
                assert(sv[b] == self.entries@[b].0@);
            }
            assert forall|k: Seq<char>| #[trigger] sv.contains(k) implies self.view().contains_key(k) by {
                let a = choose|a: int| 0 <= a < sv.len() && sv[a] == k;
                assert(self.entries@[a].0@ == k);
            }
            assert forall|k: Seq<char>| self.view().contains_key(k) implies #[trigger] sv.contains(k) by {
                let a = choose|j: int| 0 <= j < self.entries@.len() && self.entries@[j].0@ == k;
                assert(sv[a] == k);
            }
        }
        r
    }
}

impl StrMap<u64> {
    /// Keeps the entries whose value, a timestamp, is no more than `max_age`
    /// seconds older than `now`.
    pub fn retain_recent(&mut self, now: u64, max_age: u64)
        requires
            old(self).wf(),
        ensures
            final(self).wf(),
            final(self).view() == recent_entries(old(self).view(), now, max_age),
    {
        let ghost before = self.entries@;
        let ghost m = self.view();
        let mut kept: Vec<(String, u64)> = Vec::new();
        let ghost mut idx: Seq<int> = Seq::empty();
        for i in 0..self.entries.len()
            invariant
                self.entries@ == before,
                m == self.view(),
                self.wf(),
                kept@.len() == idx.len(),
                forall|a: int| 0 <= a < idx.len() ==> 0 <= #[trigger] idx[a] < i && kept@[a] == before[idx[a]],
                forall|a: int, b: int| 0 <= a < b < idx.len() ==> idx[a] < idx[b],
                forall|j: int| 0 <= j < i && is_recent(before[j].1, now, max_age) ==> exists|a: int| 0 <= a < idx.len() && #[trigger] idx[a] == j,
                forall|a: int| 0 <= a < idx.len() ==> is_recent(before[#[trigger] idx[a]].1, now, max_age),
        {
            let age = now.saturating_sub(self.entries[i].1);
            if age <= max_age {
                kept.push((self.entries[i].0.clone(), self.entries[i].1));
                proof {
                    let old_idx = idx;
                    idx = idx.push(i as int);
                    assert forall|j: int| 0 <= j < i + 1 && is_recent(before[j].1, now, max_age) implies exists|a: int|
                        0 <= a < idx.len() && #[trigger] idx[a] == j by {
                        if j < i {
                            let a = choose|a: int| 0 <= a < old_idx.len() && #[trigger] old_idx[a] == j;
                            assert(idx[a] == j);
                        } else {
                            assert(idx[old_idx.len() as int] == j);
                        }
                    }
                }
            }
        }
        self.entries = kept;
        proof {
            assert forall|i2: int, j2: int|
                0 <= i2 < self.entries@.len() && 0 <= j2 < self.entries@.len() && i2 != j2
                implies self.entries@[i2].0@ != self.entries@[j2].0@ by {
                assert(self.entries@[i2] == before[idx[i2]]);
                assert(self.entries@[j2] == before[idx[j2]]);
                if i2 < j2 { assert(idx[i2] < idx[j2]); } else { assert(idx[j2] < idx[i2]); }
            }
            let target = recent_entries(m, now, max_age);
            assert forall|q: Seq<char>| #[trigger] self.view().dom().contains(q) implies
                target.contains_key(q) && self.view()[q] == target[q] by {
                let c = choose|j: int| 0 <= j < self.entries@.len() && self.entries@[j].0@ == q;
                let oc = idx[c];
                assert(self.entries@[c] == before[oc]);
                assert(m.contains_key(q));
                let oc2 = choose|j: int| 0 <= j < before.len() && before[j].0@ == q;
                assert(oc2 == oc);
                assert(m[q] == before[oc].1);
                assert(is_recent(before[idx[c]].1, now, max_age));
                assert(target.contains_key(q));
                assert(self.view()[q] == self.entries@[c].1);
            }
            assert forall|q: Seq<char>| #[trigger] target.dom().contains(q) implies self.view().contains_key(q) by {
                let oc = choose|j: int| 0 <= j < before.len() && before[j].0@ == q;
                assert(m[q] == before[oc].1);
                assert(is_recent(before[oc].1, now, max_age));
                let a = choose|a: int| 0 <= a < idx.len() && #[trigger] idx[a] == oc;
                assert(self.entries@[a] == before[oc]);
            }
            assert(self.view().dom() =~= target.dom());
            assert(self.view() =~= target);
        }
    }
}

/// The entries of `m` whose timestamp is recent.
pub open spec fn recent_entries(m: Map<Seq<char>, u64>, now: u64, max_age: u64) -> Map<Seq<char>, u64> {
    Map::new(|k: Seq<char>| m.contains_key(k) && is_recent(m[k], now, max_age), |k: Seq<char>| m[k])
}

/// An entry stamped `ts` is no more than `max_age` seconds older than `now`
/// (with the difference saturating at zero).
pub open spec fn is_recent(ts: u64, now: u64, max_age: u64) -> bool {
    (if now >= ts { now - ts } else { 0 }) <= max_age
}

} // verus!
