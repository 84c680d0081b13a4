//! Stable sorting by decreasing key, as a specification: insertion of each
//! element, in order, after every element whose key is at least its own.
use vstd::prelude::*;

verus! {

/// Where `x` goes in a list sorted by decreasing key: after every leading
/// element whose key is at least its own.
pub open spec fn insert_pos_by<T>(s: Seq<T>, x: T, key: spec_fn(T) -> int) -> int
    decreases s.len(),
{
    if s.len() == 0 {
        0
    } else if key(s[0]) < key(x) {
        0
    } else {
        1 + insert_pos_by(s.drop_first(), x, key)
    }
}

/// Stable sort by decreasing key.
pub open spec fn sort_desc_by<T>(s: Seq<T>, key: spec_fn(T) -> int) -> Seq<T>
    decreases s.len(),
{
    if s.len() == 0 {
        Seq::empty()
    } else {
        let t = sort_desc_by(s.drop_last(), key);
        t.insert(insert_pos_by(t, s.last(), key), s.last())
    }
}

/// Keys never increase along the sequence.
pub open spec fn sorted_desc_by<T>(s: Seq<T>, key: spec_fn(T) -> int) -> bool {
    forall|a: int, b: int| 0 <= a < b < s.len() ==> key(s[a]) >= key(s[b])
}

/// Characterizes `insert_pos_by`: every element before `j` has a key at
/// least that of `x`, and the element at `j` (if any) a smaller one.
pub proof fn lemma_insert_pos_by<T>(s: Seq<T>, x: T, key: spec_fn(T) -> int, j: int)
    requires
        0 <= j <= s.len(),
        forall|k: int| 0 <= k < j ==> key(s[k]) >= key(x),
        j < s.len() ==> key(s[j]) < key(x),
    ensures
        insert_pos_by(s, x, key) == j,
    decreases s.len(),
{
    if s.len() > 0 && j > 0 {
        assert forall|k: int| 0 <= k < j - 1 implies key(s.drop_first()[k]) >= key(x) by {
            assert(s.drop_first()[k] == s[k + 1]);
        }
        lemma_insert_pos_by(s.drop_first(), x, key, j - 1);
    }
}

/// Bounds of `insert_pos_by`, and the keys around it in a sorted list.
pub proof fn lemma_insert_pos_by_props<T>(s: Seq<T>, x: T, key: spec_fn(T) -> int)
    ensures
        0 <= insert_pos_by(s, x, key) <= s.len(),
        forall|k: int| 0 <= k < insert_pos_by(s, x, key) ==> key(s[k]) >= key(x),
        sorted_desc_by(s, key) ==> forall|k: int| insert_pos_by(s, x, key) <= k < s.len() ==> key(s[k]) < key(x),
    decreases s.len(),
{
    if s.len() > 0 && !(key(s[0]) < key(x)) {
        lemma_insert_pos_by_props(s.drop_first(), x, key);
        assert forall|k: int| 0 <= k < insert_pos_by(s, x, key) implies key(s[k]) >= key(x) by {
            if k > 0 {
                assert(s[k] == s.drop_first()[k - 1]);
            }
        }
        if sorted_desc_by(s, key) {
            assert(sorted_desc_by(s.drop_first(), key)) by {
                assert forall|a: int, b: int| 0 <= a < b < s.drop_first().len()
                    implies key(s.drop_first()[a]) >= key(s.drop_first()[b]) by {
                    assert(s.drop_first()[a] == s[a + 1]);
                    assert(s.drop_first()[b] == s[b + 1]);
                }
            }
            assert forall|k: int| insert_pos_by(s, x, key) <= k < s.len() implies key(s[k]) < key(x) by {
                assert(s[k] == s.drop_first()[k - 1]);
            }
        }
    } else if s.len() > 0 {
        if sorted_desc_by(s, key) {
            assert forall|k: int| 0 <= k < s.len() implies key(s[k]) < key(x) by {
                if k > 0 {
                    assert(key(s[0]) >= key(s[k]));
                }
            }
        }
    }
}

/// Sorting by decreasing key orders the elements by key and neither loses
/// nor adds an element.
pub proof fn lemma_sort_desc_by<T>(s: Seq<T>, key: spec_fn(T) -> int)
    ensures
        sorted_desc_by(sort_desc_by(s, key), key),
        sort_desc_by(s, key).to_multiset() == s.to_multiset(),
        sort_desc_by(s, key).len() == s.len(),
    decreases s.len(),
{
    broadcast use vstd::seq_lib::group_to_multiset_ensures;
    if s.len() > 0 {
        lemma_sort_desc_by(s.drop_last(), key);
        let t = sort_desc_by(s.drop_last(), key);
        let x = s.last();
        let j = insert_pos_by(t, x, key);
        lemma_insert_pos_by_props(t, x, key);
        let u = t.insert(j, x);
        assert(u == sort_desc_by(s, key));
        assert forall|a: int, b: int| 0 <= a < b < u.len() implies key(u[a]) >= key(u[b]) by {
            if b < j {
                assert(u[a] == t[a] && u[b] == t[b]);
            } else if b == j {
                assert(u[a] == t[a]);
            } else if a < j {
                assert(u[a] == t[a] && u[b] == t[b - 1]);
            } else if a == j {
                assert(u[b] == t[b - 1]);
            } else {
                assert(u[a] == t[a - 1] && u[b] == t[b - 1]);
            }
        }
        assert(s =~= s.drop_last().push(x));
    }
}

} // verus!
