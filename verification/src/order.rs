//! Lexicographic order of strings (the order of `String`'s `<`: by chars,
//! which UTF-8 byte order preserves) and sorted lists of distinct strings.
use vstd::prelude::*;
use vstd::string::*;
use crate::keyset::string_views;
use crate::text::chars_of;

verus! {

/// `a` and `b` agree on their first `i` chars, and at `i` the first is
/// smaller: either it ended there and the second goes on, or both go on and
/// its char is smaller.
pub open spec fn lt_at(a: Seq<char>, b: Seq<char>, i: int) -> bool {
    &&& 0 <= i <= a.len()
    &&& i <= b.len()
    &&& a.take(i) == b.take(i)
    &&& ((i == a.len() && i < b.len()) || (i < a.len() && i < b.len() && (a[i] as int) < (b[i] as int)))
}

/// `a` comes strictly before `b` in lexicographic order.
pub open spec fn str_lt(a: Seq<char>, b: Seq<char>) -> bool {
    exists|i: int| lt_at(a, b, i)
}

/// The strings of `s` are in strictly increasing order.
pub open spec fn strictly_sorted(s: Seq<Seq<char>>) -> bool {
    forall|i: int, j: int| 0 <= i < j < s.len() ==> str_lt(#[trigger] s[i], #[trigger] s[j])
}

/// Nothing comes before itself.
pub proof fn lemma_str_lt_irreflexive(a: Seq<char>)
    ensures
        !str_lt(a, a),
{
}

/// The order is transitive.
pub proof fn lemma_str_lt_transitive(a: Seq<char>, b: Seq<char>, c: Seq<char>)
    requires
        str_lt(a, b),
        str_lt(b, c),
    ensures
        str_lt(a, c),
{
    let i = choose|i: int| lt_at(a, b, i);
    let j = choose|j: int| lt_at(b, c, j);
    if i < j {
        assert(b.take(j).take(i) =~= b.take(i));
        assert(c.take(j).take(i) =~= c.take(i));
        assert(b[i] == b.take(j)[i]);
        assert(c[i] == c.take(j)[i]);
        assert(lt_at(a, c, i));
    } else if j < i {
        assert(a.take(i).take(j) =~= a.take(j));
        assert(b.take(i).take(j) =~= b.take(j));
        assert(a[j] == a.take(i)[j]);
        assert(b[j] == b.take(i)[j]);
        assert(lt_at(a, c, j));
    } else {
        assert(lt_at(a, c, i));
    }
}

/// Two different strings that agree on their first `k` chars are ordered
/// one way or the other.
proof fn lemma_str_lt_total_from(a: Seq<char>, b: Seq<char>, k: int)
    requires
        a != b,
        0 <= k <= a.len(),
        k <= b.len(),
        a.take(k) == b.take(k),
    ensures
        str_lt(a, b) || str_lt(b, a),
    decreases a.len() - k,
{
    if k == a.len() && k == b.len() {
        assert(a =~= a.take(k));
        assert(b =~= b.take(k));
    } else if k == a.len() {
        assert(lt_at(a, b, k));
    } else if k == b.len() {
        assert(lt_at(b, a, k));
    } else if a[k] != b[k] {
        if (a[k] as int) < (b[k] as int) {
            assert(lt_at(a, b, k));
        } else {
            assert(lt_at(b, a, k));
        }
    } else {
        assert(a.take(k + 1) =~= a.take(k).push(a[k]));
        assert(b.take(k + 1) =~= b.take(k).push(b[k]));
        lemma_str_lt_total_from(a, b, k + 1);
    }
}

/// Two different strings are ordered one way or the other.
pub proof fn lemma_str_lt_total(a: Seq<char>, b: Seq<char>)
    requires
        a != b,
    ensures
        str_lt(a, b) || str_lt(b, a),
{
    assert(a.take(0) =~= b.take(0));
    lemma_str_lt_total_from(a, b, 0);
}

/// Whether `a` comes strictly before `b`.
pub fn string_lt(a: &String, b: &String) -> (r: bool)
    ensures
        r == str_lt(a@, b@),
{
    let ca = chars_of(a.as_str());
    let cb = chars_of(b.as_str());
    let mut i: usize = 0;
    while i < ca.len() && i < cb.len() && ca[i] == cb[i]
        invariant
            i <= ca.len(),
            i <= cb.len(),
            ca@ == a@,
            cb@ == b@,
            a@.take(i as int) == b@.take(i as int),
        decreases ca.len() - i,
    {
        assert(a@.take(i + 1) =~= a@.take(i as int).push(a@[i as int]));
        assert(b@.take(i + 1) =~= b@.take(i as int).push(b@[i as int]));
        i = i + 1;
    }
    let r = if i == ca.len() {
        i < cb.len()
    } else if i == cb.len() {
        false
    } else {
        ca[i] < cb[i]
    };
    proof {
        if r {
            assert(lt_at(a@, b@, i as int));
        } else {
            assert forall|j: int| !lt_at(a@, b@, j) by {
                if lt_at(a@, b@, j) {
                    if j < i {
                        assert(a@[j] == a@.take(i as int)[j]);
                        assert(b@[j] == b@.take(i as int)[j]);
                    } else if j > i {
                        assert(a@[i as int] == a@.take(j)[i as int]);
                        assert(b@[i as int] == b@.take(j)[i as int]);
                    }
                }
            }
        }
    }
    r
}

/// Inserts `x` into a strictly increasing list unless it is already there.
pub fn insert_sorted_unique(r: &mut Vec<String>, x: String)
    requires
        strictly_sorted(string_views(old(r)@)),
    ensures
        strictly_sorted(string_views(final(r)@)),
        forall|k: Seq<char>| #[trigger] string_views(final(r)@).contains(k) <==> (string_views(old(r)@).contains(k) || k == x@),
{
    let ghost s = string_views(r@);
    let mut j: usize = 0;
    while j < r.len() && string_lt(&r[j], &x)
        invariant
            j <= r.len(),
            s == string_views(r@),
            strictly_sorted(s),
            forall|k: int| 0 <= k < j ==> str_lt(#[trigger] s[k], x@),
        decreases r.len() - j,
    {
        assert(s[j as int] == r@[j as int]@);
        j = j + 1;
    }
    if j < r.len() && r[j] == x {
        proof {
            assert(s[j as int] == x@);
            assert forall|k: Seq<char>| #[trigger] s.contains(k) <==> (s.contains(k) || k == x@) by {
                if k == x@ {
                    assert(s[j as int] == k);
                }
            }
        }
        return;
    }
    proof {
        if j < r.len() {
            assert(s[j as int] == r@[j as int]@);
            assert(!str_lt(s[j as int], x@));
            assert(s[j as int] != x@);
            lemma_str_lt_total(s[j as int], x@);
            assert(str_lt(x@, s[j as int]));
            assert forall|k: int| j < k < s.len() implies str_lt(x@, #[trigger] s[k]) by {
                lemma_str_lt_transitive(x@, s[j as int], s[k]);
            }
        }
    }
    let ghost xv = x@;
    r.insert(j, x);
    proof {
        let t = string_views(r@);
        assert(t =~= s.insert(j as int, xv));
        assert forall|a: int, b: int| 0 <= a < b < t.len() implies str_lt(#[trigger] t[a], #[trigger] t[b]) by {
            if b < j {
                assert(t[a] == s[a] && t[b] == s[b]);
            } else if b == j {
                assert(t[a] == s[a]);
            } else if a < j {
                assert(t[a] == s[a] && t[b] == s[b - 1]);
            } else if a == j {
                assert(t[b] == s[b - 1]);
            } else {
                assert(t[a] == s[a - 1] && t[b] == s[b - 1]);
            }
        }
        assert forall|k: Seq<char>| #[trigger] t.contains(k) <==> (s.contains(k) || k == xv) by {
            if t.contains(k) {
                let a = choose|a: int| 0 <= a < t.len() && t[a] == k;
                if a < j {
                    assert(s[a] == k);
                } else if a > j {
                    assert(s[a - 1] == k);
                }
            }
            if s.contains(k) {
                let a = choose|a: int| 0 <= a < s.len() && s[a] == k;
                if a < j {
                    assert(t[a] == k);
                } else {
                    assert(t[a + 1] == k);
                }
            }
            if k == xv {
                assert(t[j as int] == k);
            }
        }
    }
}

} // verus!
