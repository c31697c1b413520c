//! Association lists: a `Vec` of key/value pairs with unique keys, seen as a
//! `Map` from the keys' views to the values.
use vstd::prelude::*;
use crate::text::str_eq;

verus! {

/// The map that a list of pairs denotes; a later pair wins over an earlier one.
pub open spec fn assoc_map<K: View, V>(s: Seq<(K, V)>) -> Map<K::V, V>
    decreases s.len(),
{
    if s.len() == 0 {
        Map::empty()
    } else {
        assoc_map(s.drop_last()).insert(s.last().0@, s.last().1)
    }
}

/// No key occurs twice.
pub open spec fn unique_keys<K: View, V>(s: Seq<(K, V)>) -> bool {
    forall|i: int, j: int|
        0 <= i < s.len() && 0 <= j < s.len() && #[trigger] s[i].0@ == #[trigger] s[j].0@ ==> i == j
}

pub open spec fn has_key<K: View, V>(s: Seq<(K, V)>, k: K::V) -> bool {
    exists|i: int| 0 <= i < s.len() && #[trigger] s[i].0@ == k
}

pub proof fn lemma_push<K: View, V>(s: Seq<(K, V)>, p: (K, V))
    ensures
        assoc_map(s.push(p)) == assoc_map(s).insert(p.0@, p.1),
        unique_keys(s) && !has_key(s, p.0@) ==> unique_keys(s.push(p)),
{
    assert(s.push(p).drop_last() =~= s);
    if unique_keys(s) && !has_key(s, p.0@) {
        let t = s.push(p);
        assert forall|i: int, j: int|
            0 <= i < t.len() && 0 <= j < t.len() && #[trigger] t[i].0@ == #[trigger] t[j].0@ implies i
            == j by {
            if i < s.len() && j < s.len() {
                assert(s[i].0@ == s[j].0@);
            } else if i < s.len() {
                assert(s[i].0@ == p.0@);
            } else if j < s.len() {
                assert(s[j].0@ == p.0@);
            }
        }
    }
}

pub proof fn lemma_absent<K: View, V>(s: Seq<(K, V)>, k: K::V)
    ensures
        assoc_map(s).contains_key(k) == has_key(s, k),
    decreases s.len(),
{
    if s.len() > 0 {
        let d = s.drop_last();
        lemma_absent(d, k);
        if has_key(s, k) {
            let i = choose|i: int| 0 <= i < s.len() && #[trigger] s[i].0@ == k;
            if i < d.len() {
                assert(d[i].0@ == k);
            }
        }
        if has_key(d, k) {
            let i = choose|i: int| 0 <= i < d.len() && #[trigger] d[i].0@ == k;
            assert(s[i].0@ == k);
        }
    }
}

/// The value at a key is the one of its last pair.
pub proof fn lemma_at<K: View, V>(s: Seq<(K, V)>, i: int)
    requires
        0 <= i < s.len(),
        forall|j: int| i < j < s.len() ==> #[trigger] s[j].0@ != s[i].0@,
    ensures
        assoc_map(s).contains_key(s[i].0@),
        assoc_map(s)[s[i].0@] == s[i].1,
    decreases s.len(),
{
    if i < s.len() - 1 {
        let d = s.drop_last();
        assert(s[s.len() - 1].0@ != s[i].0@);
        assert forall|j: int| i < j < d.len() implies #[trigger] d[j].0@ != d[i].0@ by {
            assert(s[j].0@ != s[i].0@);
        }
        lemma_at(d, i);
    }
}

pub proof fn lemma_update<K: View, V>(s: Seq<(K, V)>, i: int, p: (K, V))
    requires
        0 <= i < s.len(),
        p.0@ == s[i].0@,
        forall|j: int| i < j < s.len() ==> #[trigger] s[j].0@ != s[i].0@,
    ensures
        assoc_map(s.update(i, p)) == assoc_map(s).insert(p.0@, p.1),
        unique_keys(s) ==> unique_keys(s.update(i, p)),
    decreases s.len(),
{
    let t = s.update(i, p);
    if i == s.len() - 1 {
        assert(t.drop_last() =~= s.drop_last());
        assert(assoc_map(t) =~= assoc_map(s).insert(p.0@, p.1));
    } else {
        let d = s.drop_last();
        assert(t.drop_last() =~= d.update(i, p));
        assert forall|j: int| i < j < d.len() implies #[trigger] d[j].0@ != d[i].0@ by {
            assert(s[j].0@ != s[i].0@);
        }
        lemma_update(d, i, p);
        assert(s.last().0@ != p.0@);
        assert(assoc_map(t) =~= assoc_map(s).insert(p.0@, p.1));
    }
    if unique_keys(s) {
        assert forall|a: int, b: int|
            0 <= a < t.len() && 0 <= b < t.len() && #[trigger] t[a].0@ == #[trigger] t[b].0@ implies a
            == b by {
            assert(s[a].0@ == s[b].0@);
        }
    }
}

pub proof fn lemma_remove<K: View, V>(s: Seq<(K, V)>, i: int)
    requires
        0 <= i < s.len(),
        unique_keys(s),
    ensures
        assoc_map(s.remove(i)) == assoc_map(s).remove(s[i].0@),
        unique_keys(s.remove(i)),
    decreases s.len(),
{
    let t = s.remove(i);
    let k = s[i].0@;
    let d = s.drop_last();
    assert(unique_keys(d)) by {
        assert forall|a: int, b: int|
            0 <= a < d.len() && 0 <= b < d.len() && #[trigger] d[a].0@ == #[trigger] d[b].0@ implies a
            == b by {
            assert(s[a].0@ == s[b].0@);
        }
    }
    if i == s.len() - 1 {
        assert(t =~= d);
        if has_key(d, k) {
            let j = choose|j: int| 0 <= j < d.len() && #[trigger] d[j].0@ == k;
            assert(s[j].0@ == s[i].0@);
        }
        lemma_absent(d, k);
        assert(assoc_map(t) =~= assoc_map(s).remove(k));
    } else {
        assert(t.drop_last() =~= d.remove(i));
        lemma_remove(d, i);
        assert(s.last().0@ != k);
        assert(assoc_map(t) =~= assoc_map(s).remove(k));
    }
    assert forall|a: int, b: int|
        0 <= a < t.len() && 0 <= b < t.len() && #[trigger] t[a].0@ == #[trigger] t[b].0@ implies a
        == b by {
        let a1 = if a < i { a } else { a + 1 };
        let b1 = if b < i { b } else { b + 1 };
        assert(t[a] == s[a1]);
        assert(t[b] == s[b1]);
    }
}

/// The position of the last pair whose key reads as `k`.
pub fn find_str<V>(s: &Vec<(String, V)>, k: &str) -> (r: Option<usize>)
    ensures
        match r {
            Some(i) => {
                &&& i < s@.len()
                &&& s@[i as int].0@ == k@
                &&& forall|j: int| i < j < s@.len() ==> #[trigger] s@[j].0@ != k@
            },
            None => !has_key(s@, k@),
        },
{
    let mut i: usize = s.len();
    while i > 0
        invariant
            i <= s@.len(),
            forall|j: int| i <= j < s@.len() ==> #[trigger] s@[j].0@ != k@,
        decreases i,
    {
        if str_eq(s[i - 1].0.as_str(), k) {
            return Some(i - 1);
        }
        i -= 1;
    }
    proof {
        if has_key(s@, k@) {
            let j = choose|j: int| 0 <= j < s@.len() && #[trigger] s@[j].0@ == k@;
            assert(s@[j].0@ != k@);
        }
    }
    None
}


/// Sets the value of key `k`, replacing its pair or adding one.
pub fn upsert_str<V>(s: &mut Vec<(String, V)>, k: String, v: V)
    requires
        unique_keys(old(s)@),
    ensures
        unique_keys(final(s)@),
        assoc_map(final(s)@) == assoc_map(old(s)@).insert(k@, v),
{
    match find_str(s, k.as_str()) {
        Some(i) => {
            let ghost before = s@;
            s.set(i, (k, v));
            proof {
                lemma_update(before, i as int, s@[i as int]);
                assert(s@ == before.update(i as int, s@[i as int]));
            }
        },
        None => {
            let ghost before = s@;
            s.push((k, v));
            proof {
                lemma_push(before, s@.last());
                assert(s@ == before.push(s@.last()));
            }
        },
    }
}

} // verus!
