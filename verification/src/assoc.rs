//! Association lists: a `Vec` of key–value pairs with distinct keys, read as a
//! finite map from the keys' views to the values.

use vstd::prelude::*;
use crate::types::KeyEq;

verus! {

pub open spec fn keys_distinct<K: View, V>(s: Seq<(K, V)>) -> bool {
    forall|i: int, j: int|
        0 <= i < s.len() && 0 <= j < s.len() && i != j ==> #[trigger] s[i].0@ != #[trigger] s[j].0@
}

pub open spec fn has_key<K: View, V>(s: Seq<(K, V)>, k: K::V) -> bool {
    exists|i: int| 0 <= i < s.len() && #[trigger] s[i].0@ == k
}

/// The map that the list stands for.
pub open spec fn to_map<K: View, V>(s: Seq<(K, V)>) -> Map<K::V, V> {
    Map::new(
        |k: K::V| has_key(s, k),
        |k: K::V| s[choose|i: int| 0 <= i < s.len() && #[trigger] s[i].0@ == k].1,
    )
}

pub proof fn lemma_to_map_at<K: View, V>(s: Seq<(K, V)>, i: int)
    requires
        keys_distinct(s),
        0 <= i < s.len(),
    ensures
        to_map(s).contains_key(s[i].0@),
        to_map(s)[s[i].0@] == s[i].1,
{
    let k = s[i].0@;
    assert(has_key(s, k));
    let j = choose|j: int| 0 <= j < s.len() && #[trigger] s[j].0@ == k;
    assert(j == i);
}

pub proof fn lemma_to_map_remove<K: View, V>(s: Seq<(K, V)>, i: int)
    requires
        keys_distinct(s),
        0 <= i < s.len(),
    ensures
        keys_distinct(s.remove(i)),
        to_map(s.remove(i)) == to_map(s).remove(s[i].0@),
{
    let r = s.remove(i);
    let k = s[i].0@;
    assert forall|a: int, b: int|
        0 <= a < r.len() && 0 <= b < r.len() && a != b implies #[trigger] r[a].0@
        != #[trigger] r[b].0@ by {
        let a2 = if a < i { a } else { a + 1 };
        let b2 = if b < i { b } else { b + 1 };
        assert(r[a] == s[a2]);
        assert(r[b] == s[b2]);
    }
    assert forall|key: K::V| #[trigger] to_map(r).contains_key(key) == to_map(s).remove(k).contains_key(key) by {
        if has_key(r, key) {
            let a = choose|a: int| 0 <= a < r.len() && #[trigger] r[a].0@ == key;
            let a2 = if a < i { a } else { a + 1 };
            assert(s[a2].0@ == key);
            assert(has_key(s, key));
        }
        if has_key(s, key) && key != k {
            let a = choose|a: int| 0 <= a < s.len() && #[trigger] s[a].0@ == key;
            assert(a != i);
            let a2 = if a < i { a } else { a - 1 };
            assert(r[a2].0@ == key);
            assert(has_key(r, key));
        }
    }
    assert forall|key: K::V| #[trigger] to_map(r).contains_key(key) implies to_map(r)[key] == to_map(s).remove(k)[key] by {
        let a = choose|a: int| 0 <= a < r.len() && #[trigger] r[a].0@ == key;
        lemma_to_map_at(r, a);
        let a2 = if a < i { a } else { a + 1 };
        assert(r[a] == s[a2]);
        lemma_to_map_at(s, a2);
    }
    assert(to_map(r) =~= to_map(s).remove(k));
}

pub proof fn lemma_to_map_update<K: View, V>(s: Seq<(K, V)>, i: int, v: (K, V))
    requires
        keys_distinct(s),
        0 <= i < s.len(),
        v.0@ == s[i].0@,
    ensures
        keys_distinct(s.update(i, v)),
        to_map(s.update(i, v)) == to_map(s).insert(s[i].0@, v.1),
{
    let u = s.update(i, v);
    let k = s[i].0@;
    assert forall|a: int, b: int|
        0 <= a < u.len() && 0 <= b < u.len() && a != b implies #[trigger] u[a].0@
        != #[trigger] u[b].0@ by {
        assert(u[a].0@ == s[a].0@);
        assert(u[b].0@ == s[b].0@);
    }
    assert forall|key: K::V| #[trigger] to_map(u).contains_key(key) == to_map(s).insert(k, v.1).contains_key(key) by {
        if has_key(u, key) {
            let a = choose|a: int| 0 <= a < u.len() && #[trigger] u[a].0@ == key;
            assert(s[a].0@ == key);
        }
        if has_key(s, key) {
            let a = choose|a: int| 0 <= a < s.len() && #[trigger] s[a].0@ == key;
            assert(u[a].0@ == key);
        }
        assert(u[i].0@ == k);
    }
    assert forall|key: K::V| #[trigger] to_map(u).contains_key(key) implies to_map(u)[key] == to_map(s).insert(k, v.1)[key] by {
        let a = choose|a: int| 0 <= a < u.len() && #[trigger] u[a].0@ == key;
        lemma_to_map_at(u, a);
        if a != i {
            lemma_to_map_at(s, a);
        }
    }
    assert(to_map(u) =~= to_map(s).insert(k, v.1));
}

pub proof fn lemma_to_map_push<K: View, V>(s: Seq<(K, V)>, v: (K, V))
    requires
        keys_distinct(s),
        !has_key(s, v.0@),
    ensures
        keys_distinct(s.push(v)),
        to_map(s.push(v)) == to_map(s).insert(v.0@, v.1),
{
    let p = s.push(v);
    assert forall|a: int, b: int|
        0 <= a < p.len() && 0 <= b < p.len() && a != b implies #[trigger] p[a].0@
        != #[trigger] p[b].0@ by {
        if a < s.len() && b < s.len() {
            assert(p[a] == s[a] && p[b] == s[b]);
        } else if a < s.len() {
            assert(p[a] == s[a]);
        } else {
            assert(p[b] == s[b]);
        }
    }
    assert forall|key: K::V| #[trigger] to_map(p).contains_key(key) == to_map(s).insert(v.0@, v.1).contains_key(key) by {
        if has_key(p, key) {
            let a = choose|a: int| 0 <= a < p.len() && #[trigger] p[a].0@ == key;
            if a < s.len() {
                assert(s[a].0@ == key);
            }
        }
        if has_key(s, key) {
            let a = choose|a: int| 0 <= a < s.len() && #[trigger] s[a].0@ == key;
            assert(p[a].0@ == key);
        }
        assert(p[s.len() as int].0@ == v.0@);
    }
    assert forall|key: K::V| #[trigger] to_map(p).contains_key(key) implies to_map(p)[key] == to_map(s).insert(v.0@, v.1)[key] by {
        let a = choose|a: int| 0 <= a < p.len() && #[trigger] p[a].0@ == key;
        lemma_to_map_at(p, a);
        if a < s.len() {
            assert(p[a] == s[a]);
            lemma_to_map_at(s, a);
        }
    }
    assert(to_map(p) =~= to_map(s).insert(v.0@, v.1));
}

pub proof fn lemma_to_map_empty<K: View, V>(s: Seq<(K, V)>)
    requires
        s.len() == 0,
    ensures
        keys_distinct(s),
        to_map(s) == Map::<K::V, V>::empty(),
{
    assert(to_map(s) =~= Map::<K::V, V>::empty());
}

pub proof fn lemma_drop_last_distinct<K: View, V>(s: Seq<(K, V)>)
    requires
        keys_distinct(s),
        s.len() > 0,
    ensures
        keys_distinct(s.drop_last()),
        !has_key(s.drop_last(), s.last().0@),
        s.drop_last().push(s.last()) == s,
{
    let d = s.drop_last();
    assert forall|a: int, b: int|
        0 <= a < d.len() && 0 <= b < d.len() && a != b implies #[trigger] d[a].0@
        != #[trigger] d[b].0@ by {
        assert(d[a] == s[a] && d[b] == s[b]);
    }
    if has_key(d, s.last().0@) {
        let a = choose|a: int| 0 <= a < d.len() && #[trigger] d[a].0@ == s.last().0@;
        assert(d[a] == s[a]);
        assert(s[a].0@ == s[s.len() - 1].0@);
    }
    assert(d.push(s.last()) =~= s);
}

pub proof fn lemma_to_map_len<K: View, V>(s: Seq<(K, V)>)
    requires
        keys_distinct(s),
    ensures
        to_map(s).dom().finite(),
        to_map(s).len() == s.len(),
    decreases s.len(),
{
    if s.len() == 0 {
        lemma_to_map_empty(s);
    } else {
        let d = s.drop_last();
        lemma_drop_last_distinct(s);
        lemma_to_map_len(d);
        lemma_to_map_push(d, s.last());
    }
}

/// The entries whose value satisfies `p`, in their order.
pub open spec fn filter_pairs<K, V>(s: Seq<(K, V)>, p: spec_fn(V) -> bool) -> Seq<(K, V)>
    decreases s.len(),
{
    if s.len() == 0 {
        Seq::empty()
    } else {
        let r = filter_pairs(s.drop_last(), p);
        if p(s.last().1) {
            r.push(s.last())
        } else {
            r
        }
    }
}

/// The part of `m` whose values satisfy `p`.
pub open spec fn restrict_values<K, V>(m: Map<K, V>, p: spec_fn(V) -> bool) -> Map<K, V> {
    Map::new(|k: K| m.contains_key(k) && p(m[k]), |k: K| m[k])
}

pub proof fn lemma_filter_pairs<K: View, V>(s: Seq<(K, V)>, p: spec_fn(V) -> bool)
    requires
        keys_distinct(s),
    ensures
        keys_distinct(filter_pairs(s, p)),
        forall|k: K::V| has_key(filter_pairs(s, p), k) ==> has_key(s, k),
        to_map(filter_pairs(s, p)) == restrict_values(to_map(s), p),
    decreases s.len(),
{
    let f = filter_pairs(s, p);
    if s.len() == 0 {
        lemma_to_map_empty(f);
        lemma_to_map_empty(s);
        assert(restrict_values(to_map(s), p) =~= Map::<K::V, V>::empty());
    } else {
        let d = s.drop_last();
        let last = s.last();
        lemma_drop_last_distinct(s);
        lemma_filter_pairs(d, p);
        let fd = filter_pairs(d, p);
        lemma_to_map_push(d, last);
        if p(last.1) {
            assert(!has_key(fd, last.0@));
            lemma_to_map_push(fd, last);
            assert forall|k: K::V| has_key(f, k) implies has_key(s, k) by {
                let a = choose|a: int| 0 <= a < f.len() && #[trigger] f[a].0@ == k;
                if a < fd.len() {
                    assert(f[a] == fd[a]);
                    assert(has_key(fd, k));
                    assert(has_key(d, k));
                    let b = choose|b: int| 0 <= b < d.len() && #[trigger] d[b].0@ == k;
                    assert(s[b] == d[b]);
                    assert(s[b].0@ == k);
                } else {
                    assert(s[s.len() - 1].0@ == k);
                }
            }
        } else {
            assert forall|k: K::V| has_key(f, k) implies has_key(s, k) by {
                assert(has_key(fd, k));
                assert(has_key(d, k));
                let b = choose|b: int| 0 <= b < d.len() && #[trigger] d[b].0@ == k;
                assert(s[b] == d[b]);
                assert(s[b].0@ == k);
            }
        }
        assert(to_map(f) =~= restrict_values(to_map(s), p));
    }
}

/// The position of `k` in the list, if it is there.
pub fn find_index<K: KeyEq, V>(v: &Vec<(K, V)>, k: &K) -> (r: Option<usize>)
    ensures
        r matches Some(i) ==> i < v@.len() && v@[i as int].0@ == k@,
        r is None ==> !has_key(v@, k@),
{
    let mut i: usize = 0;
    while i < v.len()
        invariant
            i <= v@.len(),
            forall|j: int| 0 <= j < i ==> #[trigger] v@[j].0@ != k@,
        decreases v.len() - i,
    {
        if v[i].0.key_eq(k) {
            return Some(i);
        }
        i = i + 1;
    }
    None
}

} // verus!
