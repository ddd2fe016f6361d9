//! Association lists: `Vec`s of key-value pairs with distinct keys.
//!
//! The store keys its catalogs (idents, attributes, partitions of work) by
//! entids and by strings.  Keys are compared by their views, so a `String`
//! key means its character sequence.

use vstd::prelude::*;

verus! {

/// Does some pair in `s` carry a key whose view is `k`?
pub open spec fn keyed_has<K: View, V>(s: Seq<(K, V)>, k: <K as View>::V) -> bool {
    exists|i: int| 0 <= i < s.len() && s[i].0@ == k
}

/// The index of the pair carrying key `k`; meaningful only when `keyed_has`
/// holds and, to be unique, when the keys are distinct.
pub open spec fn keyed_idx<K: View, V>(s: Seq<(K, V)>, k: <K as View>::V) -> int {
    choose|i: int| 0 <= i < s.len() && s[i].0@ == k
}

/// The value bound to key `k`.
pub open spec fn keyed_get<K: View, V>(s: Seq<(K, V)>, k: <K as View>::V) -> V {
    s[keyed_idx(s, k)].1
}

/// All keys of `s` are distinct, comparing views.
pub open spec fn keyed_distinct<K: View, V>(s: Seq<(K, V)>) -> bool {
    forall|i: int, j: int| 0 <= i < j < s.len() ==> s[i].0@ != s[j].0@
}

/// With distinct keys, any index holding `k` is the index `keyed_idx` picks.
pub proof fn lemma_keyed_idx_unique<K: View, V>(s: Seq<(K, V)>, k: <K as View>::V, i: int)
    requires
        keyed_distinct(s),
        0 <= i < s.len(),
        s[i].0@ == k,
    ensures
        keyed_idx(s, k) == i,
        keyed_get(s, k) == s[i].1,
        keyed_has(s, k),
{
    assert(keyed_has(s, k));
    let j = keyed_idx(s, k);
    assert(0 <= j < s.len() && s[j].0@ == k);
    if i != j {
        assert(s[i].0@ != s[j].0@);
    }
}

/// Appending a pair with a fresh key keeps the keys distinct and leaves every
/// earlier binding in place.
pub proof fn lemma_keyed_push<K: View, V>(s: Seq<(K, V)>, p: (K, V))
    requires
        keyed_distinct(s),
        !keyed_has(s, p.0@),
    ensures
        keyed_distinct(s.push(p)),
        keyed_has(s.push(p), p.0@),
        keyed_get(s.push(p), p.0@) == p.1,
        forall|k: <K as View>::V| k != p.0@ ==> keyed_has(s.push(p), k) == keyed_has(s, k),
        forall|k: <K as View>::V|
            k != p.0@ && keyed_has(s, k) ==> keyed_get(s.push(p), k) == keyed_get(s, k),
{
    let t = s.push(p);
    assert forall|i: int, j: int| 0 <= i < j < t.len() implies t[i].0@ != t[j].0@ by {
        if j < s.len() {
            assert(s[i].0@ != s[j].0@);
        } else {
            assert(t[j] == p);
            assert(s[i].0@ == t[i].0@);
            if s[i].0@ == p.0@ {
                assert(keyed_has(s, p.0@));
            }
        }
    }
    lemma_keyed_idx_unique(t, p.0@, s.len() as int);
    assert forall|k: <K as View>::V| k != p.0@ implies keyed_has(t, k) == keyed_has(s, k) by {
        if keyed_has(s, k) {
            let i = keyed_idx(s, k);
            assert(t[i].0@ == k);
        }
        if keyed_has(t, k) {
            let i = keyed_idx(t, k);
            assert(t[i].0@ == k);
            assert(i < s.len());
            assert(s[i].0@ == k);
        }
    }
    assert forall|k: <K as View>::V| k != p.0@ && keyed_has(s, k) implies keyed_get(t, k) == keyed_get(
        s,
        k,
    ) by {
        let i = keyed_idx(s, k);
        assert(s[i].0@ == k);
        assert(t[i].0@ == k);
        lemma_keyed_idx_unique(t, k, i);
    }
}

/// Find an entid key in an association list: the returned index is the unique
/// position of the binding.
pub fn find_entid<V>(v: &Vec<(i64, V)>, k: i64) -> (r: Option<usize>)
    requires
        keyed_distinct(v@),
    ensures
        match r {
            Some(i) => i < v.len() && v@[i as int].0 == k && keyed_has(v@, k) && keyed_idx(v@, k)
                == i as int,
            None => !keyed_has(v@, k),
        },
{
    let mut i: usize = 0;
    while i < v.len()
        invariant
            i <= v.len(),
            keyed_distinct(v@),
            forall|j: int| 0 <= j < i ==> v@[j].0 != k,
        decreases v.len() - i,
    {
        if v[i].0 == k {
            proof {
                lemma_keyed_idx_unique(v@, k, i as int);
            }
            return Some(i);
        }
        i = i + 1;
    }
    return None;
}

/// Find a string key in an association list, comparing character sequences.
pub fn find_str<V>(v: &Vec<(String, V)>, k: &String) -> (r: Option<usize>)
    requires
        keyed_distinct(v@),
    ensures
        match r {
            Some(i) => i < v.len() && v@[i as int].0@ == k@ && keyed_has(v@, k@) && keyed_idx(
                v@,
                k@,
            ) == i as int,
            None => !keyed_has(v@, k@),
        },
{
    let mut i: usize = 0;
    while i < v.len()
        invariant
            i <= v.len(),
            keyed_distinct(v@),
            forall|j: int| 0 <= j < i ==> v@[j].0@ != k@,
        decreases v.len() - i,
    {
        if v[i].0.eq(k) {
            proof {
                lemma_keyed_idx_unique(v@, k@, i as int);
            }
            return Some(i);
        }
        i = i + 1;
    }
    return None;
}

} // verus!

verus! {

/// Taking a prefix keeps keys distinct.
pub proof fn lemma_keyed_take_distinct<K: View, V>(s: Seq<(K, V)>, n: int)
    requires
        0 <= n <= s.len(),
        keyed_distinct(s),
    ensures
        keyed_distinct(s.take(n)),
{
    assert forall|i: int, j: int| 0 <= i < j < s.take(n).len() implies s.take(n)[i].0@ != s.take(
        n,
    )[j].0@ by {
        assert(s.take(n)[i] == s[i]);
        assert(s.take(n)[j] == s[j]);
    }
}

} // verus!

verus! {

use crate::entities::TempId;

/// Find a tempid key in an association list, comparing views.
pub fn find_key_tempid<V>(v: &Vec<(TempId, V)>, k: &TempId) -> (r: Option<usize>)
    requires
        keyed_distinct(v@),
    ensures
        match r {
            Some(i) => i < v.len() && v@[i as int].0@ == k@ && keyed_has(v@, k@) && keyed_idx(
                v@,
                k@,
            ) == i as int,
            None => !keyed_has(v@, k@),
        },
{
    let mut i: usize = 0;
    while i < v.len()
        invariant
            i <= v.len(),
            keyed_distinct(v@),
            forall|j: int| 0 <= j < i ==> v@[j].0@ != k@,
        decreases v.len() - i,
    {
        if v[i].0.eq(k) {
            proof {
                lemma_keyed_idx_unique(v@, k@, i as int);
            }
            return Some(i);
        }
        i = i + 1;
    }
    return None;
}

} // verus!

verus! {

/// Removing the binding at `i` drops exactly its key.
pub proof fn lemma_keyed_remove<K: View, V>(s: Seq<(K, V)>, i: int)
    requires
        keyed_distinct(s),
        0 <= i < s.len(),
    ensures
        keyed_distinct(s.remove(i)),
        !keyed_has(s.remove(i), s[i].0@),
        forall|k: <K as View>::V|
            k != s[i].0@ ==> #[trigger] keyed_has(s.remove(i), k) == keyed_has(s, k),
{
    let t = s.remove(i);
    assert forall|p: int, q: int| 0 <= p < q < t.len() implies t[p].0@ != t[q].0@ by {
        let p2: int = if p < i { p } else { p + 1 };
        let q2: int = if q < i { q } else { q + 1 };
        assert(t[p] == s[p2]);
        assert(t[q] == s[q2]);
        assert(s[p2].0@ != s[q2].0@);
    }
    assert forall|k: <K as View>::V| !(k != s[i].0@) || (#[trigger] keyed_has(t, k) == keyed_has(
        s,
        k,
    )) by {
        if k != s[i].0@ {
            if keyed_has(s, k) {
                let p = keyed_idx(s, k);
                let p2: int = if p < i { p } else { p - 1 };
                assert(p != i);
                assert(t[p2] == s[p]);
                assert(keyed_has(t, k));
            }
            if keyed_has(t, k) {
                let p = keyed_idx(t, k);
                let p2: int = if p < i { p } else { p + 1 };
                assert(t[p] == s[p2]);
                assert(keyed_has(s, k));
            }
        }
    }
    if keyed_has(t, s[i].0@) {
        let p = keyed_idx(t, s[i].0@);
        let p2: int = if p < i { p } else { p + 1 };
        assert(t[p] == s[p2]);
        assert(p2 != i);
        assert(s[p2].0@ != s[i].0@);
    }
}

} // verus!
