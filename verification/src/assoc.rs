//! Association lists keyed by character sequences, as they appear in the
//! views of the metadata map and of the level registry.

use vstd::prelude::*;
use vstd::pervasive::VecAdditionalExecFns;

verus! {

/// No two entries share a key.
pub open spec fn keys_unique<V>(m: Seq<(Seq<char>, V)>) -> bool {
    forall|i: int, j: int| 0 <= i < j < m.len() ==> m[i].0 != m[j].0
}

/// The view of an association list held as a vector of pairs.
pub open spec fn assoc_view<T: View>(m: Seq<(String, T)>) -> Seq<(Seq<char>, T::V)> {
    Seq::new(m.len(), |i: int| (m[i].0@, m[i].1@))
}

/// The value of the first entry whose key is `k`, if any.
pub open spec fn assoc_find<V>(m: Seq<(Seq<char>, V)>, k: Seq<char>) -> Option<V>
    decreases m.len(),
{
    if m.len() == 0 {
        None
    } else if m[0].0 == k {
        Some(m[0].1)
    } else {
        assoc_find(m.subrange(1, m.len() as int), k)
    }
}

/// Whether some entry has key `k`.
pub open spec fn assoc_has<V>(m: Seq<(Seq<char>, V)>, k: Seq<char>) -> bool {
    assoc_find(m, k) is Some
}

/// The value of the last entry whose key is `k`, if any: what a sequence of
/// inserts with replacement leaves behind.
pub open spec fn assoc_find_last<V>(m: Seq<(Seq<char>, V)>, k: Seq<char>) -> Option<V>
    decreases m.len(),
{
    if m.len() == 0 {
        None
    } else if m.last().0 == k {
        Some(m.last().1)
    } else {
        assoc_find_last(m.drop_last(), k)
    }
}

/// A key is missing exactly when no entry carries it.
pub proof fn lemma_assoc_find_none_iff<V>(m: Seq<(Seq<char>, V)>, k: Seq<char>)
    ensures
        (assoc_find(m, k) is None) <==> (forall|i: int| 0 <= i < m.len() ==> m[i].0 != k),
    decreases m.len(),
{
    if m.len() == 0 {
    } else {
        let tail = m.subrange(1, m.len() as int);
        lemma_assoc_find_none_iff(tail, k);
        assert(forall|i: int| 0 <= i < tail.len() ==> tail[i] == m[i + 1]);
        if m[0].0 != k && (forall|i: int| 0 <= i < tail.len() ==> tail[i].0 != k) {
            assert forall|i: int| 0 <= i < m.len() implies m[i].0 != k by {
                if i > 0 {
                    assert(tail[i - 1] == m[i]);
                }
            }
        }
    }
}

/// Looking up the key of entry `i` finds that entry, provided no earlier
/// entry shares the key.
pub proof fn lemma_assoc_find_first<V>(m: Seq<(Seq<char>, V)>, k: Seq<char>, i: int)
    requires
        0 <= i < m.len(),
        m[i].0 == k,
        forall|j: int| 0 <= j < i ==> m[j].0 != k,
    ensures
        assoc_find(m, k) == Some(m[i].1),
    decreases i,
{
    if i == 0 {
    } else {
        let tail = m.subrange(1, m.len() as int);
        assert(forall|j: int| 0 <= j < tail.len() ==> tail[j] == m[j + 1]);
        lemma_assoc_find_first(tail, k, i - 1);
    }
}

/// Appending an entry with a different key leaves a lookup unchanged.
pub proof fn lemma_assoc_find_push_other<V>(m: Seq<(Seq<char>, V)>, p: (Seq<char>, V), k: Seq<char>)
    requires
        p.0 != k,
    ensures
        assoc_find(m.push(p), k) == assoc_find(m, k),
    decreases m.len(),
{
    if m.len() == 0 {
        assert(m.push(p)[0] == p);
        assert(m.push(p).subrange(1, 1) =~= Seq::<(Seq<char>, V)>::empty());
        assert(assoc_find(m.push(p).subrange(1, 1), k) is None);
    } else {
        assert(m.push(p)[0] == m[0]);
        assert(m.push(p).subrange(1, m.len() as int + 1) =~= m.subrange(1, m.len() as int).push(
            p,
        ));
        lemma_assoc_find_push_other(m.subrange(1, m.len() as int), p, k);
    }
}

/// Overwriting entry `i` with an entry of the same key leaves every lookup
/// of a different key unchanged.
pub proof fn lemma_assoc_find_update_other<V>(
    m: Seq<(Seq<char>, V)>,
    i: int,
    p: (Seq<char>, V),
    k: Seq<char>,
)
    requires
        0 <= i < m.len(),
        m[i].0 == p.0,
        p.0 != k,
    ensures
        assoc_find(m.update(i, p), k) == assoc_find(m, k),
    decreases m.len(),
{
    let u = m.update(i, p);
    if i == 0 {
        assert(u[0] == p);
        assert(u.subrange(1, u.len() as int) =~= m.subrange(1, m.len() as int));
    } else {
        assert(u[0] == m[0]);
        assert(u.subrange(1, u.len() as int) =~= m.subrange(1, m.len() as int).update(i - 1, p));
        lemma_assoc_find_update_other(m.subrange(1, m.len() as int), i - 1, p, k);
    }
}

/// Look a key up in the vector of pairs.
pub fn assoc_get<'a, T: View>(m: &'a Vec<(String, T)>, key: &str) -> (r: Option<&'a T>)
    ensures
        match r {
            Some(v) => assoc_find(assoc_view(m@), key@) == Some(v@),
            None => assoc_find(assoc_view(m@), key@) is None,
        },
{
    let owned = key.to_owned();
    let mut i: usize = 0;
    while i < m.len()
        invariant
            i <= m.len(),
            owned@ == key@,
            forall|j: int| 0 <= j < i ==> (#[trigger] assoc_view(m@)[j]).0 != key@,
        decreases m.len() - i,
    {
        if m[i].0 == owned {
            proof {
                lemma_assoc_find_first(assoc_view(m@), key@, i as int);
            }
            return Some(&m[i].1);
        }
        i = i + 1;
    }
    proof {
        lemma_assoc_find_none_iff(assoc_view(m@), key@);
    }
    None
}

/// Insert an entry, replacing any entry with the same key; keys stay
/// pairwise distinct and every other key keeps its value.
#[verifier::loop_isolation(false)]
pub fn assoc_put<T: View>(m: &mut Vec<(String, T)>, key: String, value: T)
    requires
        keys_unique(assoc_view(old(m)@)),
    ensures
        keys_unique(assoc_view(final(m)@)),
        assoc_find(assoc_view(final(m)@), key@) == Some(value@),
        forall|k2: Seq<char>|
            k2 != key@ ==> assoc_find(assoc_view(final(m)@), k2) == assoc_find(
                assoc_view(old(m)@),
                k2,
            ),
{
    let ghost old_view = assoc_view(m@);
    let ghost pair = (key@, value@);
    let mut i: usize = 0;
    while i < m.len()
        invariant
            i <= m.len(),
            m@ == old(m)@,
            forall|j: int| 0 <= j < i ==> (#[trigger] old_view[j]).0 != key@,
        decreases m.len() - i,
    {
        if m[i].0 == key {
            let ghost w = i as int;
            let ghost m0 = m@;
            m.set(i, (key, value));
            proof {
                assert forall|j: int| 0 <= j < old_view.len() implies assoc_view(m@)[j]
                    == old_view.update(w, pair)[j] by {
                    assert(old_view[j] == assoc_view(m0)[j]);
                    if j == w {
                        assert(m@[w].0@ == pair.0);
                        assert(m@[w].1@ == pair.1);
                    } else {
                        assert(m@[j] == m0[j]);
                    }
                }
                assert(assoc_view(m@) =~= old_view.update(w, pair));
                assert(old_view[w].0 == key@);
                assert(keys_unique(old_view.update(w, pair))) by {
                    assert forall|a: int, b: int|
                        0 <= a < b < old_view.len() implies old_view.update(w, pair)[a].0
                        != old_view.update(w, pair)[b].0 by {
                        assert(old_view[a].0 != old_view[b].0);
                    }
                }
                lemma_assoc_find_first(old_view.update(w, pair), key@, w);
                assert forall|k2: Seq<char>| k2 != key@ implies assoc_find(
                    old_view.update(w, pair),
                    k2,
                ) == assoc_find(old_view, k2) by {
                    lemma_assoc_find_update_other(old_view, w, pair, k2);
                }
            }
            return ;
        }
        i = i + 1;
    }
    m.push((key, value));
    proof {
        assert(assoc_view(m@) =~= old_view.push(pair));
        assert(keys_unique(old_view.push(pair))) by {
            assert forall|a: int, b: int|
                0 <= a < b < old_view.push(pair).len() implies old_view.push(pair)[a].0
                != old_view.push(pair)[b].0 by {
                if b < old_view.len() {
                    assert(old_view[a].0 != old_view[b].0);
                } else {
                    assert(old_view.push(pair)[b] == pair);
                    assert(old_view[a].0 != key@);
                }
            }
        }
        lemma_assoc_find_first(old_view.push(pair), key@, old_view.len() as int);
        assert forall|k2: Seq<char>| k2 != key@ implies assoc_find(old_view.push(pair), k2)
            == assoc_find(old_view, k2) by {
            lemma_assoc_find_push_other(old_view, pair, k2);
        }
    }
}

} // verus!
