//! Maps keyed by names, kept as vectors of pairs. Where a key stands twice
//! the first entry counts.
use crate::text::same;
use vstd::prelude::*;

verus! {

/// What a map holds under a key.
pub open spec fn lookup<V>(m: Seq<(String, V)>, key: Seq<char>) -> Option<V>
    decreases m.len(),
{
    if m.len() == 0 {
        None
    } else if m[0].0@ == key {
        Some(m[0].1)
    } else {
        lookup(m.drop_first(), key)
    }
}

/// Entries that do not carry the key do not count.
pub proof fn lemma_lookup_skip<V>(m: Seq<(String, V)>, key: Seq<char>, k: int)
    requires
        0 <= k <= m.len(),
        forall|i: int| 0 <= i < k ==> (#[trigger] m[i]).0@ != key,
    ensures
        lookup(m, key) == lookup(m.skip(k), key),
    decreases k,
{
    if k == 0 {
        assert(m.skip(0) =~= m);
    } else {
        assert(m[0].0@ != key);
        let rest = m.drop_first();
        assert forall|i: int| 0 <= i < k - 1 implies (#[trigger] rest[i]).0@ != key by {
            assert(rest[i] == m[i + 1]);
        }
        lemma_lookup_skip(rest, key, k - 1);
        assert(rest.skip(k - 1) =~= m.skip(k));
    }
}

/// The entry that counts for a key.
pub proof fn lemma_lookup_first<V>(m: Seq<(String, V)>, key: Seq<char>, k: int)
    requires
        0 <= k < m.len(),
        m[k].0@ == key,
        forall|i: int| 0 <= i < k ==> (#[trigger] m[i]).0@ != key,
    ensures
        lookup(m, key) == Some(m[k].1),
{
    lemma_lookup_skip(m, key, k);
    assert(m.skip(k)[0] == m[k]);
}

/// A key without an entry.
pub proof fn lemma_lookup_none<V>(m: Seq<(String, V)>, key: Seq<char>)
    requires
        forall|i: int| 0 <= i < m.len() ==> (#[trigger] m[i]).0@ != key,
    ensures
        lookup(m, key) is None,
{
    lemma_lookup_skip(m, key, m.len() as int);
}

/// What is found stands in some entry.
pub proof fn lemma_lookup_some<V>(m: Seq<(String, V)>, key: Seq<char>) -> (k: int)
    requires
        lookup(m, key) is Some,
    ensures
        0 <= k < m.len(),
        m[k].0@ == key,
        lookup(m, key) == Some(m[k].1),
    decreases m.len(),
{
    if m[0].0@ == key {
        0
    } else {
        let k = lemma_lookup_some(m.drop_first(), key);
        assert(m.drop_first()[k] == m[k + 1]);
        k + 1
    }
}

/// The place of the entry that counts for a key.
pub fn position<V>(m: &Vec<(String, V)>, key: &str) -> (r: Option<usize>)
    ensures
        r matches Some(k) ==> {
            &&& k < m@.len()
            &&& m@[k as int].0@ == key@
            &&& forall|i: int| 0 <= i < k ==> (#[trigger] m@[i]).0@ != key@
            &&& lookup(m@, key@) == Some(m@[k as int].1)
        },
        r is None ==> lookup(m@, key@) is None && forall|i: int|
            0 <= i < m@.len() ==> (#[trigger] m@[i]).0@ != key@,
{
    let mut i: usize = 0;
    while i < m.len()
        invariant
            i <= m.len(),
            forall|j: int| 0 <= j < i ==> (#[trigger] m@[j]).0@ != key@,
        decreases m.len() - i,
    {
        if same(m[i].0.as_str(), key) {
            proof {
                lemma_lookup_first(m@, key@, i as int);
            }
            return Some(i);
        }
        i = i + 1;
    }
    proof {
        lemma_lookup_none(m@, key@);
    }
    None
}

/// What a map holds under a key.
pub fn find<'a, V>(m: &'a Vec<(String, V)>, key: &str) -> (r: Option<&'a V>)
    ensures
        r matches Some(v) ==> lookup(m@, key@) == Some(*v),
        r is None ==> lookup(m@, key@) is None,
{
    match position(m, key) {
        Some(k) => Some(&m[k].1),
        None => None,
    }
}

proof fn lemma_lookup_push<V>(m: Seq<(String, V)>, e: (String, V), key: Seq<char>)
    ensures
        lookup(m.push(e), key) == (match lookup(m, key) {
            Some(v) => Some(v),
            None => if e.0@ == key {
                Some(e.1)
            } else {
                None
            },
        }),
    decreases m.len(),
{
    if m.len() == 0 {
        assert(m.push(e)[0] == e);
        assert(m.push(e).drop_first() =~= m);
    } else {
        assert(m.push(e)[0] == m[0]);
        assert(m.push(e).drop_first() =~= m.drop_first().push(e));
        lemma_lookup_push(m.drop_first(), e, key);
    }
}

proof fn lemma_lookup_update<V>(m: Seq<(String, V)>, k: int, v: V, key: Seq<char>)
    requires
        0 <= k < m.len(),
        forall|i: int| 0 <= i < k ==> (#[trigger] m[i]).0@ != m[k].0@,
    ensures
        lookup(m.update(k, (m[k].0, v)), key) == (if m[k].0@ == key {
            Some(v)
        } else {
            lookup(m, key)
        }),
    decreases m.len(),
{
    let w = m.update(k, (m[k].0, v));
    if k == 0 {
        assert(w[0] == (m[0].0, v));
        assert(w.drop_first() =~= m.drop_first());
    } else {
        assert(w[0] == m[0]);
        assert(w.drop_first() =~= m.drop_first().update(k - 1, (m[k].0, v)));
        let rest = m.drop_first();
        assert(rest[k - 1] == m[k]);
        assert forall|i: int| 0 <= i < k - 1 implies (#[trigger] rest[i]).0@ != rest[k - 1].0@ by {
            assert(rest[i] == m[i + 1]);
        }
        lemma_lookup_update(rest, k - 1, v, key);
        assert(m[0].0@ != m[k].0@);
    }
}

/// Puts a value under a key.
pub fn put<V>(m: &mut Vec<(String, V)>, key: &str, v: V)
    ensures
        forall|k: Seq<char>| #[trigger]
            lookup(final(m)@, k) == (if k == key@ {
                Some(v)
            } else {
                lookup(old(m)@, k)
            }),
{
    let ghost before = m@;
    match position(m, key) {
        Some(i) => {
            let name: String = m[i].0.clone();
            m.set(i, (name, v));
            proof {
                assert(m@ =~= before.update(i as int, (before[i as int].0, v)));
                assert forall|k: Seq<char>| #[trigger]
                    lookup(m@, k) == (if k == key@ {
                        Some(v)
                    } else {
                        lookup(before, k)
                    }) by {
                    lemma_lookup_update(before, i as int, v, k);
                }
            }
        },
        None => {
            m.push((key.to_owned(), v));
            proof {
                let e = m@[before.len() as int];
                assert(m@ =~= before.push(e));
                assert forall|k: Seq<char>| #[trigger]
                    lookup(m@, k) == (if k == key@ {
                        Some(v)
                    } else {
                        lookup(before, k)
                    }) by {
                    lemma_lookup_push(before, e, k);
                }
            }
        },
    }
}

} // verus!
