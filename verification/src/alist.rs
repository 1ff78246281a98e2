//! Association lists: the record store keeps each of its tables as a sequence
//! of key/value entries with pairwise-distinct keys, looked up by the key's
//! view.

use vstd::prelude::*;

use crate::hashing::{digest_eq, Digest};

verus! {

/// First-match lookup of `key` among the entries' keys, by view.
pub open spec fn alist_find<K: View, V>(s: Seq<(K, V)>, key: <K as View>::V) -> Option<V>
    decreases s.len(),
{
    if s.len() == 0 {
        None
    } else if s[0].0@ == key {
        Some(s[0].1)
    } else {
        alist_find(s.drop_first(), key)
    }
}

/// No two entries share a key.
pub open spec fn distinct_keys<K: View, V>(s: Seq<(K, V)>) -> bool {
    forall|i: int, j: int| 0 <= i < j < s.len() ==> (#[trigger] s[i]).0@ != (#[trigger] s[j]).0@
}

/// The bounded per-owner collection held under `key`; an absent owner holds
/// the empty collection.
pub open spec fn owner_list<K: View, E>(s: Seq<(K, Vec<E>)>, key: <K as View>::V) -> Seq<E> {
    match alist_find(s, key) {
        Some(v) => v@,
        None => Seq::empty(),
    }
}

/// A lookup misses exactly when no entry carries the key.
pub proof fn lemma_find_none_iff<K: View, V>(s: Seq<(K, V)>, key: <K as View>::V)
    ensures
        alist_find(s, key) is None <==> (forall|j: int| 0 <= j < s.len() ==> (#[trigger] s[j]).0@ != key),
    decreases s.len(),
{
    if s.len() > 0 {
        lemma_find_none_iff(s.drop_first(), key);
        assert forall|j: int| 0 <= j < s.drop_first().len() implies #[trigger] s.drop_first()[j] == s[j + 1] by {}
        if alist_find(s, key) is None {
            assert forall|j: int| 0 <= j < s.len() implies (#[trigger] s[j]).0@ != key by {
                if j > 0 {
                    assert(s[j] == s.drop_first()[j - 1]);
                }
            }
        }
    }
}

/// A lookup returns the value at the first entry carrying the key.
pub proof fn lemma_find_some_at<K: View, V>(s: Seq<(K, V)>, key: <K as View>::V, i: int)
    requires
        0 <= i < s.len(),
        s[i].0@ == key,
        forall|j: int| 0 <= j < i ==> (#[trigger] s[j]).0@ != key,
    ensures
        alist_find(s, key) == Some(s[i].1),
    decreases i,
{
    if i > 0 {
        assert forall|j: int| 0 <= j < i - 1 implies (#[trigger] s.drop_first()[j]).0@ != key by {
            assert(s.drop_first()[j] == s[j + 1]);
        }
        assert(s.drop_first()[i - 1] == s[i]);
        lemma_find_some_at(s.drop_first(), key, i - 1);
    }
}

/// Appending an entry under a fresh key adds it to the table and changes no
/// other lookup.
pub proof fn lemma_alist_push<K: View, V>(s: Seq<(K, V)>, e: (K, V))
    requires
        distinct_keys(s),
        alist_find(s, e.0@) is None,
    ensures
        distinct_keys(s.push(e)),
        forall|key: <K as View>::V| #[trigger] alist_find(s.push(e), key) == if key == e.0@ {
            Some(e.1)
        } else {
            alist_find(s, key)
        },
    decreases s.len(),
{
    lemma_find_none_iff(s, e.0@);
    assert(distinct_keys(s.push(e))) by {
        assert forall|i: int, j: int| 0 <= i < j < s.push(e).len() implies (#[trigger] s.push(
            e,
        )[i]).0@ != (#[trigger] s.push(e)[j]).0@ by {
            if j < s.len() {
                assert(s.push(e)[i] == s[i] && s.push(e)[j] == s[j]);
            } else {
                assert(s.push(e)[i] == s[i] && s.push(e)[j] == e);
            }
        }
    }
    if s.len() == 0 {
        assert forall|key: <K as View>::V| #[trigger] alist_find(s.push(e), key) == (if key
            == e.0@ {
            Some(e.1)
        } else {
            alist_find(s, key)
        }) by {
            reveal_with_fuel(alist_find, 2);
            assert(s.push(e)[0] == e);
            assert(s.push(e).drop_first() =~= Seq::<(K, V)>::empty());
        }
    } else {
        assert forall|j: int| 0 <= j < s.drop_first().len() implies (#[trigger] s.drop_first()[j])
            == s[j + 1] by {}
        lemma_find_none_iff(s.drop_first(), e.0@);
        lemma_alist_push(s.drop_first(), e);
        assert forall|key: <K as View>::V| #[trigger] alist_find(s.push(e), key) == (if key
            == e.0@ {
            Some(e.1)
        } else {
            alist_find(s, key)
        }) by {
            reveal_with_fuel(alist_find, 2);
            assert(s.push(e)[0] == s[0]);
            assert(s.push(e).drop_first() =~= s.drop_first().push(e));
            assert(alist_find(s.push(e).drop_first(), key) == alist_find(
                s.drop_first().push(e),
                key,
            ));
        }
    }
}

/// Replacing the entry at `i` with one carrying the same key changes exactly
/// that key's lookup.
pub proof fn lemma_alist_update<K: View, V>(s: Seq<(K, V)>, i: int, e: (K, V))
    requires
        distinct_keys(s),
        0 <= i < s.len(),
        e.0@ == s[i].0@,
    ensures
        distinct_keys(s.update(i, e)),
        forall|key: <K as View>::V| #[trigger] alist_find(s.update(i, e), key) == if key
            == s[i].0@ {
            Some(e.1)
        } else {
            alist_find(s, key)
        },
    decreases i,
{
    assert(distinct_keys(s.update(i, e))) by {
        assert forall|p: int, q: int| 0 <= p < q < s.update(i, e).len() implies (#[trigger] s.update(
            i,
            e,
        )[p]).0@ != (#[trigger] s.update(i, e)[q]).0@ by {
            assert(s.update(i, e)[p] == if p == i {
                e
            } else {
                s[p]
            });
            assert(s.update(i, e)[q] == if q == i {
                e
            } else {
                s[q]
            });
        }
    }
    if i == 0 {
        assert forall|key: <K as View>::V| #[trigger] alist_find(s.update(0, e), key) == (if key
            == s[0].0@ {
            Some(e.1)
        } else {
            alist_find(s, key)
        }) by {
            assert(s.update(0, e)[0] == e);
            assert(s.update(0, e).drop_first() =~= s.drop_first());
        }
    } else {
        assert forall|j: int| 0 <= j < s.drop_first().len() implies (#[trigger] s.drop_first()[j])
            == s[j + 1] by {}
        lemma_alist_update(s.drop_first(), i - 1, e);
        assert forall|key: <K as View>::V| #[trigger] alist_find(s.update(i, e), key) == (if key
            == s[i].0@ {
            Some(e.1)
        } else {
            alist_find(s, key)
        }) by {
            assert(s.update(i, e)[0] == s[0]);
            assert(s.update(i, e).drop_first() =~= s.drop_first().update(i - 1, e));
            if s[0].0@ == key {
            } else {
                assert(alist_find(s.update(i, e), key) == alist_find(
                    s.drop_first().update(i - 1, e),
                    key,
                ));
            }
        }
    }
}

/// Finds the first entry whose key is `key`.
pub fn find_index_u64<V>(table: &Vec<(u64, V)>, key: u64) -> (r: Option<usize>)
    ensures
        match r {
            Some(i) => i < table@.len() && table@[i as int].0 == key && (forall|j: int|
                0 <= j < i ==> (#[trigger] table@[j]).0 != key),
            None => forall|j: int| 0 <= j < table@.len() ==> (#[trigger] table@[j]).0 != key,
        },
{
    let mut i: usize = 0;
    while i < table.len()
        invariant
            i <= table@.len(),
            forall|j: int| 0 <= j < i ==> (#[trigger] table@[j]).0 != key,
        decreases table@.len() - i,
    {
        if table[i].0 == key {
            return Some(i);
        }
        i += 1;
    }
    None
}

/// Finds the first entry whose key has the view of `key`.
pub fn find_index_digest<V>(table: &Vec<(Digest, V)>, key: &Digest) -> (r: Option<usize>)
    ensures
        match r {
            Some(i) => i < table@.len() && table@[i as int].0@ == key@ && (forall|j: int|
                0 <= j < i ==> (#[trigger] table@[j]).0@ != key@),
            None => forall|j: int| 0 <= j < table@.len() ==> (#[trigger] table@[j]).0@ != key@,
        },
{
    let mut i: usize = 0;
    while i < table.len()
        invariant
            i <= table@.len(),
            forall|j: int| 0 <= j < i ==> (#[trigger] table@[j]).0@ != key@,
        decreases table@.len() - i,
    {
        if digest_eq(&table[i].0, key) {
            return Some(i);
        }
        i += 1;
    }
    None
}

/// Finds the first element equal to `x`.
pub fn position_u64(v: &Vec<u64>, x: u64) -> (r: Option<usize>)
    ensures
        match r {
            Some(i) => i < v@.len() && v@[i as int] == x && (forall|j: int|
                0 <= j < i ==> v@[j] != x),
            None => forall|j: int| 0 <= j < v@.len() ==> v@[j] != x,
        },
{
    let mut i: usize = 0;
    while i < v.len()
        invariant
            i <= v@.len(),
            forall|j: int| 0 <= j < i ==> v@[j] != x,
        decreases v@.len() - i,
    {
        if v[i] == x {
            return Some(i);
        }
        i += 1;
    }
    None
}

/// Finds the first content address whose view is `x@`.
pub fn position_digest(v: &Vec<Digest>, x: &Digest) -> (r: Option<usize>)
    ensures
        match r {
            Some(i) => i < v@.len() && v@[i as int]@ == x@ && (forall|j: int|
                0 <= j < i ==> (#[trigger] v@[j])@ != x@),
            None => forall|j: int| 0 <= j < v@.len() ==> (#[trigger] v@[j])@ != x@,
        },
{
    let mut i: usize = 0;
    while i < v.len()
        invariant
            i <= v@.len(),
            forall|j: int| 0 <= j < i ==> (#[trigger] v@[j])@ != x@,
        decreases v@.len() - i,
    {
        if digest_eq(&v[i], x) {
            return Some(i);
        }
        i += 1;
    }
    None
}

/// Copies a vector of plain values.
pub fn copy_vec<T: Copy>(v: &Vec<T>) -> (r: Vec<T>)
    ensures
        r@ == v@,
{
    let mut out: Vec<T> = Vec::new();
    let mut i: usize = 0;
    while i < v.len()
        invariant
            i <= v@.len(),
            out@ == v@.subrange(0, i as int),
        decreases v@.len() - i,
    {
        out.push(v[i]);
        i += 1;
        proof {
            assert(out@ =~= v@.subrange(0, i as int));
        }
    }
    proof {
        assert(v@.subrange(0, v@.len() as int) =~= v@);
    }
    out
}

/// Inserts `value` under `key`, overwriting the entry if the key is already
/// present (content addressing makes the insert idempotent).
pub fn upsert_digest<V>(table: &mut Vec<(Digest, V)>, key: Digest, value: V)
    requires
        distinct_keys(old(table)@),
    ensures
        distinct_keys(final(table)@),
        forall|k: Seq<u8>| #[trigger] alist_find(final(table)@, k) == if k == key@ {
            Some(value)
        } else {
            alist_find(old(table)@, k)
        },
{
    match find_index_digest(table, &key) {
        Some(i) => {
            proof {
                lemma_find_some_at(table@, key@, i as int);
                lemma_alist_update(table@, i as int, (key, value));
            }
            table.set(i, (key, value));
        },
        None => {
            proof {
                lemma_find_none_iff(table@, key@);
                lemma_alist_push(table@, (key, value));
            }
            table.push((key, value));
        },
    }
}

} // verus!
