//! The persistence core: two interchangeable storage models — a
//! whole-document store and a row-oriented store — with a common
//! vocabulary for keyed lookup and a shared error type.

use vstd::prelude::*;

pub mod document;
pub mod equiv;
pub mod relational;

verus! {

/// Failures a storage operation can report.
#[derive(Clone, Copy, Debug, PartialEq, Eq, Structural)]
pub enum StorageError {
    /// The addressed entry does not exist (an index beyond the current
    /// list, or a user without a list).
    NotFound,
}

/// Find the value stored under `key` in an association list, front first.
pub open spec fn assoc_find<V>(s: Seq<(i64, V)>, key: i64) -> Option<V>
    decreases s.len(),
{
    if s.len() == 0 {
        None
    } else if s[0].0 == key {
        Some(s[0].1)
    } else {
        assoc_find(s.drop_first(), key)
    }
}

/// Keys occur at most once.
pub open spec fn distinct_keys<V>(s: Seq<(i64, V)>) -> bool {
    forall|a: int, b: int| 0 <= a < b < s.len() ==> s[a].0 != s[b].0
}

/// If the first `i` entries are under other keys, the search outcome is
/// decided by the rest.
pub proof fn lemma_assoc_find_skip<V>(s: Seq<(i64, V)>, key: i64, i: int)
    requires
        0 <= i < s.len(),
        s[i].0 != key,
        assoc_find(s, key) == assoc_find(s.skip(i), key),
    ensures
        assoc_find(s, key) == assoc_find(s.skip(i + 1), key),
{
    assert(s.skip(i).len() > 0);
    assert(s.skip(i)[0] == s[i]);
    assert(s.skip(i).drop_first() =~= s.skip(i + 1));
}

/// Appending an entry changes the search only where its key was absent.
pub proof fn lemma_assoc_find_push<V>(s: Seq<(i64, V)>, x: (i64, V), key: i64)
    ensures
        assoc_find(s.push(x), key) == (if assoc_find(s, key) is Some {
            assoc_find(s, key)
        } else if x.0 == key {
            Some(x.1)
        } else {
            None::<V>
        }),
    decreases s.len(),
{
    if s.len() == 0 {
        assert(s.push(x).len() == 1);
        assert(s.push(x)[0] == x);
        assert(s.push(x).drop_first() =~= Seq::<(i64, V)>::empty());
        if x.0 == key {
            assert(assoc_find(s.push(x), key) == Some(x.1));
        } else {
            assert(assoc_find(s.push(x), key) == assoc_find(s.push(x).drop_first(), key));
            assert(assoc_find(s.push(x).drop_first(), key) is None);
        }
    } else {
        assert(s.push(x)[0] == s[0]);
        assert(s.push(x).drop_first() =~= s.drop_first().push(x));
        lemma_assoc_find_push(s.drop_first(), x, key);
        if s[0].0 == key {
            assert(assoc_find(s, key) == Some(s[0].1));
            assert(assoc_find(s.push(x), key) == Some(s[0].1));
        } else {
            assert(assoc_find(s, key) == assoc_find(s.drop_first(), key));
            assert(assoc_find(s.push(x), key) == assoc_find(s.drop_first().push(x), key));
        }
    }
}

/// Where no entry has key `key`, the search finds nothing.
pub proof fn lemma_assoc_find_none_when_absent<V>(s: Seq<(i64, V)>, key: i64)
    requires
        forall|a: int| 0 <= a < s.len() ==> (#[trigger] s[a]).0 != key,
    ensures
        assoc_find(s, key) is None,
    decreases s.len(),
{
    if s.len() > 0 {
        assert(forall|a: int| 0 <= a < s.drop_first().len() ==> (#[trigger] s.drop_first()[a])
            == s[a + 1]);
        lemma_assoc_find_none_when_absent(s.drop_first(), key);
    }
}

/// Replacing the first entry under a key with another entry under the
/// same key redirects the search for that key and changes no other.
pub proof fn lemma_assoc_find_update<V>(s: Seq<(i64, V)>, idx: int, x: (i64, V), key: i64)
    requires
        0 <= idx < s.len(),
        s[idx].0 == x.0,
        forall|a: int| 0 <= a < idx ==> (#[trigger] s[a]).0 != x.0,
    ensures
        assoc_find(s.update(idx, x), key) == (if key == x.0 {
            Some(x.1)
        } else {
            assoc_find(s, key)
        }),
    decreases s.len(),
{
    let u = s.update(idx, x);
    if idx == 0 {
        assert(u[0] == x);
        assert(u.drop_first() =~= s.drop_first());
    } else {
        assert(u[0] == s[0]);
        assert(u.drop_first() =~= s.drop_first().update(idx - 1, x));
        assert(forall|a: int| 0 <= a < idx - 1 ==> (#[trigger] s.drop_first()[a]) == s[a + 1]);
        assert(s.drop_first()[idx - 1] == s[idx]);
        lemma_assoc_find_update(s.drop_first(), idx - 1, x, key);
    }
}

/// Scan an association list for a key, reporting its position.
pub fn assoc_index<V>(list: &Vec<(i64, V)>, key: i64) -> (r: Option<usize>)
    ensures
        match r {
            Some(i) => {
                &&& i < list@.len()
                &&& list@[i as int].0 == key
                &&& (forall|a: int| 0 <= a < i ==> (#[trigger] list@[a]).0 != key)
                &&& assoc_find(list@, key) == Some(list@[i as int].1)
            },
            None => {
                &&& assoc_find(list@, key) is None
                &&& (forall|a: int| 0 <= a < list@.len() ==> (#[trigger] list@[a]).0 != key)
            },
        },
{
    let n = list.len();
    proof {
        assert(list@.skip(0) =~= list@);
    }
    let mut i: usize = 0;
    while i < n
        invariant
            0 <= i <= n,
            n == list@.len(),
            forall|a: int| 0 <= a < i ==> (#[trigger] list@[a]).0 != key,
            assoc_find(list@, key) == assoc_find(list@.skip(i as int), key),
        decreases n - i,
    {
        if list[i].0 == key {
            proof {
                assert(list@.skip(i as int)[0] == list@[i as int]);
            }
            return Some(i);
        }
        proof {
            lemma_assoc_find_skip(list@, key, i as int);
        }
        i = i + 1;
    }
    proof {
        assert(list@.skip(n as int) =~= Seq::<(i64, V)>::empty());
    }
    None
}

} // verus!
