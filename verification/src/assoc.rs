//! Association lists: the maps of the library, keyed by text, each key at most once.
use vstd::prelude::*;
use crate::text::str_eq;

verus! {

/// No key occurs twice.
pub open spec fn keys_distinct<V>(kvs: Seq<(Seq<char>, V)>) -> bool {
    forall|i: int, j: int| 0 <= i < j < kvs.len() ==> kvs[i].0 != kvs[j].0
}

/// `k` is a key of the list.
pub open spec fn has_key<V>(kvs: Seq<(Seq<char>, V)>, k: Seq<char>) -> bool {
    exists|i: int| 0 <= i < kvs.len() && #[trigger] kvs[i].0 == k
}

/// The value stored under `k`.
pub open spec fn lookup<V>(kvs: Seq<(Seq<char>, V)>, k: Seq<char>) -> Option<V>
    decreases kvs.len(),
{
    if kvs.len() == 0 {
        None
    } else if kvs.last().0 == k {
        Some(kvs.last().1)
    } else {
        lookup(kvs.drop_last(), k)
    }
}

/// The position of `k`.
pub open spec fn key_index<V>(kvs: Seq<(Seq<char>, V)>, k: Seq<char>) -> int {
    choose|i: int| 0 <= i < kvs.len() && #[trigger] kvs[i].0 == k
}

/// `k` set to `v`: in place when it is a key, else added at the end.
pub open spec fn assoc_insert<V>(kvs: Seq<(Seq<char>, V)>, k: Seq<char>, v: V) -> Seq<(Seq<char>, V)> {
    if has_key(kvs, k) {
        kvs.update(key_index(kvs, k), (k, v))
    } else {
        kvs.push((k, v))
    }
}

/// `k` removed, the rest in order.
pub open spec fn assoc_remove<V>(kvs: Seq<(Seq<char>, V)>, k: Seq<char>) -> Seq<(Seq<char>, V)> {
    if has_key(kvs, k) {
        kvs.remove(key_index(kvs, k))
    } else {
        kvs
    }
}

/// With distinct keys, the value read under a key is the one stored with it.
pub proof fn lemma_lookup_at<V>(kvs: Seq<(Seq<char>, V)>, j: int)
    requires
        0 <= j < kvs.len(),
        keys_distinct(kvs),
    ensures
        lookup(kvs, kvs[j].0) == Some(kvs[j].1),
    decreases kvs.len(),
{
    if j < kvs.len() - 1 {
        assert(kvs.drop_last()[j] == kvs[j]);
        lemma_lookup_at(kvs.drop_last(), j);
    }
}

/// A key that is not in the list reads as absent.
pub proof fn lemma_lookup_absent<V>(kvs: Seq<(Seq<char>, V)>, k: Seq<char>)
    requires
        !has_key(kvs, k),
    ensures
        lookup(kvs, k) is None,
    decreases kvs.len(),
{
    if kvs.len() > 0 {
        assert(kvs.last().0 != k) by {
            assert(kvs[kvs.len() - 1].0 != k);
        }
        assert forall|i: int| 0 <= i < kvs.drop_last().len() implies #[trigger] kvs.drop_last()[i].0 != k by {
            assert(kvs.drop_last()[i] == kvs[i]);
        }
        lemma_lookup_absent(kvs.drop_last(), k);
    }
}

/// What is read under a key: the value stored with it when it is there, else nothing.
pub proof fn lemma_lookup<V>(kvs: Seq<(Seq<char>, V)>, k: Seq<char>)
    requires
        keys_distinct(kvs),
    ensures
        has_key(kvs, k) ==> lookup(kvs, k) == Some(kvs[key_index(kvs, k)].1),
        !has_key(kvs, k) ==> lookup(kvs, k) is None,
{
    if has_key(kvs, k) {
        lemma_lookup_at(kvs, key_index(kvs, k));
    } else {
        lemma_lookup_absent(kvs, k);
    }
}

/// Setting a key: distinct keys stay distinct, the key reads as its new value
/// and every other key as before.
pub proof fn lemma_lookup_insert<V>(kvs: Seq<(Seq<char>, V)>, k: Seq<char>, v: V)
    requires
        keys_distinct(kvs),
    ensures
        keys_distinct(assoc_insert(kvs, k, v)),
        has_key(assoc_insert(kvs, k, v), k),
        lookup(assoc_insert(kvs, k, v), k) == Some(v),
        forall|k2: Seq<char>| k2 != k ==> #[trigger] lookup(assoc_insert(kvs, k, v), k2) == lookup(kvs, k2),
        forall|k2: Seq<char>| k2 != k ==> #[trigger] has_key(assoc_insert(kvs, k, v), k2) == has_key(kvs, k2),
{
    let r = assoc_insert(kvs, k, v);
    if has_key(kvs, k) {
        let i = key_index(kvs, k);
        assert(r[i].0 == k);
        assert forall|a: int, b: int| 0 <= a < b < r.len() implies r[a].0 != r[b].0 by {
            assert(r[a].0 == kvs[a].0);
            assert(r[b].0 == kvs[b].0);
        }
        lemma_lookup_at(r, i);
        assert forall|k2: Seq<char>|
            #![trigger lookup(r, k2)]
            #![trigger has_key(r, k2)]
            k2 != k implies lookup(r, k2) == lookup(kvs, k2) && has_key(r, k2) == has_key(kvs, k2) by {
            if has_key(kvs, k2) {
                let j = key_index(kvs, k2);
                assert(r[j] == kvs[j]);
                assert(r[j].0 == k2);
                lemma_lookup_at(kvs, j);
                lemma_lookup_at(r, j);
            } else {
                assert forall|j: int| 0 <= j < r.len() implies #[trigger] r[j].0 != k2 by {
                    assert(r[j].0 == kvs[j].0 || j == i);
                }
                lemma_lookup_absent(kvs, k2);
                lemma_lookup_absent(r, k2);
            }
        }
    } else {
        assert forall|a: int, b: int| 0 <= a < b < r.len() implies r[a].0 != r[b].0 by {
            if b == r.len() - 1 {
                assert(r[a] == kvs[a]);
            } else {
                assert(r[a] == kvs[a] && r[b] == kvs[b]);
            }
        }
        assert(r.drop_last() =~= kvs);
        assert(r[r.len() - 1].0 == k);
        assert forall|k2: Seq<char>|
            #![trigger lookup(r, k2)]
            #![trigger has_key(r, k2)]
            k2 != k implies lookup(r, k2) == lookup(kvs, k2) && has_key(r, k2) == has_key(kvs, k2) by {
            if has_key(kvs, k2) {
                let j = key_index(kvs, k2);
                assert(r[j] == kvs[j]);
                assert(r[j].0 == k2);
            }
            if has_key(r, k2) {
                let j = key_index(r, k2);
                assert(j < kvs.len());
                assert(kvs[j] == r[j]);
            }
        }
    }
}

/// Removing a key: distinct keys stay distinct, the key is gone and every
/// other key reads as before.
pub proof fn lemma_lookup_remove<V>(kvs: Seq<(Seq<char>, V)>, k: Seq<char>)
    requires
        keys_distinct(kvs),
    ensures
        keys_distinct(assoc_remove(kvs, k)),
        !has_key(assoc_remove(kvs, k), k),
        lookup(assoc_remove(kvs, k), k) is None,
        forall|k2: Seq<char>| k2 != k ==> #[trigger] lookup(assoc_remove(kvs, k), k2) == lookup(kvs, k2),
        forall|k2: Seq<char>| k2 != k ==> #[trigger] has_key(assoc_remove(kvs, k), k2) == has_key(kvs, k2),
{
    let r = assoc_remove(kvs, k);
    if has_key(kvs, k) {
        let i = key_index(kvs, k);
        assert forall|a: int| 0 <= a < r.len() implies #[trigger] r[a] == (if a < i {
            kvs[a]
        } else {
            kvs[a + 1]
        }) by {}
        assert forall|a: int, b: int| 0 <= a < b < r.len() implies r[a].0 != r[b].0 by {
            assert(r[a] == (if a < i {
                kvs[a]
            } else {
                kvs[a + 1]
            }));
            assert(r[b] == (if b < i {
                kvs[b]
            } else {
                kvs[b + 1]
            }));
        }
        assert forall|j: int| 0 <= j < r.len() implies #[trigger] r[j].0 != k by {
            assert(r[j] == (if j < i {
                kvs[j]
            } else {
                kvs[j + 1]
            }));
        }
        lemma_lookup_absent(r, k);
        assert forall|k2: Seq<char>|
            #![trigger lookup(r, k2)]
            #![trigger has_key(r, k2)]
            k2 != k implies lookup(r, k2) == lookup(kvs, k2) && has_key(r, k2) == has_key(kvs, k2) by {
            if has_key(kvs, k2) {
                let j = key_index(kvs, k2);
                assert(j != i);
                let jr = if j < i {
                    j
                } else {
                    j - 1
                };
                assert(r[jr] == kvs[j]);
                assert(r[jr].0 == k2);
                lemma_lookup_at(kvs, j);
                lemma_lookup_at(r, jr);
            } else {
                assert forall|j: int| 0 <= j < r.len() implies #[trigger] r[j].0 != k2 by {
                    assert(r[j] == (if j < i {
                        kvs[j]
                    } else {
                        kvs[j + 1]
                    }));
                }
                lemma_lookup_absent(kvs, k2);
                lemma_lookup_absent(r, k2);
            }
        }
    } else {
        lemma_lookup_absent(kvs, k);
    }
}

/// The position of `k` among the keys of `kvs`, if it is one.
pub fn find_key<V>(kvs: &Vec<(String, V)>, k: &str) -> (r: Option<usize>)
    ensures
        r matches Some(i) ==> i < kvs@.len() && kvs@[i as int].0@ == k@,
        r is None ==> forall|j: int| 0 <= j < kvs@.len() ==> (#[trigger] kvs@[j]).0@ != k@,
{
    let mut i: usize = 0;
    while i < kvs.len()
        invariant
            i <= kvs.len(),
            forall|j: int| 0 <= j < i ==> (#[trigger] kvs@[j]).0@ != k@,
        decreases kvs.len() - i,
    {
        if str_eq(kvs[i].0.as_str(), k) {
            return Some(i);
        }
        i = i + 1;
    }
    None
}

/// The model of a list whose values are plain.
pub open spec fn kv_view<V>(kvs: Seq<(String, V)>) -> Seq<(Seq<char>, V)> {
    kvs.map_values(|p: (String, V)| (p.0@, p.1))
}

/// The position found for a key is the one the model chooses for it.
pub proof fn lemma_kv_index<V>(kvs: Seq<(String, V)>, j: int, k: Seq<char>)
    requires
        keys_distinct(kv_view(kvs)),
        0 <= j < kvs.len(),
        kvs[j].0@ == k,
    ensures
        has_key(kv_view(kvs), k),
        key_index(kv_view(kvs), k) == j,
        kv_view(kvs)[j] == (k, kvs[j].1),
{
    let ps = kv_view(kvs);
    assert(ps[j].0 == k);
    let c = key_index(ps, k);
    if c != j {
        if c < j {
            assert(ps[c].0 != ps[j].0);
        } else {
            assert(ps[j].0 != ps[c].0);
        }
    }
}

/// A key that no entry has is not a key of the model.
pub proof fn lemma_kv_absent<V>(kvs: Seq<(String, V)>, k: Seq<char>)
    requires
        forall|j: int| 0 <= j < kvs.len() ==> (#[trigger] kvs[j]).0@ != k,
    ensures
        !has_key(kv_view(kvs), k),
{
    if has_key(kv_view(kvs), k) {
        let c = key_index(kv_view(kvs), k);
        assert(kvs[c].0@ == k);
    }
}

/// The value stored under `k`.
pub fn assoc_get<V: Copy>(kvs: &Vec<(String, V)>, k: &str) -> (r: Option<V>)
    requires
        keys_distinct(kv_view(kvs@)),
    ensures
        r == lookup(kv_view(kvs@), k@),
{
    proof {
        lemma_lookup(kv_view(kvs@), k@);
    }
    match find_key(kvs, k) {
        Some(j) => {
            proof {
                lemma_kv_index(kvs@, j as int, k@);
            }
            Some(kvs[j].1)
        },
        None => {
            proof {
                lemma_kv_absent(kvs@, k@);
            }
            None
        },
    }
}

/// Sets `k` to `v`: in place when it is a key, else at the end.
pub fn assoc_set<V>(kvs: &mut Vec<(String, V)>, k: &str, v: V)
    requires
        keys_distinct(kv_view(old(kvs)@)),
    ensures
        kv_view(final(kvs)@) == assoc_insert(kv_view(old(kvs)@), k@, v),
        keys_distinct(kv_view(final(kvs)@)),
{
    let ghost old_kv = kv_view(kvs@);
    let ghost gv = v;
    match find_key(kvs, k) {
        Some(j) => {
            proof {
                lemma_kv_index(kvs@, j as int, k@);
            }
            let key = kvs[j].0.clone();
            kvs.set(j, (key, v));
            assert(kv_view(kvs@) =~= old_kv.update(j as int, (k@, gv)));
        },
        None => {
            proof {
                lemma_kv_absent(kvs@, k@);
            }
            kvs.push((crate::text::ToOwnedString::to_owned_string(k), v));
            assert(kv_view(kvs@) =~= old_kv.push((k@, gv)));
        },
    }
    proof {
        lemma_lookup_insert(old_kv, k@, gv);
    }
}

} // verus!
