//! String-keyed association lists.
//!
//! Every mapping in the store (fields of an entity, declarations of a
//! schema, groups of a cache) is kept as a vector of `(key, value)` pairs
//! whose keys are pairwise distinct. The spec-level model of such a vector
//! is its deep view, a `Seq<(Seq<char>, V)>`; the functions here give that
//! model a map-like reading.

use vstd::prelude::*;

verus! {

/// No two pairs carry the same key.
pub open spec fn keys_unique<V>(s: Seq<(Seq<char>, V)>) -> bool {
    forall|i: int, j: int| 0 <= i < j < s.len() ==> s[i].0 != s[j].0
}

/// Some pair carries the key `k`.
pub open spec fn has_key<V>(s: Seq<(Seq<char>, V)>, k: Seq<char>) -> bool {
    exists|i: int| 0 <= i < s.len() && s[i].0 == k
}

/// The index of the pair carrying `k`; meaningful when `has_key(s, k)`
/// holds and the keys are unique.
pub open spec fn key_index<V>(s: Seq<(Seq<char>, V)>, k: Seq<char>) -> int {
    choose|i: int| 0 <= i < s.len() && s[i].0 == k
}

/// The value bound to `k`, if any.
pub open spec fn lookup<V>(s: Seq<(Seq<char>, V)>, k: Seq<char>) -> Option<V> {
    if has_key(s, k) {
        Some(s[key_index(s, k)].1)
    } else {
        None
    }
}

/// The list after binding `k` to `v`: the pair already carrying `k` is
/// replaced in place, or a new pair is appended. [`kv_set`] realises this.
pub open spec fn assoc_set<V>(s: Seq<(Seq<char>, V)>, k: Seq<char>, v: V) -> Seq<(Seq<char>, V)> {
    if has_key(s, k) {
        s.update(key_index(s, k), (k, v))
    } else {
        s.push((k, v))
    }
}

/// What binding a key does to the model: the bound key reads back the new
/// value, every other key is untouched, and key uniqueness is kept.
pub proof fn lemma_assoc_set<V>(s: Seq<(Seq<char>, V)>, k: Seq<char>, v: V)
    requires
        keys_unique(s),
    ensures
        keys_unique(assoc_set(s, k, v)),
        lookup(assoc_set(s, k, v), k) == Some(v),
        forall|k2: Seq<char>| k2 != k ==> lookup(assoc_set(s, k, v), k2) == lookup(s, k2),
{
    let s1 = assoc_set(s, k, v);
    if has_key(s, k) {
        let ki = key_index(s, k);
        assert(0 <= ki < s.len() && s[ki].0 == k);
        assert forall|i: int, j: int| 0 <= i < j < s1.len() implies s1[i].0 != s1[j].0 by {
            if i != ki {
                assert(s1[i] == s[i]);
            }
            if j != ki {
                assert(s1[j] == s[j]);
            }
        }
        lemma_lookup_at(s1, k, ki);
        assert forall|k2: Seq<char>| k2 != k implies lookup(s1, k2) == lookup(s, k2) by {
            lemma_lookup_frame(s, s1, ki, k2);
        }
    } else {
        assert forall|i: int, j: int| 0 <= i < j < s1.len() implies s1[i].0 != s1[j].0 by {
            if j == s.len() {
                if s1[i].0 == k {
                    assert(s[i].0 == k);
                    assert(has_key(s, k));
                }
            } else {
                assert(s1[i] == s[i] && s1[j] == s[j]);
            }
        }
        lemma_lookup_at(s1, k, s.len() as int);
        assert forall|k2: Seq<char>| k2 != k implies lookup(s1, k2) == lookup(s, k2) by {
            lemma_lookup_frame_push(s, s1, k2);
        }
    }
}

/// With unique keys, a pair at index `i` settles the lookup of its key.
pub proof fn lemma_lookup_at<V>(s: Seq<(Seq<char>, V)>, k: Seq<char>, i: int)
    requires
        keys_unique(s),
        0 <= i < s.len(),
        s[i].0 == k,
    ensures
        has_key(s, k),
        key_index(s, k) == i,
        lookup(s, k) == Some(s[i].1),
{
    assert(has_key(s, k));
    let j = key_index(s, k);
    assert(0 <= j < s.len() && s[j].0 == k);
    if i < j {
        assert(s[i].0 != s[j].0);
    } else if j < i {
        assert(s[j].0 != s[i].0);
    }
}

/// Looks the key up in an association vector, returning a reference to the
/// bound value if one is there.
pub fn kv_get<'a, T: DeepView>(v: &'a Vec<(String, T)>, key: &String) -> (r: Option<&'a T>)
    requires
        keys_unique(v.deep_view()),
    ensures
        match r {
            Some(t) => lookup(v.deep_view(), key@) == Some(t.deep_view()),
            None => !has_key(v.deep_view(), key@),
        },
{
    let ghost s = v.deep_view();
    let mut i: usize = 0;
    while i < v.len()
        invariant
            keys_unique(s),
            s == v.deep_view(),
            s.len() == v.len(),
            i <= v.len(),
            forall|j: int| 0 <= j < i ==> s[j].0 != key@,
        decreases v.len() - i,
    {
        assert(s[i as int] == (v@[i as int].0.deep_view(), v@[i as int].1.deep_view()));
        if v[i].0.eq(key) {
            proof {
                lemma_lookup_at(s, key@, i as int);
            }
            return Some(&v[i].1);
        }
        i += 1;
    }
    None
}

/// Binds `key` to `value`: replaces the pair already carrying `key` in
/// place, or appends a new pair.
pub fn kv_set<T: DeepView>(v: &mut Vec<(String, T)>, key: String, value: T)
    requires
        keys_unique(old(v).deep_view()),
    ensures
        keys_unique(final(v).deep_view()),
        has_key(old(v).deep_view(), key@) ==> final(v).deep_view() == old(v).deep_view().update(
            key_index(old(v).deep_view(), key@),
            (key@, value.deep_view()),
        ),
        !has_key(old(v).deep_view(), key@) ==> final(v).deep_view() == old(v).deep_view().push(
            (key@, value.deep_view()),
        ),
        lookup(final(v).deep_view(), key@) == Some(value.deep_view()),
        forall|k2: Seq<char>| k2 != key@ ==> lookup(final(v).deep_view(), k2) == lookup(
            old(v).deep_view(),
            k2,
        ),
{
    let ghost s0 = old(v).deep_view();
    let mut i: usize = 0;
    while i < v.len()
        invariant
            keys_unique(s0),
            s0 == old(v).deep_view(),
            s0 == v.deep_view(),
            s0.len() == v.len(),
            i <= v.len(),
            forall|j: int| 0 <= j < i ==> s0[j].0 != key@,
        decreases v.len() - i,
    {
        assert(s0[i as int] == (v@[i as int].0.deep_view(), v@[i as int].1.deep_view()));
        if v[i].0.eq(&key) {
            proof {
                lemma_lookup_at(s0, key@, i as int);
            }
            let ghost vv0 = v@;
            v.remove(i);
            v.insert(i, (key, value));
            proof {
                assert(v@ =~= vv0.update(i as int, (key, value)));
                let s1 = v.deep_view();
                assert forall|j: int| 0 <= j < s1.len() implies s1[j] == s0.update(
                    i as int,
                    (key@, value.deep_view()),
                )[j] by {
                    assert(s1[j] == (v@[j].0.deep_view(), v@[j].1.deep_view()));
                    if j != i {
                        assert(v@[j] == vv0[j]);
                    }
                }
                assert(s1 =~= s0.update(i as int, (key@, value.deep_view())));
                assert(has_key(s0, key@));
                assert(key_index(s0, key@) == i);
                assert(s1 == s0.update(i as int, (key@, value.deep_view())));
                lemma_lookup_at(s1, key@, i as int);
                assert forall|k2: Seq<char>| k2 != key@ implies lookup(s1, k2) == lookup(
                    s0,
                    k2,
                ) by {
                    lemma_lookup_frame(s0, s1, i as int, k2);
                }
            }
            return ;
        }
        i += 1;
    }
    v.push((key, value));
    proof {
        let s1 = v.deep_view();
        assert(s1 =~= s0.push((key@, value.deep_view())));
        assert(s1[s0.len() as int].0 == key@);
        lemma_lookup_at(s1, key@, s0.len() as int);
        assert forall|k2: Seq<char>| k2 != key@ implies lookup(s1, k2) == lookup(s0, k2) by {
            lemma_lookup_frame_push(s0, s1, k2);
        }
    }
}

/// Changing the pair at index `i` leaves every other key's lookup alone,
/// provided the key at `i` is unchanged.
proof fn lemma_lookup_frame<V>(s0: Seq<(Seq<char>, V)>, s1: Seq<(Seq<char>, V)>, i: int, k: Seq<char>)
    requires
        keys_unique(s0),
        keys_unique(s1),
        s0.len() == s1.len(),
        0 <= i < s0.len(),
        forall|j: int| 0 <= j < s0.len() && j != i ==> s0[j] == s1[j],
        s0[i].0 == s1[i].0,
        k != s0[i].0,
    ensures
        lookup(s1, k) == lookup(s0, k),
{
    if has_key(s0, k) {
        let j = key_index(s0, k);
        assert(0 <= j < s0.len() && s0[j].0 == k);
        assert(j != i);
        lemma_lookup_at(s0, k, j);
        lemma_lookup_at(s1, k, j);
    } else {
        if has_key(s1, k) {
            let j = key_index(s1, k);
            assert(0 <= j < s1.len() && s1[j].0 == k);
            assert(j != i);
            assert(s0[j].0 == k);
        }
    }
}

/// Appending a pair leaves every other key's lookup alone.
proof fn lemma_lookup_frame_push<V>(s0: Seq<(Seq<char>, V)>, s1: Seq<(Seq<char>, V)>, k: Seq<char>)
    requires
        keys_unique(s0),
        keys_unique(s1),
        s1.len() == s0.len() + 1,
        forall|j: int| 0 <= j < s0.len() ==> s0[j] == s1[j],
        k != s1[s0.len() as int].0,
    ensures
        lookup(s1, k) == lookup(s0, k),
{
    if has_key(s0, k) {
        let j = key_index(s0, k);
        lemma_lookup_at(s0, k, j);
        lemma_lookup_at(s1, k, j);
    } else {
        if has_key(s1, k) {
            let j = key_index(s1, k);
            assert(0 <= j < s1.len() && s1[j].0 == k);
            assert(j != s0.len());
            assert(s0[j].0 == k);
        }
    }
}

} // verus!
