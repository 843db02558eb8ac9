//! A small verified registry: an association list keyed by `String`, with
//! unique keys. The coordinator's client and group tables and the map
//! catalog are all registries.

use vstd::prelude::*;

verus! {

/// Some entry of `s` has key `k`.
pub open spec fn has_key<T>(s: Seq<(String, T)>, k: Seq<char>) -> bool {
    exists|i: int| 0 <= i < s.len() && s[i].0@ == k
}

/// The index of the entry with key `k` (meaningful only when `has_key`
/// holds; with unique keys it is the only such index).
pub open spec fn idx_of<T>(s: Seq<(String, T)>, k: Seq<char>) -> int {
    choose|i: int| 0 <= i < s.len() && s[i].0@ == k
}

/// The value stored under key `k` (meaningful only when `has_key` holds).
pub open spec fn get_val<T>(s: Seq<(String, T)>, k: Seq<char>) -> T {
    s[idx_of(s, k)].1
}

/// No two entries share a key.
pub open spec fn uniq_keys<T>(s: Seq<(String, T)>) -> bool {
    forall|i: int, j: int| 0 <= i < j < s.len() ==> s[i].0@ != s[j].0@
}

/// With unique keys, an entry whose key is `k` is the entry `get_val`
/// returns.
pub proof fn lemma_get_at<T>(s: Seq<(String, T)>, k: Seq<char>, i: int)
    requires
        uniq_keys(s),
        0 <= i < s.len(),
        s[i].0@ == k,
    ensures
        has_key(s, k),
        idx_of(s, k) == i,
        get_val(s, k) == s[i].1,
{
    assert(has_key(s, k));
    let j = idx_of(s, k);
    assert(0 <= j < s.len() && s[j].0@ == k);
    if i != j {
        if i < j {
            assert(s[i].0@ != s[j].0@);
        } else {
            assert(s[j].0@ != s[i].0@);
        }
    }
}

/// Finds the entry with key `k`, if any.
pub fn find_idx<T>(v: &Vec<(String, T)>, k: &str) -> (r: Option<usize>)
    ensures
        match r {
            Some(i) => i < v@.len() && v@[i as int].0@ == k@ && has_key(v@, k@),
            None => !has_key(v@, k@),
        },
{
    let n = v.len();
    let mut i: usize = 0;
    while i < n
        invariant
            0 <= i <= n,
            n == v@.len(),
            forall|j: int| 0 <= j < i ==> v@[j].0@ != k@,
        decreases n - i,
    {
        if crate::text::str_eq(v[i].0.as_str(), k) {
            return Some(i);
        }
        i = i + 1;
    }
    None
}

/// Inserts `t` under key `k`, replacing the value of an existing entry
/// with that key (last writer wins), as a map insertion would.
pub fn upsert<T>(v: &mut Vec<(String, T)>, k: String, t: T)
    requires
        uniq_keys(old(v)@),
    ensures
        uniq_keys(final(v)@),
        has_key(final(v)@, k@),
        get_val(final(v)@, k@) == t,
        forall|k2: Seq<char>| k2 != k@ ==> has_key(final(v)@, k2) == has_key(old(v)@, k2),
        forall|k2: Seq<char>| k2 != k@ && has_key(old(v)@, k2) ==> get_val(final(v)@, k2)
            == get_val(old(v)@, k2),
        has_key(old(v)@, k@) ==> final(v)@ == old(v)@.update(idx_of(old(v)@, k@), (k, t)),
        !has_key(old(v)@, k@) ==> final(v)@ == old(v)@.push((k, t)),
{
    let ghost old_v = v@;
    match find_idx(v, k.as_str()) {
        Some(i) => {
            v[i] = (k, t);
            proof {
                lemma_get_at(old_v, k@, i as int);
                let s = v@;
                assert forall|a: int, b: int| 0 <= a < b < s.len() implies s[a].0@ != s[b].0@ by {
                    assert(old_v[a].0@ != old_v[b].0@);
                }
                lemma_get_at(s, k@, i as int);
                assert forall|k2: Seq<char>| k2 != k@ implies has_key(s, k2) == has_key(
                    old_v,
                    k2,
                ) by {
                    if has_key(s, k2) {
                        let a = idx_of(s, k2);
                        assert(old_v[a].0@ == k2);
                    }
                    if has_key(old_v, k2) {
                        let a = idx_of(old_v, k2);
                        assert(a != i) by {
                            assert(old_v[i as int].0@ == k@);
                        }
                        assert(s[a].0@ == k2);
                    }
                }
                assert forall|k2: Seq<char>|
                    k2 != k@ && has_key(old_v, k2) implies get_val(s, k2) == get_val(
                    old_v,
                    k2,
                ) by {
                    let a = idx_of(old_v, k2);
                    assert(old_v[a].0@ == k2);
                    assert(a != i);
                    lemma_get_at(s, k2, a);
                    lemma_get_at(old_v, k2, a);
                }
            }
        },
        None => {
            v.push((k, t));
            proof {
                let s = v@;
                let n = old_v.len() as int;
                assert forall|a: int, b: int| 0 <= a < b < s.len() implies s[a].0@ != s[b].0@ by {
                    if b < n {
                        assert(old_v[a].0@ != old_v[b].0@);
                    } else {
                        assert(s[b].0@ == k@);
                        assert(s[a].0@ != k@) by {
                            if old_v[a].0@ == k@ {
                                assert(has_key(old_v, k@));
                            }
                        }
                    }
                }
                lemma_get_at(s, k@, n);
                assert forall|k2: Seq<char>| k2 != k@ implies has_key(s, k2) == has_key(
                    old_v,
                    k2,
                ) by {
                    if has_key(s, k2) {
                        let a = idx_of(s, k2);
                        assert(a < n) by {
                            assert(s[n].0@ == k@);
                        }
                        assert(old_v[a].0@ == k2);
                    }
                    if has_key(old_v, k2) {
                        let a = idx_of(old_v, k2);
                        assert(s[a].0@ == k2);
                    }
                }
                assert forall|k2: Seq<char>|
                    k2 != k@ && has_key(old_v, k2) implies get_val(s, k2) == get_val(
                    old_v,
                    k2,
                ) by {
                    let a = idx_of(old_v, k2);
                    assert(old_v[a].0@ == k2);
                    lemma_get_at(s, k2, a);
                    lemma_get_at(old_v, k2, a);
                }
            }
        },
    }
}

/// Removes the entry with key `k`, if any; the registry is unchanged when
/// the key is absent.
pub fn remove_key<T>(v: &mut Vec<(String, T)>, k: &str) -> (r: Option<T>)
    requires
        uniq_keys(old(v)@),
    ensures
        uniq_keys(final(v)@),
        !has_key(final(v)@, k@),
        r matches Some(t) ==> has_key(old(v)@, k@) && get_val(old(v)@, k@) == t,
        r is None <==> !has_key(old(v)@, k@),
        r is None ==> final(v)@ == old(v)@,
        forall|k2: Seq<char>| k2 != k@ ==> has_key(final(v)@, k2) == has_key(old(v)@, k2),
        forall|k2: Seq<char>| k2 != k@ && has_key(old(v)@, k2) ==> get_val(final(v)@, k2)
            == get_val(old(v)@, k2),
        has_key(old(v)@, k@) ==> final(v)@ == old(v)@.remove(idx_of(old(v)@, k@)),
{
    let ghost old_v = v@;
    match find_idx(v, k) {
        Some(i) => {
            let (_, t) = v.remove(i);
            proof {
                let s = v@;
                lemma_get_at(old_v, k@, i as int);
                assert forall|a: int, b: int| 0 <= a < b < s.len() implies s[a].0@ != s[b].0@ by {
                    let a0 = if a < i { a } else { a + 1 };
                    let b0 = if b < i { b } else { b + 1 };
                    assert(s[a] == old_v[a0]);
                    assert(s[b] == old_v[b0]);
                    assert(old_v[a0].0@ != old_v[b0].0@);
                }
                assert forall|k2: Seq<char>| k2 != k@ implies has_key(s, k2) == has_key(
                    old_v,
                    k2,
                ) by {
                    if has_key(s, k2) {
                        let a = idx_of(s, k2);
                        let a0 = if a < i { a } else { a + 1 };
                        assert(old_v[a0].0@ == k2);
                    }
                    if has_key(old_v, k2) {
                        let a = idx_of(old_v, k2);
                        assert(a != i) by {
                            assert(old_v[i as int].0@ == k@);
                        }
                        let a1 = if a < i { a } else { a - 1 };
                        assert(s[a1] == old_v[a]);
                    }
                }
                assert(!has_key(s, k@)) by {
                    if has_key(s, k@) {
                        let a = idx_of(s, k@);
                        let a0 = if a < i { a } else { a + 1 };
                        assert(old_v[a0].0@ == k@);
                        assert(a0 != i);
                        assert(old_v[i as int].0@ == k@);
                    }
                }
                assert forall|k2: Seq<char>|
                    k2 != k@ && has_key(old_v, k2) implies get_val(s, k2) == get_val(
                    old_v,
                    k2,
                ) by {
                    let a = idx_of(old_v, k2);
                    assert(old_v[a].0@ == k2);
                    assert(a != i);
                    let a1 = if a < i { a } else { a - 1 };
                    assert(s[a1] == old_v[a]);
                    lemma_get_at(s, k2, a1);
                    lemma_get_at(old_v, k2, a);
                }
            }
            Some(t)
        },
        None => None,
    }
}

/// The keys of the registry, in entry order.
pub fn keys<T>(v: &Vec<(String, T)>) -> (r: Vec<String>)
    ensures
        r@.len() == v@.len(),
        forall|i: int| 0 <= i < v@.len() ==> r@[i]@ == v@[i].0@,
{
    let n = v.len();
    let mut r: Vec<String> = Vec::new();
    let mut i: usize = 0;
    while i < n
        invariant
            0 <= i <= n,
            n == v@.len(),
            r@.len() == i,
            forall|j: int| 0 <= j < i ==> r@[j]@ == v@[j].0@,
        decreases n - i,
    {
        r.push(v[i].0.clone());
        i = i + 1;
    }
    r
}

/// Some entry of the view-level registry `s` has key `k`.
pub open spec fn vhas<T>(s: Seq<(Seq<char>, T)>, k: Seq<char>) -> bool {
    exists|i: int| 0 <= i < s.len() && s[i].0 == k
}

/// The index of the entry with key `k` in a view-level registry.
pub open spec fn vidx<T>(s: Seq<(Seq<char>, T)>, k: Seq<char>) -> int {
    choose|i: int| 0 <= i < s.len() && s[i].0 == k
}

/// The value stored under `k` in a view-level registry.
pub open spec fn vget<T>(s: Seq<(Seq<char>, T)>, k: Seq<char>) -> T {
    s[vidx(s, k)].1
}

/// No two entries of the view-level registry share a key.
pub open spec fn vuniq<T>(s: Seq<(Seq<char>, T)>) -> bool {
    forall|i: int, j: int| 0 <= i < j < s.len() ==> s[i].0 != s[j].0
}

/// Insertion into a view-level registry: replaces the existing entry or
/// appends a new one.
pub open spec fn vupsert<T>(s: Seq<(Seq<char>, T)>, k: Seq<char>, t: T) -> Seq<(Seq<char>, T)> {
    if vhas(s, k) {
        s.update(vidx(s, k), (k, t))
    } else {
        s.push((k, t))
    }
}

/// Removal from a view-level registry; the registry is unchanged when
/// the key is absent.
pub open spec fn vremove<T>(s: Seq<(Seq<char>, T)>, k: Seq<char>) -> Seq<(Seq<char>, T)> {
    if vhas(s, k) {
        s.remove(vidx(s, k))
    } else {
        s
    }
}

/// With unique keys, an entry whose key is `k` is the entry `vget`
/// returns.
pub proof fn vlemma_get_at<T>(s: Seq<(Seq<char>, T)>, k: Seq<char>, i: int)
    requires
        vuniq(s),
        0 <= i < s.len(),
        s[i].0 == k,
    ensures
        vhas(s, k),
        vidx(s, k) == i,
        vget(s, k) == s[i].1,
{
    assert(vhas(s, k));
    let j = vidx(s, k);
    assert(0 <= j < s.len() && s[j].0 == k);
    if i != j {
        if i < j {
            assert(s[i].0 != s[j].0);
        } else {
            assert(s[j].0 != s[i].0);
        }
    }
}

/// What insertion does to a view-level registry with unique keys: the
/// key now holds `t` and every other key is untouched.
pub proof fn vlemma_upsert<T>(s: Seq<(Seq<char>, T)>, k: Seq<char>, t: T)
    requires
        vuniq(s),
    ensures
        vuniq(vupsert(s, k, t)),
        vhas(vupsert(s, k, t), k),
        vget(vupsert(s, k, t), k) == t,
        forall|k2: Seq<char>| k2 != k ==> vhas(vupsert(s, k, t), k2) == vhas(s, k2),
        forall|k2: Seq<char>| k2 != k && vhas(s, k2) ==> vget(vupsert(s, k, t), k2) == vget(s, k2),
{
    let r = vupsert(s, k, t);
    if vhas(s, k) {
        let i = vidx(s, k);
        assert(0 <= i < s.len() && s[i].0 == k);
        assert forall|a: int, b: int| 0 <= a < b < r.len() implies r[a].0 != r[b].0 by {
            assert(s[a].0 != s[b].0);
        }
        vlemma_get_at(r, k, i);
        assert forall|k2: Seq<char>| k2 != k implies vhas(r, k2) == vhas(s, k2) by {
            if vhas(r, k2) {
                let a = vidx(r, k2);
                assert(s[a].0 == k2);
            }
            if vhas(s, k2) {
                let a = vidx(s, k2);
                assert(a != i);
                assert(r[a].0 == k2);
            }
        }
        assert forall|k2: Seq<char>| k2 != k && vhas(s, k2) implies vget(r, k2) == vget(s, k2) by {
            let a = vidx(s, k2);
            assert(s[a].0 == k2);
            assert(a != i);
            vlemma_get_at(r, k2, a);
            vlemma_get_at(s, k2, a);
        }
    } else {
        let n = s.len() as int;
        assert forall|a: int, b: int| 0 <= a < b < r.len() implies r[a].0 != r[b].0 by {
            if b < n {
                assert(s[a].0 != s[b].0);
            } else {
                assert(r[b].0 == k);
                if s[a].0 == k {
                    assert(vhas(s, k));
                }
            }
        }
        vlemma_get_at(r, k, n);
        assert forall|k2: Seq<char>| k2 != k implies vhas(r, k2) == vhas(s, k2) by {
            if vhas(r, k2) {
                let a = vidx(r, k2);
                assert(a < n) by {
                    assert(r[n].0 == k);
                }
                assert(s[a].0 == k2);
            }
            if vhas(s, k2) {
                let a = vidx(s, k2);
                assert(r[a].0 == k2);
            }
        }
        assert forall|k2: Seq<char>| k2 != k && vhas(s, k2) implies vget(r, k2) == vget(s, k2) by {
            let a = vidx(s, k2);
            assert(s[a].0 == k2);
            vlemma_get_at(r, k2, a);
            vlemma_get_at(s, k2, a);
        }
    }
}

/// What removal does to a view-level registry with unique keys: the key
/// is gone and every other key is untouched.
pub proof fn vlemma_remove<T>(s: Seq<(Seq<char>, T)>, k: Seq<char>)
    requires
        vuniq(s),
    ensures
        vuniq(vremove(s, k)),
        !vhas(vremove(s, k), k),
        forall|k2: Seq<char>| k2 != k ==> vhas(vremove(s, k), k2) == vhas(s, k2),
        forall|k2: Seq<char>| k2 != k && vhas(s, k2) ==> vget(vremove(s, k), k2) == vget(s, k2),
{
    let r = vremove(s, k);
    if vhas(s, k) {
        let i = vidx(s, k);
        assert(0 <= i < s.len() && s[i].0 == k);
        assert forall|a: int, b: int| 0 <= a < b < r.len() implies r[a].0 != r[b].0 by {
            let a0 = if a < i { a } else { a + 1 };
            let b0 = if b < i { b } else { b + 1 };
            assert(r[a] == s[a0]);
            assert(r[b] == s[b0]);
            assert(s[a0].0 != s[b0].0);
        }
        assert(!vhas(r, k)) by {
            if vhas(r, k) {
                let a = vidx(r, k);
                let a0 = if a < i { a } else { a + 1 };
                assert(s[a0].0 == k);
                assert(a0 != i);
                assert(s[i].0 == k);
            }
        }
        assert forall|k2: Seq<char>| k2 != k implies vhas(r, k2) == vhas(s, k2) by {
            if vhas(r, k2) {
                let a = vidx(r, k2);
                let a0 = if a < i { a } else { a + 1 };
                assert(s[a0].0 == k2);
            }
            if vhas(s, k2) {
                let a = vidx(s, k2);
                assert(a != i);
                let a1 = if a < i { a } else { a - 1 };
                assert(r[a1] == s[a]);
            }
        }
        assert forall|k2: Seq<char>| k2 != k && vhas(s, k2) implies vget(r, k2) == vget(s, k2) by {
            let a = vidx(s, k2);
            assert(s[a].0 == k2);
            assert(a != i);
            let a1 = if a < i { a } else { a - 1 };
            assert(r[a1] == s[a]);
            vlemma_get_at(r, k2, a1);
            vlemma_get_at(s, k2, a);
        }
    }
}

/// The view of an executable registry: each key by its characters, each
/// value through `f`.
pub open spec fn vmap<T, V>(s: Seq<(String, T)>, f: spec_fn(T) -> V) -> Seq<(Seq<char>, V)> {
    Seq::new(s.len(), |i: int| (s[i].0@, f(s[i].1)))
}

/// A key is in the view exactly when it is in the registry.
pub proof fn lemma_vmap_has<T, V>(s: Seq<(String, T)>, f: spec_fn(T) -> V, k: Seq<char>)
    ensures
        vhas(vmap(s, f), k) == has_key(s, k),
        vuniq(vmap(s, f)) == uniq_keys(s),
{
    let m = vmap(s, f);
    if vhas(m, k) {
        let i = vidx(m, k);
        assert(s[i].0@ == k);
    }
    if has_key(s, k) {
        let i = idx_of(s, k);
        assert(m[i].0 == k);
    }
    if uniq_keys(s) {
        assert forall|a: int, b: int| 0 <= a < b < m.len() implies m[a].0 != m[b].0 by {
            assert(s[a].0@ != s[b].0@);
        }
    }
    if vuniq(m) {
        assert forall|a: int, b: int| 0 <= a < b < s.len() implies s[a].0@ != s[b].0@ by {
            assert(m[a].0 != m[b].0);
        }
    }
}

/// The value the view holds under a key is the registry's value through
/// `f`.
pub proof fn lemma_vmap_get<T, V>(s: Seq<(String, T)>, f: spec_fn(T) -> V, k: Seq<char>)
    requires
        uniq_keys(s),
        has_key(s, k),
    ensures
        vget(vmap(s, f), k) == f(get_val(s, k)),
{
    let i = idx_of(s, k);
    assert(0 <= i < s.len() && s[i].0@ == k);
    lemma_vmap_has(s, f, k);
    vlemma_get_at(vmap(s, f), k, i);
    lemma_get_at(s, k, i);
}

/// Updating the entry under `k` updates the view as `vupsert` does.
pub proof fn lemma_vmap_update<T, V>(a: Seq<(String, T)>, k: String, t: T, f: spec_fn(T) -> V)
    requires
        uniq_keys(a),
        has_key(a, k@),
    ensures
        vmap(a.update(idx_of(a, k@), (k, t)), f) == vupsert(vmap(a, f), k@, f(t)),
{
    let i = idx_of(a, k@);
    assert(0 <= i < a.len() && a[i].0@ == k@);
    lemma_vmap_has(a, f, k@);
    vlemma_get_at(vmap(a, f), k@, i);
    assert(vmap(a.update(i, (k, t)), f) =~= vupsert(vmap(a, f), k@, f(t)));
}

/// Appending an entry with a fresh key extends the view as `vupsert`
/// does.
pub proof fn lemma_vmap_push<T, V>(a: Seq<(String, T)>, k: String, t: T, f: spec_fn(T) -> V)
    requires
        !has_key(a, k@),
    ensures
        vmap(a.push((k, t)), f) == vupsert(vmap(a, f), k@, f(t)),
{
    lemma_vmap_has(a, f, k@);
    assert(vmap(a.push((k, t)), f) =~= vupsert(vmap(a, f), k@, f(t)));
}

/// Removing the entry under `k` removes it from the view as `vremove`
/// does.
pub proof fn lemma_vmap_remove<T, V>(a: Seq<(String, T)>, k: Seq<char>, f: spec_fn(T) -> V)
    requires
        uniq_keys(a),
        has_key(a, k),
    ensures
        vmap(a.remove(idx_of(a, k)), f) == vremove(vmap(a, f), k),
{
    let i = idx_of(a, k);
    assert(0 <= i < a.len() && a[i].0@ == k);
    lemma_vmap_has(a, f, k);
    vlemma_get_at(vmap(a, f), k, i);
    assert(vmap(a.remove(i), f) =~= vremove(vmap(a, f), k));
}

/// Checks that no two entries share a key, so that unverified callers
/// can establish a registry's well-formedness before handing it in.
pub fn keys_unique<T>(v: &Vec<(String, T)>) -> (r: bool)
    ensures
        r == uniq_keys(v@),
{
    let n = v.len();
    let mut i: usize = 0;
    while i < n
        invariant
            0 <= i <= n,
            n == v@.len(),
            forall|a: int, b: int| 0 <= a < b < v@.len() && a < i ==> v@[a].0@ != v@[b].0@,
        decreases n - i,
    {
        let mut j: usize = i + 1;
        while j < n
            invariant
                i < j <= n,
                n == v@.len(),
                forall|b: int| i < b < j ==> v@[i as int].0@ != v@[b].0@,
            decreases n - j,
        {
            if crate::text::str_eq(v[i].0.as_str(), v[j].0.as_str()) {
                return false;
            }
            j = j + 1;
        }
        i = i + 1;
    }
    true
}

} // verus!
