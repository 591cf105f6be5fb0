//! Association lists of string pairs with unique keys, used for route
//! captures, response headers and the cookie jar's sub-spaces. The
//! spec-level model is a `Seq` of view pairs, looked up first-match.
use vstd::prelude::*;
use crate::strutil::str_eq;

verus! {

/// The views of a vector of string pairs.
pub open spec fn kv_views(v: Seq<(String, String)>) -> Seq<(Seq<char>, Seq<char>)> {
    v.map_values(|p: (String, String)| (p.0@, p.1@))
}

pub proof fn lemma_kv_views_index(v: Seq<(String, String)>, i: int)
    requires
        0 <= i < v.len(),
    ensures
        kv_views(v)[i] == (v[i].0@, v[i].1@),
{
}

/// First value bound to `k`, if any.
pub open spec fn kv_get(s: Seq<(Seq<char>, Seq<char>)>, k: Seq<char>) -> Option<Seq<char>>
    decreases s.len(),
{
    if s.len() == 0 {
        None
    } else if s[0].0 == k {
        Some(s[0].1)
    } else {
        kv_get(s.drop_first(), k)
    }
}

pub open spec fn kv_contains(s: Seq<(Seq<char>, Seq<char>)>, k: Seq<char>) -> bool {
    kv_get(s, k) is Some
}

/// No key occurs twice.
pub open spec fn kv_unique(s: Seq<(Seq<char>, Seq<char>)>) -> bool {
    forall|i: int, j: int| 0 <= i < j < s.len() ==> (#[trigger] s[i]).0 != (#[trigger] s[j]).0
}

/// `s` with the first binding of `k` replaced by `v`, or `(k, v)` appended
/// if `k` is unbound.
pub open spec fn kv_upsert(s: Seq<(Seq<char>, Seq<char>)>, k: Seq<char>, v: Seq<char>) -> Seq<
    (Seq<char>, Seq<char>),
>
    decreases s.len(),
{
    if s.len() == 0 {
        seq![(k, v)]
    } else if s[0].0 == k {
        seq![(k, v)] + s.drop_first()
    } else {
        seq![s[0]] + kv_upsert(s.drop_first(), k, v)
    }
}

/// `s` without any binding of `k`.
pub open spec fn kv_remove(s: Seq<(Seq<char>, Seq<char>)>, k: Seq<char>) -> Seq<
    (Seq<char>, Seq<char>),
>
    decreases s.len(),
{
    if s.len() == 0 {
        s
    } else if s[0].0 == k {
        kv_remove(s.drop_first(), k)
    } else {
        seq![s[0]] + kv_remove(s.drop_first(), k)
    }
}

pub proof fn lemma_kv_upsert(s: Seq<(Seq<char>, Seq<char>)>, k: Seq<char>, v: Seq<char>)
    ensures
        kv_get(kv_upsert(s, k, v), k) == Some(v),
        forall|k2: Seq<char>| k2 != k ==> kv_get(kv_upsert(s, k, v), k2) == kv_get(s, k2),
        kv_unique(s) ==> kv_unique(kv_upsert(s, k, v)),
    decreases s.len(),
{
    if s.len() == 0 {
        let r = seq![(k, v)];
        assert(kv_upsert(s, k, v) == r);
        assert forall|k2: Seq<char>| k2 != k implies kv_get(r, k2) == kv_get(s, k2) by {
            assert(r.drop_first() =~= s);
            assert(kv_get(r, k2) == kv_get(r.drop_first(), k2));
        }
    } else if s[0].0 == k {
        let r = seq![(k, v)] + s.drop_first();
        assert(r.drop_first() =~= s.drop_first());
        assert(kv_get(r, k) == Some(v));
        assert forall|k2: Seq<char>| k2 != k implies kv_get(r, k2) == kv_get(s, k2) by {
            assert(kv_get(r, k2) == kv_get(s.drop_first(), k2));
            assert(kv_get(s, k2) == kv_get(s.drop_first(), k2));
        }
        if kv_unique(s) {
            assert forall|i: int, j: int| 0 <= i < j < r.len() implies (#[trigger] r[i]).0 != (
            #[trigger] r[j]).0 by {
                assert(r[j] == s[j]);
                if i > 0 {
                    assert(r[i] == s[i]);
                } else {
                    assert(s[0].0 != s[j].0);
                }
            }
        }
    } else {
        lemma_kv_upsert(s.drop_first(), k, v);
        let t = kv_upsert(s.drop_first(), k, v);
        let r = seq![s[0]] + t;
        assert(kv_upsert(s, k, v) == r);
        assert(r.drop_first() =~= t);
        assert(r[0] == s[0]);
        assert(kv_get(r, k) == Some(v));
        assert forall|k2: Seq<char>| k2 != k implies kv_get(r, k2) == kv_get(s, k2) by {
            if k2 == s[0].0 {
                assert(kv_get(r, k2) == Some(s[0].1));
                assert(kv_get(s, k2) == Some(s[0].1));
            } else {
                assert(kv_get(r, k2) == kv_get(t, k2));
                assert(kv_get(s, k2) == kv_get(s.drop_first(), k2));
            }
        }
        if kv_unique(s) {
            assert(kv_unique(s.drop_first()));
            lemma_kv_upsert_keys(s.drop_first(), k, v);
            assert forall|i: int, j: int| 0 <= i < j < r.len() implies (#[trigger] r[i]).0 != (
            #[trigger] r[j]).0 by {
                if i == 0 {
                    assert(r[j] == t[j - 1]);
                    if t[j - 1].0 == s[0].0 {
                        // s[0].0 differs from k, so the key at j - 1 must come
                        // from s.drop_first(); uniqueness of s forbids that.
                        assert(kv_contains(s.drop_first(), t[j - 1].0));
                        lemma_kv_get_is_some_index(s.drop_first(), t[j - 1].0);
                        let w = choose|w: int|
                            0 <= w < s.drop_first().len() && (#[trigger] s.drop_first()[w]).0 == t[
                                j - 1].0;
                        assert(s[w + 1] == s.drop_first()[w]);
                        assert(false);
                    }
                } else {
                    assert(r[i] == t[i - 1] && r[j] == t[j - 1]);
                }
            }
        }
    }
}

/// Every key of the upsert result is a key of `s` or is `k`.
pub proof fn lemma_kv_upsert_keys(s: Seq<(Seq<char>, Seq<char>)>, k: Seq<char>, v: Seq<char>)
    ensures
        forall|i: int| 0 <= i < kv_upsert(s, k, v).len() ==> (#[trigger] kv_upsert(s, k, v)[i]).0
            == k || kv_contains(s, kv_upsert(s, k, v)[i].0),
        kv_upsert(s, k, v).len() == if kv_contains(s, k) {
            s.len()
        } else {
            s.len() + 1
        },
    decreases s.len(),
{
    if s.len() == 0 {
    } else if s[0].0 == k {
        let r = seq![(k, v)] + s.drop_first();
        assert forall|i: int| 0 <= i < r.len() implies (#[trigger] r[i]).0 == k || kv_contains(
            s,
            r[i].0,
        ) by {
            if i > 0 {
                assert(r[i] == s[i]);
                lemma_kv_get_of_index(s, i);
            }
        }
    } else {
        lemma_kv_upsert_keys(s.drop_first(), k, v);
        let t = kv_upsert(s.drop_first(), k, v);
        let r = seq![s[0]] + t;
        assert forall|i: int| 0 <= i < r.len() implies (#[trigger] r[i]).0 == k || kv_contains(
            s,
            r[i].0,
        ) by {
            if i == 0 {
            } else {
                assert(r[i] == t[i - 1]);
                if t[i - 1].0 != k {
                    assert(kv_contains(s.drop_first(), t[i - 1].0));
                }
            }
        }
    }
}

/// Any key present at some index is found by `kv_get`.
pub proof fn lemma_kv_get_of_index(s: Seq<(Seq<char>, Seq<char>)>, i: int)
    requires
        0 <= i < s.len(),
    ensures
        kv_contains(s, s[i].0),
    decreases s.len(),
{
    if s[0].0 != s[i].0 {
        assert(s.drop_first()[i - 1] == s[i]);
        lemma_kv_get_of_index(s.drop_first(), i - 1);
    }
}

pub proof fn lemma_kv_remove(s: Seq<(Seq<char>, Seq<char>)>, k: Seq<char>)
    ensures
        kv_get(kv_remove(s, k), k) is None,
        forall|k2: Seq<char>| k2 != k ==> kv_get(kv_remove(s, k), k2) == kv_get(s, k2),
        kv_unique(s) ==> kv_unique(kv_remove(s, k)),
        kv_remove(s, k).len() <= s.len(),
        forall|i: int| 0 <= i < kv_remove(s, k).len() ==> kv_contains(
            s,
            (#[trigger] kv_remove(s, k)[i]).0,
        ),
    decreases s.len(),
{
    if s.len() == 0 {
    } else {
        lemma_kv_remove(s.drop_first(), k);
        if s[0].0 == k {
            let t = kv_remove(s.drop_first(), k);
            assert(kv_remove(s, k) == t);
            assert forall|k2: Seq<char>| k2 != k implies kv_get(kv_remove(s, k), k2) == kv_get(
                s,
                k2,
            ) by {
                assert(kv_get(s, k2) == kv_get(s.drop_first(), k2));
            }
            assert forall|i: int| 0 <= i < kv_remove(s, k).len() implies kv_contains(
                s,
                (#[trigger] kv_remove(s, k)[i]).0,
            ) by {
                lemma_kv_get_of_index(t, i);
                assert(t[i].0 != k);
                assert(kv_get(s, t[i].0) == kv_get(s.drop_first(), t[i].0));
            }
        } else {
            let t = kv_remove(s.drop_first(), k);
            let r = seq![s[0]] + t;
            assert(kv_remove(s, k) == r);
            assert(r.drop_first() =~= t);
            assert(r[0] == s[0]);
            assert(kv_get(r, k) == kv_get(t, k));
            assert forall|k2: Seq<char>| k2 != k implies kv_get(r, k2) == kv_get(s, k2) by {
                if k2 == s[0].0 {
                    assert(kv_get(r, k2) == Some(s[0].1));
                    assert(kv_get(s, k2) == Some(s[0].1));
                } else {
                    assert(kv_get(r, k2) == kv_get(t, k2));
                    assert(kv_get(s, k2) == kv_get(s.drop_first(), k2));
                }
            }
            assert forall|i: int| 0 <= i < r.len() implies kv_contains(s, (#[trigger] r[i]).0) by {
                if i == 0 {
                } else {
                    assert(r[i] == t[i - 1]);
                    assert(kv_contains(s.drop_first(), t[i - 1].0));
                }
            }
            if kv_unique(s) {
                assert(kv_unique(s.drop_first()));
                assert forall|i: int, j: int| 0 <= i < j < r.len() implies (#[trigger] r[i]).0 != (
                #[trigger] r[j]).0 by {
                    if i == 0 {
                        assert(kv_contains(s.drop_first(), t[j - 1].0));
                        lemma_kv_get_is_some_index(s.drop_first(), t[j - 1].0);
                    } else {
                        assert(r[i] == t[i - 1] && r[j] == t[j - 1]);
                    }
                }
            }
        }
    }
}

/// In a unique-keyed list, `kv_get` retrieves exactly the value stored
/// at any index.
pub proof fn lemma_kv_get_at_unique(s: Seq<(Seq<char>, Seq<char>)>, i: int)
    requires
        kv_unique(s),
        0 <= i < s.len(),
    ensures
        kv_get(s, s[i].0) == Some(s[i].1),
    decreases s.len(),
{
    if i == 0 {
    } else {
        assert(s[0].0 != s[i].0);
        assert(kv_unique(s.drop_first())) by {
            assert(forall|w: int|
                0 <= w < s.drop_first().len() ==> #[trigger] s.drop_first()[w] == s[w + 1]);
        }
        assert(s.drop_first()[i - 1] == s[i]);
        lemma_kv_get_at_unique(s.drop_first(), i - 1);
    }
}

/// If `kv_get` finds `k` then some index holds `k`.
pub proof fn lemma_kv_get_is_some_index(s: Seq<(Seq<char>, Seq<char>)>, k: Seq<char>)
    requires
        kv_contains(s, k),
    ensures
        exists|i: int| 0 <= i < s.len() && (#[trigger] s[i]).0 == k,
    decreases s.len(),
{
    if s[0].0 == k {
        assert(s[0].0 == k);
    } else {
        lemma_kv_get_is_some_index(s.drop_first(), k);
        let i = choose|i: int| 0 <= i < s.drop_first().len() && (#[trigger] s.drop_first()[i]).0
            == k;
        assert(s[i + 1] == s.drop_first()[i]);
    }
}

/// Looks up `key`, returning a clone of the first bound value.
pub fn kv_lookup(v: &Vec<(String, String)>, key: &str) -> (r: Option<String>)
    ensures
        crate::strutil::opt_view(r) == kv_get(kv_views(v@), key@),
{
    let n = v.len();
    let mut i: usize = 0;
    proof {
        assert(kv_views(v@).skip(0) =~= kv_views(v@));
    }
    while i < n
        invariant
            0 <= i <= n,
            n == v@.len(),
            kv_get(kv_views(v@), key@) == kv_get(kv_views(v@).skip(i as int), key@),
        decreases n - i,
    {
        proof {
            lemma_kv_views_index(v@, i as int);
            assert(kv_views(v@).skip(i as int)[0] == kv_views(v@)[i as int]);
            assert(kv_views(v@).skip(i as int).drop_first() =~= kv_views(v@).skip(i + 1));
        }
        if str_eq(v[i].0.as_str(), key) {
            return Some(v[i].1.clone());
        }
        i = i + 1;
    }
    None
}

/// Replaces the binding of `key` or appends it.
pub fn kv_set(v: &mut Vec<(String, String)>, key: &str, value: &str)
    ensures
        kv_views(final(v)@) == kv_upsert(kv_views(old(v)@), key@, value@),
{
    let ghost orig = kv_views(v@);
    let n = v.len();
    let mut i: usize = 0;
    while i < n
        invariant
            0 <= i <= n,
            n == v@.len(),
            v@ == old(v)@,
            kv_views(v@) == orig,
            forall|j: int| 0 <= j < i ==> (#[trigger] orig[j]).0 != key@,
        decreases n - i,
    {
        if str_eq(v[i].0.as_str(), key) {
            proof {
                lemma_kv_views_index(v@, i as int);
            }
            let pair = (key.to_owned(), value.to_owned());
            v.set(i, pair);
            proof {
                lemma_kv_upsert_prefix(orig, key@, value@, i as int);
                assert forall|j: int| 0 <= j < v@.len() implies kv_views(v@)[j] == orig.update(
                    i as int,
                    (key@, value@),
                )[j] by {
                    lemma_kv_views_index(v@, j);
                    if j != i {
                        lemma_kv_views_index(old(v)@, j);
                    }
                }
                assert(kv_views(v@) =~= orig.update(i as int, (key@, value@)));
            }
            return ;
        }
        proof {
            lemma_kv_views_index(v@, i as int);
        }
        i = i + 1;
    }
    let pair = (key.to_owned(), value.to_owned());
    v.push(pair);
    proof {
        lemma_kv_upsert_absent(orig, key@, value@);
        assert forall|j: int| 0 <= j < v@.len() implies kv_views(v@)[j] == orig.push(
            (key@, value@),
        )[j] by {
            lemma_kv_views_index(v@, j);
            if j < v@.len() - 1 {
                lemma_kv_views_index(old(v)@, j);
            }
        }
        assert(kv_views(v@) =~= orig.push((key@, value@)));
    }
}

proof fn lemma_kv_upsert_prefix(s: Seq<(Seq<char>, Seq<char>)>, k: Seq<char>, v: Seq<char>, i: int)
    requires
        0 <= i < s.len(),
        s[i].0 == k,
        forall|j: int| 0 <= j < i ==> (#[trigger] s[j]).0 != k,
    ensures
        kv_upsert(s, k, v) == s.update(i, (k, v)),
    decreases s.len(),
{
    if i == 0 {
        assert(kv_upsert(s, k, v) =~= s.update(0, (k, v)));
    } else {
        assert(s.drop_first()[i - 1] == s[i]);
        assert(forall|j: int| 0 <= j < i - 1 ==> (#[trigger] s.drop_first()[j]).0 != k);
        lemma_kv_upsert_prefix(s.drop_first(), k, v, i - 1);
        assert(kv_upsert(s, k, v) =~= s.update(i, (k, v)));
    }
}

proof fn lemma_kv_upsert_absent(s: Seq<(Seq<char>, Seq<char>)>, k: Seq<char>, v: Seq<char>)
    requires
        forall|j: int| 0 <= j < s.len() ==> (#[trigger] s[j]).0 != k,
    ensures
        kv_upsert(s, k, v) == s.push((k, v)),
    decreases s.len(),
{
    if s.len() == 0 {
        assert(kv_upsert(s, k, v) =~= s.push((k, v)));
    } else {
        assert(forall|j: int|
            0 <= j < s.drop_first().len() ==> (#[trigger] s.drop_first()[j]).0 != k);
        lemma_kv_upsert_absent(s.drop_first(), k, v);
        assert(kv_upsert(s, k, v) =~= s.push((k, v)));
    }
}

} // verus!
