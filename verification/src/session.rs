//! The session facades: capability-scoped views of the encrypted
//! sub-space of one request's jar.
//!
//! The capability split is type-level: any facade can read, but `set`
//! and `pop` exist only on the response-side facade
//! `Session<'_, ResponseMarker>`. Both facades borrow the one jar owned
//! by the response, so a write through the response side is visible to
//! every later read within the same request.
use vstd::prelude::*;
use core::marker::PhantomData;
use crate::jar::{unsealed_entries, unseal_of, Jar, SessionError, keys_remove};
use crate::kv::{kv_contains, kv_get, kv_remove, kv_unique, kv_upsert, lemma_kv_upsert};
use crate::response::ResponseMarker;
use crate::strutil::opt_view;

verus! {

/// A facade over the encrypted sub-space of a jar. The marker `T`
/// carries the capability: every facade reads, only a
/// `Session<'_, ResponseMarker>` writes.
pub struct Session<'a, T> {
    /// The shared jar this facade is backed by.
    pub jar: &'a mut Jar,
    pub marker: PhantomData<T>,
}

impl<'a, T> Session<'a, T> {
    /// The jar as the facade sees it now.
    pub open spec fn jar_now(&self) -> Jar {
        *self.jar
    }

    pub fn new(jar: &'a mut Jar) -> (s: Session<'a, T>)
        ensures
            s.jar_now() == *old(jar),
            *final (jar) == *final (s.jar),
    {
        Session { jar, marker: PhantomData }
    }

    /// Reads a value of the encrypted sub-space; absent, tampered and
    /// popped values all read as `None`.
    pub fn get(&self, key: &str) -> (r: Option<String>)
        ensures
            opt_view(r) == kv_get(self.jar_now().session_view(), key@),
    {
        self.jar.session_get(key)
    }
}

impl<'a> Session<'a, ResponseMarker> {
    /// Writes into the encrypted sub-space, to be sealed with the secret
    /// at serialization time; fails on a "no cookies" jar.
    pub fn set(self, key: &str, value: &str) -> (r: Result<(), SessionError>)
        requires
            self.jar_now().wf(),
        ensures
            (*final (self.jar)).wf(),
            match r {
                Ok(u) => self.jar_now().enabled() && (*final (self.jar)).session_view() == kv_upsert(
                    self.jar_now().session_view(),
                    key@,
                    value@,
                ) && (*final (self.jar)).pops_view() == keys_remove(self.jar_now().pops_view(), key@),
                Err(e) => e == SessionError::CookiesDisabled && !self.jar_now().enabled()
                    && (*final (self.jar)) == self.jar_now(),
            },
            (*final (self.jar)).enabled() == self.jar_now().enabled(),
            (*final (self.jar)).secret_view() == self.jar_now().secret_view(),
            (*final (self.jar)).raw_view() == self.jar_now().raw_view(),
    {
        self.jar.session_set(key, value)
    }

    /// Marks a value of the encrypted sub-space for removal: it stops
    /// being readable and expires on the client at serialization; fails
    /// on a "no cookies" jar.
    pub fn pop(self, key: &str) -> (r: Result<(), SessionError>)
        requires
            self.jar_now().wf(),
        ensures
            (*final (self.jar)).wf(),
            match r {
                Ok(u) => self.jar_now().enabled() && (*final (self.jar)).session_view() == kv_remove(
                    self.jar_now().session_view(),
                    key@,
                ) && (*final (self.jar)).pops_view().contains(key@),
                Err(e) => e == SessionError::CookiesDisabled && !self.jar_now().enabled()
                    && (*final (self.jar)) == self.jar_now(),
            },
            (*final (self.jar)).enabled() == self.jar_now().enabled(),
            (*final (self.jar)).secret_view() == self.jar_now().secret_view(),
            (*final (self.jar)).raw_view() == self.jar_now().raw_view(),
    {
        self.jar.session_pop(key)
    }
}

/// A value written through the write-capable facade is visible to a read
/// through any facade backed by the same jar within the same request:
/// after a successful `set` of `value` under `key`, a `get` of `key`
/// returns exactly `Some(value)`, and no other key changed.
pub proof fn lemma_session_write_visible(before: Jar, after: Jar, key: Seq<char>, value: Seq<char>)
    requires
        after.session_view() == kv_upsert(before.session_view(), key, value),
    ensures
        kv_get(after.session_view(), key) == Some(value),
        forall|k2: Seq<char>|
            k2 != key ==> kv_get(after.session_view(), k2) == kv_get(before.session_view(), k2),
{
    lemma_kv_upsert(before.session_view(), key, value);
}

/// What the encrypted sub-space of a jar decoded from raw cookies holds
/// of any name: exactly the decryption of that name's raw token. A token
/// that fails authentication under the secret — a tampered token — is
/// reported absent, never as another value.
pub proof fn lemma_session_decode_exact(
    secret: Seq<u8>,
    raw: Seq<(Seq<char>, Seq<char>)>,
    key: Seq<char>,
)
    requires
        kv_unique(raw),
    ensures
        kv_get(unsealed_entries(secret, raw), key) == (match kv_get(raw, key) {
            Some(tok) => unseal_of(secret, key, tok),
            None => None::<Seq<char>>,
        }),
    decreases raw.len(),
{
    if raw.len() == 0 {
    } else {
        let head = raw.drop_last();
        let last = raw.last();
        assert(kv_unique(head)) by {
            assert(forall|i: int| 0 <= i < head.len() ==> #[trigger] head[i] == raw[i]);
        }
        lemma_session_decode_exact(secret, head, key);
        let u = unsealed_entries(secret, raw);
        let uh = unsealed_entries(secret, head);
        let t: Seq<(Seq<char>, Seq<char>)> = match unseal_of(secret, last.0, last.1) {
            Some(p) => seq![(last.0, p)],
            None => Seq::empty(),
        };
        assert(u == uh + t);
        lemma_kv_get_concat(uh, t, key);
        assert(raw =~= head.push(last));
        lemma_kv_get_concat(head, seq![last], key);
        assert(head + seq![last] =~= raw);
        lemma_kv_get_singleton(last, key);
        if key == last.0 {
            // uniqueness: no earlier entry holds this name
            assert(!kv_contains(head, key)) by {
                if kv_contains(head, key) {
                    crate::kv::lemma_kv_get_is_some_index(head, key);
                    let w = choose|w: int| 0 <= w < head.len() && (#[trigger] head[w]).0 == key;
                    assert(raw[w].0 == raw[raw.len() - 1].0);
                }
            }
            assert(!kv_contains(uh, key)) by {
                if kv_contains(uh, key) {
                    crate::kv::lemma_kv_get_is_some_index(uh, key);
                    crate::jar::lemma_unsealed_keys(secret, head);
                    let w = choose|w: int| 0 <= w < uh.len() && (#[trigger] uh[w]).0 == key;
                    let v = choose|v: int|
                        0 <= v < head.len() && (#[trigger] uh[w]).0 == (#[trigger] head[v]).0;
                    crate::kv::lemma_kv_get_of_index(head, v);
                }
            }
            assert(kv_get(raw, key) == kv_get(seq![last], key));
            assert(kv_get(seq![last], key) == Some(last.1));
            match unseal_of(secret, last.0, last.1) {
                Some(p) => {
                    lemma_kv_get_singleton((last.0, p), key);
                    assert(kv_get(t, key) == Some(p));
                },
                None => {
                    assert(kv_get(t, key) is None);
                },
            }
        } else {
            match unseal_of(secret, last.0, last.1) {
                Some(p) => {
                    lemma_kv_get_singleton((last.0, p), key);
                    assert(kv_get(t, key) is None);
                },
                None => {
                    assert(kv_get(t, key) is None);
                },
            }
            assert(kv_get(seq![last], key) is None);
            if !kv_contains(uh, key) {
                assert(kv_get(u, key) == kv_get(t, key));
                assert(kv_get(uh, key) is None);
            }
            if !kv_contains(head, key) {
                assert(kv_get(raw, key) == kv_get(seq![last], key));
                assert(kv_get(head, key) is None);
            }
        }
    }
}

/// A session value sealed at serialization and presented back as a raw
/// cookie on a later request decodes to the same value under the same
/// secret.
pub proof fn lemma_session_round_trip(
    secret: Seq<u8>,
    next_raw: Seq<(Seq<char>, Seq<char>)>,
    key: Seq<char>,
    token: Seq<char>,
    value: Seq<char>,
)
    requires
        kv_unique(next_raw),
        kv_get(next_raw, key) == Some(token),
        unseal_of(secret, key, token) == Some(value),
    ensures
        kv_get(unsealed_entries(secret, next_raw), key) == Some(value),
{
    lemma_session_decode_exact(secret, next_raw, key);
}

/// `kv_get` on a one-entry list.
pub proof fn lemma_kv_get_singleton(p: (Seq<char>, Seq<char>), k: Seq<char>)
    ensures
        kv_get(seq![p], k) == if p.0 == k {
            Some(p.1)
        } else {
            None::<Seq<char>>
        },
{
    let t = seq![p];
    assert(t.drop_first() =~= Seq::<(Seq<char>, Seq<char>)>::empty());
    assert(kv_get(t.drop_first(), k) is None);
}

/// `kv_get` over a concatenation: the left part wins when it holds the
/// key.
pub proof fn lemma_kv_get_concat(
    a: Seq<(Seq<char>, Seq<char>)>,
    b: Seq<(Seq<char>, Seq<char>)>,
    k: Seq<char>,
)
    ensures
        kv_get(a + b, k) == if kv_contains(a, k) {
            kv_get(a, k)
        } else {
            kv_get(b, k)
        },
    decreases a.len(),
{
    if a.len() == 0 {
        assert(a + b =~= b);
    } else {
        lemma_kv_get_concat(a.drop_first(), b, k);
        assert((a + b).drop_first() =~= a.drop_first() + b);
        assert((a + b)[0] == a[0]);
    }
}

} // verus!
