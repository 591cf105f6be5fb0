//! The per-request cookie jar: a secret-keyed container of named string
//! values, partitioned into a plain sub-space (visible and alterable by
//! the client) and an encrypted sub-space (confidential and
//! integrity-protected, opaque to the client).
//!
//! The jar is a plain-data model: the raw wire cookies, the decoded
//! encrypted values and the pending removals are held as string pairs.
//! Only sealing and unsealing call the cookie crate, behind trusted
//! wrappers, so a value that fails authentication is simply absent here.
use vstd::prelude::*;
use crate::kv::{
    kv_contains, kv_get, kv_lookup, kv_remove, kv_set, kv_unique, kv_views, lemma_kv_remove,
    lemma_kv_upsert, lemma_kv_views_index, kv_upsert,
};
use crate::strutil::{find_from, opt_view, spec_find, spec_split, split_str, trim_blanks, trim_spec, views_of};

verus! {

/// Misuse of session/cookie writes on a response built without cookie
/// support: a programming error, reported rather than ignored.
#[derive(Clone, Copy, PartialEq, Eq, Structural, Debug)]
pub enum SessionError {
    CookiesDisabled,
}

/// What decrypting `token`, stored under `name`, with the key derived
/// from `secret` yields. Decryption is deterministic, so this names the
/// cookie crate's result; nothing is assumed about its value.
pub uninterp spec fn unseal_of(secret: Seq<u8>, name: Seq<char>, token: Seq<char>) -> Option<
    Seq<char>,
>;

/// Relies on cookie::Key::derive_from (deterministic key derivation) and
/// cookie::PrivateJar::get (AES-256-GCM, the cookie name as associated
/// data): authenticated decryption of a stored token, a function of
/// secret, name and token alone; `None` on any tampered or foreign token.
#[verifier::external_body]
fn unseal(secret: &[u8], name: &str, token: &str) -> (r: Option<String>)
    requires
        secret@.len() >= 32,
    ensures
        opt_view(r) == unseal_of(secret@, name@, token@),
{
    let key = cookie::Key::derive_from(secret);
    let mut jar = cookie::CookieJar::new();
    jar.add_original(cookie::Cookie::new(name.to_owned(), token.to_owned()));
    jar.private(&key).get(name).map(|c| c.value().to_owned())
}

/// Relies on cookie::PrivateJar::add with the same key derivation as
/// `unseal`: a sealed value authenticates and decrypts back to itself
/// under the same secret and name. The token embeds a random nonce, so
/// only this round trip is stated of it.
#[verifier::external_body]
fn seal(secret: &[u8], name: &str, value: &str) -> (r: String)
    requires
        secret@.len() >= 32,
    ensures
        unseal_of(secret@, name@, r@) == Some(value@),
{
    let key = cookie::Key::derive_from(secret);
    let mut jar = cookie::CookieJar::new();
    jar.private_mut(&key).add(cookie::Cookie::new(name.to_owned(), value.to_owned()));
    jar.get(name).map(|c| c.value().to_owned()).unwrap()
}

/// The pair one `;`-delimited Cookie-header token decodes to: trimmed,
/// split at the first `=`; tokens with no `=` or an empty name yield
/// nothing.
pub open spec fn cookie_pair(tok: Seq<char>) -> Option<(Seq<char>, Seq<char>)> {
    let t = trim_spec(tok);
    match spec_find(t, '=') {
        None => None,
        Some(i) => if i == 0 {
            None
        } else {
            Some((t.take(i), t.skip(i + 1)))
        },
    }
}

/// The bindings of a token list, later bindings of a name replacing
/// earlier ones.
pub open spec fn cookie_entries(toks: Seq<Seq<char>>) -> Seq<(Seq<char>, Seq<char>)>
    decreases toks.len(),
{
    if toks.len() == 0 {
        Seq::empty()
    } else {
        match cookie_pair(toks.last()) {
            None => cookie_entries(toks.drop_last()),
            Some(p) => kv_upsert(cookie_entries(toks.drop_last()), p.0, p.1),
        }
    }
}

/// The bindings of a whole Cookie header.
pub open spec fn parse_cookie_header(h: Seq<char>) -> Seq<(Seq<char>, Seq<char>)> {
    cookie_entries(spec_split(h, ';'))
}

/// The entries of the encrypted sub-space: each raw entry whose value
/// unseals under its name, bound to the unsealed value, in raw order.
pub open spec fn unsealed_entries(secret: Seq<u8>, raw: Seq<(Seq<char>, Seq<char>)>) -> Seq<
    (Seq<char>, Seq<char>),
>
    decreases raw.len(),
{
    if raw.len() == 0 {
        Seq::empty()
    } else {
        unsealed_entries(secret, raw.drop_last()) + (match unseal_of(
            secret,
            raw.last().0,
            raw.last().1,
        ) {
            Some(p) => seq![(raw.last().0, p)],
            None => Seq::empty(),
        })
    }
}

/// Distinct strings, pairwise.
pub open spec fn keys_unique(s: Seq<Seq<char>>) -> bool {
    forall|i: int, j: int| 0 <= i < j < s.len() ==> s[i] != s[j]
}

/// `s` without every occurrence of `k`.
pub open spec fn keys_remove(s: Seq<Seq<char>>, k: Seq<char>) -> Seq<Seq<char>>
    decreases s.len(),
{
    if s.len() == 0 {
        s
    } else if s[0] == k {
        keys_remove(s.drop_first(), k)
    } else {
        seq![s[0]] + keys_remove(s.drop_first(), k)
    }
}

pub proof fn lemma_keys_remove(s: Seq<Seq<char>>, k: Seq<char>)
    ensures
        !keys_remove(s, k).contains(k),
        forall|x: Seq<char>| x != k ==> (keys_remove(s, k).contains(x) <==> s.contains(x)),
        keys_unique(s) ==> keys_unique(keys_remove(s, k)),
    decreases s.len(),
{
    if s.len() == 0 {
        assert forall|x: Seq<char>| x != k implies (keys_remove(s, k).contains(x) <==> s.contains(
            x,
        )) by {
            assert(!s.contains(x));
        }
    } else {
        lemma_keys_remove(s.drop_first(), k);
        let t = keys_remove(s.drop_first(), k);
        if s[0] == k {
            assert(keys_remove(s, k) == t);
            assert forall|x: Seq<char>| x != k implies (keys_remove(s, k).contains(x)
                <==> s.contains(x)) by {
                if s.contains(x) {
                    let i = choose|i: int| 0 <= i < s.len() && s[i] == x;
                    assert(i > 0);
                    assert(s.drop_first()[i - 1] == x);
                    assert(s.drop_first().contains(x));
                }
                if t.contains(x) {
                    assert(s.drop_first().contains(x));
                    let i = choose|i: int| 0 <= i < s.drop_first().len() && s.drop_first()[i] == x;
                    assert(s[i + 1] == x);
                }
            }
            assert(!keys_remove(s, k).contains(k));
        } else {
            let r = seq![s[0]] + t;
            assert(keys_remove(s, k) == r);
            assert forall|x: Seq<char>| x != k implies (r.contains(x) <==> s.contains(x)) by {
                if s.contains(x) {
                    let i = choose|i: int| 0 <= i < s.len() && s[i] == x;
                    if i == 0 {
                        assert(r[0] == x);
                    } else {
                        assert(s.drop_first()[i - 1] == x);
                        assert(s.drop_first().contains(x));
                        let w = choose|w: int| 0 <= w < t.len() && t[w] == x;
                        assert(r[w + 1] == x);
                    }
                }
                if r.contains(x) {
                    let i = choose|i: int| 0 <= i < r.len() && r[i] == x;
                    if i == 0 {
                        assert(s[0] == x);
                    } else {
                        assert(t[i - 1] == x);
                        assert(t.contains(x));
                        assert(s.drop_first().contains(x));
                        let w = choose|w: int|
                            0 <= w < s.drop_first().len() && s.drop_first()[w] == x;
                        assert(s[w + 1] == x);
                    }
                }
            }
            assert(!r.contains(k)) by {
                if r.contains(k) {
                    let i = choose|i: int| 0 <= i < r.len() && r[i] == k;
                    if i > 0 {
                        assert(t[i - 1] == k);
                        assert(t.contains(k));
                    }
                }
            }
            if keys_unique(s) {
                assert(keys_unique(s.drop_first()));
                assert forall|i: int, j: int| 0 <= i < j < r.len() implies r[i] != r[j] by {
                    if i == 0 {
                        assert(t[j - 1] == r[j]);
                        assert(t.contains(t[j - 1]));
                        if r[j] == s[0] {
                            assert(s.drop_first().contains(s[0]));
                            let w = choose|w: int|
                                0 <= w < s.drop_first().len() && s.drop_first()[w] == s[0];
                            assert(s[w + 1] == s[0]);
                        }
                    } else {
                        assert(r[i] == t[i - 1] && r[j] == t[j - 1]);
                    }
                }
            }
        }
    }
}

/// The per-request jar. `raw` holds the cookies as they stand on the
/// wire (the plain sub-space); `session` holds the decoded encrypted
/// sub-space; `pops` holds the names whose encrypted values are to be
/// expired at serialization.
pub struct Jar {
    enabled: bool,
    secret: Vec<u8>,
    raw: Vec<(String, String)>,
    session: Vec<(String, String)>,
    pops: Vec<String>,
}

impl Jar {
    pub closed spec fn enabled(&self) -> bool {
        self.enabled
    }

    pub closed spec fn secret_view(&self) -> Seq<u8> {
        self.secret@
    }

    /// The plain sub-space: raw cookie names and values.
    pub closed spec fn raw_view(&self) -> Seq<(Seq<char>, Seq<char>)> {
        kv_views(self.raw@)
    }

    /// The encrypted sub-space, decoded.
    pub closed spec fn session_view(&self) -> Seq<(Seq<char>, Seq<char>)> {
        kv_views(self.session@)
    }

    /// The names pending removal from the encrypted sub-space.
    pub closed spec fn pops_view(&self) -> Seq<Seq<char>> {
        views_of(self.pops@)
    }

    /// The jar's invariant: unique names in each part, pending removals
    /// distinct from live session entries, everything empty when cookies
    /// are disabled, and a secret long enough to derive a key from.
    pub open spec fn wf(&self) -> bool {
        &&& kv_unique(self.raw_view())
        &&& kv_unique(self.session_view())
        &&& keys_unique(self.pops_view())
        &&& forall|i: int|
            0 <= i < self.pops_view().len() ==> !kv_contains(
                self.session_view(),
                #[trigger] self.pops_view()[i],
            )
        &&& !self.enabled() ==> self.raw_view().len() == 0 && self.session_view().len() == 0
            && self.pops_view().len() == 0
        &&& self.enabled() ==> self.secret_view().len() >= 32
    }

    /// A jar in "no cookies" mode: reads find nothing and writes fail.
    pub fn without_cookies() -> (j: Jar)
        ensures
            j.wf(),
            !j.enabled(),
            j.raw_view() == Seq::<(Seq<char>, Seq<char>)>::empty(),
            j.session_view() == Seq::<(Seq<char>, Seq<char>)>::empty(),
            j.pops_view() == Seq::<Seq<char>>::empty(),
    {
        let j = Jar {
            enabled: false,
            secret: Vec::new(),
            raw: Vec::new(),
            session: Vec::new(),
            pops: Vec::new(),
        };
        proof {
            assert(j.raw_view() =~= Seq::<(Seq<char>, Seq<char>)>::empty());
            assert(j.session_view() =~= Seq::<(Seq<char>, Seq<char>)>::empty());
            assert(j.pops_view() =~= Seq::<Seq<char>>::empty());
        }
        j
    }

    /// Decodes the inbound `Cookie` header (if any) against `secret`:
    /// every pair lands in the plain sub-space, and each value that
    /// unseals under its name also lands, decoded, in the encrypted
    /// sub-space.
    pub fn from_header(secret: &[u8], header: Option<&str>) -> (j: Jar)
        requires
            secret@.len() >= 32,
        ensures
            j.wf(),
            j.enabled(),
            j.secret_view() == secret@,
            j.raw_view() == match header {
                Some(h) => parse_cookie_header(h@),
                None => Seq::<(Seq<char>, Seq<char>)>::empty(),
            },
            j.session_view() == unsealed_entries(secret@, j.raw_view()),
            j.pops_view() == Seq::<Seq<char>>::empty(),
    {
        let mut raw: Vec<(String, String)> = Vec::new();
        proof {
            assert(kv_views(raw@) =~= Seq::<(Seq<char>, Seq<char>)>::empty());
        }
        match header {
            None => {},
            Some(h) => {
                let toks = split_str(h, ';');
                let n = toks.len();
                let ghost toks_v = views_of(toks@);
                let mut i: usize = 0;
                proof {
                    assert(toks_v.take(0) =~= Seq::<Seq<char>>::empty());
                }
                while i < n
                    invariant
                        0 <= i <= n,
                        n == toks@.len(),
                        toks_v == views_of(toks@),
                        toks_v == spec_split(h@, ';'),
                        kv_views(raw@) == cookie_entries(toks_v.take(i as int)),
                        kv_unique(kv_views(raw@)),
                    decreases n - i,
                {
                    proof {
                        assert(views_of(toks@)[i as int] == toks@[i as int]@);
                        assert(toks_v.take(i + 1).drop_last() =~= toks_v.take(i as int));
                        assert(toks_v.take(i + 1).last() == toks_v[i as int]);
                    }
                    let t = trim_blanks(toks[i].as_str());
                    let tlen = t.as_str().unicode_len();
                    match find_from(t.as_str(), 0, '=') {
                        Some(p) => {
                            proof {
                                crate::strutil::lemma_spec_find_at(t@, '=', p as int);
                            }
                            if p > 0 {
                                let name = t.as_str().substring_char(0, p).to_owned();
                                let value = t.as_str().substring_char(p + 1, tlen).to_owned();
                                proof {
                                    assert(name@ =~= t@.take(p as int));
                                    assert(value@ =~= t@.skip(p + 1));
                                    lemma_kv_upsert(kv_views(raw@), name@, value@);
                                }
                                kv_set(&mut raw, name.as_str(), value.as_str());
                            }
                        },
                        None => {
                            proof {
                                crate::strutil::lemma_spec_find_none(t@, '=');
                            }
                        },
                    }
                    i = i + 1;
                }
                proof {
                    assert(toks_v.take(n as int) =~= toks_v);
                }
            },
        }
        // decode the encrypted sub-space from the raw entries
        let ghost raw_v = kv_views(raw@);
        let mut session: Vec<(String, String)> = Vec::new();
        let n = raw.len();
        let mut i: usize = 0;
        proof {
            assert(raw_v.take(0) =~= Seq::<(Seq<char>, Seq<char>)>::empty());
            assert(kv_views(session@) =~= Seq::<(Seq<char>, Seq<char>)>::empty());
        }
        while i < n
            invariant
                0 <= i <= n,
                n == raw@.len(),
                raw_v == kv_views(raw@),
                secret@.len() >= 32,
                kv_views(session@) == unsealed_entries(secret@, raw_v.take(i as int)),
            decreases n - i,
        {
            proof {
                lemma_kv_views_index(raw@, i as int);
                assert(raw_v.take(i + 1).drop_last() =~= raw_v.take(i as int));
                assert(raw_v.take(i + 1).last() == raw_v[i as int]);
            }
            let ghost before = kv_views(session@);
            match unseal(secret, raw[i].0.as_str(), raw[i].1.as_str()) {
                Some(p) => {
                    let name = raw[i].0.clone();
                    session.push((name, p));
                    proof {
                        assert(kv_views(session@) =~= before.push(
                            (raw_v[i as int].0, unseal_of(
                                secret@,
                                raw_v[i as int].0,
                                raw_v[i as int].1,
                            ).unwrap()),
                        ));
                        assert(kv_views(session@) =~= unsealed_entries(
                            secret@,
                            raw_v.take(i + 1),
                        ));
                    }
                },
                None => {
                    proof {
                        assert(before + Seq::<(Seq<char>, Seq<char>)>::empty() =~= before);
                    }
                },
            }
            i = i + 1;
        }
        proof {
            assert(raw_v.take(n as int) =~= raw_v);
        }
        let j = Jar { enabled: true, secret: vstd::slice::slice_to_vec(secret), raw, session, pops: Vec::new() };
        proof {
            assert(j.pops_view() =~= Seq::<Seq<char>>::empty());
            lemma_unsealed_keys(secret@, raw_v);
        }
        j
    }

    /// Looks up a value of the encrypted sub-space; absent values, values
    /// that failed authentication and popped values all read as `None`.
    pub fn session_get(&self, key: &str) -> (r: Option<String>)
        ensures
            opt_view(r) == kv_get(self.session_view(), key@),
    {
        kv_lookup(&self.session, key)
    }

    /// Writes into the encrypted sub-space; fails on a "no cookies" jar.
    pub fn session_set(&mut self, key: &str, value: &str) -> (r: Result<(), SessionError>)
        requires
            old(self).wf(),
        ensures
            final(self).wf(),
            match r {
                Ok(u) => old(self).enabled() && final(self).session_view() == kv_upsert(
                    old(self).session_view(),
                    key@,
                    value@,
                ) && final(self).pops_view() == keys_remove(old(self).pops_view(), key@),
                Err(e) => e == SessionError::CookiesDisabled && !old(self).enabled() && *final(self)
                    == *old(self),
            },
            final(self).enabled() == old(self).enabled(),
            final(self).secret_view() == old(self).secret_view(),
            final(self).raw_view() == old(self).raw_view(),
    {
        if !self.enabled {
            return Err(SessionError::CookiesDisabled);
        }
        proof {
            lemma_kv_upsert(self.session_view(), key@, value@);
            lemma_kv_upsert_keys_all(self.session_view(), key@, value@);
            lemma_keys_remove(self.pops_view(), key@);
        }
        kv_set(&mut self.session, key, value);
        remove_key(&mut self.pops, key);
        proof {
            let sv = final(self).session_view();
            let pv = final(self).pops_view();
            assert forall|i: int| 0 <= i < pv.len() implies !kv_contains(
                sv,
                #[trigger] pv[i],
            ) by {
                assert(pv[i] != key@);
                assert(old(self).pops_view().contains(pv[i]));
                let w = choose|w: int|
                    0 <= w < old(self).pops_view().len() && old(self).pops_view()[w] == pv[i];
                assert(!kv_contains(old(self).session_view(), pv[i]));
            }
        }
        Ok(())
    }

    /// Marks an encrypted value for removal: it stops being readable now
    /// and is expired on the client at serialization.
    pub fn session_pop(&mut self, key: &str) -> (r: Result<(), SessionError>)
        requires
            old(self).wf(),
        ensures
            final(self).wf(),
            match r {
                Ok(u) => old(self).enabled() && final(self).session_view() == kv_remove(
                    old(self).session_view(),
                    key@,
                ) && final(self).pops_view().contains(key@) && (forall|x: Seq<char>|
                    x != key@ ==> (final(self).pops_view().contains(x) <==> old(
                        self,
                    ).pops_view().contains(x))),
                Err(e) => e == SessionError::CookiesDisabled && !old(self).enabled() && *final(self)
                    == *old(self),
            },
            final(self).enabled() == old(self).enabled(),
            final(self).secret_view() == old(self).secret_view(),
            final(self).raw_view() == old(self).raw_view(),
    {
        if !self.enabled {
            return Err(SessionError::CookiesDisabled);
        }
        proof {
            lemma_kv_remove(self.session_view(), key@);
        }
        remove_from_assoc(&mut self.session, key);
        let present = contains_key(&self.pops, key);
        if !present {
            let k = key.to_owned();
            let ghost before = self.pops_view();
            self.pops.push(k);
            proof {
                assert(final(self).pops_view() =~= before.push(key@));
            }
        }
        proof {
            let sv = final(self).session_view();
            let pv = final(self).pops_view();
            assert forall|i: int, j: int| 0 <= i < j < pv.len() implies pv[i] != pv[j] by {
                if j == pv.len() - 1 && !present {
                    assert(pv[i] == old(self).pops_view()[i]);
                } else {
                    assert(pv[i] == old(self).pops_view()[i] && pv[j] == old(self).pops_view()[j]);
                }
            }
            assert forall|i: int| 0 <= i < pv.len() implies !kv_contains(
                sv,
                #[trigger] pv[i],
            ) by {
                if pv[i] == key@ {
                    assert(kv_get(sv, key@) is None);
                } else {
                    assert(pv[i] == old(self).pops_view()[i]);
                    assert(!kv_contains(old(self).session_view(), pv[i]));
                }
            }
            assert(pv.contains(key@)) by {
                if present {
                    lemma_contains_key(old(self).pops_view(), key@);
                } else {
                    assert(pv[pv.len() - 1] == key@);
                }
            }
            assert forall|x: Seq<char>| x != key@ implies (pv.contains(x) <==> old(
                self,
            ).pops_view().contains(x)) by {
                if pv.contains(x) {
                    let i = choose|i: int| 0 <= i < pv.len() && pv[i] == x;
                    if !(present || i < pv.len() - 1) {
                        assert(pv[i] == key@);
                    } else {
                        assert(old(self).pops_view()[i] == x);
                    }
                }
                if old(self).pops_view().contains(x) {
                    let i = choose|i: int|
                        0 <= i < old(self).pops_view().len() && old(self).pops_view()[i] == x;
                    assert(pv[i] == x);
                }
            }
        }
        Ok(())
    }

    /// Looks up a raw cookie value (the plain sub-space); for a name in
    /// the encrypted sub-space this is the sealed token, not the value.
    pub fn cookie_get(&self, key: &str) -> (r: Option<String>)
        ensures
            opt_view(r) == kv_get(self.raw_view(), key@),
    {
        kv_lookup(&self.raw, key)
    }

    /// Writes a plain cookie; fails on a "no cookies" jar.
    pub fn cookie_set(&mut self, key: &str, value: &str) -> (r: Result<(), SessionError>)
        requires
            old(self).wf(),
        ensures
            final(self).wf(),
            match r {
                Ok(u) => old(self).enabled() && final(self).raw_view() == kv_upsert(
                    old(self).raw_view(),
                    key@,
                    value@,
                ),
                Err(e) => e == SessionError::CookiesDisabled && !old(self).enabled() && *final(self)
                    == *old(self),
            },
            final(self).enabled() == old(self).enabled(),
            final(self).secret_view() == old(self).secret_view(),
            final(self).session_view() == old(self).session_view(),
            final(self).pops_view() == old(self).pops_view(),
    {
        if !self.enabled {
            return Err(SessionError::CookiesDisabled);
        }
        proof {
            lemma_kv_upsert(self.raw_view(), key@, value@);
        }
        kv_set(&mut self.raw, key, value);
        Ok(())
    }
}

/// One outgoing `Set-Cookie` entry: a name and value, or an expiry of
/// `name` when `expired` is set.
pub struct SetCookie {
    pub name: String,
    pub value: String,
    pub expired: bool,
}

impl SetCookie {
    /// The `Set-Cookie` header value for this entry; an expired entry
    /// carries an immediate `Max-Age=0`.
    pub fn header_value(&self) -> (r: String)
        ensures
            self.expired ==> r@ == self.name@ + "=; Max-Age=0"@,
            !self.expired ==> r@ == self.name@ + "="@ + self.value@,
    {
        if self.expired {
            crate::strutil::concat2(self.name.as_str(), "=; Max-Age=0")
        } else {
            crate::strutil::concat3(self.name.as_str(), "=", self.value.as_str())
        }
    }
}

/// What one planned entry should hold: a plain value as it stands, a
/// sealed value up to decryption, or an expiry.
pub enum CookieKind {
    Plain(Seq<char>),
    Sealed(Seq<char>),
    Expired,
}

/// The planned entries for the raw cookies: popped names are dropped,
/// names live in the encrypted sub-space are re-sealed, the rest pass
/// through unchanged, all in raw order.
pub open spec fn plan_raw(
    raw: Seq<(Seq<char>, Seq<char>)>,
    session: Seq<(Seq<char>, Seq<char>)>,
    pops: Seq<Seq<char>>,
) -> Seq<(Seq<char>, CookieKind)>
    decreases raw.len(),
{
    if raw.len() == 0 {
        Seq::empty()
    } else {
        plan_raw(raw.drop_last(), session, pops) + (if pops.contains(raw.last().0) {
            Seq::empty()
        } else {
            match kv_get(session, raw.last().0) {
                Some(p) => seq![(raw.last().0, CookieKind::Sealed(p))],
                None => seq![(raw.last().0, CookieKind::Plain(raw.last().1))],
            }
        })
    }
}

/// The planned entries for session values with no raw cookie yet, in
/// session order.
pub open spec fn plan_added(
    session: Seq<(Seq<char>, Seq<char>)>,
    raw: Seq<(Seq<char>, Seq<char>)>,
) -> Seq<(Seq<char>, CookieKind)>
    decreases session.len(),
{
    if session.len() == 0 {
        Seq::empty()
    } else {
        plan_added(session.drop_last(), raw) + (if kv_contains(raw, session.last().0) {
            Seq::empty()
        } else {
            seq![(session.last().0, CookieKind::Sealed(session.last().1))]
        })
    }
}

/// The planned expiries, in pop order.
pub open spec fn plan_pops(pops: Seq<Seq<char>>) -> Seq<(Seq<char>, CookieKind)> {
    pops.map_values(|k: Seq<char>| (k, CookieKind::Expired))
}

/// The whole serialization plan of a jar's current state.
pub open spec fn cookie_plan(
    raw: Seq<(Seq<char>, Seq<char>)>,
    session: Seq<(Seq<char>, Seq<char>)>,
    pops: Seq<Seq<char>>,
) -> Seq<(Seq<char>, CookieKind)> {
    plan_raw(raw, session, pops) + plan_added(session, raw) + plan_pops(pops)
}

/// Whether one emitted entry realizes one planned entry.
pub open spec fn entry_ok(secret: Seq<u8>, e: SetCookie, p: (Seq<char>, CookieKind)) -> bool {
    e.name@ == p.0 && match p.1 {
        CookieKind::Plain(v) => e.value@ == v && !e.expired,
        CookieKind::Sealed(pv) => unseal_of(secret, e.name@, e.value@) == Some(pv) && !e.expired,
        CookieKind::Expired => e.expired,
    }
}

/// Whether an emitted list realizes a plan, entry for entry.
pub open spec fn entries_ok(
    secret: Seq<u8>,
    out: Seq<SetCookie>,
    plan: Seq<(Seq<char>, CookieKind)>,
) -> bool {
    out.len() == plan.len() && forall|i: int|
        0 <= i < out.len() ==> entry_ok(secret, #[trigger] out[i], plan[i])
}

proof fn lemma_entries_ok_push(
    secret: Seq<u8>,
    out: Seq<SetCookie>,
    plan: Seq<(Seq<char>, CookieKind)>,
    e: SetCookie,
    p: (Seq<char>, CookieKind),
)
    requires
        entries_ok(secret, out, plan),
        entry_ok(secret, e, p),
    ensures
        entries_ok(secret, out.push(e), plan.push(p)),
{
    assert forall|i: int| 0 <= i < out.push(e).len() implies entry_ok(
        secret,
        #[trigger] out.push(e)[i],
        plan.push(p)[i],
    ) by {
        if i < out.len() {
            assert(out.push(e)[i] == out[i] && plan.push(p)[i] == plan[i]);
        }
    }
}

impl Jar {
    /// Serializes the jar's current state into its outgoing `Set-Cookie`
    /// entries: every raw cookie (with encrypted values freshly sealed),
    /// every new session value, then the pending expiries. This consumes
    /// the jar: it is the single place it is read out.
    pub fn serialize_cookies(self) -> (out: Vec<SetCookie>)
        requires
            self.wf(),
        ensures
            entries_ok(
                self.secret_view(),
                out@,
                cookie_plan(self.raw_view(), self.session_view(), self.pops_view()),
            ),
    {
        let Jar { enabled, secret, raw, session, pops } = self;
        let ghost secret_v = self.secret_view();
        let ghost raw_v = self.raw_view();
        let ghost session_v = self.session_view();
        let ghost pops_v = self.pops_view();
        let mut out: Vec<SetCookie> = Vec::new();
        let n = raw.len();
        let mut i: usize = 0;
        proof {
            assert(raw_v.take(0) =~= Seq::<(Seq<char>, Seq<char>)>::empty());
        }
        while i < n
            invariant
                0 <= i <= n,
                n == raw@.len(),
                raw_v == kv_views(raw@),
                session_v == kv_views(session@),
                pops_v == views_of(pops@),
                secret_v == secret@,
                kv_unique(raw_v),
                raw@.len() > 0 ==> secret@.len() >= 32,
                entries_ok(secret_v, out@, plan_raw(raw_v.take(i as int), session_v, pops_v)),
            decreases n - i,
        {
            proof {
                lemma_kv_views_index(raw@, i as int);
                assert(raw_v.take(i + 1).drop_last() =~= raw_v.take(i as int));
                assert(raw_v.take(i + 1).last() == raw_v[i as int]);
            }
            let ghost plan_now = plan_raw(raw_v.take(i as int), session_v, pops_v);
            let name = raw[i].0.as_str();
            if !contains_key(&pops, name) {
                match kv_lookup(&session, name) {
                    Some(p) => {
                        let token = seal(&secret, name, p.as_str());
                        let e = SetCookie { name: name.to_owned(), value: token, expired: false };
                        proof {
                            lemma_entries_ok_push(
                                secret_v,
                                out@,
                                plan_now,
                                e,
                                (raw_v[i as int].0, CookieKind::Sealed(p@)),
                            );
                            assert(plan_raw(raw_v.take(i + 1), session_v, pops_v) =~= plan_now.push(
                                (raw_v[i as int].0, CookieKind::Sealed(p@)),
                            ));
                        }
                        out.push(e);
                    },
                    None => {
                        let e = SetCookie {
                            name: name.to_owned(),
                            value: raw[i].1.clone(),
                            expired: false,
                        };
                        proof {
                            lemma_entries_ok_push(
                                secret_v,
                                out@,
                                plan_now,
                                e,
                                (raw_v[i as int].0, CookieKind::Plain(raw_v[i as int].1)),
                            );
                            assert(plan_raw(raw_v.take(i + 1), session_v, pops_v) =~= plan_now.push(
                                (raw_v[i as int].0, CookieKind::Plain(raw_v[i as int].1)),
                            ));
                        }
                        out.push(e);
                    },
                }
            } else {
                proof {
                    assert(plan_raw(raw_v.take(i + 1), session_v, pops_v) =~= plan_now);
                }
            }
            i = i + 1;
        }
        proof {
            assert(raw_v.take(n as int) =~= raw_v);
            assert(session_v.take(0) =~= Seq::<(Seq<char>, Seq<char>)>::empty());
            assert(plan_raw(raw_v, session_v, pops_v) + plan_added(
                session_v.take(0),
                raw_v,
            ) =~= plan_raw(raw_v, session_v, pops_v));
        }
        let m = session.len();
        let mut j: usize = 0;
        while j < m
            invariant
                0 <= j <= m,
                m == session@.len(),
                raw_v == kv_views(raw@),
                session_v == kv_views(session@),
                pops_v == views_of(pops@),
                secret_v == secret@,
                session@.len() > 0 ==> secret@.len() >= 32,
                entries_ok(
                    secret_v,
                    out@,
                    plan_raw(raw_v, session_v, pops_v) + plan_added(
                        session_v.take(j as int),
                        raw_v,
                    ),
                ),
            decreases m - j,
        {
            proof {
                lemma_kv_views_index(session@, j as int);
                assert(session_v.take(j + 1).drop_last() =~= session_v.take(j as int));
                assert(session_v.take(j + 1).last() == session_v[j as int]);
            }
            let ghost plan_now = plan_raw(raw_v, session_v, pops_v) + plan_added(
                session_v.take(j as int),
                raw_v,
            );
            let name = session[j].0.as_str();
            match kv_lookup(&raw, name) {
                Some(u) => {
                    proof {
                        assert(kv_contains(raw_v, session_v[j as int].0));
                        assert(plan_raw(raw_v, session_v, pops_v) + plan_added(
                            session_v.take(j + 1),
                            raw_v,
                        ) =~= plan_now);
                    }
                },
                None => {
                    let token = seal(&secret, name, session[j].1.as_str());
                    let e = SetCookie { name: name.to_owned(), value: token, expired: false };
                    proof {
                        assert(!kv_contains(raw_v, session_v[j as int].0));
                        lemma_entries_ok_push(
                            secret_v,
                            out@,
                            plan_now,
                            e,
                            (session_v[j as int].0, CookieKind::Sealed(session_v[j as int].1)),
                        );
                        assert(plan_raw(raw_v, session_v, pops_v) + plan_added(
                            session_v.take(j + 1),
                            raw_v,
                        ) =~= plan_now.push(
                            (session_v[j as int].0, CookieKind::Sealed(session_v[j as int].1)),
                        ));
                    }
                    out.push(e);
                },
            }
            j = j + 1;
        }
        proof {
            assert(session_v.take(m as int) =~= session_v);
            assert(plan_pops(pops_v.take(0)) =~= Seq::<(Seq<char>, CookieKind)>::empty());
            assert(plan_raw(raw_v, session_v, pops_v) + plan_added(session_v, raw_v) + plan_pops(
                pops_v.take(0),
            ) =~= plan_raw(raw_v, session_v, pops_v) + plan_added(session_v, raw_v));
        }
        let q = pops.len();
        let mut w: usize = 0;
        while w < q
            invariant
                0 <= w <= q,
                q == pops@.len(),
                raw_v == kv_views(raw@),
                session_v == kv_views(session@),
                pops_v == views_of(pops@),
                secret_v == secret@,
                entries_ok(
                    secret_v,
                    out@,
                    plan_raw(raw_v, session_v, pops_v) + plan_added(session_v, raw_v) + plan_pops(
                        pops_v.take(w as int),
                    ),
                ),
            decreases q - w,
        {
            proof {
                assert(views_of(pops@)[w as int] == pops@[w as int]@);
            }
            let ghost plan_now = plan_raw(raw_v, session_v, pops_v) + plan_added(session_v, raw_v)
                + plan_pops(pops_v.take(w as int));
            let e = SetCookie { name: pops[w].clone(), value: String::new(), expired: true };
            proof {
                lemma_entries_ok_push(
                    secret_v,
                    out@,
                    plan_now,
                    e,
                    (pops_v[w as int], CookieKind::Expired),
                );
                assert(plan_pops(pops_v.take(w + 1)) =~= plan_pops(pops_v.take(w as int)).push(
                    (pops_v[w as int], CookieKind::Expired),
                ));
                assert(plan_raw(raw_v, session_v, pops_v) + plan_added(session_v, raw_v)
                    + plan_pops(pops_v.take(w + 1)) =~= plan_now.push(
                    (pops_v[w as int], CookieKind::Expired),
                ));
            }
            out.push(e);
            w = w + 1;
        }
        proof {
            assert(pops_v.take(q as int) =~= pops_v);
        }
        out
    }
}

/// All keys of an upsert result, index-wise: each is the upserted key or
/// stood in the list before.
proof fn lemma_kv_upsert_keys_all(s: Seq<(Seq<char>, Seq<char>)>, k: Seq<char>, v: Seq<char>)
    ensures
        forall|i: int| 0 <= i < kv_upsert(s, k, v).len() ==> (#[trigger] kv_upsert(s, k, v)[i]).0
            == k || kv_contains(s, kv_upsert(s, k, v)[i].0),
{
    crate::kv::lemma_kv_upsert_keys(s, k, v);
}

/// The unsealed entries of a unique-keyed raw list have unique keys, each
/// a raw key.
pub proof fn lemma_unsealed_keys(secret: Seq<u8>, raw: Seq<(Seq<char>, Seq<char>)>)
    requires
        kv_unique(raw),
    ensures
        kv_unique(unsealed_entries(secret, raw)),
        forall|i: int| 0 <= i < unsealed_entries(secret, raw).len() ==> exists|w: int|
            0 <= w < raw.len() && (#[trigger] unsealed_entries(secret, raw)[i]).0 == (
            #[trigger] raw[w]).0,
    decreases raw.len(),
{
    if raw.len() > 0 {
        let head = raw.drop_last();
        assert(kv_unique(head)) by {
            assert(forall|i: int| 0 <= i < head.len() ==> #[trigger] head[i] == raw[i]);
        }
        lemma_unsealed_keys(secret, head);
        let t = unsealed_entries(secret, head);
        let u = unsealed_entries(secret, raw);
        match unseal_of(secret, raw.last().0, raw.last().1) {
            None => {
                assert(u =~= t);
                assert forall|i: int| 0 <= i < u.len() implies exists|w: int|
                    0 <= w < raw.len() && (#[trigger] u[i]).0 == (#[trigger] raw[w]).0 by {
                    let w = choose|w: int| 0 <= w < head.len() && t[i].0 == head[w].0;
                    assert(u[i].0 == raw[w].0);
                }
            },
            Some(p) => {
                assert(u =~= t.push((raw.last().0, p)));
                assert forall|i: int| 0 <= i < u.len() implies exists|w: int|
                    0 <= w < raw.len() && (#[trigger] u[i]).0 == (#[trigger] raw[w]).0 by {
                    if i < t.len() {
                        let w = choose|w: int| 0 <= w < head.len() && t[i].0 == head[w].0;
                        assert(u[i].0 == raw[w].0);
                    } else {
                        assert(u[i].0 == raw[raw.len() - 1].0);
                    }
                }
                assert forall|i: int, j: int| 0 <= i < j < u.len() implies (#[trigger] u[i]).0 != (
                #[trigger] u[j]).0 by {
                    if j == u.len() - 1 {
                        let w = choose|w: int| 0 <= w < head.len() && u[i].0 == head[w].0;
                        assert(raw[w].0 != raw[raw.len() - 1].0);
                    } else {
                        assert(u[i] == t[i] && u[j] == t[j]);
                    }
                }
            },
        }
    }
}

/// Removes every pair with the given key from an association vector.
fn remove_from_assoc(v: &mut Vec<(String, String)>, key: &str)
    ensures
        kv_views(final(v)@) == kv_remove(kv_views(old(v)@), key@),
{
    let ghost orig = kv_views(v@);
    let mut out: Vec<(String, String)> = Vec::new();
    let n = v.len();
    let mut i: usize = 0;
    proof {
        assert(orig.take(0) =~= Seq::<(Seq<char>, Seq<char>)>::empty());
        assert(kv_views(out@) =~= kv_remove_partial(orig, 0, key@));
    }
    while i < n
        invariant
            0 <= i <= n,
            n == v@.len(),
            v@ == old(v)@,
            orig == kv_views(v@),
            kv_views(out@) == kv_remove_partial(orig, i as int, key@),
        decreases n - i,
    {
        proof {
            lemma_kv_views_index(v@, i as int);
            lemma_kv_remove_partial_step(orig, i as int, key@);
        }
        if !crate::strutil::str_eq(v[i].0.as_str(), key) {
            let ghost before = kv_views(out@);
            let pair = (v[i].0.clone(), v[i].1.clone());
            out.push(pair);
            proof {
                assert(kv_views(out@) =~= before.push(orig[i as int]));
            }
        }
        i = i + 1;
    }
    proof {
        lemma_kv_remove_partial_all(orig, key@);
    }
    *v = out;
}

/// `kv_remove` applied to the first `i` entries only.
spec fn kv_remove_partial(s: Seq<(Seq<char>, Seq<char>)>, i: int, k: Seq<char>) -> Seq<
    (Seq<char>, Seq<char>),
> {
    kv_remove(s.take(i), k)
}

proof fn lemma_kv_remove_partial_step(s: Seq<(Seq<char>, Seq<char>)>, i: int, k: Seq<char>)
    requires
        0 <= i < s.len(),
    ensures
        s[i].0 == k ==> kv_remove_partial(s, i + 1, k) == kv_remove_partial(s, i, k),
        s[i].0 != k ==> kv_remove_partial(s, i + 1, k) == kv_remove_partial(s, i, k).push(s[i]),
{
    lemma_kv_remove_snoc(s.take(i), s[i], k);
    assert(s.take(i + 1) =~= s.take(i).push(s[i]));
}

proof fn lemma_kv_remove_snoc(s: Seq<(Seq<char>, Seq<char>)>, p: (Seq<char>, Seq<char>), k: Seq<
    char,
>)
    ensures
        p.0 == k ==> kv_remove(s.push(p), k) == kv_remove(s, k),
        p.0 != k ==> kv_remove(s.push(p), k) == kv_remove(s, k).push(p),
    decreases s.len(),
{
    if s.len() == 0 {
        assert(s.push(p).drop_first() =~= s);
        assert(s.push(p)[0] == p);
        if p.0 == k {
            assert(kv_remove(s.push(p), k) == kv_remove(s.push(p).drop_first(), k));
            assert(kv_remove(s.push(p), k) =~= kv_remove(s, k));
        } else {
            assert(kv_remove(s.push(p), k) == seq![p] + kv_remove(s.push(p).drop_first(), k));
            assert(kv_remove(s.push(p), k) =~= kv_remove(s, k).push(p));
        }
    } else {
        assert(s.push(p).drop_first() =~= s.drop_first().push(p));
        lemma_kv_remove_snoc(s.drop_first(), p, k);
        assert(s.push(p)[0] == s[0]);
        assert(kv_remove(s.push(p), k) == if s[0].0 == k {
            kv_remove(s.drop_first().push(p), k)
        } else {
            seq![s[0]] + kv_remove(s.drop_first().push(p), k)
        });
        assert(kv_remove(s, k) == if s[0].0 == k {
            kv_remove(s.drop_first(), k)
        } else {
            seq![s[0]] + kv_remove(s.drop_first(), k)
        });
        if p.0 == k {
            assert(kv_remove(s.drop_first().push(p), k) == kv_remove(s.drop_first(), k));
            assert(kv_remove(s.push(p), k) =~= kv_remove(s, k));
        } else {
            assert(kv_remove(s.drop_first().push(p), k) == kv_remove(s.drop_first(), k).push(p));
            assert(kv_remove(s.push(p), k) =~= kv_remove(s, k).push(p));
        }
    }
}

proof fn lemma_kv_remove_partial_all(s: Seq<(Seq<char>, Seq<char>)>, k: Seq<char>)
    ensures
        kv_remove_partial(s, s.len() as int, k) == kv_remove(s, k),
{
    assert(s.take(s.len() as int) =~= s);
}

/// Removes every occurrence of `key` from a string vector.
fn remove_key(v: &mut Vec<String>, key: &str)
    ensures
        views_of(final(v)@) == keys_remove(views_of(old(v)@), key@),
{
    let ghost orig = views_of(v@);
    let mut out: Vec<String> = Vec::new();
    let n = v.len();
    let mut i: usize = 0;
    proof {
        assert(orig.take(0) =~= Seq::<Seq<char>>::empty());
        assert(views_of(out@) =~= keys_remove(orig.take(0), key@));
    }
    while i < n
        invariant
            0 <= i <= n,
            n == v@.len(),
            v@ == old(v)@,
            orig == views_of(v@),
            views_of(out@) == keys_remove(orig.take(i as int), key@),
        decreases n - i,
    {
        proof {
            assert(views_of(v@)[i as int] == v@[i as int]@);
            lemma_keys_remove_snoc(orig.take(i as int), orig[i as int], key@);
            assert(orig.take(i + 1) =~= orig.take(i as int).push(orig[i as int]));
        }
        if !crate::strutil::str_eq(v[i].as_str(), key) {
            let ghost before = views_of(out@);
            let item = v[i].clone();
            out.push(item);
            proof {
                assert(views_of(out@) =~= before.push(orig[i as int]));
            }
        }
        i = i + 1;
    }
    proof {
        assert(orig.take(n as int) =~= orig);
    }
    *v = out;
}

proof fn lemma_keys_remove_snoc(s: Seq<Seq<char>>, x: Seq<char>, k: Seq<char>)
    ensures
        x == k ==> keys_remove(s.push(x), k) == keys_remove(s, k),
        x != k ==> keys_remove(s.push(x), k) == keys_remove(s, k).push(x),
    decreases s.len(),
{
    if s.len() == 0 {
        assert(s.push(x).drop_first() =~= s);
        assert(s.push(x)[0] == x);
        if x == k {
            assert(keys_remove(s.push(x), k) == keys_remove(s.push(x).drop_first(), k));
            assert(keys_remove(s.push(x), k) =~= keys_remove(s, k));
        } else {
            assert(keys_remove(s.push(x), k) == seq![x] + keys_remove(s.push(x).drop_first(), k));
            assert(keys_remove(s.push(x), k) =~= keys_remove(s, k).push(x));
        }
    } else {
        assert(s.push(x).drop_first() =~= s.drop_first().push(x));
        lemma_keys_remove_snoc(s.drop_first(), x, k);
        assert(s.push(x)[0] == s[0]);
        assert(keys_remove(s.push(x), k) == if s[0] == k {
            keys_remove(s.drop_first().push(x), k)
        } else {
            seq![s[0]] + keys_remove(s.drop_first().push(x), k)
        });
        assert(keys_remove(s, k) == if s[0] == k {
            keys_remove(s.drop_first(), k)
        } else {
            seq![s[0]] + keys_remove(s.drop_first(), k)
        });
        if x == k {
            assert(keys_remove(s.drop_first().push(x), k) == keys_remove(s.drop_first(), k));
            assert(keys_remove(s.push(x), k) =~= keys_remove(s, k));
        } else {
            assert(keys_remove(s.drop_first().push(x), k) == keys_remove(s.drop_first(), k).push(x));
            assert(keys_remove(s.push(x), k) =~= keys_remove(s, k).push(x));
        }
    }
}

/// Whether a string vector holds `key`.
fn contains_key(v: &Vec<String>, key: &str) -> (r: bool)
    ensures
        r == views_of(v@).contains(key@),
{
    let n = v.len();
    let mut i: usize = 0;
    while i < n
        invariant
            0 <= i <= n,
            n == v@.len(),
            forall|j: int| 0 <= j < i ==> views_of(v@)[j] != key@,
        decreases n - i,
    {
        proof {
            assert(views_of(v@)[i as int] == v@[i as int]@);
        }
        if crate::strutil::str_eq(v[i].as_str(), key) {
            proof {
                assert(views_of(v@)[i as int] == key@);
            }
            return true;
        }
        i = i + 1;
    }
    proof {
        if views_of(v@).contains(key@) {
            let w = choose|w: int| 0 <= w < views_of(v@).len() && views_of(v@)[w] == key@;
        }
    }
    false
}

proof fn lemma_contains_key(s: Seq<Seq<char>>, k: Seq<char>)
    requires
        s.contains(k),
    ensures
        exists|i: int| 0 <= i < s.len() && s[i] == k,
{
}

} // verus!
