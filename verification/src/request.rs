//! The incoming request as the handler sees it: method, parsed path and
//! query, the captures of the route match, and the body with its form
//! decoding. Handlers borrow it; it never changes during handling.
use vstd::prelude::*;
use crate::codec::{decode, decode_map, multimap_view, StringMultiMap};
use crate::pattern::CaptureMap;
use crate::strutil::{find_from, lemma_spec_find_at, lemma_spec_find_none, opt_view, spec_find};
use crate::Method;

verus! {

/// The request target with any `#`-fragment removed.
pub open spec fn strip_fragment(t: Seq<char>) -> Seq<char> {
    match spec_find(t, '#') {
        None => t,
        Some(i) => t.take(i),
    }
}

/// Whether a request target can be decomposed at all: it must be an
/// absolute path, beginning with `/`.
pub open spec fn target_ok(t: Seq<char>) -> bool {
    t.len() > 0 && t[0] == '/'
}

/// The path of a request target: everything before the first `?` (and
/// before any fragment).
pub open spec fn target_path(t: Seq<char>) -> Seq<char> {
    let u = strip_fragment(t);
    match spec_find(u, '?') {
        None => u,
        Some(i) => u.take(i),
    }
}

/// The query string of a request target: everything after the first `?`
/// (up to any fragment), or nothing when there is no `?`.
pub open spec fn target_query(t: Seq<char>) -> Option<Seq<char>> {
    let u = strip_fragment(t);
    match spec_find(u, '?') {
        None => None,
        Some(i) => Some(u.skip(i + 1)),
    }
}

/// Decomposes a request target into path and optional query string,
/// dropping any fragment; fails exactly when the target does not begin
/// with `/`.
pub fn split_target(target: &str) -> (r: Option<(String, Option<String>)>)
    ensures
        r is Some <==> target_ok(target@),
        match r {
            Some(pq) => pq.0@ == target_path(target@) && opt_view(pq.1) == target_query(target@),
            None => true,
        },
{
    let n = target.unicode_len();
    if n == 0 || target.get_char(0) != '/' {
        return None;
    }
    let h = match find_from(target, 0, '#') {
        Some(i) => i,
        None => n,
    };
    let ghost u = strip_fragment(target@);
    proof {
        if h < n {
            lemma_spec_find_at(target@, '#', h as int);
        } else {
            lemma_spec_find_none(target@, '#');
        }
        assert(u =~= target@.subrange(0, h as int));
    }
    match find_from(target, 0, '?') {
        Some(qi) if qi < h => {
            let path = target.substring_char(0, qi).to_owned();
            let query = target.substring_char(qi + 1, h).to_owned();
            proof {
                assert forall|j: int| 0 <= j < qi implies u[j] != '?' by {
                    assert(u[j] == target@[j]);
                }
                assert(u[qi as int] == target@[qi as int]);
                lemma_spec_find_at(u, '?', qi as int);
                assert(u.take(qi as int) =~= target@.subrange(0, qi as int));
                assert(u.skip(qi + 1) =~= target@.subrange(qi + 1, h as int));
            }
            Some((path, Some(query)))
        },
        _ => {
            let path = target.substring_char(0, h).to_owned();
            proof {
                assert forall|j: int| 0 <= j < u.len() implies u[j] != '?' by {
                    assert(u[j] == target@[j]);
                }
                lemma_spec_find_none(u, '?');
            }
            Some((path, None))
        },
    }
}

/// Capability marker for the request-attached, read-only facades.
pub enum RequestMarker {
    Marker,
}

/// One incoming request. `path` and `query` are absent when the request
/// target could not be parsed (the request then fails with status 500).
pub struct Request {
    pub method: Method,
    pub headers: Vec<(String, String)>,
    pub path: Option<String>,
    pub query: Option<String>,
    pub vars: CaptureMap,
    pub body: String,
}

impl Request {
    /// The query string this request carries, or nothing.
    pub open spec fn query_view(&self) -> Seq<char> {
        match self.query {
            Some(q) => q@,
            None => Seq::empty(),
        }
    }

    pub fn new(
        method: Method,
        headers: Vec<(String, String)>,
        path: Option<String>,
        query: Option<String>,
        vars: CaptureMap,
        body: String,
    ) -> (r: Request)
        ensures
            r.method == method,
            r.headers == headers,
            r.path == path,
            r.query == query,
            r.vars == vars,
            r.body == body,
    {
        Request { method, headers, path, query, vars, body }
    }

    /// The first value of the named header, compared exactly.
    pub fn header(&self, name: &str) -> (r: Option<String>)
        ensures
            crate::strutil::opt_view(r) == crate::kv::kv_get(
                crate::kv::kv_views(self.headers@),
                name@,
            ),
    {
        crate::kv::kv_lookup(&self.headers, name)
    }

    /// The query string decoded as `key=value&...` pairs.
    pub fn gets(&self) -> (r: StringMultiMap)
        ensures
            multimap_view(r) == decode_map(self.query_view()),
    {
        match &self.query {
            Some(q) => decode(q.as_str()),
            None => {
                let r = decode("");
                proof {
                    reveal_strlit("");
                    assert(""@ =~= Seq::<char>::empty());
                }
                r
            },
        }
    }

    /// The body decoded as form data. Decoding is total, so this cannot
    /// fail, whatever the body holds.
    pub fn form(&self) -> (r: StringMultiMap)
        ensures
            multimap_view(r) == decode_map(self.body@),
    {
        decode(self.body.as_str())
    }
}

} // verus!
