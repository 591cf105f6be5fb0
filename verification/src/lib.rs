//! A verified micro web framework core: route-template compilation and
//! matching, ordered first-match dispatch, query/form decoding, and a
//! per-request cookie jar with a plain and an encrypted sub-space.
//!
//! The transport (listening, HTTP parsing) is not part of this crate: a
//! caller hands `Rask::handle` the request method, target, `Cookie` header
//! and body, and receives either a fully serialized response or the
//! identifier of the handler it should invoke, together with the request
//! and the response that handler is to consume.
use vstd::prelude::*;

pub mod codec;
pub mod cookies;
pub mod jar;
pub mod kv;
pub mod pattern;
pub mod request;
pub mod routing;
pub mod response;
pub mod session;
pub mod servestatic;
pub mod strutil;

use crate::jar::{cookie_plan, entries_ok, parse_cookie_header, unsealed_entries, Jar};
use crate::kv::{kv_upsert, kv_views};
use crate::pattern::{pattern_captures, valid_template, template_segments, CaptureMap, PatternError};
use crate::request::{split_target, target_ok, target_path, target_query, Request};
use crate::response::{Response, WireResponse};
use crate::routing::{
    first_match, lemma_first_match_from, route_decision, Route, RouteDecision,
};
use crate::strutil::{opt_view, spec_decimal};
use vstd::string::StringSliceAdditionalSpecFns;

verus! {

/// An HTTP request method. `Extension` stands for any method outside
/// the nine standard ones; such methods are not told apart, so a route
/// restricted to standard methods answers them all with 405, while a
/// route open to all methods accepts them.
#[derive(Clone, Copy, PartialEq, Eq, Structural, Debug, Hash)]
pub enum Method {
    Options,
    Get,
    Post,
    Put,
    Delete,
    Head,
    Trace,
    Connect,
    Patch,
    Extension,
}

/// What every handler implements. The application invokes a handler with
/// the request and the response it is to consume, and gets back the
/// serialized response.
pub trait Handler: Sync + Send {
    fn handle(&self, req: &Request, res: Response) -> WireResponse;
}

/// What the dispatcher decided for one request: either a handler must be
/// invoked with the assembled request and response, or the response is
/// already fully serialized (405, or a default 404/500).
pub enum Dispatch {
    Invoke { handler: usize, request: Request, response: Response },
    Done { wire: WireResponse },
}

/// The headers a freshly-created response acquires when a body of the
/// given content is sent: `Content-Length`, from the body's byte length.
pub open spec fn content_length_headers(body: Seq<char>) -> Seq<(Seq<char>, Seq<char>)> {
    kv_upsert(
        Seq::empty(),
        "Content-Length"@,
        spec_decimal((vstd::utf8::encode_utf8(body).len() as usize) as nat),
    )
}

/// The default handler for a missed route.
pub fn default_404_handler(_req: &Request, res: Response) -> (r: WireResponse)
    requires
        res.wf(),
        res.headers_view().len() == 0,
    ensures
        r.status == 404,
        r.body@ == "404 Not Found"@,
        kv_views(r.headers@) == content_length_headers("404 Not Found"@),
        entries_ok(
            res.jar_view().secret_view(),
            r.set_cookies@,
            cookie_plan(
                res.jar_view().raw_view(),
                res.jar_view().session_view(),
                res.jar_view().pops_view(),
            ),
        ),
{
    res.send(("404 Not Found", 404u16))
}

/// The default handler for an unparsable request target.
pub fn default_500_handler(_req: &Request, res: Response) -> (r: WireResponse)
    requires
        res.wf(),
        res.headers_view().len() == 0,
    ensures
        r.status == 500,
        r.body@ == "500 Internal server error"@,
        kv_views(r.headers@) == content_length_headers("500 Internal server error"@),
        entries_ok(
            res.jar_view().secret_view(),
            r.set_cookies@,
            cookie_plan(
                res.jar_view().raw_view(),
                res.jar_view().session_view(),
                res.jar_view().pops_view(),
            ),
        ),
{
    res.send(("500 Internal server error", 500u16))
}

/// The outcome of the route lookup for one request.
pub enum RouteMatch {
    Found(usize),
    MethodNotAllowed,
    NotFound,
}

/// The web application: an ordered route table, optional custom 404/500
/// handlers, and the secret that keys each request's cookie jar. The
/// route table is built once, before serving begins, and only read
/// afterwards.
pub struct Rask {
    routes: Vec<Route>,
    handler_404: Option<usize>,
    handler_500: Option<usize>,
    secret: Vec<u8>,
    cookies_enabled: bool,
}

impl Rask {
    pub closed spec fn routes_view(&self) -> Seq<Route> {
        self.routes@
    }

    pub closed spec fn secret_view(&self) -> Seq<u8> {
        self.secret@
    }

    pub closed spec fn cookies_on(&self) -> bool {
        self.cookies_enabled
    }

    pub closed spec fn handler_404_view(&self) -> Option<usize> {
        self.handler_404
    }

    pub closed spec fn handler_500_view(&self) -> Option<usize> {
        self.handler_500
    }

    pub open spec fn wf(&self) -> bool {
        &&& self.cookies_on() ==> self.secret_view().len() >= 32
        &&& forall|i: int| 0 <= i < self.routes_view().len() ==> (#[trigger] self.routes_view()[i]).wf()
    }

    /// A new application keyed with `secret`. The cookie crate derives
    /// the sealing key from it and demands at least 32 bytes of key
    /// material.
    pub fn new(secret: &str) -> (r: Rask)
        requires
            secret.spec_bytes().len() >= 32,
        ensures
            r.wf(),
            r.routes_view() == Seq::<Route>::empty(),
            r.handler_404_view() is None,
            r.handler_500_view() is None,
            r.secret_view() == secret.spec_bytes(),
            r.cookies_on(),
    {
        let r = Rask {
            routes: Vec::new(),
            handler_404: None,
            handler_500: None,
            secret: secret.as_bytes_vec(),
            cookies_enabled: true,
        };
        proof {
            assert(r.routes_view() =~= Seq::<Route>::empty());
        }
        r
    }

    /// Opts this application out of cookie support entirely: jars are
    /// created empty and disabled, and session/cookie writes fail.
    pub fn disable_cookies(&mut self)
        ensures
            !final(self).cookies_on(),
            final(self).routes_view() == old(self).routes_view(),
            final(self).handler_404_view() == old(self).handler_404_view(),
            final(self).handler_500_view() == old(self).handler_500_view(),
            final(self).secret_view() == old(self).secret_view(),
            old(self).wf() ==> final(self).wf(),
    {
        self.cookies_enabled = false;
    }

    /// Registers a handler for a route template, for all methods.
    /// Registration order is dispatch order. Fails fast on a malformed
    /// template, before the application can start.
    pub fn register(&mut self, route: &str, handler: usize) -> (r: Result<(), PatternError>)
        requires
            old(self).wf(),
        ensures
            final(self).wf(),
            r is Ok <==> valid_template(route@),
            match r {
                Ok(u) => final(self).routes_view().len() == old(self).routes_view().len() + 1
                    && final(self).routes_view().drop_last() == old(self).routes_view() && final(self).routes_view().last().pattern@ == template_segments(route@) && final(self).routes_view().last().methods@ == Seq::<Method>::empty() && final(self).routes_view().last().handler == handler,
                Err(e) => e == PatternError::InvalidPattern && final(self).routes_view() == old(self).routes_view(),
            },
            final(self).handler_404_view() == old(self).handler_404_view(),
            final(self).handler_500_view() == old(self).handler_500_view(),
            final(self).secret_view() == old(self).secret_view(),
            final(self).cookies_on() == old(self).cookies_on(),
    {
        match Route::new(route, handler) {
            Ok(rt) => {
                self.routes.push(rt);
                proof {
                    assert(final(self).routes_view().drop_last() =~= old(self).routes_view());
                }
                Ok(())
            },
            Err(e) => Err(e),
        }
    }

    /// Registers a handler for a route template, restricted to the given
    /// methods.
    pub fn register_with_methods(&mut self, route: &str, methods: &[Method], handler: usize) -> (r:
        Result<(), PatternError>)
        requires
            old(self).wf(),
        ensures
            final(self).wf(),
            r is Ok <==> valid_template(route@),
            match r {
                Ok(u) => final(self).routes_view().len() == old(self).routes_view().len() + 1
                    && final(self).routes_view().drop_last() == old(self).routes_view() && final(self).routes_view().last().pattern@ == template_segments(route@) && final(self).routes_view().last().methods@ == methods@ && final(self).routes_view().last().handler == handler,
                Err(e) => e == PatternError::InvalidPattern && final(self).routes_view() == old(self).routes_view(),
            },
            final(self).handler_404_view() == old(self).handler_404_view(),
            final(self).handler_500_view() == old(self).handler_500_view(),
            final(self).secret_view() == old(self).secret_view(),
            final(self).cookies_on() == old(self).cookies_on(),
    {
        match Route::with_methods(route, handler, methods) {
            Ok(rt) => {
                self.routes.push(rt);
                proof {
                    assert(final(self).routes_view().drop_last() =~= old(self).routes_view());
                }
                Ok(())
            },
            Err(e) => Err(e),
        }
    }

    /// Registers a custom error handler. Only the not-found (404) and
    /// internal-error (500) outcomes dispatch through one.
    pub fn register_error_handler(&mut self, status_code: u16, handler: usize)
        ensures
            final(self).handler_404_view() == if status_code == 404 {
                Some(handler)
            } else {
                old(self).handler_404_view()
            },
            final(self).handler_500_view() == if status_code == 500 {
                Some(handler)
            } else {
                old(self).handler_500_view()
            },
            final(self).routes_view() == old(self).routes_view(),
            final(self).secret_view() == old(self).secret_view(),
            final(self).cookies_on() == old(self).cookies_on(),
            old(self).wf() ==> final(self).wf(),
    {
        if status_code == 404 {
            self.handler_404 = Some(handler);
        } else if status_code == 500 {
            self.handler_500 = Some(handler);
        }
    }

    /// Registers a static-file handler under a URL prefix: the route is
    /// the prefix followed by the wildcard, restricted to GET. The
    /// handler resolves the path remainder under its root directory (see
    /// `servestatic`).
    pub fn serve_static(&mut self, url_prefix: &str, handler: usize) -> (r: Result<
        (),
        PatternError,
    >)
        requires
            old(self).wf(),
        ensures
            final(self).wf(),
            r is Ok <==> valid_template(url_prefix@ + "**"@),
            match r {
                Ok(u) => final(self).routes_view().len() == old(self).routes_view().len() + 1
                    && final(self).routes_view().drop_last() == old(self).routes_view() && final(self).routes_view().last().pattern@ == template_segments(url_prefix@ + "**"@) && final(self).routes_view().last().methods@ == seq![Method::Get] && final(self).routes_view().last().handler == handler,
                Err(e) => e == PatternError::InvalidPattern && final(self).routes_view() == old(self).routes_view(),
            },
            final(self).handler_404_view() == old(self).handler_404_view(),
            final(self).handler_500_view() == old(self).handler_500_view(),
            final(self).secret_view() == old(self).secret_view(),
            final(self).cookies_on() == old(self).cookies_on(),
    {
        let route = crate::strutil::concat2(url_prefix, "**");
        let methods = vec![Method::Get];
        proof {
            assert(methods@ =~= seq![Method::Get]);
        }
        self.register_with_methods(route.as_str(), methods.as_slice(), handler)
    }

    /// The raw cookie entries the jar of a request with this `Cookie`
    /// header will hold.
    pub open spec fn jar_raw_spec(&self, header: Option<&str>) -> Seq<(Seq<char>, Seq<char>)> {
        if self.cookies_on() {
            match header {
                Some(h) => parse_cookie_header(h@),
                None => Seq::empty(),
            }
        } else {
            Seq::empty()
        }
    }

    /// The decoded encrypted sub-space such a jar will hold.
    pub open spec fn jar_session_spec(&self, header: Option<&str>) -> Seq<(Seq<char>, Seq<char>)> {
        unsealed_entries(self.secret_view(), self.jar_raw_spec(header))
    }

    /// What the jar built for one request looks like.
    pub open spec fn fresh_jar_ok(&self, header: Option<&str>, j: Jar) -> bool {
        &&& j.wf()
        &&& j.enabled() == self.cookies_on()
        &&& j.raw_view() == self.jar_raw_spec(header)
        &&& j.session_view() == self.jar_session_spec(header)
        &&& j.pops_view().len() == 0
        &&& self.cookies_on() ==> j.secret_view() == self.secret_view()
    }

    /// What the response handed to a handler looks like: fresh, carrying
    /// the request's jar.
    pub open spec fn fresh_response_ok(&self, header: Option<&str>, rs: Response) -> bool {
        &&& rs.wf()
        &&& rs.status_view() == 200
        &&& rs.headers_view().len() == 0
        &&& rs.body_view().len() == 0
        &&& self.fresh_jar_ok(header, rs.jar_view())
    }

    /// What a response the dispatcher finished itself looks like: the
    /// given status and body, a `Content-Length` header, and one
    /// `Set-Cookie` entry per planned cookie of the request's jar.
    pub open spec fn error_wire_ok(
        &self,
        header: Option<&str>,
        wire: WireResponse,
        status: u16,
        body: Seq<char>,
    ) -> bool {
        &&& wire.status == status
        &&& wire.body@ == body
        &&& kv_views(wire.headers@) == content_length_headers(body)
        &&& entries_ok(
            self.secret_view(),
            wire.set_cookies@,
            cookie_plan(
                self.jar_raw_spec(header),
                self.jar_session_spec(header),
                Seq::<Seq<char>>::empty(),
            ),
        )
    }

    /// Looks the request's path up in the route table: the first route
    /// whose pattern matches the path decides, by its method set alone,
    /// between found and method-not-allowed; with no match at all, the
    /// request misses.
    fn find_route(&self, path: &str, method: Method) -> (r: RouteMatch)
        ensures
            match r {
                RouteMatch::Found(i) => route_decision(self.routes_view(), path@, method)
                    == RouteDecision::Found(i as int),
                RouteMatch::MethodNotAllowed => route_decision(self.routes_view(), path@, method)
                    matches RouteDecision::MethodNotAllowed(_),
                RouteMatch::NotFound => route_decision(self.routes_view(), path@, method)
                    == RouteDecision::NotFound,
            },
    {
        let n = self.routes.len();
        let mut i: usize = 0;
        while i < n
            invariant
                0 <= i <= n,
                n == self.routes@.len(),
                forall|j: int|
                    0 <= j < i ==> !crate::pattern::pattern_matches(
                        (#[trigger] self.routes@[j]).pattern@,
                        path@,
                    ),
            decreases n - i,
        {
            let hit = self.routes[i].pattern.matches(path);
            if hit.is_some() {
                proof {
                    crate::routing::lemma_route_order_sensitive(
                        self.routes_view(),
                        path@,
                        method,
                        i as int,
                    );
                }
                if self.routes[i].method_allowed(method) {
                    return RouteMatch::Found(i);
                } else {
                    return RouteMatch::MethodNotAllowed;
                }
            }
            i = i + 1;
        }
        proof {
            lemma_first_match_from(self.routes_view(), path@, 0);
            if first_match(self.routes_view(), path@) is Some {
                let w = first_match(self.routes_view(), path@).unwrap();
                assert(!crate::pattern::pattern_matches(self.routes@[w].pattern@, path@));
            }
        }
        RouteMatch::NotFound
    }

    /// Dispatches one request: builds the jar from the `Cookie` header,
    /// parses the target (an unparsable target becomes a 500), looks the
    /// path up in the route table, and either serializes the outcome
    /// itself (405, default 404/500) or hands back the handler to invoke
    /// with the assembled request and fresh response.
    pub fn handle(
        &self,
        method: Method,
        target: &str,
        headers: Vec<(String, String)>,
        cookie_header: Option<&str>,
        body: &str,
    ) -> (r: Dispatch)
        requires
            self.wf(),
        ensures
            !target_ok(target@) ==> match self.handler_500_view() {
                Some(h) => (r matches Dispatch::Invoke { handler, request, response }
                    && handler == h && request.method == method && request.headers == headers
                    && request.path is None && request.query is None && request.vars@.len() == 0
                    && request.body@ == body@ && self.fresh_response_ok(cookie_header, response)),
                None => (r matches Dispatch::Done { wire } && self.error_wire_ok(
                    cookie_header,
                    wire,
                    500,
                    "500 Internal server error"@,
                )),
            },
            target_ok(target@) ==> match route_decision(
                self.routes_view(),
                target_path(target@),
                method,
            ) {
                RouteDecision::Found(i) => (r matches Dispatch::Invoke { handler, request, response }
                    && handler == self.routes_view()[i].handler && request.method == method
                    && request.headers == headers && opt_view(request.path) == Some(
                    target_path(target@),
                ) && opt_view(request.query) == target_query(target@) && request.vars@
                    == pattern_captures(
                    self.routes_view()[i].pattern@,
                    target_path(target@),
                ) && request.body@ == body@ && self.fresh_response_ok(cookie_header, response)),
                RouteDecision::MethodNotAllowed(i) => (r matches Dispatch::Done { wire }
                    && self.error_wire_ok(cookie_header, wire, 405, "405 Method Not Allowed"@)),
                RouteDecision::NotFound => match self.handler_404_view() {
                    Some(h) => (r matches Dispatch::Invoke { handler, request, response }
                        && handler == h && request.method == method && request.headers == headers
                        && opt_view(request.path) == Some(target_path(target@)) && opt_view(
                        request.query,
                    ) == target_query(target@) && request.vars@.len() == 0 && request.body@
                        == body@ && self.fresh_response_ok(cookie_header, response)),
                    None => (r matches Dispatch::Done { wire } && self.error_wire_ok(
                        cookie_header,
                        wire,
                        404,
                        "404 Not Found"@,
                    )),
                },
            },
    {
        let jar = if self.cookies_enabled {
            Jar::from_header(self.secret.as_slice(), cookie_header)
        } else {
            Jar::without_cookies()
        };
        proof {
            if !self.cookies_on() {
                assert(unsealed_entries(self.secret_view(), Seq::empty()) =~= Seq::<
                    (Seq<char>, Seq<char>),
                >::empty());
            }
            assert(self.fresh_jar_ok(cookie_header, jar));
        }
        let response = Response::new(jar);
        match split_target(target) {
            None => {
                let request = Request::new(
                    method,
                    headers,
                    None,
                    None,
                    CaptureMap::new(),
                    body.to_owned(),
                );
                match self.handler_500 {
                    Some(h) => Dispatch::Invoke { handler: h, request, response },
                    None => {
                        let wire = default_500_handler(&request, response);
                        proof {
                            lemma_empty_plan_any_secret(
                                jar.secret_view(),
                                self.secret_view(),
                                wire.set_cookies@,
                                cookie_plan(
                                    self.jar_raw_spec(cookie_header),
                                    self.jar_session_spec(cookie_header),
                                    Seq::<Seq<char>>::empty(),
                                ),
                            );
                        }
                        Dispatch::Done { wire }
                    },
                }
            },
            Some((path, query)) => {
                match self.find_route(path.as_str(), method) {
                    RouteMatch::Found(i) => {
                        proof {
                            lemma_first_match_from(self.routes_view(), path@, 0);
                        }
                        let caps = match self.routes[i].pattern.matches(path.as_str()) {
                            Some(c) => c,
                            None => {
                                proof {
                                    crate::routing::lemma_first_match_from(
                                        self.routes_view(),
                                        path@,
                                        0,
                                    );
                                }
                                CaptureMap::new()
                            },
                        };
                        let handler = self.routes[i].handler;
                        let request = Request::new(
                            method,
                            headers,
                            Some(path),
                            query,
                            caps,
                            body.to_owned(),
                        );
                        Dispatch::Invoke { handler, request, response }
                    },
                    RouteMatch::MethodNotAllowed => {
                        let wire = response.send(("405 Method Not Allowed", 405u16));
                        proof {
                            lemma_empty_plan_any_secret(
                                jar.secret_view(),
                                self.secret_view(),
                                wire.set_cookies@,
                                cookie_plan(
                                    self.jar_raw_spec(cookie_header),
                                    self.jar_session_spec(cookie_header),
                                    Seq::<Seq<char>>::empty(),
                                ),
                            );
                        }
                        Dispatch::Done { wire }
                    },
                    RouteMatch::NotFound => {
                        let request = Request::new(
                            method,
                            headers,
                            Some(path),
                            query,
                            CaptureMap::new(),
                            body.to_owned(),
                        );
                        match self.handler_404 {
                            Some(h) => Dispatch::Invoke { handler: h, request, response },
                            None => {
                                let wire = default_404_handler(&request, response);
                                proof {
                                    lemma_empty_plan_any_secret(
                                        jar.secret_view(),
                                        self.secret_view(),
                                        wire.set_cookies@,
                                        cookie_plan(
                                            self.jar_raw_spec(cookie_header),
                                            self.jar_session_spec(cookie_header),
                                            Seq::<Seq<char>>::empty(),
                                        ),
                                    );
                                }
                                Dispatch::Done { wire }
                            },
                        }
                    },
                }
            },
        }
    }
}

/// When a plan is realized under one secret and the plan mentions no
/// sealed entry (or the two secrets agree), it is realized under the
/// other secret as well; used where a disabled jar's empty plan is
/// restated under the application's secret.
proof fn lemma_empty_plan_any_secret(
    s1: Seq<u8>,
    s2: Seq<u8>,
    out: Seq<crate::jar::SetCookie>,
    plan: Seq<(Seq<char>, crate::jar::CookieKind)>,
)
    requires
        entries_ok(s1, out, plan),
        s1 == s2 || plan.len() == 0,
    ensures
        entries_ok(s2, out, plan),
{
}

} // verus!
