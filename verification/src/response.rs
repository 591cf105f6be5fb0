//! The outgoing response: status, headers and body, plus the jar whose
//! state becomes the `Set-Cookie` headers, and the write-capable session
//! and cookie facades. `send` is the single, terminal serialization
//! step: it consumes the response and its jar.
use vstd::prelude::*;
use crate::cookies::Cookies;
use crate::jar::{cookie_plan, entries_ok, Jar, SetCookie};
use crate::kv::{kv_unique, kv_upsert, kv_views, lemma_kv_upsert};
use crate::session::Session;
use crate::strutil::{spec_decimal, u64_to_string};

verus! {

/// Capability marker for the response-attached, write-capable facades.
pub enum ResponseMarker {
    Marker,
}

/// What a handler may send: anything that decodes to a body and a
/// status.
pub trait Sendable {
    /// The body this value stands for.
    spec fn spec_body(&self) -> Seq<char>;

    /// The status this value stands for.
    spec fn spec_status(&self) -> u16;

    /// Turns the value into its body and status.
    fn decode(self) -> (r: (String, u16))
        ensures
            r.0@ == self.spec_body(),
            r.1 == self.spec_status(),
    ;
}

impl Sendable for String {
    open spec fn spec_body(&self) -> Seq<char> {
        self@
    }

    open spec fn spec_status(&self) -> u16 {
        200
    }

    fn decode(self) -> (r: (String, u16)) {
        (self, 200)
    }
}

impl<'a> Sendable for &'a str {
    open spec fn spec_body(&self) -> Seq<char> {
        self@
    }

    open spec fn spec_status(&self) -> u16 {
        200
    }

    fn decode(self) -> (r: (String, u16)) {
        (self.to_owned(), 200)
    }
}

impl<'a> Sendable for (&'a str, u16) {
    open spec fn spec_body(&self) -> Seq<char> {
        self.0@
    }

    open spec fn spec_status(&self) -> u16 {
        self.1
    }

    fn decode(self) -> (r: (String, u16)) {
        (self.0.to_owned(), self.1)
    }
}

impl Sendable for u16 {
    open spec fn spec_body(&self) -> Seq<char> {
        Seq::empty()
    }

    open spec fn spec_status(&self) -> u16 {
        *self
    }

    fn decode(self) -> (r: (String, u16)) {
        let body = String::new();
        proof {
            assert(body@ =~= Seq::<char>::empty());
        }
        (body, self)
    }
}

/// A fully serialized response, ready for the transport: the ordinary
/// headers, the `Set-Cookie` entries, and the body. The transport frames
/// the status line and writes each `Set-Cookie` entry as its own header.
pub struct WireResponse {
    pub status: u16,
    pub headers: Vec<(String, String)>,
    pub set_cookies: Vec<SetCookie>,
    pub body: String,
}

/// The outgoing response a handler mutates and finally sends.
pub struct Response {
    status: u16,
    headers: Vec<(String, String)>,
    body: String,
    jar: Jar,
}

impl Response {
    pub closed spec fn status_view(&self) -> u16 {
        self.status
    }

    pub closed spec fn headers_view(&self) -> Seq<(Seq<char>, Seq<char>)> {
        kv_views(self.headers@)
    }

    pub closed spec fn body_view(&self) -> Seq<char> {
        self.body@
    }

    pub closed spec fn jar_view(&self) -> Jar {
        self.jar
    }

    pub open spec fn wf(&self) -> bool {
        self.jar_view().wf() && kv_unique(self.headers_view())
    }

    /// A fresh response: status 200, no headers, empty body, carrying
    /// the request's jar.
    pub fn new(jar: Jar) -> (r: Response)
        requires
            jar.wf(),
        ensures
            r.wf(),
            r.status_view() == 200,
            r.headers_view() == Seq::<(Seq<char>, Seq<char>)>::empty(),
            r.body_view() == Seq::<char>::empty(),
            r.jar_view() == jar,
    {
        let r = Response { status: 200, headers: Vec::new(), body: String::new(), jar };
        proof {
            assert(r.headers_view() =~= Seq::<(Seq<char>, Seq<char>)>::empty());
            assert(r.body_view() =~= Seq::<char>::empty());
        }
        r
    }

    /// Sets the response status.
    pub fn status(&mut self, status: u16)
        ensures
            final(self).status_view() == status,
            final(self).headers_view() == old(self).headers_view(),
            final(self).body_view() == old(self).body_view(),
            final(self).jar_view() == old(self).jar_view(),
            old(self).wf() ==> final(self).wf(),
    {
        self.status = status;
    }

    /// Sets a header, replacing any earlier value of the same name.
    pub fn set_header(&mut self, name: &str, value: &str)
        ensures
            final(self).headers_view() == kv_upsert(old(self).headers_view(), name@, value@),
            final(self).status_view() == old(self).status_view(),
            final(self).body_view() == old(self).body_view(),
            final(self).jar_view() == old(self).jar_view(),
            old(self).wf() ==> final(self).wf(),
    {
        proof {
            lemma_kv_upsert(self.headers_view(), name@, value@);
        }
        crate::kv::kv_set(&mut self.headers, name, value);
    }

    /// The write-capable session facade, backed by this response's jar.
    pub fn session(&mut self) -> (s: Session<'_, crate::response::ResponseMarker>)
        ensures
            s.jar_now() == old(self).jar_view(),
            final(self).jar_view() == *final (s.jar),
            final(self).status_view() == old(self).status_view(),
            final(self).headers_view() == old(self).headers_view(),
            final(self).body_view() == old(self).body_view(),
    {
        Session::new(&mut self.jar)
    }

    /// The write-capable cookie facade, backed by this response's jar.
    pub fn cookies(&mut self) -> (c: Cookies<'_, crate::response::ResponseMarker>)
        ensures
            c.jar_now() == old(self).jar_view(),
            final(self).jar_view() == *final (c.jar),
            final(self).status_view() == old(self).status_view(),
            final(self).headers_view() == old(self).headers_view(),
            final(self).body_view() == old(self).body_view(),
    {
        Cookies::new(&mut self.jar)
    }

    /// Serializes the response: the sent value's status and body, the
    /// headers with `Content-Length` set from the body's byte length
    /// (`0` for an empty body), and one `Set-Cookie` entry per planned
    /// cookie of the jar's final state. Terminal: the response and its
    /// jar are consumed.
    pub fn send<S: Sendable>(self, s: S) -> (r: WireResponse)
        requires
            self.wf(),
        ensures
            r.status == s.spec_status(),
            r.body@ == s.spec_body(),
            kv_views(r.headers@) == kv_upsert(
                self.headers_view(),
                "Content-Length"@,
                spec_decimal((vstd::utf8::encode_utf8(s.spec_body()).len() as usize) as nat),
            ),
            entries_ok(
                self.jar_view().secret_view(),
                r.set_cookies@,
                cookie_plan(
                    self.jar_view().raw_view(),
                    self.jar_view().session_view(),
                    self.jar_view().pops_view(),
                ),
            ),
    {
        let Response { status: _, mut headers, body: _, jar } = self;
        let (content, status) = s.decode();
        let blen = content.as_str().len();
        let value = u64_to_string(blen as u64);
        proof {
            lemma_kv_upsert(kv_views(headers@), "Content-Length"@, value@);
        }
        crate::kv::kv_set(&mut headers, "Content-Length", value.as_str());
        let set_cookies = jar.serialize_cookies();
        WireResponse { status, headers, set_cookies, body: content }
    }

    /// Sends a redirect to `path`: status 302 with a `Location` header
    /// and an empty body (so a `Content-Length` of `0`).
    pub fn redirect(self, path: &str) -> (r: WireResponse)
        requires
            self.wf(),
        ensures
            r.status == 302,
            r.body@ == Seq::<char>::empty(),
            kv_views(r.headers@) == kv_upsert(
                kv_upsert(self.headers_view(), "Location"@, path@),
                "Content-Length"@,
                spec_decimal(0),
            ),
            entries_ok(
                self.jar_view().secret_view(),
                r.set_cookies@,
                cookie_plan(
                    self.jar_view().raw_view(),
                    self.jar_view().session_view(),
                    self.jar_view().pops_view(),
                ),
            ),
    {
        let mut this = self;
        this.set_header("Location", path);
        let r = this.send(302u16);
        proof {
            assert(vstd::utf8::encode_utf8(Seq::<char>::empty()).len() == 0);
        }
        r
    }
}

} // verus!
