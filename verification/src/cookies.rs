//! The cookie facades: capability-scoped views of the plain sub-space of
//! one request's jar. As with the session facades, any facade can read,
//! but only the response-side `Cookies<'_, ResponseMarker>` can write.
use vstd::prelude::*;
use core::marker::PhantomData;
use crate::jar::{Jar, SessionError};
use crate::kv::{kv_get, kv_upsert};
use crate::response::ResponseMarker;
use crate::strutil::opt_view;

verus! {

/// A facade over the plain sub-space of a jar: values the client can see
/// and alter. The marker `T` carries the capability.
pub struct Cookies<'a, T> {
    /// The shared jar this facade is backed by.
    pub jar: &'a mut Jar,
    pub marker: PhantomData<T>,
}

impl<'a, T> Cookies<'a, T> {
    /// The jar as the facade sees it now.
    pub open spec fn jar_now(&self) -> Jar {
        *self.jar
    }

    pub fn new(jar: &'a mut Jar) -> (c: Cookies<'a, T>)
        ensures
            c.jar_now() == *old(jar),
            *final (jar) == *final (c.jar),
    {
        Cookies { jar, marker: PhantomData }
    }

    /// Reads a raw cookie value; for a name of the encrypted sub-space
    /// this is the sealed token, not the protected value.
    pub fn get(&self, key: &str) -> (r: Option<String>)
        ensures
            opt_view(r) == kv_get(self.jar_now().raw_view(), key@),
    {
        self.jar.cookie_get(key)
    }
}

impl<'a> Cookies<'a, ResponseMarker> {
    /// Writes a plain cookie; fails on a "no cookies" jar.
    pub fn set(self, key: &str, value: &str) -> (r: Result<(), SessionError>)
        requires
            self.jar_now().wf(),
        ensures
            (*final (self.jar)).wf(),
            match r {
                Ok(u) => self.jar_now().enabled() && (*final (self.jar)).raw_view() == kv_upsert(
                    self.jar_now().raw_view(),
                    key@,
                    value@,
                ),
                Err(e) => e == SessionError::CookiesDisabled && !self.jar_now().enabled()
                    && (*final (self.jar)) == self.jar_now(),
            },
            (*final (self.jar)).enabled() == self.jar_now().enabled(),
            (*final (self.jar)).secret_view() == self.jar_now().secret_view(),
            (*final (self.jar)).session_view() == self.jar_now().session_view(),
            (*final (self.jar)).pops_view() == self.jar_now().pops_view(),
    {
        self.jar.cookie_set(key, value)
    }
}

} // verus!
