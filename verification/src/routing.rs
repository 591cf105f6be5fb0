//! Routes and the ordered first-match lookup: the earliest-registered
//! route whose pattern matches the path decides the outcome, whatever
//! later routes would allow.
use vstd::prelude::*;
use crate::pattern::{
    pattern_matches, template_segments, valid_template, PatternError, RoutePattern,
};
use crate::Method;

verus! {

/// One registered route: a compiled pattern, the methods it accepts (an
/// empty list accepting all), and the identifier of its handler. Routes
/// are immutable once registered.
pub struct Route {
    pub pattern: RoutePattern,
    pub methods: Vec<Method>,
    pub handler: usize,
}

impl Route {
    pub open spec fn wf(&self) -> bool {
        self.pattern.wf()
    }

    /// Whether this route accepts the method: an empty method list
    /// accepts every method.
    pub open spec fn allows(&self, m: Method) -> bool {
        self.methods@.len() == 0 || self.methods@.contains(m)
    }

    /// Compiles `route` into a route for all methods; fails fast on a
    /// malformed template.
    pub fn new(route: &str, handler: usize) -> (r: Result<Route, PatternError>)
        ensures
            r is Ok <==> valid_template(route@),
            match r {
                Ok(rt) => rt.pattern@ == template_segments(route@) && rt.wf() && rt.methods@
                    == Seq::<Method>::empty() && rt.handler == handler,
                Err(e) => e == PatternError::InvalidPattern,
            },
    {
        match RoutePattern::compile(route) {
            Ok(pattern) => {
                let rt = Route { pattern, methods: Vec::new(), handler };
                proof {
                    assert(rt.methods@ =~= Seq::<Method>::empty());
                }
                Ok(rt)
            },
            Err(e) => Err(e),
        }
    }

    /// Compiles `route` into a route for the given methods only.
    pub fn with_methods(route: &str, handler: usize, methods: &[Method]) -> (r: Result<
        Route,
        PatternError,
    >)
        ensures
            r is Ok <==> valid_template(route@),
            match r {
                Ok(rt) => rt.pattern@ == template_segments(route@) && rt.wf() && rt.methods@
                    == methods@ && rt.handler == handler,
                Err(e) => e == PatternError::InvalidPattern,
            },
    {
        match RoutePattern::compile(route) {
            Ok(pattern) => Ok(Route { pattern, methods: vstd::slice::slice_to_vec(methods), handler }),
            Err(e) => Err(e),
        }
    }

    /// Whether this route accepts the method.
    pub fn method_allowed(&self, m: Method) -> (r: bool)
        ensures
            r == self.allows(m),
    {
        let n = self.methods.len();
        if n == 0 {
            return true;
        }
        let mut i: usize = 0;
        while i < n
            invariant
                0 <= i <= n,
                n == self.methods@.len(),
                forall|j: int| 0 <= j < i ==> self.methods@[j] != m,
            decreases n - i,
        {
            if self.methods[i] == m {
                return true;
            }
            i = i + 1;
        }
        proof {
            if self.methods@.contains(m) {
                let w = choose|w: int| 0 <= w < self.methods@.len() && self.methods@[w] == m;
            }
        }
        false
    }
}

/// The index of the earliest route at or after `i` whose pattern matches
/// the path.
pub open spec fn first_match_from(routes: Seq<Route>, path: Seq<char>, i: int) -> Option<int>
    decreases routes.len() - i,
{
    if i < 0 || i >= routes.len() {
        None
    } else if pattern_matches(routes[i].pattern@, path) {
        Some(i)
    } else {
        first_match_from(routes, path, i + 1)
    }
}

/// The index of the earliest route whose pattern matches the path.
pub open spec fn first_match(routes: Seq<Route>, path: Seq<char>) -> Option<int> {
    first_match_from(routes, path, 0)
}

/// The decision the route table reaches for one request, before handler
/// dispatch: the first path-matching route wins; its method set alone
/// decides between found and method-not-allowed; no match is a miss.
pub enum RouteDecision {
    Found(int),
    MethodNotAllowed(int),
    NotFound,
}

pub open spec fn route_decision(routes: Seq<Route>, path: Seq<char>, m: Method) -> RouteDecision {
    match first_match(routes, path) {
        None => RouteDecision::NotFound,
        Some(i) => if routes[i].allows(m) {
            RouteDecision::Found(i)
        } else {
            RouteDecision::MethodNotAllowed(i)
        },
    }
}

pub proof fn lemma_first_match_from(routes: Seq<Route>, path: Seq<char>, i: int)
    requires
        0 <= i <= routes.len(),
    ensures
        match first_match_from(routes, path, i) {
            Some(w) => i <= w < routes.len() && pattern_matches(routes[w].pattern@, path) && (
            forall|v: int| i <= v < w ==> !pattern_matches(routes[v].pattern@, path)),
            None => forall|v: int|
                i <= v < routes.len() ==> !pattern_matches(routes[v].pattern@, path),
        },
    decreases routes.len() - i,
{
    if i < routes.len() && !pattern_matches(routes[i].pattern@, path) {
        lemma_first_match_from(routes, path, i + 1);
    }
}

/// Route lookup is order-sensitive: when the route at `i` matches the
/// path and no earlier route does, the decision is settled by that
/// route's method set alone — a later route matching the path, whatever
/// methods it allows, plays no part.
pub proof fn lemma_route_order_sensitive(routes: Seq<Route>, path: Seq<char>, m: Method, i: int)
    requires
        0 <= i < routes.len(),
        pattern_matches(routes[i].pattern@, path),
        forall|v: int| 0 <= v < i ==> !pattern_matches(routes[v].pattern@, path),
    ensures
        first_match(routes, path) == Some(i),
        route_decision(routes, path, m) == if routes[i].allows(m) {
            RouteDecision::Found(i)
        } else {
            RouteDecision::MethodNotAllowed(i)
        },
{
    lemma_first_match_upto(routes, path, i, 0);
}

proof fn lemma_first_match_upto(routes: Seq<Route>, path: Seq<char>, i: int, w: int)
    requires
        0 <= w <= i < routes.len(),
        pattern_matches(routes[i].pattern@, path),
        forall|v: int| w <= v < i ==> !pattern_matches(routes[v].pattern@, path),
    ensures
        first_match_from(routes, path, w) == Some(i),
    decreases i - w,
{
    if w < i {
        lemma_first_match_upto(routes, path, i, w + 1);
    }
}

} // verus!
