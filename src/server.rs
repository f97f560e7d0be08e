//! The dispatcher: one route table per call mode, a replaceable fallback, and
//! the escalation of query calls to update calls.
use vstd::prelude::*;

use crate::http::{
    canonical_method, decoded_path, is_canonical_method, is_not_found_response, not_found_response,
    upper_of, uppercase, url_path, CallMode, Params, Request, Response, ResponseView,
};
use crate::pattern::{match_path, pattern_defect, valid_pattern};
use crate::router::{best_route, distinct_routes, has_route, route_segs, RouteError, RouteView, Router};

verus! {

/// Handler `h` can be called on every request and parameter set.
pub open spec fn accepts_all<H: Fn(&Request, &Params) -> Response>(h: H) -> bool {
    forall|req: &Request, ps: &Params| #[trigger] h.requires((req, ps))
}

/// `r` is a response that `h` may give for `req` with captured parameters `ps`.
pub open spec fn handler_gives<H: Fn(&Request, &Params) -> Response>(
    h: H,
    req: Request,
    ps: Seq<(Seq<char>, Seq<char>)>,
    r: Response,
) -> bool {
    exists|p: Params| p@ == ps && #[trigger] h.ensures((&req, &p), r)
}

/// Handler `h` answers equal requests with equal parameters alike.
pub open spec fn is_pure<H: Fn(&Request, &Params) -> Response>(h: H) -> bool {
    forall|req: Request, pa: Params, pb: Params, a: Response, b: Response|
        pa@ == pb@ && #[trigger] h.ensures((&req, &pa), a) && #[trigger] h.ensures((&req, &pb), b)
            ==> a@ == b@
}

/// A response asks for escalation only when it answers a query call.
pub open spec fn escalates(mode: CallMode, r: ResponseView) -> bool {
    mode == CallMode::Query && r.upgrade
}

/// What the host does with a response.
#[derive(Clone, Copy, Debug, PartialEq, Eq, Structural)]
pub enum Step {
    /// The response is final.
    Deliver,
    /// Run the same request again as an update call, and take that response.
    Escalate,
}

/// Decides what follows a response given under `mode`: a query response with
/// its upgrade flag set is escalated; any other response, including every
/// update response, is final.
pub fn next_step(mode: CallMode, r: &Response) -> (s: Step)
    ensures
        s == (if escalates(mode, r@) {
            Step::Escalate
        } else {
            Step::Deliver
        }),
{
    match mode {
        CallMode::Query => if r.upgrade {
            Step::Escalate
        } else {
            Step::Deliver
        },
        CallMode::Update => Step::Deliver,
    }
}

/// The view of an optional string.
pub open spec fn opt_view(s: Option<&str>) -> Option<Seq<char>> {
    match s {
        Some(t) => Some(t@),
        None => None,
    }
}

/// Routes requests to handlers of type `H`, one route table per call mode.
pub struct Server<H> {
    handlers: Vec<H>,
    query: Router<usize>,
    update: Router<usize>,
    fallback: Option<H>,
}

impl<H> Server<H> {
    /// The registered handlers; routes refer to them by index.
    pub closed spec fn handlers(&self) -> Seq<H> {
        self.handlers@
    }

    /// The route table of a call mode; each value is a handler index.
    pub closed spec fn table(&self, mode: CallMode) -> Seq<RouteView<usize>> {
        match mode {
            CallMode::Query => self.query@,
            CallMode::Update => self.update@,
        }
    }

    /// The custom fallback; `None` stands for the built-in one.
    pub closed spec fn fallback(&self) -> Option<H> {
        self.fallback
    }

    /// Every route refers to a registered handler, and no table holds a
    /// method and pattern twice.
    pub open spec fn wf(&self) -> bool {
        &&& forall|m: CallMode, i: int|
            0 <= i < self.table(m).len() ==> (#[trigger] self.table(m)[i]).value < self.handlers().len()
        &&& forall|m: CallMode| distinct_routes(#[trigger] self.table(m))
    }

    /// Whether `self` and `other` hold the same handlers, tables and fallback.
    pub open spec fn same_state(&self, other: &Self) -> bool {
        &&& self.handlers() == other.handlers()
        &&& self.table(CallMode::Query) == other.table(CallMode::Query)
        &&& self.table(CallMode::Update) == other.table(CallMode::Update)
        &&& self.fallback() == other.fallback()
    }

    /// The handler index and captured parameters of the route that answers
    /// a call under `mode`, given its method key and decoded path; `None`
    /// where the fallback answers.
    pub open spec fn resolution(&self, mode: CallMode, method: Seq<char>, path: Option<Seq<char>>) -> Option<
        (int, Seq<(Seq<char>, Seq<char>)>),
    > {
        let routes = self.table(mode);
        match path {
            Some(p) => match best_route(routes, method, p) {
                Some(i) => Some((routes[i].value as int, match_path(route_segs(routes, i), p)->0)),
                None => None,
            },
            None => None,
        }
    }

    /// A server with no routes and the built-in fallback.
    pub fn new() -> (r: Self)
        ensures
            r.wf(),
            r.handlers() == Seq::<H>::empty(),
            r.table(CallMode::Query) == Seq::<RouteView<usize>>::empty(),
            r.table(CallMode::Update) == Seq::<RouteView<usize>>::empty(),
            r.fallback() is None,
    {
        Server { handlers: Vec::new(), query: Router::new(), update: Router::new(), fallback: None }
    }

    /// Whether `method`, in any case, is a canonical HTTP verb.
    pub fn is_http_method(method: &str) -> (r: bool)
        ensures
            r == is_canonical_method(upper_of(method@)),
    {
        let upper = uppercase(method);
        canonical_method(upper.as_str())
    }

    /// Registers `handler` for `method` and `path` under `mode`.
    ///
    /// The method may be given in any case and is stored in upper case. A
    /// method that is no HTTP verb, malformed pattern text, and a method and
    /// pattern registered under `mode` already are refused, in that order of
    /// precedence, and the server is then left as it was.
    pub fn register(&mut self, mode: CallMode, method: &str, path: &str, handler: H) -> (r: Result<
        (),
        RouteError,
    >)
        requires
            old(self).wf(),
        ensures
            final(self).wf(),
            r is Ok <==> is_canonical_method(upper_of(method@)) && valid_pattern(path@) && !has_route(
                old(self).table(mode),
                upper_of(method@),
                path@,
            ),
            !is_canonical_method(upper_of(method@)) ==> r == Err::<(), RouteError>(
                RouteError::InvalidMethod,
            ),
            r matches Err(RouteError::InvalidPattern(e)) ==> pattern_defect(path@, e),
            is_canonical_method(upper_of(method@)) && !valid_pattern(path@) ==> r matches Err(
                RouteError::InvalidPattern(_),
            ),
            is_canonical_method(upper_of(method@)) && valid_pattern(path@) && has_route(
                old(self).table(mode),
                upper_of(method@),
                path@,
            ) ==> r == Err::<(), RouteError>(RouteError::DuplicateRoute),
            r is Ok ==> {
                &&& final(self).handlers() == old(self).handlers().push(handler)
                &&& final(self).table(mode) == old(self).table(mode).push(
                    (RouteView {
                        method: upper_of(method@),
                        pattern: path@,
                        value: old(self).handlers().len() as usize,
                    }),
                )
                &&& forall|m: CallMode| m != mode ==> #[trigger] final(self).table(m) == old(
                    self,
                ).table(m)
                &&& final(self).fallback() == old(self).fallback()
            },
            r is Err ==> final(self).same_state(old(self)),
    {
        if !Self::is_http_method(method) {
            return Err(RouteError::InvalidMethod);
        }
        let key = uppercase(method);
        let index = self.handlers.len();
        let res = match mode {
            CallMode::Query => self.query.route(path, key.as_str(), index),
            CallMode::Update => self.update.route(path, key.as_str(), index),
        };
        if let Err(e) = res {
            assert(self.table(CallMode::Query) == old(self).table(CallMode::Query));
            assert(self.table(CallMode::Update) == old(self).table(CallMode::Update));
            return Err(e);
        }
        self.handlers.push(handler);
        proof {
            assert forall|m: CallMode| m != mode implies #[trigger] self.table(m) == old(
                self,
            ).table(m) by {}
            assert forall|m: CallMode, i: int| 0 <= i < self.table(m).len() implies (
            #[trigger] self.table(m)[i]).value < self.handlers().len() by {
                if m == mode && i == old(self).table(m).len() {
                    assert(self.table(m)[i].value == index);
                } else {
                    assert(self.table(m)[i] == old(self).table(m)[i]);
                }
            }
        }
        Ok(())
    }

    /// Registers a route for query calls; see `register`.
    pub fn query_route(&mut self, method: &str, path: &str, handler: H) -> (r: Result<(), RouteError>)
        requires
            old(self).wf(),
        ensures
            final(self).wf(),
            r is Ok <==> is_canonical_method(upper_of(method@)) && valid_pattern(path@) && !has_route(
                old(self).table(CallMode::Query),
                upper_of(method@),
                path@,
            ),
            r is Ok ==> final(self).table(CallMode::Query) == old(self).table(CallMode::Query).push(
                (RouteView {
                    method: upper_of(method@),
                    pattern: path@,
                    value: old(self).handlers().len() as usize,
                }),
            ) && final(self).handlers() == old(self).handlers().push(handler),
            final(self).table(CallMode::Update) == old(self).table(CallMode::Update),
            final(self).fallback() == old(self).fallback(),
            r is Err ==> final(self).same_state(old(self)),
    {
        let r = self.register(CallMode::Query, method, path, handler);
        proof {
            if r is Ok {
                assert(final(self).table(CallMode::Update) == old(self).table(CallMode::Update));
            }
        }
        r
    }

    /// Registers a route for update calls; see `register`.
    pub fn update_route(&mut self, method: &str, path: &str, handler: H) -> (r: Result<(), RouteError>)
        requires
            old(self).wf(),
        ensures
            final(self).wf(),
            r is Ok <==> is_canonical_method(upper_of(method@)) && valid_pattern(path@) && !has_route(
                old(self).table(CallMode::Update),
                upper_of(method@),
                path@,
            ),
            r is Ok ==> final(self).table(CallMode::Update) == old(self).table(CallMode::Update).push(
                (RouteView {
                    method: upper_of(method@),
                    pattern: path@,
                    value: old(self).handlers().len() as usize,
                }),
            ) && final(self).handlers() == old(self).handlers().push(handler),
            final(self).table(CallMode::Query) == old(self).table(CallMode::Query),
            final(self).fallback() == old(self).fallback(),
            r is Err ==> final(self).same_state(old(self)),
    {
        let r = self.register(CallMode::Update, method, path, handler);
        proof {
            if r is Ok {
                assert(final(self).table(CallMode::Query) == old(self).table(CallMode::Query));
            }
        }
        r
    }

    /// Registers one handler for `method` and `path` under both call modes.
    /// Refused, leaving the server as it was, where `register` would refuse
    /// it under either mode.
    pub fn route(&mut self, method: &str, path: &str, handler: H) -> (r: Result<(), RouteError>)
        requires
            old(self).wf(),
        ensures
            final(self).wf(),
            r is Ok <==> is_canonical_method(upper_of(method@)) && valid_pattern(path@) && !has_route(
                old(self).table(CallMode::Query),
                upper_of(method@),
                path@,
            ) && !has_route(old(self).table(CallMode::Update), upper_of(method@), path@),
            !is_canonical_method(upper_of(method@)) ==> r == Err::<(), RouteError>(
                RouteError::InvalidMethod,
            ),
            r matches Err(RouteError::InvalidPattern(e)) ==> pattern_defect(path@, e),
            is_canonical_method(upper_of(method@)) && !valid_pattern(path@) ==> r matches Err(
                RouteError::InvalidPattern(_),
            ),
            is_canonical_method(upper_of(method@)) && valid_pattern(path@) && (has_route(
                old(self).table(CallMode::Query),
                upper_of(method@),
                path@,
            ) || has_route(old(self).table(CallMode::Update), upper_of(method@), path@)) ==> r
                == Err::<(), RouteError>(RouteError::DuplicateRoute),
            r is Ok ==> {
                &&& final(self).handlers() == old(self).handlers().push(handler)
                &&& forall|m: CallMode| #[trigger]
                    final(self).table(m) == old(self).table(m).push(
                        (RouteView {
                            method: upper_of(method@),
                            pattern: path@,
                            value: old(self).handlers().len() as usize,
                        }),
                    )
                &&& final(self).fallback() == old(self).fallback()
            },
            r is Err ==> final(self).same_state(old(self)),
    {
        if !Self::is_http_method(method) {
            return Err(RouteError::InvalidMethod);
        }
        let key = uppercase(method);
        let index = self.handlers.len();
        assert(distinct_routes(self.table(CallMode::Query)));
        assert(distinct_routes(self.table(CallMode::Update)));
        if self.update.contains(path, key.as_str()) {
            return Err(RouteError::DuplicateRoute);
        }
        match self.query.route(path, key.as_str(), index) {
            Ok(()) => {},
            Err(e) => {
                assert(self.table(CallMode::Query) == old(self).table(CallMode::Query));
                assert(self.table(CallMode::Update) == old(self).table(CallMode::Update));
                return Err(e);
            },
        }
        let second = self.update.route(path, key.as_str(), index);
        assert(second is Ok);
        self.handlers.push(handler);
        proof {
            assert forall|m: CallMode, i: int| 0 <= i < self.table(m).len() implies (
            #[trigger] self.table(m)[i]).value < self.handlers().len() by {
                if i < old(self).table(m).len() {
                    assert(self.table(m)[i] == old(self).table(m)[i]);
                }
            }
            assert(distinct_routes(self.table(CallMode::Query)));
            assert(distinct_routes(self.table(CallMode::Update)));
            assert forall|m: CallMode| distinct_routes(#[trigger] self.table(m)) by {
                match m {
                    CallMode::Query => {},
                    CallMode::Update => {},
                }
            }
        }
        Ok(())
    }

    /// Replaces the fallback for all later dispatches.
    pub fn with_fallback(&mut self, handler: H)
        requires
            old(self).wf(),
        ensures
            final(self).wf(),
            final(self).fallback() == Some(handler),
            final(self).handlers() == old(self).handlers(),
            final(self).table(CallMode::Query) == old(self).table(CallMode::Query),
            final(self).table(CallMode::Update) == old(self).table(CallMode::Update),
    {
        self.fallback = Some(handler);
        assert(self.handlers() == old(self).handlers());
        assert(self.table(CallMode::Query) == old(self).table(CallMode::Query));
        assert(self.table(CallMode::Update) == old(self).table(CallMode::Update));
    }

    /// The custom fallback, if one was set.
    pub fn fallback_handler(&self) -> (r: Option<&H>)
        ensures
            match self.fallback() {
                Some(h) => r == Some(&h),
                None => r is None,
            },
    {
        match &self.fallback {
            Some(h) => Some(h),
            None => None,
        }
    }

    /// Finds the handler for a call under `mode`, given its method key and
    /// its decoded path (`None` where the URL has no usable path): the
    /// handler of the route that answers the method and path in the table of
    /// `mode`, with the parameters its pattern captured. `None` means the
    /// fallback answers.
    pub fn resolve_path(&self, mode: CallMode, method: &str, path: Option<&str>) -> (r: Option<
        (&H, Params),
    >)
        requires
            self.wf(),
        ensures
            match self.resolution(mode, method@, opt_view(path)) {
                Some((h, ps)) => r matches Some((hr, p)) && 0 <= h < self.handlers().len() && *hr
                    == self.handlers()[h] && p@ == ps,
                None => r is None,
            },
    {
        let table = match mode {
            CallMode::Query => &self.query,
            CallMode::Update => &self.update,
        };
        assert(table@ == self.table(mode));
        if let Some(p) = path {
            if let Some((index, params)) = table.find(p, method) {
                let ghost i = best_route(table@, method@, p@)->0;
                assert(self.table(mode)[i].value < self.handlers().len());
                return Some((&self.handlers[*index], params));
            }
        }
        None
    }

    /// Finds the handler for a call under `mode`; see `resolve_path`. The
    /// request's method in upper case selects the routes, and the path of
    /// its URL is matched against their patterns.
    pub fn resolve(&self, mode: CallMode, req: &Request) -> (r: Option<(&H, Params)>)
        requires
            self.wf(),
        ensures
            match self.resolution(mode, upper_of(req.method@), url_path(req.url@)) {
                Some((h, ps)) => r matches Some((hr, p)) && 0 <= h < self.handlers().len() && *hr
                    == self.handlers()[h] && p@ == ps,
                None => r is None,
            },
    {
        let key = uppercase(req.method.as_str());
        match decoded_path(req.url.as_str()) {
            Some(p) => self.resolve_path(mode, key.as_str(), Some(p.as_str())),
            None => self.resolve_path(mode, key.as_str(), None),
        }
    }
}

impl<H: Fn(&Request, &Params) -> Response> Server<H> {
    /// Every handler, and the custom fallback, can be called on any input.
    pub open spec fn callable(&self) -> bool {
        &&& forall|i: int|
            0 <= i < self.handlers().len() ==> accepts_all(#[trigger] self.handlers()[i])
        &&& (self.fallback() matches Some(h) ==> accepts_all(h))
    }

    /// `r` is a response that the current fallback may give for `req`.
    pub open spec fn fallback_gives(&self, req: Request, r: Response) -> bool {
        match self.fallback() {
            None => is_not_found_response(r@),
            Some(h) => handler_gives(h, req, Seq::empty(), r),
        }
    }

    /// `r` is a response that a call under `mode` may give for `req`, once
    /// its method key and decoded path are known.
    pub open spec fn outcome(
        &self,
        mode: CallMode,
        method: Seq<char>,
        path: Option<Seq<char>>,
        req: Request,
        r: Response,
    ) -> bool {
        match self.resolution(mode, method, path) {
            Some((h, ps)) => handler_gives(self.handlers()[h], req, ps, r),
            None => self.fallback_gives(req, r),
        }
    }

    /// `r` is a response that a call under `mode` may give for `req`.
    pub open spec fn dispatch_outcome(&self, mode: CallMode, req: Request, r: Response) -> bool {
        self.outcome(mode, upper_of(req.method@), url_path(req.url@), req, r)
    }

    fn run_fallback(&self, req: &Request) -> (r: Response)
        requires
            self.callable(),
        ensures
            self.fallback_gives(*req, r),
    {
        match &self.fallback {
            Some(h) => {
                let ps = Params::new();
                let r = h(req, &ps);
                assert(ps@ == Seq::<(Seq<char>, Seq<char>)>::empty());
                r
            },
            None => not_found_response(),
        }
    }

    /// Dispatches `req` under `mode`, given its method key and its decoded
    /// path (`None` where the URL has no usable path). The route that
    /// answers `method` and the path in the table of `mode` gets the
    /// request with the parameters its pattern captured; with no such route,
    /// or no path, the fallback gets it with no parameters.
    pub fn route_request(&self, mode: CallMode, method: &str, path: Option<&str>, req: &Request) -> (r:
        Response)
        requires
            self.wf(),
            self.callable(),
        ensures
            self.outcome(mode, method@, opt_view(path), *req, r),
    {
        match self.resolve_path(mode, method, path) {
            Some((h, params)) => h(req, &params),
            None => self.run_fallback(req),
        }
    }

    /// Dispatches `req` under `mode`: its method in upper case selects the
    /// routes, and the path of its URL is matched against their patterns.
    pub fn dispatch(&self, mode: CallMode, req: &Request) -> (r: Response)
        requires
            self.wf(),
            self.callable(),
        ensures
            self.dispatch_outcome(mode, *req, r),
    {
        let key = uppercase(req.method.as_str());
        match decoded_path(req.url.as_str()) {
            Some(p) => self.route_request(mode, key.as_str(), Some(p.as_str()), req),
            None => self.route_request(mode, key.as_str(), None, req),
        }
    }

    /// Dispatches a query call.
    pub fn query_handle(&self, req: &Request) -> (r: Response)
        requires
            self.wf(),
            self.callable(),
        ensures
            self.dispatch_outcome(CallMode::Query, *req, r),
    {
        self.dispatch(CallMode::Query, req)
    }

    /// Dispatches an update call.
    pub fn update_handle(&self, req: &Request) -> (r: Response)
        requires
            self.wf(),
            self.callable(),
        ensures
            self.dispatch_outcome(CallMode::Update, *req, r),
    {
        self.dispatch(CallMode::Update, req)
    }

    /// Serves `req` the way the host does: as a query call first, and once
    /// more as an update call when the query response asks for escalation,
    /// in which case the update response is final whatever it holds.
    pub fn handle(&self, req: &Request) -> (r: Response)
        requires
            self.wf(),
            self.callable(),
        ensures
            exists|q: Response|
                #[trigger] self.dispatch_outcome(CallMode::Query, *req, q) && if q.upgrade {
                    self.dispatch_outcome(CallMode::Update, *req, r)
                } else {
                    r == q
                },
    {
        let first = self.dispatch(CallMode::Query, req);
        match next_step(CallMode::Query, &first) {
            Step::Deliver => first,
            Step::Escalate => self.dispatch(CallMode::Update, req),
        }
    }
}

} // verus!
