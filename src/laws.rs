//! Properties of routing and dispatch that relate several calls or hold for
//! all inputs, proved over the models that the functions' contracts use.
use vstd::prelude::*;

use crate::http::{upper_of, CallMode, Params, Request, Response};
use crate::pattern::{
    lemma_more_specific_asymmetric, lemma_more_specific_total, lemma_more_specific_transitive,
    lemma_same_shape_compare, match_path, more_specific, same_shape,
};
use crate::router::{
    best_route, candidate, has_route, is_best, lemma_best_route, route_segs, RouteView,
};
use crate::server::{escalates, handler_gives, is_pure, Server};

verus! {

/// The route that answers a request decides the response: when route `i` of
/// the table of `mode` is the one that answers `method` and `path`, the call
/// gives exactly the responses that the route's handler may give for the
/// request with the parameters that the route's pattern captured.
pub proof fn lemma_match_correctness<H: Fn(&Request, &Params) -> Response>(
    server: Server<H>,
    mode: CallMode,
    method: Seq<char>,
    path: Seq<char>,
    req: Request,
    i: int,
    r: Response,
)
    requires
        is_best(server.table(mode), method, path, i),
    ensures
        server.outcome(mode, method, Some(path), req, r) <==> handler_gives(
            server.handlers()[server.table(mode)[i].value as int],
            req,
            match_path(route_segs(server.table(mode), i), path)->0,
            r,
        ),
{
    lemma_best_route(server.table(mode), method, path, i);
}

/// Of two routes whose patterns the path satisfies, the one with the less
/// specific pattern never answers: a literal segment beats a parameter, and
/// a parameter beats a catch-all, at the first position where they differ.
pub proof fn lemma_more_specific_wins<V>(
    routes: Seq<RouteView<V>>,
    method: Seq<char>,
    path: Seq<char>,
    i: int,
    j: int,
)
    requires
        candidate(routes, method, path, i),
        candidate(routes, method, path, j),
        more_specific(route_segs(routes, i), route_segs(routes, j)),
    ensures
        best_route(routes, method, path) != Some(j),
{
    if best_route(routes, method, path) == Some(j) {
        assert(is_best(routes, method, path, j));
    }
}

/// A route whose pattern the path satisfies, and that no other candidate
/// rivals, is the one that answers.
pub proof fn lemma_sole_candidate_answers<V>(
    routes: Seq<RouteView<V>>,
    method: Seq<char>,
    path: Seq<char>,
    i: int,
)
    requires
        candidate(routes, method, path, i),
        forall|j: int| #[trigger] candidate(routes, method, path, j) ==> j == i,
    ensures
        best_route(routes, method, path) == Some(i),
{
    lemma_more_specific_asymmetric(route_segs(routes, i), route_segs(routes, i));
    assert(is_best(routes, method, path, i));
    lemma_best_route(routes, method, path, i);
}

/// Among the first `n` routes, when one is a candidate, one of them beats
/// every other candidate there.
proof fn lemma_prefix_best<V>(routes: Seq<RouteView<V>>, method: Seq<char>, path: Seq<char>, n: int) -> (b:
    int)
    requires
        0 <= n <= routes.len(),
        exists|j: int| 0 <= j < n && #[trigger] candidate(routes, method, path, j),
    ensures
        0 <= b < n,
        candidate(routes, method, path, b),
        forall|j: int|
            0 <= j < n && #[trigger] candidate(routes, method, path, j) ==> !more_specific(
                route_segs(routes, j),
                route_segs(routes, b),
            ) && (j < b ==> more_specific(route_segs(routes, b), route_segs(routes, j))),
    decreases n,
{
    let last = n - 1;
    let sl = route_segs(routes, last);
    lemma_more_specific_asymmetric(sl, sl);
    if !exists|j: int| 0 <= j < last && #[trigger] candidate(routes, method, path, j) {
        last
    } else {
        let b = lemma_prefix_best(routes, method, path, last);
        let sb = route_segs(routes, b);
        if candidate(routes, method, path, last) && more_specific(sl, sb) {
            assert forall|j: int|
                0 <= j < n && #[trigger] candidate(routes, method, path, j) implies !more_specific(
                route_segs(routes, j),
                sl,
            ) && (j < last ==> more_specific(sl, route_segs(routes, j))) by {
                let sj = route_segs(routes, j);
                if j < last {
                    lemma_more_specific_total(sj, sb);
                    if j != b {
                        lemma_more_specific_transitive(sl, sb, sj);
                        if same_shape(sj, sb) {
                            lemma_same_shape_compare(sj, sb, sl);
                        }
                    }
                }
                lemma_more_specific_asymmetric(sl, sj);
            }
            last
        } else {
            b
        }
    }
}

/// A path that satisfies the pattern of some route under its method is
/// answered by a route, never by the fallback.
pub proof fn lemma_candidate_is_answered<H: Fn(&Request, &Params) -> Response>(
    server: Server<H>,
    mode: CallMode,
    method: Seq<char>,
    path: Seq<char>,
    i: int,
)
    requires
        candidate(server.table(mode), method, path, i),
    ensures
        best_route(server.table(mode), method, path) is Some,
{
    let routes = server.table(mode);
    let b = lemma_prefix_best(routes, method, path, routes.len() as int);
    assert(is_best(routes, method, path, b));
    lemma_best_route(routes, method, path, b);
}

/// With no route under `method` whose pattern the path satisfies, or with no
/// usable path, the call gives exactly what the current fallback gives.
pub proof fn lemma_no_match_fallback<H: Fn(&Request, &Params) -> Response>(
    server: Server<H>,
    mode: CallMode,
    method: Seq<char>,
    path: Option<Seq<char>>,
    req: Request,
    r: Response,
)
    requires
        path matches Some(p) ==> forall|i: int| !#[trigger] candidate(server.table(mode), method, p, i),
    ensures
        server.outcome(mode, method, path, req, r) <==> server.fallback_gives(req, r),
{
}

/// Query calls see the query table alone: two servers with the same query
/// table and fallback, whose handlers agree on the indices that the query
/// table uses, give the same query responses, whatever their update tables
/// hold. Registering a route for update calls only changes nothing that a
/// query call can reach.
pub proof fn lemma_mode_isolation<H: Fn(&Request, &Params) -> Response>(
    s1: Server<H>,
    s2: Server<H>,
    req: Request,
    r: Response,
)
    requires
        s1.wf(),
        s1.table(CallMode::Query) == s2.table(CallMode::Query),
        s1.fallback() == s2.fallback(),
        s1.handlers().len() <= s2.handlers().len(),
        forall|i: int| 0 <= i < s1.handlers().len() ==> #[trigger] s2.handlers()[i] == s1.handlers()[i],
    ensures
        s1.dispatch_outcome(CallMode::Query, req, r) <==> s2.dispatch_outcome(CallMode::Query, req, r),
{
    let routes = s1.table(CallMode::Query);
    if let Some(p) = crate::http::url_path(req.url@) {
        if let Some(i) = best_route(routes, upper_of(req.method@), p) {
            let v = routes[i].value as int;
            assert(s2.handlers()[v] == s1.handlers()[v]);
        }
    }
}

/// After a method and pattern are registered under a mode, they are present
/// in its table, so registering them again is refused as a duplicate and
/// leaves the first registration in force.
pub proof fn lemma_duplicate_registration<H: Fn(&Request, &Params) -> Response>(
    before: Server<H>,
    after: Server<H>,
    mode: CallMode,
    method: Seq<char>,
    pattern: Seq<char>,
)
    requires
        after.table(mode) == before.table(mode).push(
            (RouteView { method: upper_of(method), pattern, value: before.handlers().len() as usize }),
        ),
    ensures
        has_route(after.table(mode), upper_of(method), pattern),
{
    assert(after.table(mode)[before.table(mode).len() as int].method == upper_of(method));
}

/// Escalation: a query response that asks for escalation is followed by an
/// update dispatch of the same request, whose response is final and is
/// never escalated again; with pure handlers, repeating that update
/// dispatch gives the same response.
pub proof fn lemma_escalation_round_trip<H: Fn(&Request, &Params) -> Response>(
    server: Server<H>,
    req: Request,
    q: Response,
    r1: Response,
    r2: Response,
)
    requires
        forall|i: int| 0 <= i < server.handlers().len() ==> is_pure(#[trigger] server.handlers()[i]),
        server.fallback() matches Some(h) ==> is_pure(h),
        server.dispatch_outcome(CallMode::Query, req, q),
        q.upgrade,
        server.dispatch_outcome(CallMode::Update, req, r1),
        server.dispatch_outcome(CallMode::Update, req, r2),
        server.wf(),
    ensures
        escalates(CallMode::Query, q@),
        !escalates(CallMode::Update, r1@),
        r1@ == r2@,
{
    let routes = server.table(CallMode::Update);
    let method = upper_of(req.method@);
    let path = crate::http::url_path(req.url@);
    let answered = match path {
        Some(p) => best_route(routes, method, p) is Some,
        None => false,
    };
    if answered {
        let p = path->0;
        let i = best_route(routes, method, p)->0;
        let h = server.handlers()[routes[i].value as int];
        let ps = match_path(route_segs(routes, i), p)->0;
        assert(is_pure(h));
        let pa = choose|pa: Params| pa@ == ps && #[trigger] h.ensures((&req, &pa), r1);
        let pb = choose|pb: Params| pb@ == ps && #[trigger] h.ensures((&req, &pb), r2);
        assert(h.ensures((&req, &pa), r1) && h.ensures((&req, &pb), r2));
    } else {
        match server.fallback() {
            Some(h) => {
                let ps = Seq::<(Seq<char>, Seq<char>)>::empty();
                let pa = choose|pa: Params| pa@ == ps && #[trigger] h.ensures((&req, &pa), r1);
                let pb = choose|pb: Params| pb@ == ps && #[trigger] h.ensures((&req, &pb), r2);
                assert(h.ensures((&req, &pa), r1) && h.ensures((&req, &pb), r2));
            },
            None => {},
        }
    }
}

} // verus!
