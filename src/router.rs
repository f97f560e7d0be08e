//! A route table: patterns registered per method, each with a value.
use vstd::prelude::*;

use crate::http::{same_text, Params};
use crate::pattern::{
    lemma_more_specific_asymmetric, lemma_more_specific_total, lemma_more_specific_transitive,
    lemma_same_shape_compare, match_path, more_specific, pattern_defect, pattern_segments,
    valid_pattern, Pattern, PatternError,
};

verus! {

/// Why a registration was refused.
#[derive(Clone, Copy, Debug, PartialEq, Eq, Structural)]
pub enum RouteError {
    /// The method is not one of the canonical HTTP verbs.
    InvalidMethod,
    /// The pattern text does not compile.
    InvalidPattern(PatternError),
    /// The same method and pattern text are registered already.
    DuplicateRoute,
}

/// One registered route, over its model values.
pub struct RouteView<V> {
    pub method: Seq<char>,
    pub pattern: Seq<char>,
    pub value: V,
}

/// The compiled segments of route `i`.
pub open spec fn route_segs<V>(routes: Seq<RouteView<V>>, i: int) -> Seq<crate::pattern::SegView> {
    pattern_segments(routes[i].pattern)
}

/// Route `i` is registered under `method` and its pattern matches `path`.
pub open spec fn candidate<V>(
    routes: Seq<RouteView<V>>,
    method: Seq<char>,
    path: Seq<char>,
    i: int,
) -> bool {
    &&& 0 <= i < routes.len()
    &&& routes[i].method == method
    &&& match_path(route_segs(routes, i), path) is Some
}

/// Route `i` is the one that answers: a candidate that no candidate is more
/// specific than, and that is strictly more specific than every earlier
/// candidate (ties go to the first registered).
pub open spec fn is_best<V>(
    routes: Seq<RouteView<V>>,
    method: Seq<char>,
    path: Seq<char>,
    i: int,
) -> bool {
    &&& candidate(routes, method, path, i)
    &&& forall|j: int| #[trigger]
        candidate(routes, method, path, j) ==> !more_specific(
            route_segs(routes, j),
            route_segs(routes, i),
        ) && (j < i ==> more_specific(route_segs(routes, i), route_segs(routes, j)))
}

/// The route that answers `method` and `path`, if any.
pub open spec fn best_route<V>(routes: Seq<RouteView<V>>, method: Seq<char>, path: Seq<char>) -> Option<
    int,
> {
    if exists|i: int| is_best(routes, method, path, i) {
        Some(choose|i: int| is_best(routes, method, path, i))
    } else {
        None
    }
}

/// Whether `method` and `pattern` are registered together.
pub open spec fn has_route<V>(routes: Seq<RouteView<V>>, method: Seq<char>, pattern: Seq<char>) -> bool {
    exists|i: int| 0 <= i < routes.len() && #[trigger] routes[i].method == method && routes[i].pattern == pattern
}

/// No two routes share both method and pattern text.
pub open spec fn distinct_routes<V>(routes: Seq<RouteView<V>>) -> bool {
    forall|i: int, j: int|
        0 <= i < j < routes.len() ==> !(#[trigger] routes[i].method == #[trigger] routes[j].method
            && routes[i].pattern == routes[j].pattern)
}

/// At most one route answers.
pub proof fn lemma_best_unique<V>(routes: Seq<RouteView<V>>, method: Seq<char>, path: Seq<char>, i: int, j: int)
    requires
        is_best(routes, method, path, i),
        is_best(routes, method, path, j),
    ensures
        i == j,
{
    if i != j {
        assert(candidate(routes, method, path, i));
        assert(candidate(routes, method, path, j));
        lemma_more_specific_asymmetric(route_segs(routes, i), route_segs(routes, j));
        lemma_more_specific_asymmetric(route_segs(routes, j), route_segs(routes, i));
    }
}

/// The route that answers, when there is one, is the one `best_route` names.
pub proof fn lemma_best_route<V>(routes: Seq<RouteView<V>>, method: Seq<char>, path: Seq<char>, i: int)
    requires
        is_best(routes, method, path, i),
    ensures
        best_route(routes, method, path) == Some(i),
{
    let c = choose|c: int| is_best(routes, method, path, c);
    lemma_best_unique(routes, method, path, i, c);
}

struct Route<V> {
    method: String,
    pattern: Pattern,
    value: V,
}

/// Routes keyed by method and pattern, each holding a value.
pub struct Router<V> {
    routes: Vec<Route<V>>,
}

impl<V> View for Router<V> {
    type V = Seq<RouteView<V>>;

    closed spec fn view(&self) -> Seq<RouteView<V>> {
        self.routes@.map_values(
            |r: Route<V>| RouteView { method: r.method@, pattern: r.pattern.source(), value: r.value },
        )
    }
}

impl<V> Router<V> {
    /// An empty table.
    pub fn new() -> (r: Router<V>)
        ensures
            r@ == Seq::<RouteView<V>>::empty(),
            distinct_routes(r@),
    {
        let r = Router { routes: Vec::new() };
        assert(r@ =~= Seq::<RouteView<V>>::empty());
        r
    }

    /// The number of routes.
    pub fn len(&self) -> (r: usize)
        ensures
            r == self@.len(),
    {
        self.routes.len()
    }

    /// Whether `method` and `pattern` are registered together.
    pub fn contains(&self, pattern: &str, method: &str) -> (r: bool)
        ensures
            r == has_route(self@, method@, pattern@),
            r ==> valid_pattern(pattern@),
    {
        let mut i: usize = 0;
        while i < self.routes.len()
            invariant
                i <= self@.len(),
                self@.len() == self.routes@.len(),
                forall|j: int| 0 <= j < i ==> !(#[trigger] self@[j].method == method@ && self@[j].pattern == pattern@),
            decreases self.routes@.len() - i,
        {
            let route = &self.routes[i];
            assert(self@[i as int].method == route.method@ && self@[i as int].pattern == route.pattern.source());
            let text = route.pattern.text();
            if same_text(route.method.as_str(), method) && same_text(text, pattern) {
                return true;
            }
            i += 1;
        }
        false
    }

    /// Registers `value` for `pattern` under `method`. Malformed pattern text
    /// and a method and pattern that are registered already are refused, and
    /// the table is then left as it was.
    pub fn route(&mut self, pattern: &str, method: &str, value: V) -> (r: Result<(), RouteError>)
        ensures
            r is Ok <==> valid_pattern(pattern@) && !has_route(old(self)@, method@, pattern@),
            r matches Err(RouteError::InvalidPattern(e)) ==> pattern_defect(pattern@, e),
            !valid_pattern(pattern@) ==> r matches Err(RouteError::InvalidPattern(_)),
            valid_pattern(pattern@) && has_route(old(self)@, method@, pattern@) ==> r == Err::<
                (),
                RouteError,
            >(RouteError::DuplicateRoute),
            r is Ok ==> final(self)@ == old(self)@.push(
                (RouteView { method: method@, pattern: pattern@, value }),
            ),
            r is Err ==> final(self)@ == old(self)@,
            distinct_routes(old(self)@) ==> distinct_routes(final(self)@),
    {
        let compiled = match Pattern::compile(pattern) {
            Ok(p) => p,
            Err(e) => return Err(RouteError::InvalidPattern(e)),
        };
        if self.contains(pattern, method) {
            return Err(RouteError::DuplicateRoute);
        }
        let ghost before = self@;
        self.routes.push(Route { method: method.to_owned(), pattern: compiled, value });
        assert(self@ =~= before.push((RouteView { method: method@, pattern: pattern@, value })));
        Ok(())
    }

    /// Finds the route that answers `method` and `path`: among the routes
    /// under `method` whose pattern the path satisfies, the most specific,
    /// and of equally specific ones the first registered. Returns its value
    /// and the captured parameters.
    pub fn find(&self, path: &str, method: &str) -> (r: Option<(&V, Params)>)
        ensures
            match best_route(self@, method@, path@) {
                Some(i) => r matches Some((v, ps)) && *v == self@[i].value && match_path(
                    route_segs(self@, i),
                    path@,
                ) == Some(ps@),
                None => r is None,
            },
            r is None <==> (forall|i: int| !#[trigger] candidate(self@, method@, path@, i)),
    {
        let ghost routes = self@;
        let mut best: Option<(usize, Params)> = None;
        let mut j: usize = 0;
        while j < self.routes.len()
            invariant
                routes == self@,
                routes.len() == self.routes@.len(),
                j <= routes.len(),
                match best {
                    None => forall|jj: int| 0 <= jj < j ==> !#[trigger] candidate(routes, method@, path@, jj),
                    Some((b, ps)) => {
                        &&& b < j
                        &&& candidate(routes, method@, path@, b as int)
                        &&& match_path(route_segs(routes, b as int), path@) == Some(ps@)
                        &&& forall|jj: int|
                            0 <= jj < j && #[trigger] candidate(routes, method@, path@, jj) ==> !more_specific(
                                route_segs(routes, jj),
                                route_segs(routes, b as int),
                            ) && (jj < b ==> more_specific(
                                route_segs(routes, b as int),
                                route_segs(routes, jj),
                            ))
                    },
                },
            decreases self.routes@.len() - j,
        {
            let route = &self.routes[j];
            assert(routes[j as int].method == route.method@ && routes[j as int].pattern == route.pattern.source());
            if same_text(route.method.as_str(), method) {
                if let Some(ps) = route.pattern.captures(path) {
                    let replace = match &best {
                        None => true,
                        Some((b, _)) => route.pattern.more_specific_than(&self.routes[*b].pattern),
                    };
                    if replace {
                        proof {
                            let sj = route_segs(routes, j as int);
                            if let Some((b, _)) = best {
                                let sb = route_segs(routes, b as int);
                                assert(routes[b as int].pattern == self.routes@[b as int].pattern.source());
                                assert forall|jj: int|
                                    0 <= jj < j && #[trigger] candidate(routes, method@, path@, jj) implies !more_specific(
                                    route_segs(routes, jj),
                                    sj,
                                ) && more_specific(sj, route_segs(routes, jj)) by {
                                    let sjj = route_segs(routes, jj);
                                    lemma_more_specific_total(sjj, sb);
                                    if jj != b {
                                        lemma_more_specific_transitive(sj, sb, sjj);
                                        if crate::pattern::same_shape(sjj, sb) {
                                            lemma_same_shape_compare(sjj, sb, sj);
                                        }
                                    }
                                    lemma_more_specific_asymmetric(sj, sjj);
                                }
                            }
                            lemma_more_specific_asymmetric(sj, sj);
                        }
                        best = Some((j, ps));
                    } else {
                        proof {
                            if let Some((b, _)) = best {
                                assert(routes[b as int].pattern == self.routes@[b as int].pattern.source());
                            }
                        }
                    }
                }
            }
            j += 1;
        }
        match best {
            Some((b, ps)) => {
                proof {
                    assert(is_best(routes, method@, path@, b as int));
                    lemma_best_route(routes, method@, path@, b as int);
                }
                assert(self@[b as int].value == self.routes@[b as int].value);
                Some((&self.routes[b].value, ps))
            },
            None => {
                assert(forall|i: int| !is_best(routes, method@, path@, i));
                None
            },
        }
    }
}

} // verus!
