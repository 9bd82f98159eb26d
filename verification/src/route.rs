//! Routes and the route table.
//!
//! The table keeps its routes in the order in which they were registered,
//! and that order decides a lookup: the first route whose method is the
//! request's and whose pattern matches the path wins, whatever routes
//! follow it.

use crate::engine::regex_set_matches;
use crate::engine::regex_set_new;
use crate::engine::regex_set_accepts;
use crate::engine::regex_set_patterns;
use crate::engine::texts;
use crate::matcher::compile_fault;
use crate::matcher::first_fault;
use crate::matcher::lemma_first_fault_stays;
use crate::matcher::pattern_accepts;
use crate::matcher::pattern_extracts;
use crate::matcher::source_of;
use crate::matcher::PathMatcher;
use crate::method::method_listed;
use crate::method::Method;
use crate::order::reversed;
use crate::params::Binding;
use crate::params::RouteParams;
use crate::paths::joined_path;
use crate::paths::join_paths;
use crate::paths::normalize_pattern;
use crate::paths::normalized_pattern;
use crate::pattern::PatternError;
use regex::RegexSet;
use vstd::prelude::*;

verus! {

/// One registered route.
#[derive(Debug)]
pub struct Route<H> {
    method: Method,
    matcher: PathMatcher,
    handler: H,
    mount_depth: usize,
    scope: usize,
}

/// The mathematical value of a [`Route`].
pub struct RouteModel<H> {
    /// The method the route answers.
    pub method: Method,
    /// The pattern the route was compiled from.
    pub pattern: Seq<char>,
    /// The handler the route leads to.
    pub handler: H,
    /// The number of mounts the route has passed through.
    pub mount_depth: int,
    /// The data scope the route was registered in.
    pub scope: int,
}

impl<H> View for Route<H> {
    type V = RouteModel<H>;

    closed spec fn view(&self) -> RouteModel<H> {
        RouteModel {
            method: self.method,
            pattern: self.matcher.pattern_text(),
            handler: self.handler,
            mount_depth: self.mount_depth as int,
            scope: self.scope as int,
        }
    }
}

/// A route as it stands after its router was mounted under `prefix`, behind
/// `offset` data scopes of the parent.
pub open spec fn rebased_route<H>(
    route: RouteModel<H>,
    prefix: Seq<char>,
    offset: int,
) -> RouteModel<H> {
    RouteModel {
        method: route.method,
        pattern: joined_path(prefix, route.pattern),
        handler: route.handler,
        mount_depth: route.mount_depth + 1,
        scope: route.scope + offset,
    }
}

impl<H> Route<H> {
    /// The invariant of a route: its pattern is compiled.
    pub closed spec fn wf(&self) -> bool {
        &&& self.matcher.wf()
        &&& compile_fault(self.matcher.pattern_text()) is None
    }

    /// A route's pattern has no fault.
    pub proof fn lemma_wf_pattern(&self)
        requires
            self.wf(),
        ensures
            compile_fault(self@.pattern) is None,
    {
    }

    /// A route for `method` at `pattern`, registered in the root scope and
    /// not yet mounted anywhere. The pattern is put into normal form and
    /// compiled; its first fault, if it has one, is the error.
    pub fn new(method: Method, pattern: &str, handler: H) -> (r: Result<Route<H>, PatternError>)
        ensures
            match r {
                Ok(route) => route.wf() && route@ == (RouteModel {
                    method,
                    pattern: normalized_pattern(pattern@),
                    handler,
                    mount_depth: 0,
                    scope: 0,
                }),
                Err(e) => compile_fault(normalized_pattern(pattern@)) == Some(e),
            },
    {
        let normal = normalize_pattern(pattern);
        match PathMatcher::compile(normal.as_str()) {
            Ok(matcher) => Ok(Route { method, matcher, handler, mount_depth: 0, scope: 0 }),
            Err(e) => Err(e),
        }
    }

    /// The route as it stands under `prefix`, one mount deeper and
    /// `offset` scopes further on. The joined pattern is compiled afresh.
    pub(crate) fn rebase(self, prefix: &str, offset: usize) -> (r: Result<Route<H>, PatternError>)
        requires
            self.wf(),
            self@.mount_depth < usize::MAX,
            self@.scope + offset <= usize::MAX,
        ensures
            match r {
                Ok(route) => route.wf() && route@ == rebased_route(self@, prefix@, offset as int)
                    && compile_fault(joined_path(prefix@, self@.pattern)) is None,
                Err(e) => compile_fault(joined_path(prefix@, self@.pattern)) == Some(e),
            },
    {
        let moved = join_paths(prefix, self.matcher.pattern().as_str());
        match PathMatcher::compile(moved.as_str()) {
            Ok(matcher) => Ok(
                Route {
                    method: self.method,
                    matcher,
                    handler: self.handler,
                    mount_depth: self.mount_depth + 1,
                    scope: self.scope + offset,
                },
            ),
            Err(e) => Err(e),
        }
    }

    /// The method the route answers.
    pub fn method(&self) -> (m: Method)
        ensures
            m == self@.method,
    {
        self.method
    }

    /// The pattern the route was compiled from.
    pub fn pattern(&self) -> (p: &String)
        ensures
            p@ == self@.pattern,
    {
        self.matcher.pattern()
    }

    /// The compiled pattern.
    pub fn matcher(&self) -> (m: &PathMatcher)
        requires
            self.wf(),
        ensures
            m.wf(),
            m.pattern_text() == self@.pattern,
    {
        &self.matcher
    }

    /// The handler the route leads to.
    pub fn handler(&self) -> (h: &H)
        ensures
            *h == self@.handler,
    {
        &self.handler
    }

    /// The number of mounts the route has passed through.
    pub fn mount_depth(&self) -> (d: usize)
        ensures
            d == self@.mount_depth,
    {
        self.mount_depth
    }

    /// The data scope the route was registered in.
    pub fn scope(&self) -> (s: usize)
        ensures
            s == self@.scope,
    {
        self.scope
    }
}

/// The models of a list of routes.
pub open spec fn route_models<H>(routes: Seq<Route<H>>) -> Seq<RouteModel<H>> {
    routes.map_values(|r: Route<H>| r@)
}

/// The patterns that the routes get under `prefix`, in order.
pub open spec fn rebased_route_patterns<H>(routes: Seq<RouteModel<H>>, prefix: Seq<char>) -> Seq<
    Seq<char>,
> {
    routes.map_values(|r: RouteModel<H>| joined_path(prefix, r.pattern))
}

/// The anchored expressions of a list of routes, in order.
pub open spec fn route_sources<H>(routes: Seq<RouteModel<H>>) -> Seq<Seq<char>> {
    routes.map_values(|r: RouteModel<H>| source_of(r.pattern))
}

/// For each route, whether its pattern matches `path`.
pub open spec fn acceptance<H>(routes: Seq<RouteModel<H>>, path: Seq<char>) -> Seq<bool> {
    Seq::new(routes.len(), |i: int| pattern_accepts(routes[i].pattern, path))
}

/// Whether `accepted` marks position `i`. A position that the mask does
/// not reach is not marked.
pub open spec fn marks(accepted: Seq<bool>, i: int) -> bool {
    0 <= i < accepted.len() && accepted[i]
}

/// The first of the first `k` routes that answers `method` and is marked in
/// `accepted`.
pub open spec fn first_hit<H>(
    routes: Seq<RouteModel<H>>,
    accepted: Seq<bool>,
    method: Method,
    k: int,
) -> Option<int>
    decreases k,
{
    if k <= 0 {
        None
    } else {
        match first_hit(routes, accepted, method, k - 1) {
            Some(i) => Some(i),
            None => if marks(accepted, k - 1) && routes[k - 1].method == method {
                Some(k - 1)
            } else {
                None
            },
        }
    }
}

/// The methods of those of the first `k` routes that are marked in
/// `accepted`: each method once, in the order in which the routes first
/// bring it.
pub open spec fn allowed_methods<H>(routes: Seq<RouteModel<H>>, accepted: Seq<bool>, k: int) -> Seq<
    Method,
>
    decreases k,
{
    if k <= 0 {
        Seq::empty()
    } else {
        let before = allowed_methods(routes, accepted, k - 1);
        if marks(accepted, k - 1) && !before.contains(routes[k - 1].method) {
            before.push(routes[k - 1].method)
        } else {
            before
        }
    }
}

/// What a table decides once it is known which patterns match.
#[derive(Debug)]
pub enum Selection {
    /// The route at this position wins.
    Route(usize),
    /// The path is known, but not under the request's method. The methods
    /// under which it is known are listed.
    MethodNotAllowed(Vec<Method>),
    /// No pattern matches the path.
    NotFound,
}

/// The mathematical value of a [`Selection`].
pub enum SelectionModel {
    Route(int),
    MethodNotAllowed(Seq<Method>),
    NotFound,
}

impl View for Selection {
    type V = SelectionModel;

    open spec fn view(&self) -> SelectionModel {
        match self {
            Selection::Route(i) => SelectionModel::Route(*i as int),
            Selection::MethodNotAllowed(methods) => SelectionModel::MethodNotAllowed(methods@),
            Selection::NotFound => SelectionModel::NotFound,
        }
    }
}

/// The selection among `routes` for `method`, given which patterns match:
/// the first matching route that answers the method; where there is none,
/// the methods of the matching routes; where no route matches, nothing.
pub open spec fn selection<H>(
    routes: Seq<RouteModel<H>>,
    accepted: Seq<bool>,
    method: Method,
) -> SelectionModel {
    match first_hit(routes, accepted, method, routes.len() as int) {
        Some(i) => SelectionModel::Route(i),
        None => {
            let allowed = allowed_methods(routes, accepted, routes.len() as int);
            if allowed.len() > 0 {
                SelectionModel::MethodNotAllowed(allowed)
            } else {
                SelectionModel::NotFound
            }
        },
    }
}

/// The outcome of a lookup.
#[derive(Debug)]
pub enum Lookup {
    /// The route at `index` answers the request; `params` are what its
    /// pattern extracts from the path.
    Found { index: usize, params: RouteParams },
    /// The path is known, but not under the request's method.
    MethodNotAllowed { allowed: Vec<Method> },
    /// No pattern matches the path.
    NotFound,
}

/// The mathematical value of a [`Lookup`].
pub enum LookupModel {
    Found { index: int, params: Seq<Binding> },
    MethodNotAllowed { allowed: Seq<Method> },
    NotFound,
}

impl View for Lookup {
    type V = LookupModel;

    open spec fn view(&self) -> LookupModel {
        match self {
            Lookup::Found { index, params } => LookupModel::Found {
                index: *index as int,
                params: params@,
            },
            Lookup::MethodNotAllowed { allowed } => LookupModel::MethodNotAllowed {
                allowed: allowed@,
            },
            Lookup::NotFound => LookupModel::NotFound,
        }
    }
}

/// The outcome of looking `path` up under `method` among `routes`.
pub open spec fn route_lookup<H>(routes: Seq<RouteModel<H>>, method: Method, path: Seq<char>) -> LookupModel {
    match selection(routes, acceptance(routes, path), method) {
        SelectionModel::Route(i) => LookupModel::Found {
            index: i,
            params: pattern_extracts(routes[i].pattern, path)->0,
        },
        SelectionModel::MethodNotAllowed(allowed) => LookupModel::MethodNotAllowed { allowed },
        SelectionModel::NotFound => LookupModel::NotFound,
    }
}

/// A hit among the first `k` routes is one of them, is marked, answers the
/// method, and has no such route before it.
pub proof fn lemma_first_hit_some<H>(
    routes: Seq<RouteModel<H>>,
    accepted: Seq<bool>,
    method: Method,
    k: int,
)
    ensures
        first_hit(routes, accepted, method, k) matches Some(i) ==> {
            &&& 0 <= i < k
            &&& marks(accepted, i)
            &&& routes[i].method == method
            &&& forall|j: int|
                0 <= j < i ==> !(marks(accepted, j) && #[trigger] routes[j].method == method)
        },
        first_hit(routes, accepted, method, k) is None ==> forall|j: int|
            0 <= j < k ==> !(marks(accepted, j) && #[trigger] routes[j].method == method),
    decreases k,
{
    if k > 0 {
        lemma_first_hit_some(routes, accepted, method, k - 1);
    }
}

/// Every method listed is that of a marked route, every marked route's
/// method is listed, and none is listed twice.
pub proof fn lemma_allowed_methods<H>(routes: Seq<RouteModel<H>>, accepted: Seq<bool>, k: int)
    ensures
        allowed_methods(routes, accepted, k).no_duplicates(),
        forall|m: Method|
            allowed_methods(routes, accepted, k).contains(m) <==> exists|j: int|
                0 <= j < k && marks(accepted, j) && #[trigger] routes[j].method == m,
    decreases k,
{
    if k > 0 {
        lemma_allowed_methods(routes, accepted, k - 1);
        let before = allowed_methods(routes, accepted, k - 1);
        let now = allowed_methods(routes, accepted, k);
        let last = routes[k - 1].method;
        let grows = marks(accepted, k - 1) && !before.contains(last);
        assert forall|m: Method| now.contains(m) <==> before.contains(m) || (grows && m == last) by {
            if before.contains(m) {
                let at = before.index_of(m);
                assert(now[at] == m);
            }
            if grows && m == last {
                assert(now[before.len() as int] == m);
            }
            if now.contains(m) && !before.contains(m) {
                let at = now.index_of(m);
                if at < before.len() {
                    assert(before[at] == m);
                }
            }
        }
        assert forall|m: Method|
            now.contains(m) <==> exists|j: int|
                0 <= j < k && marks(accepted, j) && #[trigger] routes[j].method == m by {
            if before.contains(m) {
                let j = choose|j: int|
                    0 <= j < k - 1 && marks(accepted, j) && #[trigger] routes[j].method == m;
                assert(0 <= j < k && marks(accepted, j) && routes[j].method == m);
            }
            if grows && m == last {
                assert(marks(accepted, k - 1) && routes[k - 1].method == m);
            }
            if exists|j: int|
                0 <= j < k && marks(accepted, j) && #[trigger] routes[j].method == m {
                let j = choose|j: int|
                    0 <= j < k && marks(accepted, j) && #[trigger] routes[j].method == m;
                if j < k - 1 {
                    assert(before.contains(m));
                }
            }
        }
    }
}

/// The mask over `n` positions that marks exactly those listed in `hits`.
/// A position listed that is not among the `n` marks nothing.
pub fn mask_of(hits: &Vec<usize>, n: usize) -> (mask: Vec<bool>)
    ensures
        mask.len() == n,
        forall|i: int| 0 <= i < n ==> (#[trigger] mask[i]) == hits@.contains(i as usize),
{
    let mut mask: Vec<bool> = Vec::new();
    let mut i: usize = 0;
    while i < n
        invariant
            i <= n,
            mask.len() == i,
            forall|j: int| 0 <= j < i ==> !(#[trigger] mask[j]),
        decreases n - i,
    {
        mask.push(false);
        i += 1;
    }
    let mut k: usize = 0;
    while k < hits.len()
        invariant
            k <= hits.len(),
            mask.len() == n,
            forall|j: int|
                0 <= j < n ==> ((#[trigger] mask[j]) <==> exists|q: int|
                    0 <= q < k && hits[q] == j),
        decreases hits.len() - k,
    {
        let h = hits[k];
        if h < n {
            mask.set(h, true);
        }
        assert forall|j: int| 0 <= j < n implies ((#[trigger] mask[j]) <==> exists|q: int|
            0 <= q < k + 1 && hits[q] == j) by {
            if j == h {
                assert(hits[k as int] == j);
            } else {
                if exists|q: int| 0 <= q < k + 1 && hits[q] == j {
                    let q = choose|q: int| 0 <= q < k + 1 && hits[q] == j;
                    assert(q < k);
                }
            }
        }
        k += 1;
    }
    assert forall|i: int| 0 <= i < n implies (#[trigger] mask[i]) == hits@.contains(i as usize) by {
        if hits@.contains(i as usize) {
            let q = choose|q: int| 0 <= q < hits@.len() && hits@[q] == i as usize;
            assert(hits[q] == i);
        }
    }
    mask
}

/// The marks of `mask` at the `n` positions from `from` on. A position that
/// the mask does not reach is not marked.
pub fn window(mask: &Vec<bool>, from: usize, n: usize) -> (out: Vec<bool>)
    ensures
        out@ == Seq::new(n as nat, |i: int| marks(mask@, from + i)),
{
    let mut out: Vec<bool> = Vec::new();
    let mut i: usize = 0;
    while i < n
        invariant
            i <= n,
            out.len() == i,
            forall|j: int| 0 <= j < i ==> (#[trigger] out[j]) == marks(mask@, from + j),
        decreases n - i,
    {
        let hit = from <= mask.len() && i < mask.len() - from && mask[from + i];
        out.push(hit);
        i += 1;
    }
    assert(out@ =~= Seq::new(n as nat, |i: int| marks(mask@, from + i)));
    out
}

/// The routes of a router, in registration order, with the aggregate
/// expression that covers all their patterns once it has been built.
#[derive(Debug)]
pub struct RouteTable<H> {
    routes: Vec<Route<H>>,
    aggregate: Option<RegexSet>,
}

impl<H> View for RouteTable<H> {
    type V = Seq<RouteModel<H>>;

    closed spec fn view(&self) -> Seq<RouteModel<H>> {
        route_models(self.routes@)
    }
}

impl<H> RouteTable<H> {
    /// The invariant of a table: every route is well-formed, and the
    /// aggregate, where there is one, covers the routes' expressions in
    /// order.
    pub closed spec fn wf(&self) -> bool {
        &&& forall|i: int| 0 <= i < self.routes.len() ==> (#[trigger] self.routes[i]).wf()
        &&& self.aggregate matches Some(set) ==> regex_set_patterns(set) == route_sources(self@)
    }

    /// Whether the aggregate expression has been built.
    pub closed spec fn is_indexed(&self) -> bool {
        self.aggregate is Some
    }

    /// An empty table.
    pub fn new() -> (t: RouteTable<H>)
        ensures
            t.wf(),
            t@ == Seq::<RouteModel<H>>::empty(),
            !t.is_indexed(),
    {
        let t = RouteTable { routes: Vec::new(), aggregate: None };
        assert(t@ =~= Seq::<RouteModel<H>>::empty());
        t
    }

    /// The number of routes.
    pub fn len(&self) -> (n: usize)
        ensures
            n == self@.len(),
    {
        self.routes.len()
    }

    /// The route at position `i`.
    pub fn route(&self, i: usize) -> (r: &Route<H>)
        requires
            self.wf(),
            i < self@.len(),
        ensures
            r.wf(),
            r@ == self@[i as int],
    {
        &self.routes[i]
    }

    /// Registers a route for `method` at `pattern`, after those already
    /// there. The aggregate, if one was built, is dropped. On a faulty
    /// pattern nothing changes.
    pub fn register(&mut self, method: Method, pattern: &str, handler: H) -> (r: Result<
        usize,
        PatternError,
    >)
        requires
            old(self).wf(),
        ensures
            final(self).wf(),
            match r {
                Ok(index) => {
                    &&& index == old(self)@.len()
                    &&& final(self)@ == old(self)@.push(
                        RouteModel {
                            method,
                            pattern: normalized_pattern(pattern@),
                            handler,
                            mount_depth: 0,
                            scope: 0,
                        },
                    )
                    &&& !final(self).is_indexed()
                    &&& compile_fault(normalized_pattern(pattern@)) is None
                },
                Err(e) => {
                    &&& compile_fault(normalized_pattern(pattern@)) == Some(e)
                    &&& final(self)@ == old(self)@
                    &&& final(self).is_indexed() == old(self).is_indexed()
                },
            },
    {
        match Route::new(method, pattern, handler) {
            Ok(route) => {
                proof {
                    route.lemma_wf_pattern();
                }
                let index = self.routes.len();
                self.place(route);
                Ok(index)
            },
            Err(e) => Err(e),
        }
    }

    /// Puts a finished route after those already there and drops the
    /// aggregate.
    fn place(&mut self, route: Route<H>)
        requires
            old(self).wf(),
            route.wf(),
        ensures
            final(self).wf(),
            final(self)@ == old(self)@.push(route@),
            !final(self).is_indexed(),
    {
        let ghost before = self@;
        let ghost model = route@;
        self.routes.push(route);
        self.aggregate = None;
        assert(self@ =~= before.push(model));
    }

    /// Moves the routes of `child` under `prefix` and puts them, in their
    /// order, after those already there. Each is one mount deeper and
    /// `offset` data scopes further on, and its pattern is compiled afresh.
    /// Stops at the first pattern that does not compile.
    pub(crate) fn absorb(&mut self, child: RouteTable<H>, prefix: &str, offset: usize) -> (r: Result<
        (),
        PatternError,
    >)
        requires
            old(self).wf(),
            child.wf(),
            forall|i: int|
                0 <= i < child@.len() ==> (#[trigger] child@[i]).mount_depth < usize::MAX
                    && child@[i].scope + offset <= usize::MAX,
        ensures
            final(self).wf(),
            !final(self).is_indexed(),
            match r {
                Ok(()) => {
                    &&& first_fault(rebased_route_patterns(child@, prefix@), child@.len() as int)
                        is None
                    &&& final(self)@ == old(self)@ + child@.map_values(
                        |r: RouteModel<H>| rebased_route(r, prefix@, offset as int),
                    )
                },
                Err(e) => first_fault(rebased_route_patterns(child@, prefix@), child@.len() as int)
                    == Some(e),
            },
    {
        let ghost models = child@;
        let ghost patterns = rebased_route_patterns(models, prefix@);
        let ghost moved = models.map_values(
            |r: RouteModel<H>| rebased_route(r, prefix@, offset as int),
        );
        let ghost start = self@;
        let ghost total = child.routes.len();
        assert forall|j: int| 0 <= j < total implies (#[trigger] child.routes[j])@ == models[j] by {}
        let mut rest = reversed(child.routes);
        let mut i: usize = 0;
        self.aggregate = None;
        assert(self@ =~= start + moved.take(0));
        while rest.len() > 0
            invariant
                models == child@,
                models.len() == total,
                patterns == rebased_route_patterns(models, prefix@),
                moved == models.map_values(
                    |r: RouteModel<H>| rebased_route(r, prefix@, offset as int),
                ),
                i + rest.len() == total,
                forall|j: int| 0 <= j < rest.len() ==> (#[trigger] rest[j]).wf(),
                forall|j: int|
                    0 <= j < rest.len() ==> (#[trigger] rest[j])@ == models[total - 1 - j],
                forall|j: int|
                    0 <= j < total ==> (#[trigger] models[j]).mount_depth < usize::MAX
                        && models[j].scope + offset <= usize::MAX,
                self.wf(),
                !self.is_indexed(),
                first_fault(patterns, i as int) is None,
                self@ == start + moved.take(i as int),
            decreases rest.len(),
        {
            let ghost before = self@;
            let route = rest.pop().unwrap();
            assert(route@ == models[i as int]);
            assert(patterns[i as int] == joined_path(prefix@, models[i as int].pattern));
            match route.rebase(prefix, offset) {
                Ok(placed) => {
                    assert(placed@ == moved[i as int]);
                    self.place(placed);
                    assert(self@ =~= before.push(moved[i as int]));
                    assert(moved.take(i + 1) =~= moved.take(i as int).push(moved[i as int]));
                },
                Err(e) => {
                    proof {
                        lemma_first_fault_stays(patterns, i + 1, total as int);
                    }
                    return Err(e);
                },
            }
            i += 1;
        }
        assert(moved.take(i as int) =~= moved);
        Ok(())
    }

    /// The anchored expressions of the routes, in order.
    pub fn sources(&self) -> (out: Vec<String>)
        requires
            self.wf(),
        ensures
            texts(out@) == route_sources(self@),
    {
        let mut out: Vec<String> = Vec::new();
        let mut i: usize = 0;
        while i < self.routes.len()
            invariant
                self.wf(),
                i <= self.routes.len(),
                out.len() == i,
                forall|j: int| 0 <= j < i ==> (#[trigger] out[j])@ == route_sources(self@)[j],
            decreases self.routes.len() - i,
        {
            assert(self.routes[i as int].wf());
            let source = self.routes[i].matcher().source().clone();
            assert(source@ == route_sources(self@)[i as int]);
            out.push(source);
            i += 1;
        }
        assert(texts(out@) =~= route_sources(self@));
        out
    }

    /// Builds the aggregate expression over the patterns of all routes.
    /// Fails, and leaves the table without an aggregate, exactly when the
    /// engine does not accept the list of their expressions.
    pub fn index(&mut self) -> (built: bool)
        requires
            old(self).wf(),
        ensures
            final(self).wf(),
            final(self)@ == old(self)@,
            built == regex_set_accepts(route_sources(old(self)@)),
            final(self).is_indexed() == built,
    {
        let sources = self.sources();
        match regex_set_new(&sources) {
            Ok(set) => {
                self.aggregate = Some(set);
                true
            },
            Err(_) => {
                self.aggregate = None;
                false
            },
        }
    }

    /// For each route, whether its pattern matches `path`. With an
    /// aggregate this takes one evaluation; without, one per route.
    pub fn acceptance(&self, path: &str) -> (accepted: Vec<bool>)
        requires
            self.wf(),
        ensures
            accepted@ == acceptance(self@, path@),
    {
        match &self.aggregate {
            Some(set) => {
                let hits = regex_set_matches(set, path);
                let accepted = mask_of(&hits, self.routes.len());
                assert forall|i: int| 0 <= i < self@.len() implies accepted@[i] == acceptance(
                    self@,
                    path@,
                )[i] by {
                    assert(regex_set_patterns(*set)[i] == source_of(self@[i].pattern));
                }
                assert(accepted@ =~= acceptance(self@, path@));
                accepted
            },
            None => {
                let mut accepted: Vec<bool> = Vec::new();
                let mut i: usize = 0;
                while i < self.routes.len()
                    invariant
                        self.wf(),
                        i <= self.routes.len(),
                        accepted.len() == i,
                        forall|j: int|
                            0 <= j < i ==> (#[trigger] accepted[j]) == pattern_accepts(
                                self@[j].pattern,
                                path@,
                            ),
                    decreases self.routes.len() - i,
                {
                    assert(self.routes[i as int].wf());
                    let hit = self.routes[i].matcher().is_match(path);
                    accepted.push(hit);
                    i += 1;
                }
                assert(accepted@ =~= acceptance(self@, path@));
                accepted
            },
        }
    }

    /// Decides among the routes for `method`, given for each route whether
    /// its pattern matches: the first matching route that answers the
    /// method wins. A route that the mask does not reach counts as not
    /// matching.
    pub fn select(&self, accepted: &Vec<bool>, method: Method) -> (s: Selection)
        ensures
            s@ == selection(self@, accepted@, method),
    {
        let mut allowed: Vec<Method> = Vec::new();
        let mut i: usize = 0;
        while i < self.routes.len()
            invariant
                i <= self.routes.len(),
                self@.len() == self.routes.len(),
                first_hit(self@, accepted@, method, i as int) is None,
                allowed@ == allowed_methods(self@, accepted@, i as int),
            decreases self.routes.len() - i,
        {
            assert(self@[i as int] == self.routes[i as int]@);
            if i < accepted.len() && accepted[i] {
                let m = self.routes[i].method();
                if m == method {
                    proof {
                        lemma_first_hit_stays(self@, accepted@, method, i + 1, self@.len() as int);
                    }
                    return Selection::Route(i);
                }
                if !method_listed(&allowed, m) {
                    allowed.push(m);
                }
            }
            i += 1;
        }
        if allowed.len() > 0 {
            Selection::MethodNotAllowed(allowed)
        } else {
            Selection::NotFound
        }
    }

    /// Looks `path` up under `method`, given for each route whether its
    /// pattern matches the path.
    pub(crate) fn find_among(&self, accepted: &Vec<bool>, method: Method, path: &str) -> (r: Lookup)
        requires
            self.wf(),
            accepted@ == acceptance(self@, path@),
        ensures
            r@ == route_lookup(self@, method, path@),
    {
        match self.select(accepted, method) {
            Selection::Route(index) => {
                proof {
                    lemma_first_hit_some(self@, accepted@, method, self@.len() as int);
                }
                assert(self.routes[index as int].wf());
                assert(self@[index as int] == self.routes[index as int]@);
                match self.routes[index].matcher().match_path(path) {
                    Some(params) => Lookup::Found { index, params },
                    None => {
                        // A pattern that matches always yields its groups.
                        assert(false);
                        Lookup::Found { index, params: RouteParams::new() }
                    },
                }
            },
            Selection::MethodNotAllowed(allowed) => Lookup::MethodNotAllowed { allowed },
            Selection::NotFound => Lookup::NotFound,
        }
    }

    /// Looks `path` up under `method`: the first route, in registration
    /// order, that answers the method and whose pattern matches the path,
    /// with the parameters its pattern extracts.
    pub fn find(&self, method: Method, path: &str) -> (r: Lookup)
        requires
            self.wf(),
        ensures
            r@ == route_lookup(self@, method, path@),
    {
        let accepted = self.acceptance(path);
        self.find_among(&accepted, method, path)
    }
}

/// Once a hit is found among the first `k` routes, it stays the hit however
/// many more routes are considered.
pub proof fn lemma_first_hit_stays<H>(
    routes: Seq<RouteModel<H>>,
    accepted: Seq<bool>,
    method: Method,
    k: int,
    n: int,
)
    requires
        0 <= k <= n,
        first_hit(routes, accepted, method, k) is Some,
    ensures
        first_hit(routes, accepted, method, n) == first_hit(routes, accepted, method, k),
    decreases n - k,
{
    if k < n {
        lemma_first_hit_stays(routes, accepted, method, k, n - 1);
    }
}

} // verus!
