//! The router: routes, middleware and data of one scope tree, assembled at
//! build time and read-only afterwards.

use crate::engine::regex_is_match;
use crate::engine::regex_set_accepts;
use crate::engine::regex_set_matches;
use crate::engine::regex_set_new;
use crate::engine::regex_set_patterns;
use crate::engine::texts;
use crate::matcher::compile_fault;
use crate::matcher::first_fault;
use crate::matcher::lemma_first_fault_concat;
use crate::matcher::source_of;
use crate::method::Method;
use crate::middleware::applicability;
use crate::middleware::applicability_given;
use crate::middleware::applicable;
use crate::middleware::entry_sources;
use crate::middleware::scope_source;
use crate::middleware::chain_patterns;
use crate::middleware::rebased_entries;
use crate::middleware::ChainModel;
use crate::middleware::Middleware;
use crate::middleware::MiddlewareChain;
use crate::middleware::MiddlewareEntry;
use crate::middleware::MiddlewareModel;
use crate::middleware::Phase;
use crate::paths::normalized_pattern;
use crate::pattern::PatternError;
use crate::registry::is_scope_tree;
use crate::registry::merged;
use crate::registry::resolve;
use crate::registry::DataRegistry;
use crate::registry::DataScopeModel;
use crate::route::acceptance;
use crate::route::marks;
use crate::route::mask_of;
use crate::route::rebased_route;
use crate::route::window;
use crate::route::rebased_route_patterns;
use crate::route::route_lookup;
use crate::route::route_sources;
use crate::route::Lookup;
use crate::route::Route;
use crate::route::RouteModel;
use crate::route::RouteTable;
use crate::store::TypeKey;
use regex::RegexSet;
use vstd::prelude::*;

verus! {

/// The handler that turns a failure into a response, and how it was
/// declared.
#[derive(Debug)]
pub enum ErrHandler<H> {
    /// The handler takes the error alone.
    WithoutInfo(H),
    /// The handler takes the error and the request's snapshot.
    WithInfo(H),
}

/// The mathematical value of a [`Router`].
pub struct RouterModel<H, D> {
    /// The pre-middleware, in registration order.
    pub pre: Seq<MiddlewareModel<H>>,
    /// The routes, in registration order.
    pub routes: Seq<RouteModel<H>>,
    /// The post-middleware, in registration order.
    pub post: Seq<MiddlewareModel<H>>,
    /// The data scopes, root first.
    pub data: Seq<DataScopeModel<D>>,
    /// The handler for paths that no route knows.
    pub fallback: Option<H>,
    /// The handler for failures.
    pub err_handler: Option<ErrHandler<H>>,
}

/// A router: the immutable composite that requests are dispatched against.
#[derive(Debug)]
pub struct Router<H, D> {
    chain: MiddlewareChain<H>,
    table: RouteTable<H>,
    registry: DataRegistry<D>,
    fallback: Option<H>,
    err_handler: Option<ErrHandler<H>>,
    should_gen_req_info: Option<bool>,
    aggregate: Option<RegexSet>,
}

impl<H, D> View for Router<H, D> {
    type V = RouterModel<H, D>;

    closed spec fn view(&self) -> RouterModel<H, D> {
        RouterModel {
            pre: self.chain@.pre,
            routes: self.table@,
            post: self.chain@.post,
            data: self.registry@,
            fallback: self.fallback,
            err_handler: self.err_handler,
        }
    }
}

/// The expressions that the aggregate of a router covers, in order: those
/// of the pre-middleware, of the routes, and of the post-middleware.
pub open spec fn router_sources<H, D>(router: RouterModel<H, D>) -> Seq<Seq<char>> {
    entry_sources(router.pre) + route_sources(router.routes) + entry_sources(router.post)
}

/// What one evaluation of a path tells: the pre-middleware that apply, for
/// each route whether its pattern matches, and the post-middleware that
/// apply.
#[derive(Debug)]
pub struct PathMatches {
    /// The positions of the pre-middleware that apply, in order.
    pub pre: Vec<usize>,
    /// For each route, whether its pattern matches the path.
    pub accepted: Vec<bool>,
    /// The positions of the post-middleware that apply, in order.
    pub post: Vec<usize>,
}

/// Whether a request's snapshot has to be taken: some stage that may run
/// is declared to receive it.
pub open spec fn info_needed<H, D>(router: RouterModel<H, D>) -> bool {
    ||| router.err_handler matches Some(ErrHandler::WithInfo(_))
    ||| exists|i: int| 0 <= i < router.post.len() && (#[trigger] router.post[i]).needs_info
}

/// Whether the entries, routes and scopes of a router fit together: every
/// entry belongs to one of the scopes, has passed through fewer mounts than
/// there are scopes, and stands in the list of its phase.
pub open spec fn is_coherent<H, D>(router: RouterModel<H, D>) -> bool {
    &&& is_scope_tree(router.data)
    &&& forall|i: int|
        0 <= i < router.pre.len() ==> {
            &&& (#[trigger] router.pre[i]).phase == Phase::Pre
            &&& 0 <= router.pre[i].origin < router.data.len()
            &&& 0 <= router.pre[i].mount_depth < router.data.len()
        }
    &&& forall|i: int|
        0 <= i < router.post.len() ==> {
            &&& (#[trigger] router.post[i]).phase == Phase::Post
            &&& 0 <= router.post[i].origin < router.data.len()
            &&& 0 <= router.post[i].mount_depth < router.data.len()
        }
    &&& forall|i: int|
        0 <= i < router.routes.len() ==> {
            &&& 0 <= (#[trigger] router.routes[i]).scope < router.data.len()
            &&& 0 <= router.routes[i].mount_depth < router.data.len()
        }
}

/// Every pattern that has to compile for `child` to be mounted under
/// `prefix`, in the order in which they are compiled: pre-middleware,
/// post-middleware, routes.
pub open spec fn mount_patterns<H, D>(child: RouterModel<H, D>, prefix: Seq<char>) -> Seq<
    Seq<char>,
> {
    chain_patterns(ChainModel { pre: child.pre, post: child.post }, prefix)
        + rebased_route_patterns(child.routes, prefix)
}

/// The fault that keeps `child` from being mounted under `prefix`, if there
/// is one.
pub open spec fn mount_fault<H, D>(child: RouterModel<H, D>, prefix: Seq<char>) -> Option<
    PatternError,
> {
    first_fault(mount_patterns(child, prefix), mount_patterns(child, prefix).len() as int)
}

/// The router that comes of mounting `child` under `prefix` in `parent`:
/// the parent's own entries stay as and where they are, and the child's
/// follow them, moved under the prefix, one mount deeper, in the child's
/// own order. The child's data scopes hang under the parent's root. The
/// parent's fallback and error handler stay in charge; the child's are left
/// behind.
pub open spec fn mounted<H, D>(
    parent: RouterModel<H, D>,
    prefix: Seq<char>,
    child: RouterModel<H, D>,
) -> RouterModel<H, D> {
    let offset = parent.data.len() as int;
    RouterModel {
        pre: parent.pre + rebased_entries(child.pre, prefix, offset),
        routes: parent.routes + child.routes.map_values(
            |r: RouteModel<H>| rebased_route(r, prefix, offset),
        ),
        post: parent.post + rebased_entries(child.post, prefix, offset),
        data: merged(parent.data, child.data),
        fallback: parent.fallback,
        err_handler: parent.err_handler,
    }
}

impl<H, D> Router<H, D> {
    /// The invariant of a router: its parts are well-formed and fit
    /// together, and the note on whether snapshots are needed, once taken,
    /// is right.
    pub closed spec fn wf(&self) -> bool {
        &&& self.chain.wf()
        &&& self.table.wf()
        &&& self.registry.wf()
        &&& is_coherent(self@)
        &&& self.should_gen_req_info matches Some(b) ==> b == info_needed(self@)
        &&& self.aggregate matches Some(set) ==> regex_set_patterns(set) == router_sources(self@)
    }

    /// Whether the router is ready to serve: the aggregate expression over
    /// its routes is built, and whether snapshots are needed is settled.
    pub closed spec fn is_ready(&self) -> bool {
        self.aggregate is Some && self.should_gen_req_info is Some
    }

    /// The parts of a well-formed router fit together.
    pub proof fn lemma_wf_coherent(&self)
        requires
            self.wf(),
        ensures
            is_coherent(self@),
    {
    }

    /// A router with nothing registered: no routes, no middleware, one
    /// empty data scope, no fallback and no error handler.
    pub fn new() -> (r: Router<H, D>)
        ensures
            r.wf(),
            !r.is_ready(),
            r@.pre == Seq::<MiddlewareModel<H>>::empty(),
            r@.routes == Seq::<RouteModel<H>>::empty(),
            r@.post == Seq::<MiddlewareModel<H>>::empty(),
            r@.data.len() == 1,
            r@.data[0].values == Map::<TypeKey, D>::empty(),
            r@.fallback is None,
            r@.err_handler is None,
    {
        Router {
            chain: MiddlewareChain::new(),
            table: RouteTable::new(),
            registry: DataRegistry::new(),
            fallback: None,
            err_handler: None,
            should_gen_req_info: None,
            aggregate: None,
        }
    }

    /// Registers a route for `method` at `pattern`, after the routes
    /// already there. On a faulty pattern nothing is registered.
    pub fn add(&mut self, method: Method, pattern: &str, handler: H) -> (r: Result<(), PatternError>)
        requires
            old(self).wf(),
        ensures
            final(self).wf(),
            match r {
                Ok(()) => {
                    &&& compile_fault(normalized_pattern(pattern@)) is None
                    &&& final(self)@ == (RouterModel {
                        routes: old(self)@.routes.push(
                            RouteModel {
                                method,
                                pattern: normalized_pattern(pattern@),
                                handler,
                                mount_depth: 0,
                                scope: 0,
                            },
                        ),
                        ..old(self)@
                    })
                },
                Err(e) => {
                    &&& compile_fault(normalized_pattern(pattern@)) == Some(e)
                    &&& final(self)@ == old(self)@
                },
            },
    {
        match self.table.register(method, pattern, handler) {
            Ok(_) => {
                self.aggregate = None;
                Ok(())
            },
            Err(e) => Err(e),
        }
    }

    /// Registers a middleware after those of its phase already there.
    pub fn middleware(&mut self, m: Middleware<H>)
        requires
            old(self).wf(),
            m.wf(),
        ensures
            final(self).wf(),
            final(self)@ == (match m.model().phase {
                Phase::Pre => RouterModel { pre: old(self)@.pre.push(m.model()), ..old(self)@ },
                Phase::Post => RouterModel { post: old(self)@.post.push(m.model()), ..old(self)@ },
            }),
    {
        let entry = m.into_entry();
        proof {
            self.chain.lemma_wf_phases();
        }
        self.chain.register(entry);
        self.should_gen_req_info = None;
        self.aggregate = None;
    }

    /// Stores `value` under `key` in the router's own data scope, in place
    /// of any value stored there before.
    pub fn data(&mut self, key: TypeKey, value: D)
        requires
            old(self).wf(),
        ensures
            final(self).wf(),
            final(self)@ == (RouterModel {
                data: old(self)@.data.update(
                    0,
                    DataScopeModel {
                        parent: None,
                        values: old(self)@.data[0].values.insert(key, value),
                    },
                ),
                ..old(self)@
            }),
    {
        self.registry.insert(key, value);
    }

    /// Sets the handler for paths that no route knows, in place of any set
    /// before.
    pub fn any(&mut self, handler: H)
        requires
            old(self).wf(),
        ensures
            final(self).wf(),
            final(self)@ == (RouterModel { fallback: Some(handler), ..old(self)@ }),
    {
        self.fallback = Some(handler);
    }

    /// Sets the handler for failures, declared to take the error alone, in
    /// place of any set before.
    pub fn err_handler(&mut self, handler: H)
        requires
            old(self).wf(),
        ensures
            final(self).wf(),
            final(self)@ == (RouterModel {
                err_handler: Some(ErrHandler::WithoutInfo(handler)),
                ..old(self)@
            }),
    {
        self.err_handler = Some(ErrHandler::WithoutInfo(handler));
        self.should_gen_req_info = None;
    }

    /// Sets the handler for failures, declared to take the error and the
    /// request's snapshot, in place of any set before.
    pub fn err_handler_with_info(&mut self, handler: H)
        requires
            old(self).wf(),
        ensures
            final(self).wf(),
            final(self)@ == (RouterModel {
                err_handler: Some(ErrHandler::WithInfo(handler)),
                ..old(self)@
            }),
    {
        self.err_handler = Some(ErrHandler::WithInfo(handler));
        self.should_gen_req_info = None;
    }

    /// Mounts `child` under `prefix`. Every pattern of the child is moved
    /// under the prefix and compiled afresh; the first that does not
    /// compile is the error, and the mount then comes to nothing.
    pub fn scope(self, prefix: &str, child: Router<H, D>) -> (r: Result<Router<H, D>, PatternError>)
        requires
            self.wf(),
            child.wf(),
        ensures
            match r {
                Ok(m) => m.wf() && !m.is_ready() && mount_fault(child@, prefix@) is None && m@
                    == mounted(self@, prefix@, child@),
                Err(e) => mount_fault(child@, prefix@) == Some(e),
            },
    {
        let Router {
            chain: parent_chain,
            table: parent_table,
            registry: parent_registry,
            fallback,
            err_handler,
            should_gen_req_info: _,
            aggregate: _,
        } = self;
        let Router {
            chain,
            table,
            registry,
            fallback: _,
            err_handler: _,
            should_gen_req_info: _,
            aggregate: _,
        } = child;
        proof {
            lemma_first_fault_concat(
                chain_patterns(chain@, prefix@),
                rebased_route_patterns(table@, prefix@),
            );
        }
        let child_scopes = registry.len();
        let mut merged_registry = parent_registry;
        let offset = merged_registry.absorb(registry);
        let total = merged_registry.len();
        assert(total == offset + child_scopes);
        let merged_chain = match parent_chain.absorb(chain, prefix, offset) {
            Ok(c) => c,
            Err(e) => {
                return Err(e);
            },
        };
        let mut merged_table = parent_table;
        match merged_table.absorb(table, prefix, offset) {
            Ok(()) => {},
            Err(e) => {
                return Err(e);
            },
        }
        Ok(
            Router {
                chain: merged_chain,
                table: merged_table,
                registry: merged_registry,
                fallback,
                err_handler,
                should_gen_req_info: None,
                aggregate: None,
            },
        )
    }

    /// The expressions that the aggregate covers, in order.
    pub fn sources(&self) -> (out: Vec<String>)
        requires
            self.wf(),
        ensures
            texts(out@) == router_sources(self@),
    {
        let mut out = self.chain.sources(Phase::Pre);
        let mut routes = self.table.sources();
        let mut post = self.chain.sources(Phase::Post);
        let ghost a = out@;
        let ghost b = routes@;
        let ghost c = post@;
        out.append(&mut routes);
        out.append(&mut post);
        assert(texts(out@) =~= texts(a) + texts(b) + texts(c));
        out
    }

    /// Builds the aggregate expression over the patterns of all
    /// pre-middleware, routes and post-middleware. Fails exactly when the
    /// engine does not accept the list of their expressions.
    pub fn init_regex_set(&mut self) -> (built: bool)
        requires
            old(self).wf(),
        ensures
            final(self).wf(),
            final(self)@ == old(self)@,
            built == regex_set_accepts(router_sources(old(self)@)),
            final(self).has_regex_set() == built,
            final(self).knows_info_need() == old(self).knows_info_need(),
    {
        let sources = self.sources();
        match regex_set_new(&sources) {
            Ok(set) => {
                self.aggregate = Some(set);
                true
            },
            Err(_) => {
                self.aggregate = None;
                false
            },
        }
    }

    /// Settles whether a request's snapshot has to be taken: it has when
    /// the error handler or some post-middleware is declared to receive it.
    pub fn init_req_info_gen(&mut self)
        requires
            old(self).wf(),
        ensures
            final(self).wf(),
            final(self)@ == old(self)@,
            final(self).knows_info_need(),
            final(self).has_regex_set() == old(self).has_regex_set(),
    {
        let needed = self.compute_info_need();
        self.should_gen_req_info = Some(needed);
    }

    /// Whether the aggregate expression is built.
    pub closed spec fn has_regex_set(&self) -> bool {
        self.aggregate is Some
    }

    /// Whether it is settled that snapshots are or are not needed.
    pub closed spec fn knows_info_need(&self) -> bool {
        self.should_gen_req_info is Some
    }

    /// A router is ready when both preparations are done.
    pub proof fn lemma_ready(&self)
        ensures
            self.is_ready() <==> self.has_regex_set() && self.knows_info_need(),
    {
    }

    /// Whether some stage that may run is declared to receive the
    /// request's snapshot.
    fn compute_info_need(&self) -> (needed: bool)
        requires
            self.wf(),
        ensures
            needed == info_needed(self@),
    {
        match &self.err_handler {
            Some(ErrHandler::WithInfo(_)) => {
                return true;
            },
            _ => {},
        }
        let n = self.chain.len(Phase::Post);
        let mut i: usize = 0;
        while i < n
            invariant
                self.wf(),
                n == self@.post.len(),
                i <= n,
                forall|j: int| 0 <= j < i ==> !(#[trigger] self@.post[j]).needs_info,
            decreases n - i,
        {
            if self.chain.entry(Phase::Post, i).needs_info() {
                return true;
            }
            i += 1;
        }
        false
    }

    /// Whether a request's snapshot has to be taken.
    pub fn should_gen_req_info(&self) -> (needed: bool)
        requires
            self.wf(),
        ensures
            needed == info_needed(self@),
    {
        match self.should_gen_req_info {
            Some(b) => b,
            None => self.compute_info_need(),
        }
    }

    /// The positions of the pre-middleware that apply to `path`, in
    /// registration order.
    pub fn applicable_pre(&self, path: &str) -> (list: Vec<usize>)
        requires
            self.wf(),
        ensures
            list@ == applicable(self@.pre, path@),
    {
        self.chain.applicable(path, Phase::Pre)
    }

    /// The positions of the post-middleware that apply to `path`, in
    /// registration order.
    pub fn applicable_post(&self, path: &str) -> (list: Vec<usize>)
        requires
            self.wf(),
        ensures
            list@ == applicable(self@.post, path@),
    {
        self.chain.applicable(path, Phase::Post)
    }

    /// Looks `path` up under `method` among the routes.
    pub fn find(&self, method: Method, path: &str) -> (r: Lookup)
        requires
            self.wf(),
        ensures
            r@ == route_lookup(self@.routes, method, path@),
    {
        self.table.find(method, path)
    }

    /// Judges `path` once for all patterns of the router. With the
    /// aggregate built this takes one evaluation; without, one for each
    /// anchored middleware and each route.
    pub fn matches(&self, path: &str) -> (m: PathMatches)
        requires
            self.wf(),
        ensures
            m.pre@ == applicable(self@.pre, path@),
            m.accepted@ == acceptance(self@.routes, path@),
            m.post@ == applicable(self@.post, path@),
    {
        let n_pre = self.chain.len(Phase::Pre);
        let n_routes = self.table.len();
        let n_post = self.chain.len(Phase::Post);
        let covered = match n_pre.checked_add(n_routes) {
            Some(head) => match head.checked_add(n_post) {
                Some(total) => Some((head, total)),
                None => None,
            },
            None => None,
        };
        match (&self.aggregate, covered) {
            (Some(set), Some((head, total))) => {
                let hits = regex_set_matches(set, path);
                let mask = mask_of(&hits, total);
                let pre = self.chain.applicable_given(Phase::Pre, &mask, 0);
                let accepted = window(&mask, n_pre, n_routes);
                let post = self.chain.applicable_given(Phase::Post, &mask, head);
                proof {
                    let sources = router_sources(self@);
                    assert forall|i: int| 0 <= i < total implies marks(mask@, i) == regex_is_match(
                        #[trigger] sources[i],
                        path@,
                    ) by {}
                    assert(applicability_given(self@.pre, mask@, 0) =~= applicability(
                        self@.pre,
                        path@,
                    )) by {
                        assert forall|i: int| 0 <= i < n_pre implies applicability_given(
                            self@.pre,
                            mask@,
                            0,
                        )[i] == applicability(self@.pre, path@)[i] by {
                            assert(sources[i] == scope_source(self@.pre[i].scope));
                        }
                    }
                    assert(accepted@ =~= acceptance(self@.routes, path@)) by {
                        assert forall|i: int| 0 <= i < n_routes implies accepted@[i] == acceptance(
                            self@.routes,
                            path@,
                        )[i] by {
                            assert(sources[n_pre + i] == source_of(self@.routes[i].pattern));
                        }
                    }
                    assert(applicability_given(self@.post, mask@, head as int) =~= applicability(
                        self@.post,
                        path@,
                    )) by {
                        assert forall|i: int| 0 <= i < n_post implies applicability_given(
                            self@.post,
                            mask@,
                            head as int,
                        )[i] == applicability(self@.post, path@)[i] by {
                            assert(sources[head + i] == scope_source(self@.post[i].scope));
                        }
                    }
                }
                PathMatches { pre, accepted, post }
            },
            _ => PathMatches {
                pre: self.chain.applicable(path, Phase::Pre),
                accepted: self.table.acceptance(path),
                post: self.chain.applicable(path, Phase::Post),
            },
        }
    }

    /// Looks `path` up under `method` among the routes, given for each
    /// route whether its pattern matches the path.
    pub(crate) fn find_among(&self, accepted: &Vec<bool>, method: Method, path: &str) -> (r: Lookup)
        requires
            self.wf(),
            accepted@ == acceptance(self@.routes, path@),
        ensures
            r@ == route_lookup(self@.routes, method, path@),
    {
        self.table.find_among(accepted, method, path)
    }

    /// Looks `key` up in the data registry from `scope`.
    pub fn lookup_data(&self, scope: usize, key: TypeKey) -> (value: Option<&D>)
        requires
            self.wf(),
        ensures
            match value {
                Some(v) => resolve(self@.data, scope as int, key) == Some(*v),
                None => resolve(self@.data, scope as int, key) is None,
            },
    {
        self.registry.lookup(scope, key)
    }

    /// The number of routes.
    pub fn route_count(&self) -> (n: usize)
        ensures
            n == self@.routes.len(),
    {
        self.table.len()
    }

    /// The route at position `i`.
    pub fn route(&self, i: usize) -> (r: &Route<H>)
        requires
            self.wf(),
            i < self@.routes.len(),
        ensures
            r.wf(),
            r@ == self@.routes[i as int],
    {
        self.table.route(i)
    }

    /// The number of pre-middleware.
    pub fn pre_count(&self) -> (n: usize)
        ensures
            n == self@.pre.len(),
    {
        self.chain.len(Phase::Pre)
    }

    /// The pre-middleware at position `i`.
    pub fn pre_middleware(&self, i: usize) -> (m: &MiddlewareEntry<H>)
        requires
            self.wf(),
            i < self@.pre.len(),
        ensures
            m.wf(),
            m@ == self@.pre[i as int],
    {
        self.chain.entry(Phase::Pre, i)
    }

    /// The number of post-middleware.
    pub fn post_count(&self) -> (n: usize)
        ensures
            n == self@.post.len(),
    {
        self.chain.len(Phase::Post)
    }

    /// The post-middleware at position `i`.
    pub fn post_middleware(&self, i: usize) -> (m: &MiddlewareEntry<H>)
        requires
            self.wf(),
            i < self@.post.len(),
        ensures
            m.wf(),
            m@ == self@.post[i as int],
    {
        self.chain.entry(Phase::Post, i)
    }

    /// The handler for paths that no route knows.
    pub fn fallback(&self) -> (h: Option<&H>)
        ensures
            match h {
                Some(handler) => self@.fallback == Some(*handler),
                None => self@.fallback is None,
            },
    {
        self.fallback.as_ref()
    }

    /// The handler for failures.
    pub fn error_handler(&self) -> (h: Option<&ErrHandler<H>>)
        ensures
            match h {
                Some(handler) => self@.err_handler == Some(*handler),
                None => self@.err_handler is None,
            },
    {
        self.err_handler.as_ref()
    }
}

} // verus!
