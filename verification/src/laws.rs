//! What holds of the engine as a whole: statements over several functions,
//! each proved from the definitions that the functions' contracts use.

use crate::dispatch::action_rank;
use crate::dispatch::advance;
use crate::dispatch::enter_pre;
use crate::dispatch::enter_route;
use crate::dispatch::opening;
use crate::dispatch::runs_stage;
use crate::dispatch::stage_rank;
use crate::dispatch::Action;
use crate::dispatch::Outcome;
use crate::dispatch::RequestModel;
use crate::dispatch::Stage;
use crate::matcher::pattern_accepts;
use crate::matcher::pattern_extracts;
use crate::method::Method;
use crate::middleware::applicability;
use crate::middleware::applicable;
use crate::middleware::lemma_marked;
use crate::middleware::lemma_marked_len;
use crate::middleware::scope_applies;
use crate::middleware::MiddlewareModel;
use crate::paths::joined_path;
use crate::registry::lemma_merged_resolve_child;
use crate::registry::lemma_merged_resolve_parent;
use crate::registry::resolve;
use crate::route::acceptance;
use crate::route::allowed_methods;
use crate::route::first_hit;
use crate::route::lemma_allowed_methods;
use crate::route::lemma_first_hit_some;
use crate::route::marks;
use crate::route::rebased_route;
use crate::route::route_lookup;
use crate::route::LookupModel;
use crate::route::RouteModel;
use crate::router::is_coherent;
use crate::router::mounted;
use crate::router::RouterModel;
use crate::store::TypeKey;
use vstd::prelude::*;

verus! {

/// The actions that the machine asks for, one for each of `outcomes`, when
/// it starts out waiting at `stage`.
pub open spec fn run<H, D>(
    router: RouterModel<H, D>,
    request: RequestModel,
    stage: Stage,
    outcomes: Seq<Outcome>,
) -> Seq<Action>
    decreases outcomes.len(),
{
    if outcomes.len() == 0 {
        Seq::empty()
    } else {
        let (next, action) = advance(router, request, stage, outcomes[0]);
        seq![action] + run(router, request, next, outcomes.skip(1))
    }
}

/// Everything that the machine asks for on a request whose path decodes
/// to `path`: the action it opens with, then one for each of `outcomes`.
pub open spec fn trace<H, D>(
    router: RouterModel<H, D>,
    request: RequestModel,
    outcomes: Seq<Outcome>,
) -> Seq<Action> {
    let (stage, action) = enter_pre(router, request, 0);
    seq![action] + run(router, request, stage, outcomes)
}

/// Whether every one of `outcomes` is a success.
pub open spec fn all_succeed(outcomes: Seq<Outcome>) -> bool {
    forall|i: int| 0 <= i < outcomes.len() ==> outcomes[i] == Outcome::Succeeded
}

/// First match wins. A registered route answers every request of its
/// method whose path its pattern matches, with the parameters its pattern
/// extracts from that path, unless a route registered before it answers
/// the same request.
pub proof fn law_registered_route_is_found<H>(
    routes: Seq<RouteModel<H>>,
    i: int,
    method: Method,
    path: Seq<char>,
)
    requires
        0 <= i < routes.len(),
        routes[i].method == method,
        pattern_accepts(routes[i].pattern, path),
        forall|j: int|
            0 <= j < i ==> !((#[trigger] routes[j]).method == method && pattern_accepts(
                routes[j].pattern,
                path,
            )),
    ensures
        route_lookup(routes, method, path) == (LookupModel::Found {
            index: i,
            params: pattern_extracts(routes[i].pattern, path)->0,
        }),
{
    let accepted = acceptance(routes, path);
    lemma_first_hit_some(routes, accepted, method, routes.len() as int);
    match first_hit(routes, accepted, method, routes.len() as int) {
        Some(h) => {
            if h < i {
                assert(routes[h].method == method && pattern_accepts(routes[h].pattern, path));
            }
        },
        None => {
            assert(accepted[i] && routes[i].method == method);
        },
    }
}

/// A lookup answers with a route only if that route answers the method and
/// its pattern matches the path, and with not-found only if no pattern
/// matches the path.
pub proof fn law_lookup_is_sound<H>(routes: Seq<RouteModel<H>>, method: Method, path: Seq<char>)
    ensures
        match route_lookup(routes, method, path) {
            LookupModel::Found { index, params } => {
                &&& 0 <= index < routes.len()
                &&& routes[index].method == method
                &&& pattern_accepts(routes[index].pattern, path)
            },
            LookupModel::MethodNotAllowed { allowed } => {
                &&& allowed.len() > 0
                &&& !allowed.contains(method)
                &&& forall|m: Method|
                    allowed.contains(m) <==> exists|j: int|
                        0 <= j < routes.len() && pattern_accepts(routes[j].pattern, path)
                            && #[trigger] routes[j].method == m
            },
            LookupModel::NotFound => forall|j: int|
                0 <= j < routes.len() ==> !pattern_accepts((#[trigger] routes[j]).pattern, path),
        },
{
    let accepted = acceptance(routes, path);
    let n = routes.len() as int;
    lemma_first_hit_some(routes, accepted, method, n);
    lemma_allowed_methods(routes, accepted, n);
    let allowed = allowed_methods(routes, accepted, n);
    assert forall|m: Method|
        allowed.contains(m) <==> exists|j: int|
            0 <= j < routes.len() && pattern_accepts(routes[j].pattern, path)
                && #[trigger] routes[j].method == m by {
        if allowed.contains(m) {
            let j = choose|j: int| 0 <= j < n && accepted[j] && #[trigger] routes[j].method == m;
            assert(pattern_accepts(routes[j].pattern, path) && routes[j].method == m);
        }
        if exists|j: int|
            0 <= j < routes.len() && pattern_accepts(routes[j].pattern, path)
                && #[trigger] routes[j].method == m {
            let j = choose|j: int|
                0 <= j < routes.len() && pattern_accepts(routes[j].pattern, path)
                    && #[trigger] routes[j].method == m;
            assert(accepted[j] && routes[j].method == m);
        }
    }
    if first_hit(routes, accepted, method, n) is None {
        if allowed.len() > 0 {
            if allowed.contains(method) {
                let j = choose|j: int|
                    0 <= j < n && accepted[j] && #[trigger] routes[j].method == method;
                assert(false);
            }
        } else {
            assert forall|j: int| 0 <= j < routes.len() implies !pattern_accepts(
                (#[trigger] routes[j]).pattern,
                path,
            ) by {
                if pattern_accepts(routes[j].pattern, path) {
                    assert(accepted[j] && routes[j].method == routes[j].method);
                    assert(allowed.contains(routes[j].method));
                    assert(allowed[0] == allowed[0]);
                }
            }
        }
    }
}

/// Middleware run in registration order. The positions selected for a
/// path are those of the entries that apply to it, each once, in the order
/// in which the entries were registered.
pub proof fn law_applicable_in_registration_order<H>(
    entries: Seq<MiddlewareModel<H>>,
    path: Seq<char>,
)
    requires
        entries.len() <= usize::MAX,
    ensures
        forall|a: int, b: int|
            0 <= a < b < applicable(entries, path).len() ==> applicable(entries, path)[a]
                < applicable(entries, path)[b],
        forall|q: int|
            0 <= q < applicable(entries, path).len() ==> (#[trigger] applicable(entries, path)[q])
                < entries.len() && scope_applies(
                entries[applicable(entries, path)[q] as int].scope,
                path,
            ),
        forall|i: int|
            0 <= i < entries.len() && scope_applies((#[trigger] entries[i]).scope, path)
                ==> applicable(entries, path).contains(i as usize),
{
    let mask = applicability(entries, path);
    lemma_marked(mask, entries.len() as int);
    assert forall|i: int|
        0 <= i < entries.len() && scope_applies((#[trigger] entries[i]).scope, path) implies applicable(
        entries,
        path,
    ).contains(i as usize) by {
        assert(mask[i]);
    }
}

/// Routes that no mark reaches change nothing. Where none of the first `n`
/// routes of a list is marked, and the routes after them answer the same
/// methods and carry the same marks as the routes of a second list, the
/// first list's hit is the second's, `n` places further on, and the methods
/// allowed are the same.
proof fn lemma_selection_after_unmarked<H>(
    all: Seq<RouteModel<H>>,
    mask: Seq<bool>,
    tail: Seq<RouteModel<H>>,
    tail_mask: Seq<bool>,
    method: Method,
    n: int,
    k: int,
)
    requires
        0 <= n,
        0 <= k,
        forall|j: int| 0 <= j < n ==> !marks(mask, j),
        forall|j: int|
            0 <= j < k ==> marks(mask, n + j) == marks(tail_mask, j) && (#[trigger] tail[j]).method
                == all[n + j].method,
    ensures
        first_hit(all, mask, method, n + k) == (match first_hit(tail, tail_mask, method, k) {
            Some(i) => Some(n + i),
            None => None,
        }),
        allowed_methods(all, mask, n + k) == allowed_methods(tail, tail_mask, k),
    decreases n + k,
{
    if k > 0 {
        lemma_selection_after_unmarked(all, mask, tail, tail_mask, method, n, k - 1);
        assert(tail[k - 1].method == all[n + k - 1].method);
    } else if n > 0 {
        lemma_selection_after_unmarked(all, mask, tail, tail_mask, method, n - 1, 0);
    }
}

/// Lookup under a mount follows the child's own. Take a path that the
/// child knows as `path` and the mounted router as `full`, in this sense:
/// the engine judges each moved pattern on `full` as it judges the child's
/// pattern on `path`, and extracts the same parameters. If no route of the
/// parent matches `full`, the mounted router answers `full` as the child
/// answers `path`: with the same route, found behind the parent's routes,
/// with the same handler and the same parameters; or with the same methods
/// allowed; or not at all.
///
/// That the engine does judge a moved pattern so is taken as given here,
/// not proved: the engine's verdicts are not defined in this crate.
pub proof fn law_mounted_lookup_follows_child<H, D>(
    parent: RouterModel<H, D>,
    prefix: Seq<char>,
    child: RouterModel<H, D>,
    method: Method,
    path: Seq<char>,
    full: Seq<char>,
)
    requires
        forall|i: int|
            0 <= i < child.routes.len() ==> pattern_accepts(
                joined_path(prefix, (#[trigger] child.routes[i]).pattern),
                full,
            ) == pattern_accepts(child.routes[i].pattern, path) && pattern_extracts(
                joined_path(prefix, child.routes[i].pattern),
                full,
            ) == pattern_extracts(child.routes[i].pattern, path),
        forall|i: int|
            0 <= i < parent.routes.len() ==> !pattern_accepts(
                (#[trigger] parent.routes[i]).pattern,
                full,
            ),
    ensures
        route_lookup(mounted(parent, prefix, child).routes, method, full) == (match route_lookup(
            child.routes,
            method,
            path,
        ) {
            LookupModel::Found { index, params } => LookupModel::Found {
                index: parent.routes.len() + index,
                params,
            },
            LookupModel::MethodNotAllowed { allowed } => LookupModel::MethodNotAllowed { allowed },
            LookupModel::NotFound => LookupModel::NotFound,
        }),
        route_lookup(child.routes, method, path) matches LookupModel::Found { index, params }
            ==> mounted(parent, prefix, child).routes[parent.routes.len() + index].handler
            == child.routes[index].handler,
{
    let all = mounted(parent, prefix, child).routes;
    let n = parent.routes.len() as int;
    let k = child.routes.len() as int;
    let mask = acceptance(all, full);
    let tail_mask = acceptance(child.routes, path);
    let offset = parent.data.len() as int;
    assert forall|j: int| 0 <= j < n implies !marks(mask, j) by {
        assert(all[j] == parent.routes[j]);
    }
    assert forall|j: int| 0 <= j < k implies marks(mask, n + j) == marks(tail_mask, j) && (
    #[trigger] child.routes[j]).method == all[n + j].method by {
        assert(all[n + j] == rebased_route(child.routes[j], prefix, offset));
    }
    lemma_selection_after_unmarked(all, mask, child.routes, tail_mask, method, n, k);
    lemma_first_hit_some(child.routes, tail_mask, method, k);
    match first_hit(child.routes, tail_mask, method, k) {
        Some(i) => {
            assert(all[n + i] == rebased_route(child.routes[i], prefix, offset));
        },
        None => {},
    }
}

/// Data of a mounted router stays its own. After a mount, a lookup from a
/// scope that came with the child finds what the child held there, and
/// where the child held nothing, what the parent's own scope holds; a
/// lookup from a scope of the parent finds what it found before, and so
/// nothing of the child, and nothing of another router mounted beside it.
pub proof fn law_mounted_data_visibility<H, D>(
    parent: RouterModel<H, D>,
    prefix: Seq<char>,
    child: RouterModel<H, D>,
    scope: int,
    key: TypeKey,
)
    requires
        is_coherent(parent),
        is_coherent(child),
    ensures
        0 <= scope < child.data.len() ==> resolve(
            mounted(parent, prefix, child).data,
            parent.data.len() + scope,
            key,
        ) == (match resolve(child.data, scope, key) {
            Some(v) => Some(v),
            None => resolve(parent.data, 0, key),
        }),
        0 <= scope < parent.data.len() ==> resolve(mounted(parent, prefix, child).data, scope, key)
            == resolve(parent.data, scope, key),
{
    if 0 <= scope < child.data.len() {
        lemma_merged_resolve_child(parent.data, child.data, scope, key);
    }
    if 0 <= scope < parent.data.len() {
        lemma_merged_resolve_parent(parent.data, child.data, scope, key);
    }
}

/// Dispatch is decided by what was registered. Two routers with the same
/// routes, middleware, data and handlers, in the same order, ask for the
/// same actions on the same request, whatever the stages' outcomes.
pub proof fn law_equal_routers_dispatch_alike<H, D>(
    a: RouterModel<H, D>,
    b: RouterModel<H, D>,
    method: Method,
    raw: Seq<char>,
    request: RequestModel,
    outcomes: Seq<Outcome>,
)
    requires
        a == b,
    ensures
        opening(a, method, raw) == opening(b, method, raw),
        trace(a, request, outcomes) == trace(b, request, outcomes),
{
}

/// Whatever the machine asks for is what it then waits for, and it never
/// goes back to an earlier stage.
pub proof fn lemma_advance_goes_forward<H, D>(
    router: RouterModel<H, D>,
    request: RequestModel,
    stage: Stage,
    outcome: Outcome,
)
    ensures
        action_rank(advance(router, request, stage, outcome).1) == stage_rank(
            advance(router, request, stage, outcome).0,
        ),
        stage_rank(stage) <= stage_rank(advance(router, request, stage, outcome).0),
{
}

/// From a stage on, the machine asks for nothing that comes before that
/// stage, and for nothing that comes before what it asked for already.
proof fn lemma_run_in_order<H, D>(
    router: RouterModel<H, D>,
    request: RequestModel,
    stage: Stage,
    outcomes: Seq<Outcome>,
)
    ensures
        forall|i: int|
            0 <= i < run(router, request, stage, outcomes).len() ==> stage_rank(stage)
                <= action_rank(#[trigger] run(router, request, stage, outcomes)[i]),
        forall|i: int, j: int|
            0 <= i <= j < run(router, request, stage, outcomes).len() ==> action_rank(
                run(router, request, stage, outcomes)[i],
            ) <= action_rank(run(router, request, stage, outcomes)[j]),
    decreases outcomes.len(),
{
    if outcomes.len() > 0 {
        let (next, action) = advance(router, request, stage, outcomes[0]);
        let all = run(router, request, stage, outcomes);
        let rest = run(router, request, next, outcomes.skip(1));
        lemma_advance_goes_forward(router, request, stage, outcomes[0]);
        lemma_run_in_order(router, request, next, outcomes.skip(1));
        assert forall|i: int| 0 <= i < all.len() implies stage_rank(stage) <= action_rank(
            #[trigger] all[i],
        ) by {
            if i > 0 {
                assert(all[i] == rest[i - 1]);
            }
        }
        assert forall|i: int, j: int| 0 <= i <= j < all.len() implies action_rank(all[i])
            <= action_rank(all[j]) by {
            if j > 0 {
                assert(all[j] == rest[j - 1]);
            }
            if i > 0 {
                assert(all[i] == rest[i - 1]);
            }
        }
    }
}

/// Stages run in the order of the pipeline. Of any two things that the
/// machine asks for on one request, the earlier never comes later in the
/// pipeline than the later: pre-middleware come before the handler, the
/// handler before post-middleware, all of them before the error handler,
/// and nothing after the response is final.
pub proof fn law_stages_run_in_order<H, D>(
    router: RouterModel<H, D>,
    request: RequestModel,
    outcomes: Seq<Outcome>,
)
    ensures
        forall|i: int, j: int|
            0 <= i <= j < trace(router, request, outcomes).len() ==> action_rank(
                trace(router, request, outcomes)[i],
            ) <= action_rank(trace(router, request, outcomes)[j]),
{
    let (stage, action) = enter_pre(router, request, 0);
    let all = trace(router, request, outcomes);
    let rest = run(router, request, stage, outcomes);
    lemma_run_in_order(router, request, stage, outcomes);
    assert(action_rank(action) == stage_rank(stage));
    assert forall|i: int, j: int| 0 <= i <= j < all.len() implies action_rank(all[i])
        <= action_rank(all[j]) by {
        if j > 0 {
            assert(all[j] == rest[j - 1]);
        }
        if i > 0 {
            assert(all[i] == rest[i - 1]);
        }
    }
}

/// Where the machine waits after it was told `outcomes`, one after the
/// other, starting out at `stage`.
pub open spec fn final_stage<H, D>(
    router: RouterModel<H, D>,
    request: RequestModel,
    stage: Stage,
    outcomes: Seq<Outcome>,
) -> Stage
    decreases outcomes.len(),
{
    if outcomes.len() == 0 {
        stage
    } else {
        final_stage(
            router,
            request,
            advance(router, request, stage, outcomes[0]).0,
            outcomes.skip(1),
        )
    }
}

/// The most outcomes that the machine can still be told at `stage` before
/// the response is final.
pub open spec fn steps_left<H, D>(
    router: RouterModel<H, D>,
    request: RequestModel,
    stage: Stage,
) -> int {
    let pre = applicable(router.pre, request.path).len() as int;
    let post = applicable(router.post, request.path).len() as int;
    match stage {
        Stage::PreChain { position } => (if position < pre {
            pre - position
        } else {
            0
        }) + post + 3,
        Stage::Handle { .. } => post + 2,
        Stage::Fallback => 2,
        Stage::PostChain { position } => (if position < post {
            post - position
        } else {
            1
        }) + 1,
        Stage::ErrorHandle => 1,
        Stage::Resolved => 0,
    }
}

/// Every step brings the response nearer.
pub proof fn lemma_advance_uses_a_step<H, D>(
    router: RouterModel<H, D>,
    request: RequestModel,
    stage: Stage,
    outcome: Outcome,
)
    requires
        router.pre.len() <= usize::MAX,
        router.post.len() <= usize::MAX,
        stage != Stage::Resolved,
    ensures
        0 <= steps_left(router, request, advance(router, request, stage, outcome).0) < steps_left(
            router,
            request,
            stage,
        ),
{
    lemma_marked_len(applicability(router.pre, request.path), router.pre.len() as int);
    lemma_marked_len(applicability(router.post, request.path), router.post.len() as int);
}

/// Every request resolves. However the stages go, once the machine has
/// been told as many outcomes as there are pre-middleware and
/// post-middleware that apply, and three more, it waits at Resolved: the
/// response is final. A failing error handler does not keep it from
/// getting there.
pub proof fn law_every_request_resolves<H, D>(
    router: RouterModel<H, D>,
    request: RequestModel,
    stage: Stage,
    outcomes: Seq<Outcome>,
)
    requires
        router.pre.len() <= usize::MAX,
        router.post.len() <= usize::MAX,
        outcomes.len() >= steps_left(router, request, stage),
    ensures
        final_stage(router, request, stage, outcomes) == Stage::Resolved,
        steps_left(router, request, stage) <= applicable(router.pre, request.path).len()
            + applicable(router.post, request.path).len() + 3,
    decreases outcomes.len(),
{
    if outcomes.len() > 0 {
        let next = advance(router, request, stage, outcomes[0]).0;
        if stage != Stage::Resolved {
            lemma_advance_uses_a_step(router, request, stage, outcomes[0]);
        }
        law_every_request_resolves(router, request, next, outcomes.skip(1));
    }
}

/// Once the machine waits for the error handler, or for nothing, it asks
/// for no pre-middleware, handler, fallback or post-middleware any more.
pub proof fn lemma_no_stage_after_error<H, D>(
    router: RouterModel<H, D>,
    request: RequestModel,
    stage: Stage,
    outcomes: Seq<Outcome>,
)
    requires
        stage is ErrorHandle || stage is Resolved,
    ensures
        forall|i: int|
            0 <= i < run(router, request, stage, outcomes).len() ==> !runs_stage(
                #[trigger] run(router, request, stage, outcomes)[i],
            ),
    decreases outcomes.len(),
{
    if outcomes.len() > 0 {
        let (next, action) = advance(router, request, stage, outcomes[0]);
        let rest = run(router, request, next, outcomes.skip(1));
        lemma_no_stage_after_error(router, request, next, outcomes.skip(1));
        assert forall|i: int|
            0 <= i < run(router, request, stage, outcomes).len() implies !runs_stage(
            #[trigger] run(router, request, stage, outcomes)[i],
        ) by {
            if i > 0 {
                assert(run(router, request, stage, outcomes)[i] == rest[i - 1]);
            }
        }
    }
}

/// A failing pre-middleware ends the pipeline. When the pre-middleware at
/// some position fails, no later pre-middleware, no handler and no
/// post-middleware is asked for, whatever happens afterwards.
pub proof fn law_pre_failure_stops_pipeline<H, D>(
    router: RouterModel<H, D>,
    request: RequestModel,
    position: usize,
    outcomes: Seq<Outcome>,
)
    requires
        outcomes.len() > 0,
        outcomes[0] == Outcome::Failed,
    ensures
        forall|i: int|
            0 <= i < run(router, request, Stage::PreChain { position }, outcomes).len()
                ==> !runs_stage(
                #[trigger] run(router, request, Stage::PreChain { position }, outcomes)[i],
            ),
{
    let stage = Stage::PreChain { position };
    let (next, action) = advance(router, request, stage, outcomes[0]);
    let rest = run(router, request, next, outcomes.skip(1));
    lemma_no_stage_after_error(router, request, next, outcomes.skip(1));
    assert forall|i: int| 0 <= i < run(router, request, stage, outcomes).len() implies !runs_stage(
        #[trigger] run(router, request, stage, outcomes)[i],
    ) by {
        if i > 0 {
            assert(run(router, request, stage, outcomes)[i] == rest[i - 1]);
        }
    }
}

/// Once the response is final, the machine asks for nothing more.
pub proof fn lemma_resolved_stays<H, D>(
    router: RouterModel<H, D>,
    request: RequestModel,
    outcomes: Seq<Outcome>,
)
    ensures
        forall|i: int|
            0 <= i < run(router, request, Stage::Resolved, outcomes).len() ==> (#[trigger] run(
                router,
                request,
                Stage::Resolved,
                outcomes,
            )[i]) == Action::Finish,
    decreases outcomes.len(),
{
    if outcomes.len() > 0 {
        let all = run(router, request, Stage::Resolved, outcomes);
        let rest = run(router, request, Stage::Resolved, outcomes.skip(1));
        lemma_resolved_stays(router, request, outcomes.skip(1));
        assert forall|i: int| 0 <= i < all.len() implies (#[trigger] all[i]) == Action::Finish by {
            if i > 0 {
                assert(all[i] == rest[i - 1]);
            }
        }
    }
}

/// Whether `action` is one that a request for an unknown path may meet
/// while every stage succeeds: a pre-middleware, the fallback, the
/// not-found answer, or the end.
pub open spec fn befits_unknown_path(action: Action) -> bool {
    action is RunPre || action is RunFallback || action is RespondNotFound || action is Finish
}

/// From position `k` of the pre-chain on, a request for an unknown path
/// meets nothing but what befits it, as long as every stage succeeds.
proof fn lemma_unknown_path_from<H, D>(
    router: RouterModel<H, D>,
    request: RequestModel,
    k: int,
    outcomes: Seq<Outcome>,
)
    requires
        0 <= k,
        route_lookup(router.routes, request.method, request.path) is NotFound,
        all_succeed(outcomes),
    ensures
        befits_unknown_path(enter_pre(router, request, k).1),
        forall|i: int|
            0 <= i < run(router, request, enter_pre(router, request, k).0, outcomes).len()
                ==> befits_unknown_path(
                #[trigger] run(router, request, enter_pre(router, request, k).0, outcomes)[i],
            ),
    decreases outcomes.len(),
{
    let (stage, action) = enter_pre(router, request, k);
    if outcomes.len() > 0 {
        let (next, then) = advance(router, request, stage, outcomes[0]);
        let rest = outcomes.skip(1);
        assert(all_succeed(rest)) by {
            assert forall|i: int| 0 <= i < rest.len() implies rest[i] == Outcome::Succeeded by {
                assert(rest[i] == outcomes[i + 1]);
            }
        }
        assert(outcomes[0] == Outcome::Succeeded);
        match stage {
            Stage::PreChain { position } => {
                lemma_unknown_path_from(router, request, position + 1, rest);
            },
            _ => {
                lemma_resolved_stays(router, request, rest);
            },
        }
        let all = run(router, request, stage, outcomes);
        let tail = run(router, request, next, rest);
        assert forall|i: int| 0 <= i < all.len() implies befits_unknown_path(#[trigger] all[i]) by {
            if i > 0 {
                assert(all[i] == tail[i - 1]);
            }
        }
    }
}

/// An unknown path gets the fallback or the not-found answer, and nothing
/// else. On a request whose path no route's pattern matches, as long as
/// every stage that runs succeeds, the machine asks for the pre-middleware
/// that apply, then for the fallback handler if one is configured and for
/// the not-found answer if none is, and then for nothing: no route's
/// handler, no post-middleware, no error handler and no default error.
pub proof fn law_unknown_path<H, D>(
    router: RouterModel<H, D>,
    request: RequestModel,
    outcomes: Seq<Outcome>,
)
    requires
        route_lookup(router.routes, request.method, request.path) is NotFound,
        all_succeed(outcomes),
    ensures
        forall|i: int|
            0 <= i < trace(router, request, outcomes).len() ==> befits_unknown_path(
                #[trigger] trace(router, request, outcomes)[i],
            ),
        enter_route(router, request).1 == (if router.fallback is Some {
            Action::RunFallback
        } else {
            Action::RespondNotFound
        }),
{
    lemma_unknown_path_from(router, request, 0, outcomes);
    let (stage, action) = enter_pre(router, request, 0);
    let rest = run(router, request, stage, outcomes);
    assert forall|i: int| 0 <= i < trace(router, request, outcomes).len() implies befits_unknown_path(
        #[trigger] trace(router, request, outcomes)[i],
    ) by {
        if i > 0 {
            assert(trace(router, request, outcomes)[i] == rest[i - 1]);
        }
    }
}

/// `OPTIONS` is answered from the table. An `OPTIONS` request for a path
/// that some route knows, but none under `OPTIONS`, is answered at once
/// with the methods allowed; they are the methods of the routes that know
/// the path. No handler is asked for, then or later.
pub proof fn law_options_answered_without_handler<H, D>(
    router: RouterModel<H, D>,
    path: Seq<char>,
    known: int,
    outcomes: Seq<Outcome>,
)
    requires
        0 <= known < router.routes.len(),
        pattern_accepts(router.routes[known].pattern, path),
        forall|j: int|
            0 <= j < router.routes.len() ==> !((#[trigger] router.routes[j]).method
                == Method::Options && pattern_accepts(router.routes[j].pattern, path)),
    ensures
        route_lookup(router.routes, Method::Options, path) matches LookupModel::MethodNotAllowed {
            allowed,
        } && allowed.contains(router.routes[known].method),
        enter_route(router, RequestModel { method: Method::Options, path }) == (
            Stage::Resolved,
            Action::RespondAllowed,
        ),
        forall|i: int|
            0 <= i < run(
                router,
                RequestModel { method: Method::Options, path },
                Stage::Resolved,
                outcomes,
            ).len() ==> (#[trigger] run(
                router,
                RequestModel { method: Method::Options, path },
                Stage::Resolved,
                outcomes,
            )[i]) == Action::Finish,
{
    let routes = router.routes;
    let accepted = acceptance(routes, path);
    let n = routes.len() as int;
    lemma_first_hit_some(routes, accepted, Method::Options, n);
    lemma_allowed_methods(routes, accepted, n);
    if first_hit(routes, accepted, Method::Options, n) is Some {
        let h = first_hit(routes, accepted, Method::Options, n)->0;
        assert(routes[h].method == Method::Options && pattern_accepts(routes[h].pattern, path));
    }
    assert(accepted[known] && routes[known].method == routes[known].method);
    let allowed = allowed_methods(routes, accepted, n);
    assert(allowed.contains(routes[known].method));
    assert(allowed[0] == allowed[0]);
    lemma_resolved_stays(router, RequestModel { method: Method::Options, path }, outcomes);
}

} // verus!
