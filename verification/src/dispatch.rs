//! The dispatcher: the state machine that takes one request through the
//! pipeline.
//!
//! The stages of the pipeline are Start, Decode, PreChain, Route, Handle,
//! PostChain and Resolved, with ErrorHandle reachable from every stage
//! after Decode. The machine itself runs no handler. It says which stage
//! runs next (an [`Action`]), waits to be told how that went (an
//! [`Outcome`]), and decides what follows. Start, Decode and Route need no
//! outside work, so the machine passes through them without resting: a
//! [`Stage`] names the places where it waits.

use crate::engine::percent_decode;
use crate::engine::percent_decoded_bytes;
use crate::info::header_texts;
use crate::info::RemoteAddr;
use crate::info::RequestInfo;
use crate::info::RequestInfoModel;
use crate::method::Method;
use crate::middleware::applicability;
use crate::middleware::applicable;
use crate::middleware::lemma_marked;
use crate::paths::normalize_path;
use crate::paths::normalized_path;
use crate::route::acceptance;
use crate::route::route_lookup;
use crate::route::Lookup;
use crate::route::LookupModel;
use crate::router::info_needed;
use crate::router::ErrHandler;
use crate::router::PathMatches;
use crate::router::Router;
use crate::router::RouterModel;
use vstd::prelude::*;
use vstd::utf8::decode_utf8;
use vstd::utf8::encode_utf8;
use vstd::utf8::valid_utf8;

verus! {

/// How a stage went.
#[derive(Clone, Copy, PartialEq, Eq, Structural, Debug)]
pub enum Outcome {
    Succeeded,
    Failed,
}

/// The stage at which a request failed.
#[derive(Clone, Copy, PartialEq, Eq, Structural, Debug)]
pub enum Failure {
    /// The path could not be decoded.
    Decode,
    /// The pre-middleware at `index` failed.
    PreMiddleware { index: usize },
    /// The handler of the route at `route` failed.
    Handler { route: usize },
    /// The fallback handler failed.
    Fallback,
    /// The post-middleware at `index` failed.
    PostMiddleware { index: usize },
    /// The error handler itself failed.
    ErrorHandler,
}

/// What the machine asks for next.
#[derive(Clone, Copy, PartialEq, Eq, Structural, Debug)]
pub enum Action {
    /// Run the pre-middleware at `index` on the request.
    RunPre { index: usize },
    /// Run the handler of the route at `route`.
    RunHandler { route: usize },
    /// Run the fallback handler.
    RunFallback,
    /// Run the post-middleware at `index` on the response, with the
    /// request's snapshot if `with_info` says so.
    RunPost { index: usize, with_info: bool },
    /// Run the error handler on the failure, with the request's snapshot if
    /// `with_info` says so.
    RunErrorHandler { cause: Failure, with_info: bool },
    /// Answer that the path is not known. The response is final.
    RespondNotFound,
    /// Answer that the path is not known under the request's method. The
    /// response is final.
    RespondMethodNotAllowed,
    /// Answer an `OPTIONS` request with the methods under which the path is
    /// known. The response is final.
    RespondAllowed,
    /// Answer with the generic internal-error response that carries the
    /// failure's description. The response is final.
    RespondDefaultError { cause: Failure },
    /// The response in hand is final.
    Finish,
}

/// Where the machine waits.
#[derive(Clone, Copy, PartialEq, Eq, Structural, Debug)]
pub enum Stage {
    /// PreChain: for the pre-middleware that is `position`-th among those
    /// that apply.
    PreChain { position: usize },
    /// Handle: for the handler of the route at `route`.
    Handle { route: usize },
    /// Handle, on a path that no route knows: for the fallback handler.
    Fallback,
    /// PostChain: for the post-middleware that is `position`-th among those
    /// that apply.
    PostChain { position: usize },
    /// ErrorHandle: for the error handler.
    ErrorHandle,
    /// Resolved: for nothing. The response is final.
    Resolved,
}

/// What of a request decides its way through the pipeline.
pub struct RequestModel {
    pub method: Method,
    /// The path, decoded and closed by a `/`.
    pub path: Seq<char>,
}

/// The path that `raw` decodes to, where its percent-decoded bytes are
/// well-formed UTF-8.
pub open spec fn decoded_path(raw: Seq<char>) -> Option<Seq<char>> {
    let bytes = percent_decoded_bytes(encode_utf8(raw));
    if valid_utf8(bytes) {
        Some(decode_utf8(bytes))
    } else {
        None
    }
}

/// Whether `action` runs a pre-middleware, a route's handler, the fallback
/// or a post-middleware.
pub open spec fn runs_stage(action: Action) -> bool {
    action is RunPre || action is RunHandler || action is RunFallback || action is RunPost
}

/// The place of a stage in the order of the pipeline.
pub open spec fn stage_rank(stage: Stage) -> int {
    match stage {
        Stage::PreChain { .. } => 0,
        Stage::Handle { .. } => 1,
        Stage::Fallback => 1,
        Stage::PostChain { .. } => 2,
        Stage::ErrorHandle => 3,
        Stage::Resolved => 4,
    }
}

/// The place in the order of the pipeline of the stage that `action` asks
/// for.
pub open spec fn action_rank(action: Action) -> int {
    match action {
        Action::RunPre { .. } => 0,
        Action::RunHandler { .. } => 1,
        Action::RunFallback => 1,
        Action::RunPost { .. } => 2,
        Action::RunErrorHandler { .. } => 3,
        _ => 4,
    }
}

/// ErrorHandle, entered on `cause`. The registered handler runs if it can
/// be given what it was declared to take: one declared with the request's
/// snapshot runs only if the snapshot was taken. Else, or with no handler
/// registered, the default response is the answer.
pub open spec fn fail<H, D>(router: RouterModel<H, D>, cause: Failure, info_taken: bool) -> (
    Stage,
    Action,
) {
    match router.err_handler {
        None => (Stage::Resolved, Action::RespondDefaultError { cause }),
        Some(ErrHandler::WithoutInfo(_)) => (
            Stage::ErrorHandle,
            Action::RunErrorHandler { cause, with_info: false },
        ),
        Some(ErrHandler::WithInfo(_)) => if info_taken {
            (Stage::ErrorHandle, Action::RunErrorHandler { cause, with_info: true })
        } else {
            (Stage::Resolved, Action::RespondDefaultError { cause })
        },
    }
}

/// PostChain, entered at position `k` of the post-middleware that apply:
/// that middleware runs, or, past the last, the response is final.
pub open spec fn enter_post<H, D>(router: RouterModel<H, D>, request: RequestModel, k: int) -> (
    Stage,
    Action,
) {
    let post = applicable(router.post, request.path);
    if 0 <= k < post.len() {
        (
            Stage::PostChain { position: k as usize },
            Action::RunPost {
                index: post[k],
                with_info: router.post[post[k] as int].needs_info,
            },
        )
    } else {
        (Stage::Resolved, Action::Finish)
    }
}

/// Route: the lookup decides. A route found is handled. A path known under
/// other methods only is answered at once: an `OPTIONS` request with the
/// methods allowed, any other with method-not-allowed. A path not known
/// goes to the fallback handler if there is one, and is else answered with
/// not-found.
pub open spec fn enter_route<H, D>(router: RouterModel<H, D>, request: RequestModel) -> (
    Stage,
    Action,
) {
    match route_lookup(router.routes, request.method, request.path) {
        LookupModel::Found { index, params } => (
            Stage::Handle { route: index as usize },
            Action::RunHandler { route: index as usize },
        ),
        LookupModel::MethodNotAllowed { allowed } => if request.method == Method::Options {
            (Stage::Resolved, Action::RespondAllowed)
        } else {
            (Stage::Resolved, Action::RespondMethodNotAllowed)
        },
        LookupModel::NotFound => if router.fallback is Some {
            (Stage::Fallback, Action::RunFallback)
        } else {
            (Stage::Resolved, Action::RespondNotFound)
        },
    }
}

/// PreChain, entered at position `k` of the pre-middleware that apply: that
/// middleware runs, or, past the last, routing follows.
pub open spec fn enter_pre<H, D>(router: RouterModel<H, D>, request: RequestModel, k: int) -> (
    Stage,
    Action,
) {
    let pre = applicable(router.pre, request.path);
    if 0 <= k < pre.len() {
        (Stage::PreChain { position: k as usize }, Action::RunPre { index: pre[k] })
    } else {
        enter_route(router, request)
    }
}

/// The machine's step: where it waits next and what it asks for, given
/// where it waited and how that stage went.
pub open spec fn advance<H, D>(
    router: RouterModel<H, D>,
    request: RequestModel,
    stage: Stage,
    outcome: Outcome,
) -> (Stage, Action) {
    match stage {
        Stage::PreChain { position } => match outcome {
            Outcome::Succeeded => enter_pre(router, request, position + 1),
            Outcome::Failed => fail(
                router,
                Failure::PreMiddleware {
                    index: applicable(router.pre, request.path)[position as int],
                },
                true,
            ),
        },
        Stage::Handle { route } => match outcome {
            Outcome::Succeeded => enter_post(router, request, 0),
            Outcome::Failed => fail(router, Failure::Handler { route }, true),
        },
        Stage::Fallback => match outcome {
            Outcome::Succeeded => (Stage::Resolved, Action::Finish),
            Outcome::Failed => fail(router, Failure::Fallback, true),
        },
        Stage::PostChain { position } => match outcome {
            Outcome::Succeeded => enter_post(router, request, position + 1),
            Outcome::Failed => fail(
                router,
                Failure::PostMiddleware {
                    index: applicable(router.post, request.path)[position as int],
                },
                true,
            ),
        },
        Stage::ErrorHandle => match outcome {
            Outcome::Succeeded => (Stage::Resolved, Action::Finish),
            Outcome::Failed => (
                Stage::Resolved,
                Action::RespondDefaultError { cause: Failure::ErrorHandler },
            ),
        },
        Stage::Resolved => (Stage::Resolved, Action::Finish),
    }
}

/// Start and Decode: a raw path that does not decode goes to ErrorHandle,
/// with no snapshot taken; one that does enters PreChain.
pub open spec fn opening<H, D>(router: RouterModel<H, D>, method: Method, raw: Seq<char>) -> (
    Stage,
    Action,
) {
    match decoded_path(raw) {
        None => fail(router, Failure::Decode, false),
        Some(path) => enter_pre(router, RequestModel { method, path: normalized_path(path) }, 0),
    }
}

/// One request on its way through the pipeline.
#[derive(Debug)]
pub struct Dispatch<'a, H, D> {
    router: &'a Router<H, D>,
    method: Method,
    path: String,
    decoded: bool,
    stage: Stage,
    pre: Vec<usize>,
    accepted: Vec<bool>,
    post: Vec<usize>,
    lookup: Option<Lookup>,
    info: Option<RequestInfo>,
}

impl<'a, H, D> Dispatch<'a, H, D> {
    /// The router the request is dispatched against.
    pub closed spec fn router_model(&self) -> RouterModel<H, D> {
        self.router@
    }

    /// The request's method and decoded path.
    pub closed spec fn request(&self) -> RequestModel {
        RequestModel { method: self.method, path: self.path@ }
    }

    /// Whether the request's path could be decoded.
    pub closed spec fn decoded(&self) -> bool {
        self.decoded
    }

    /// Where the machine waits.
    pub closed spec fn stage(&self) -> Stage {
        self.stage
    }

    /// Whether routing has taken place.
    pub closed spec fn routed(&self) -> bool {
        self.lookup is Some
    }

    /// The request's snapshot, if one was taken.
    pub closed spec fn info_model(&self) -> Option<RequestInfoModel> {
        match self.info {
            Some(info) => Some(info@),
            None => None,
        }
    }

    /// What holds of a dispatch whatever its stage.
    closed spec fn base_wf(&self) -> bool {
        &&& self.router.wf()
        &&& self.decoded ==> {
            &&& self.pre@ == applicable(self.router@.pre, self.path@)
            &&& self.accepted@ == acceptance(self.router@.routes, self.path@)
            &&& self.post@ == applicable(self.router@.post, self.path@)
            &&& info_needed(self.router@) ==> self.info is Some
        }
        &&& self.lookup matches Some(found) ==> self.decoded && found@ == route_lookup(
            self.router@.routes,
            self.method,
            self.path@,
        )
    }

    /// The invariant of a dispatch: the lists of middleware are those that
    /// apply to its path, the place where it waits exists, and a snapshot
    /// was taken if any stage may ask for it.
    pub closed spec fn wf(&self) -> bool {
        &&& self.base_wf()
        &&& match self.stage {
            Stage::PreChain { position } => self.decoded && position < self.pre.len(),
            Stage::Handle { route } => self.decoded && self.lookup is Some,
            Stage::Fallback => self.decoded,
            Stage::PostChain { position } => self.decoded && position < self.post.len(),
            Stage::ErrorHandle => true,
            Stage::Resolved => true,
        }
    }

    /// ErrorHandle, entered on `cause`.
    fn fail(&mut self, cause: Failure) -> (action: Action)
        requires
            old(self).base_wf(),
        ensures
            final(self).wf(),
            final(self).same_request(old(self)),
            final(self).routed() == old(self).routed(),
            (final(self).stage(), action) == fail(
                old(self).router_model(),
                cause,
                old(self).info_model() is Some,
            ),
    {
        let with_info = match self.router.error_handler() {
            None => {
                self.stage = Stage::Resolved;
                return Action::RespondDefaultError { cause };
            },
            Some(ErrHandler::WithoutInfo(_)) => false,
            Some(ErrHandler::WithInfo(_)) => true,
        };
        if with_info && self.info.is_none() {
            self.stage = Stage::Resolved;
            return Action::RespondDefaultError { cause };
        }
        self.stage = Stage::ErrorHandle;
        Action::RunErrorHandler { cause, with_info }
    }

    /// PostChain, entered at position `k`.
    fn enter_post(&mut self, k: usize) -> (action: Action)
        requires
            old(self).base_wf(),
            old(self).decoded(),
        ensures
            final(self).wf(),
            final(self).same_request(old(self)),
            final(self).routed() == old(self).routed(),
            (final(self).stage(), action) == enter_post(
                old(self).router_model(),
                old(self).request(),
                k as int,
            ),
    {
        if k < self.post.len() {
            let index = self.post[k];
            let _ = self.router.post_count();
            proof {
                let mask = applicability(self.router@.post, self.path@);
                lemma_marked(mask, mask.len() as int);
            }
            let with_info = self.router.post_middleware(index).needs_info();
            self.stage = Stage::PostChain { position: k };
            Action::RunPost { index, with_info }
        } else {
            self.stage = Stage::Resolved;
            Action::Finish
        }
    }

    /// Route.
    fn enter_route(&mut self) -> (action: Action)
        requires
            old(self).base_wf(),
            old(self).decoded(),
        ensures
            final(self).wf(),
            final(self).same_request(old(self)),
            final(self).routed(),
            (final(self).stage(), action) == enter_route(
                old(self).router_model(),
                old(self).request(),
            ),
    {
        let found = self.router.find_among(&self.accepted, self.method, self.path.as_str());
        let (stage, action) = match &found {
            Lookup::Found { index, params } => (
                Stage::Handle { route: *index },
                Action::RunHandler { route: *index },
            ),
            Lookup::MethodNotAllowed { allowed } => if self.method == Method::Options {
                (Stage::Resolved, Action::RespondAllowed)
            } else {
                (Stage::Resolved, Action::RespondMethodNotAllowed)
            },
            Lookup::NotFound => if self.router.fallback().is_some() {
                (Stage::Fallback, Action::RunFallback)
            } else {
                (Stage::Resolved, Action::RespondNotFound)
            },
        };
        self.lookup = Some(found);
        self.stage = stage;
        action
    }

    /// PreChain, entered at position `k`.
    fn enter_pre(&mut self, k: usize) -> (action: Action)
        requires
            old(self).base_wf(),
            old(self).decoded(),
            !old(self).routed(),
        ensures
            final(self).wf(),
            final(self).same_request(old(self)),
            (final(self).stage(), action) == enter_pre(
                old(self).router_model(),
                old(self).request(),
                k as int,
            ),
            final(self).routed() == !(action is RunPre),
    {
        if k < self.pre.len() {
            self.stage = Stage::PreChain { position: k };
            Action::RunPre { index: self.pre[k] }
        } else {
            self.enter_route()
        }
    }

    /// Whether two dispatches are of the same request against the same
    /// router, with the same snapshot: whether they differ at most in where
    /// they wait.
    closed spec fn same_request(&self, other: &Self) -> bool {
        &&& self.router == other.router
        &&& self.method == other.method
        &&& self.path == other.path
        &&& self.decoded == other.decoded
        &&& self.pre == other.pre
        &&& self.accepted == other.accepted
        &&& self.post == other.post
        &&& self.info == other.info
    }

    /// Takes a request in: decodes its path, judges it once against all
    /// patterns of the router, takes its snapshot if any stage may ask for
    /// it, and enters the pipeline.
    /// The action returned is the first that the pipeline asks for.
    pub fn begin(
        router: &'a Router<H, D>,
        remote_addr: RemoteAddr,
        method: Method,
        uri: &str,
        raw_path: &str,
        headers: Vec<(String, String)>,
    ) -> (r: (Dispatch<'a, H, D>, Action))
        requires
            router.wf(),
        ensures
            r.0.wf(),
            r.0.router_model() == router@,
            r.0.decoded() == (decoded_path(raw_path@) is Some),
            r.0.decoded() ==> r.0.request() == (RequestModel {
                method,
                path: normalized_path(decoded_path(raw_path@)->0),
            }),
            (r.0.stage(), r.1) == opening(router@, method, raw_path@),
            r.0.info_model() == (if r.0.decoded() && info_needed(router@) {
                Some(
                    RequestInfoModel {
                        method,
                        uri: uri@,
                        headers: header_texts(headers@),
                        remote_addr,
                    },
                )
            } else {
                None
            }),
            r.0.routed() == (r.0.decoded() && !(r.1 is RunPre)),
    {
        match percent_decode(raw_path) {
            Err(_) => {
                let mut d = Dispatch {
                    router,
                    method,
                    path: String::new(),
                    decoded: false,
                    stage: Stage::Resolved,
                    pre: Vec::new(),
                    accepted: Vec::new(),
                    post: Vec::new(),
                    lookup: None,
                    info: None,
                };
                let action = d.fail(Failure::Decode);
                (d, action)
            },
            Ok(text) => {
                let path = normalize_path(text);
                let PathMatches { pre, accepted, post } = router.matches(path.as_str());
                let info = if router.should_gen_req_info() {
                    Some(RequestInfo::new(method, uri, headers, remote_addr))
                } else {
                    None
                };
                let mut d = Dispatch {
                    router,
                    method,
                    path,
                    decoded: true,
                    stage: Stage::Resolved,
                    pre,
                    accepted,
                    post,
                    lookup: None,
                    info,
                };
                let action = d.enter_pre(0);
                (d, action)
            },
        }
    }

    /// Tells the machine how the stage it waited for went, and learns what
    /// the pipeline asks for next. Nothing about the request changes but
    /// the place where it waits.
    pub fn step(&mut self, outcome: Outcome) -> (action: Action)
        requires
            old(self).wf(),
        ensures
            final(self).wf(),
            final(self).router_model() == old(self).router_model(),
            final(self).request() == old(self).request(),
            final(self).decoded() == old(self).decoded(),
            final(self).info_model() == old(self).info_model(),
            (final(self).stage(), action) == advance(
                old(self).router_model(),
                old(self).request(),
                old(self).stage(),
                outcome,
            ),
            old(self).routed() ==> final(self).routed(),
            action is RunHandler || action is RunFallback || action is RespondNotFound
                || action is RespondMethodNotAllowed || action is RespondAllowed
                ==> final(self).routed(),
    {
        match self.stage {
            Stage::PreChain { position } => match outcome {
                Outcome::Succeeded => {
                    if position + 1 < self.pre.len() {
                        self.stage = Stage::PreChain { position: position + 1 };
                        Action::RunPre { index: self.pre[position + 1] }
                    } else {
                        self.enter_route()
                    }
                },
                Outcome::Failed => {
                    let index = self.pre[position];
                    self.fail(Failure::PreMiddleware { index })
                },
            },
            Stage::Handle { route } => match outcome {
                Outcome::Succeeded => self.enter_post(0),
                Outcome::Failed => self.fail(Failure::Handler { route }),
            },
            Stage::Fallback => match outcome {
                Outcome::Succeeded => {
                    self.stage = Stage::Resolved;
                    Action::Finish
                },
                Outcome::Failed => self.fail(Failure::Fallback),
            },
            Stage::PostChain { position } => match outcome {
                Outcome::Succeeded => self.enter_post(position + 1),
                Outcome::Failed => {
                    let index = self.post[position];
                    self.fail(Failure::PostMiddleware { index })
                },
            },
            Stage::ErrorHandle => {
                self.stage = Stage::Resolved;
                match outcome {
                    Outcome::Succeeded => Action::Finish,
                    Outcome::Failed => Action::RespondDefaultError { cause: Failure::ErrorHandler },
                }
            },
            Stage::Resolved => Action::Finish,
        }
    }

    /// Gives the request up: the machine goes to Resolved from wherever it
    /// waits, and asks for no stage any more.
    pub fn cancel(&mut self)
        requires
            old(self).wf(),
        ensures
            final(self).wf(),
            final(self).stage() == Stage::Resolved,
            final(self).router_model() == old(self).router_model(),
            final(self).request() == old(self).request(),
            final(self).decoded() == old(self).decoded(),
            final(self).routed() == old(self).routed(),
            final(self).info_model() == old(self).info_model(),
    {
        self.stage = Stage::Resolved;
    }

    /// Where the machine waits.
    pub fn current_stage(&self) -> (s: Stage)
        ensures
            s == self.stage(),
    {
        self.stage
    }

    /// Whether the response is final.
    pub fn is_resolved(&self) -> (done: bool)
        ensures
            done == (self.stage() == Stage::Resolved),
    {
        match self.stage {
            Stage::Resolved => true,
            _ => false,
        }
    }

    /// The request's method.
    pub fn method(&self) -> (m: Method)
        ensures
            m == self.request().method,
    {
        self.method
    }

    /// The request's path, decoded and closed by a `/`; `None` when it
    /// could not be decoded.
    pub fn path(&self) -> (p: Option<&String>)
        ensures
            p is Some == self.decoded(),
            p matches Some(text) ==> text@ == self.request().path,
    {
        if self.decoded {
            Some(&self.path)
        } else {
            None
        }
    }

    /// What routing found; `None` before routing has taken place.
    pub fn lookup(&self) -> (found: Option<&Lookup>)
        requires
            self.wf(),
        ensures
            found is Some == self.routed(),
            found matches Some(l) ==> l@ == route_lookup(
                self.router_model().routes,
                self.request().method,
                self.request().path,
            ),
    {
        self.lookup.as_ref()
    }

    /// The request's snapshot; `None` when none was taken.
    pub fn info(&self) -> (info: Option<&RequestInfo>)
        ensures
            match info {
                Some(i) => self.info_model() == Some(i@),
                None => self.info_model() is None,
            },
    {
        self.info.as_ref()
    }
}

} // verus!
