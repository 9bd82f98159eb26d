//! The request service: a router made ready, and the entry through which
//! each request of one connection comes in.

use crate::context::RequestContext;
use crate::dispatch::decoded_path;
use crate::dispatch::opening;
use crate::dispatch::Action;
use crate::dispatch::Dispatch;
use crate::dispatch::RequestModel;
use crate::engine::regex_set_accepts;
use crate::info::header_texts;
use crate::info::RemoteAddr;
use crate::info::RequestInfoModel;
use crate::method::Method;
use crate::paths::normalized_path;
use crate::pattern::PatternError;
use crate::router::info_needed;
use crate::router::router_sources;
use crate::router::Router;
use crate::router::RouterModel;
use crate::store::TypeKey;
use vstd::prelude::*;

verus! {

/// Holds a router that is ready to serve, and makes a service for each
/// connection.
#[derive(Debug)]
pub struct RequestServiceBuilder<H, D> {
    router: Router<H, D>,
}

/// The service of one connection: the router, and the address of the peer.
#[derive(Debug)]
pub struct RequestService<'a, H, D> {
    router: &'a Router<H, D>,
    remote_addr: RemoteAddr,
}

impl<H, D> RequestServiceBuilder<H, D> {
    /// The invariant of a builder: its router is well-formed and ready.
    pub closed spec fn wf(&self) -> bool {
        self.router.wf() && self.router.is_ready()
    }

    /// The router held.
    pub closed spec fn router_model(&self) -> RouterModel<H, D> {
        self.router@
    }

    /// Makes `router` ready to serve: builds the aggregate expression over
    /// the patterns of its middleware and routes, and settles whether
    /// requests need a snapshot. Fails with `Rejected` exactly when the
    /// engine does not accept the aggregate.
    pub fn new(router: Router<H, D>) -> (r: Result<RequestServiceBuilder<H, D>, PatternError>)
        requires
            router.wf(),
        ensures
            match r {
                Ok(b) => b.wf() && b.router_model() == router@ && regex_set_accepts(
                    router_sources(router@),
                ),
                Err(e) => e == PatternError::Rejected && !regex_set_accepts(
                    router_sources(router@),
                ),
            },
    {
        let mut router = router;
        if !router.init_regex_set() {
            return Err(PatternError::Rejected);
        }
        router.init_req_info_gen();
        proof {
            router.lemma_ready();
        }
        Ok(RequestServiceBuilder { router })
    }

    /// The service for a connection from `remote_addr`.
    pub fn build(&self, remote_addr: RemoteAddr) -> (s: RequestService<'_, H, D>)
        requires
            self.wf(),
        ensures
            s.wf(),
            s.router_model() == self.router_model(),
            s.peer() == remote_addr,
    {
        RequestService { router: &self.router, remote_addr }
    }

    /// The router held.
    pub fn router(&self) -> (r: &Router<H, D>)
        requires
            self.wf(),
        ensures
            r.wf(),
            r.is_ready(),
            r@ == self.router_model(),
    {
        &self.router
    }
}

impl<'a, H, D> RequestService<'a, H, D> {
    /// The invariant of a service: its router is well-formed and ready.
    pub closed spec fn wf(&self) -> bool {
        self.router.wf() && self.router.is_ready()
    }

    /// The router served.
    pub closed spec fn router_model(&self) -> RouterModel<H, D> {
        self.router@
    }

    /// The address of the peer.
    pub closed spec fn peer(&self) -> RemoteAddr {
        self.remote_addr
    }

    /// The address of the peer.
    pub fn remote_addr(&self) -> (a: RemoteAddr)
        ensures
            a == self.peer(),
    {
        self.remote_addr
    }

    /// The router served.
    pub fn router(&self) -> (r: &'a Router<H, D>)
        requires
            self.wf(),
        ensures
            r.wf(),
            r.is_ready(),
            r@ == self.router_model(),
    {
        self.router
    }

    /// Takes a request in. Its path is decoded and closed by a `/`; its
    /// snapshot, with the peer's address, is taken if any stage may ask for
    /// it; its context is made, empty; and the pipeline is entered. A path
    /// that does not decode goes straight to ErrorHandle. What comes back
    /// is the request on its way, the context that its stages share, and
    /// the first action that the pipeline asks for.
    pub fn call<V>(&self, method: Method, uri: &str, raw_path: &str, headers: Vec<(String, String)>) -> (r: (
        Dispatch<'a, H, D>,
        RequestContext<V>,
        Action,
    ))
        requires
            self.wf(),
        ensures
            r.0.wf(),
            r.0.router_model() == self.router_model(),
            r.0.decoded() == (decoded_path(raw_path@) is Some),
            r.0.decoded() ==> r.0.request() == (RequestModel {
                method,
                path: normalized_path(decoded_path(raw_path@)->0),
            }),
            (r.0.stage(), r.2) == opening(self.router_model(), method, raw_path@),
            r.0.info_model() == (if r.0.decoded() && info_needed(self.router_model()) {
                Some(
                    RequestInfoModel {
                        method,
                        uri: uri@,
                        headers: header_texts(headers@),
                        remote_addr: self.peer(),
                    },
                )
            } else {
                None
            }),
            r.1@ == Map::<TypeKey, V>::empty(),
            r.0.routed() == (r.0.decoded() && !(r.2 is RunPre)),
    {
        let (dispatch, first) = Dispatch::begin(
            self.router,
            self.remote_addr,
            method,
            uri,
            raw_path,
            headers,
        );
        (dispatch, RequestContext::new(), first)
    }
}

} // verus!
