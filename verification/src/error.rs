//! The one representation of every failure in the pipeline.

use crate::dispatch::Failure;
use crate::info::RequestInfo;
use crate::info::RequestInfoModel;
use crate::store::TypeKey;
use vstd::prelude::*;

verus! {

/// A failure of some stage: where it happened, the error itself with the
/// identity of its type, and the request's snapshot if one goes with it.
///
/// The error is carried as it is. To have it back, its holder names the
/// type it expects; a wrong guess is an answer of its own, not a default.
#[derive(Debug)]
pub struct RouteError<P> {
    cause: Failure,
    tag: TypeKey,
    payload: P,
    info: Option<RequestInfo>,
}

/// The mathematical value of a [`RouteError`].
pub struct RouteErrorModel<P> {
    pub cause: Failure,
    pub tag: TypeKey,
    pub payload: P,
    pub info: Option<RequestInfoModel>,
}

impl<P> View for RouteError<P> {
    type V = RouteErrorModel<P>;

    closed spec fn view(&self) -> RouteErrorModel<P> {
        RouteErrorModel {
            cause: self.cause,
            tag: self.tag,
            payload: self.payload,
            info: match self.info {
                Some(info) => Some(info@),
                None => None,
            },
        }
    }
}

impl<P> RouteError<P> {
    /// Wraps the error `payload`, whose type has the identity `tag`, as the
    /// failure of the stage `cause`. No snapshot goes with it yet.
    pub fn new(cause: Failure, tag: TypeKey, payload: P) -> (e: RouteError<P>)
        ensures
            e@ == (RouteErrorModel { cause, tag, payload, info: None }),
    {
        RouteError { cause, tag, payload, info: None }
    }

    /// The same failure with `info` as its snapshot.
    pub fn with_info(self, info: RequestInfo) -> (e: RouteError<P>)
        ensures
            e@ == (RouteErrorModel { info: Some(info@), ..self@ }),
    {
        RouteError { cause: self.cause, tag: self.tag, payload: self.payload, info: Some(info) }
    }

    /// The stage that failed.
    pub fn cause(&self) -> (c: Failure)
        ensures
            c == self@.cause,
    {
        self.cause
    }

    /// The identity of the error's type.
    pub fn tag(&self) -> (t: TypeKey)
        ensures
            t == self@.tag,
    {
        self.tag
    }

    /// Whether the error is of the type with the identity `tag`.
    pub fn is(&self, tag: TypeKey) -> (same: bool)
        ensures
            same == (self@.tag == tag),
    {
        self.tag == tag
    }

    /// The snapshot that goes with the failure.
    pub fn info(&self) -> (info: Option<&RequestInfo>)
        ensures
            match info {
                Some(i) => self@.info == Some(i@),
                None => self@.info is None,
            },
    {
        self.info.as_ref()
    }

    /// The error, looked at without taking it out.
    pub fn downcast_ref(&self, tag: TypeKey) -> (r: Option<&P>)
        ensures
            match r {
                Some(p) => self@.tag == tag && *p == self@.payload,
                None => self@.tag != tag,
            },
    {
        if self.tag == tag {
            Some(&self.payload)
        } else {
            None
        }
    }

    /// Recovers the error as the type with the identity `tag`: the very
    /// value that was wrapped, if that is its type, and else the failure
    /// untouched.
    pub fn downcast(self, tag: TypeKey) -> (r: Result<P, RouteError<P>>)
        ensures
            match r {
                Ok(p) => self@.tag == tag && p == self@.payload,
                Err(e) => self@.tag != tag && e@ == self@,
            },
    {
        if self.tag == tag {
            Ok(self.payload)
        } else {
            Err(self)
        }
    }
}

} // verus!
