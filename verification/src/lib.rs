//! A request-dispatch engine: route patterns, scoped middleware, per-request
//! data, and a dispatcher that resolves every request to one response.

pub mod context;
pub mod dispatch;
pub mod engine;
pub mod error;
pub mod info;
pub mod laws;
pub mod matcher;
pub mod method;
pub mod middleware;
pub mod order;
pub mod params;
pub mod paths;
pub mod pattern;
pub mod registry;
pub mod route;
pub mod router;
pub mod service;
pub mod store;
pub mod text;

pub use crate::context::RequestContext;
pub use crate::dispatch::Action;
pub use crate::dispatch::Dispatch;
pub use crate::dispatch::Failure;
pub use crate::dispatch::Outcome;
pub use crate::dispatch::Stage;
pub use crate::error::RouteError;
pub use crate::info::IpAddress;
pub use crate::info::RemoteAddr;
pub use crate::info::RequestInfo;
pub use crate::matcher::PathMatcher;
pub use crate::method::Method;
pub use crate::middleware::Middleware;
pub use crate::middleware::MiddlewareChain;
pub use crate::middleware::MiddlewareEntry;
pub use crate::middleware::Phase;
pub use crate::middleware::PostMiddleware;
pub use crate::middleware::PreMiddleware;
pub use crate::params::RouteParams;
pub use crate::pattern::PatternError;
pub use crate::registry::DataRegistry;
pub use crate::route::Lookup;
pub use crate::route::Route;
pub use crate::route::RouteTable;
pub use crate::router::ErrHandler;
pub use crate::router::PathMatches;
pub use crate::router::Router;
pub use crate::service::RequestService;
pub use crate::service::RequestServiceBuilder;
pub use crate::store::TypeKey;
pub use crate::store::TypeMap;
