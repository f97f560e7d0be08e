//! Request routing and dispatch for HTTP-shaped calls on a single-threaded host.
//!
//! Routes are registered per call mode (query or update) and per HTTP method.
//! A request is matched against the route patterns of its mode and method; the
//! most specific matching pattern wins, ties going to the first registered, and
//! the fallback handler answers when nothing matches. A query response may ask
//! for escalation, after which the host runs the same request as an update call.
pub mod http;
pub mod laws;
pub mod pattern;
pub mod router;
pub mod server;
pub mod service;

pub use http::{internal_error_response, not_found_response, CallMode, Params, Request, Response};
pub use pattern::{Pattern, PatternError};
pub use router::{RouteError, Router};
pub use server::{next_step, Server, Step};
pub use service::Service;
