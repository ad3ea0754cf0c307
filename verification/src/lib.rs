//! Host validation for HTTP requests: which host a request is for, and
//! whether that host is one that is served.
//!
//! A request names its host in headers that a client or a proxy wrote. This
//! library resolves the one authority that counts, checks that it is well
//! formed, and tests it against matchers that say which hosts are served.

use vstd::prelude::*;

pub mod authority;
pub mod cache;
pub mod error;
pub mod forwarded;
pub mod host;
pub mod matcher;
pub mod params;
pub mod pattern;
pub mod request;
pub mod service;
pub mod text;

pub use error::Error;
pub use service::AllowedHostLayer;

verus! {

/// The host that a request was resolved to and admitted for.
#[derive(Clone, Debug)]
pub struct Host(pub String);

} // verus!
