//! A health-aware round-robin backend pool and the pure parts of an HTTP
//! reverse proxy: backend selection, hop-by-hop header stripping, target
//! URI construction, probe classification, and error-response synthesis.

use vstd::prelude::*;

pub mod proxy;
pub mod round_robin;
pub mod uri;

pub use round_robin::RoundRobin;
pub use round_robin::RoundRobinServers;

verus! {

/// A validated backend descriptor, as produced by configuration loading:
/// the backend's base URL and the path probed for health checks.
pub struct Servers {
    pub url: String,
    pub health_check_path: String,
}

} // verus!
