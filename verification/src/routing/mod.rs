//! Which upstream registry serves a repository.
pub mod config;
pub mod laws;
pub mod memo;
pub mod probe;
pub mod router;

pub use config::{RoutingConfig, Upstream, UpstreamCredentials};
pub use memo::{InMemoryRoutingMemo, RoutingMemoStore};
pub use probe::{HttpUpstreamProbe, ProbeOutcome, ProbeStep, RetryStep};
pub use router::{
    PendingProbe, ProbeStage, Resolution, ResolutionSource, RouteStep, Router, RoutingError,
};
