//! Decision core of a pull-through cache for OCI registries.
pub mod cache;
pub mod clock;
pub mod registry_auth;
pub mod routing;
pub mod server;
pub mod text;
