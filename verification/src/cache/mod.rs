//! Fetching content from upstream registries and keeping it.
pub mod blob;
pub mod disk;
pub mod error;
pub mod in_flight;
pub mod laws;
pub mod manifest;
pub mod source;

pub use blob::{BlobCache, BlobPath, Filling, StoreEvent, StoreStage, StoreWork};
pub use error::BlobFetchError;
pub use in_flight::{InFlightEntry, Reservation};
pub use manifest::{
    Fetched, ManifestCache, ManifestReference, ManifestResponse, ManifestStep, TagState,
};
pub use source::{
    AuthShape, AuthStep, ClientProtocol, OciBlobSource, PendingToken, Pull, RegistryAuth,
    TokenPurpose,
};
