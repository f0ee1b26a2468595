use vstd::prelude::*;

verus! {

/// Why content could not be fetched or kept.
#[derive(Debug, PartialEq, Eq)]
pub enum BlobFetchError {
    /// A digest that is not of the form `<algorithm>:<hex>`.
    InvalidDigest(String),
    /// An upstream whose URL is neither `http://` nor `https://`.
    InvalidUpstreamUrl(String),
    /// The upstream could not be asked how it authenticates.
    AuthProbe { upstream: String },
    /// The upstream's reply does not tell how it authenticates.
    UnexpectedAuthProbeStatus { upstream: String, status: u16 },
    /// The upstream wants tokens from a place that is not to be trusted.
    UntrustedRealm { upstream: String, realm: String },
    /// The repository cannot be had without credentials, so it is neither kept nor served.
    AuthenticationRequired { upstream: String, repository: String },
}

/// The reasons, with their characters.
pub enum Failure {
    InvalidDigest(Seq<char>),
    InvalidUpstreamUrl(Seq<char>),
    AuthProbe { upstream: Seq<char> },
    UnexpectedAuthProbeStatus { upstream: Seq<char>, status: u16 },
    UntrustedRealm { upstream: Seq<char>, realm: Seq<char> },
    AuthenticationRequired { upstream: Seq<char>, repository: Seq<char> },
}

impl View for BlobFetchError {
    type V = Failure;

    open spec fn view(&self) -> Failure {
        match self {
            BlobFetchError::InvalidDigest(digest) => Failure::InvalidDigest(digest@),
            BlobFetchError::InvalidUpstreamUrl(url) => Failure::InvalidUpstreamUrl(url@),
            BlobFetchError::AuthProbe { upstream } => Failure::AuthProbe { upstream: upstream@ },
            BlobFetchError::UnexpectedAuthProbeStatus { upstream, status } => {
                Failure::UnexpectedAuthProbeStatus { upstream: upstream@, status: *status }
            },
            BlobFetchError::UntrustedRealm { upstream, realm } => Failure::UntrustedRealm {
                upstream: upstream@,
                realm: realm@,
            },
            BlobFetchError::AuthenticationRequired { upstream, repository } => {
                Failure::AuthenticationRequired { upstream: upstream@, repository: repository@ }
            },
        }
    }
}

} // verus!
