//! What it takes to fetch from an upstream: where it is, and how it authenticates.
use vstd::hash_map::StringHashMap;
use vstd::prelude::*;
use vstd::string::*;

use crate::cache::error::{BlobFetchError, Failure};
use crate::cache::manifest::ManifestReference;
use crate::registry_auth;
use crate::registry_auth::{BearerChallenge, ChallengeView, TokenRequest, UpstreamReply};
use crate::routing::config::{Upstream, UpstreamCredentials};
use crate::text;

verus! {

// ---------------------------------------------------------------------------
// Where an upstream is
// ---------------------------------------------------------------------------

/// How to speak to a registry.
#[derive(Debug, Clone, Copy, PartialEq, Eq, Structural)]
pub enum ClientProtocol {
    Http,
    Https,
}

/// The registry and the protocol in a base URL.
pub open spec fn endpoint(base_url: Seq<char>) -> Option<(Seq<char>, ClientProtocol)> {
    if "https://"@.is_prefix_of(base_url) {
        let host = base_url.skip("https://"@.len() as int);
        Some((text::trim_back(host, text::only('/')), ClientProtocol::Https))
    } else if "http://"@.is_prefix_of(base_url) {
        let host = base_url.skip("http://"@.len() as int);
        Some((text::trim_back(host, text::only('/')), ClientProtocol::Http))
    } else {
        None
    }
}

/// Splits a base URL such as `https://registry-1.docker.io` into the registry and the protocol.
pub fn parse_upstream_url(base_url: &str) -> (result: Result<
    (String, ClientProtocol),
    BlobFetchError,
>)
    ensures
        match result {
            Ok((registry, protocol)) => endpoint(base_url@) == Some((registry@, protocol)),
            Err(error) => endpoint(base_url@) is None && error@ == Failure::InvalidUpstreamUrl(
                base_url@,
            ),
        },
{
    if let Some(host) = text::strip_prefix(base_url, "https://") {
        assert(base_url@.skip("https://"@.len() as int) == host@);
        assert(base_url@.subrange(0, "https://"@.len() as int) == "https://"@);
        return Ok((text::trim_end_matches(host, '/').to_owned(), ClientProtocol::Https));
    }
    if let Some(host) = text::strip_prefix(base_url, "http://") {
        assert(base_url@.skip("http://"@.len() as int) == host@);
        assert(base_url@.subrange(0, "http://"@.len() as int) == "http://"@);
        return Ok((text::trim_end_matches(host, '/').to_owned(), ClientProtocol::Http));
    }
    Err(BlobFetchError::InvalidUpstreamUrl(base_url.to_owned()))
}

// ---------------------------------------------------------------------------
// How an upstream authenticates
// ---------------------------------------------------------------------------

/// How an upstream authenticates, as far as it is the same for all its repositories.
#[derive(Debug)]
pub enum AuthShape {
    Anonymous,
    Bearer { realm: String, service: Option<String> },
}

/// The same, with its characters.
pub enum ShapeView {
    Anonymous,
    Bearer { realm: Seq<char>, service: Option<Seq<char>> },
}

impl View for AuthShape {
    type V = ShapeView;

    open spec fn view(&self) -> ShapeView {
        match self {
            AuthShape::Anonymous => ShapeView::Anonymous,
            AuthShape::Bearer { realm, service } => ShapeView::Bearer {
                realm: realm@,
                service: text::opt_text(*service),
            },
        }
    }
}

impl Clone for AuthShape {
    fn clone(&self) -> (copy: Self)
        ensures
            copy@ == self@,
    {
        match self {
            AuthShape::Anonymous => AuthShape::Anonymous,
            AuthShape::Bearer { realm, service } => AuthShape::Bearer {
                realm: realm.clone(),
                service: service.clone(),
            },
        }
    }
}

/// The reply says that the upstream wants nothing: it reports success, or it has nothing at this
/// place and sends no challenge.
pub open spec fn wants_nothing(reply: UpstreamReply) -> bool {
    registry_auth::success(reply.status) || (reply.status == 404 && reply.www_authenticate is None)
}

/// How the upstream `id` authenticates, by its reply to `GET /v2/`. Only a 401 with a readable
/// challenge means that it wants a token. A reply that neither says so nor that nothing is wanted,
/// such as a redirect or a failure of the upstream, may pass, and must not be taken for either: the
/// conclusion is kept.
pub open spec fn shape_for(id: Seq<char>, reply: Option<UpstreamReply>) -> Result<
    ShapeView,
    Failure,
> {
    match reply {
        None => Err(Failure::AuthProbe { upstream: id }),
        Some(reply) => if wants_nothing(reply) {
            Ok(ShapeView::Anonymous)
        } else if reply.status == 401 && registry_auth::challenge_of(reply) is Some {
            let challenge = registry_auth::challenge_of(reply)->0;
            Ok(ShapeView::Bearer { realm: challenge.realm, service: challenge.service })
        } else {
            Err(Failure::UnexpectedAuthProbeStatus { upstream: id, status: reply.status })
        },
    }
}

/// Determines how `upstream` authenticates from its reply to `GET /v2/`; there is none if it
/// could not be reached.
pub fn auth_shape_in_reply(upstream: &Upstream, reply: Option<UpstreamReply>) -> (result: Result<
    AuthShape,
    BlobFetchError,
>)
    ensures
        match result {
            Ok(shape) => shape_for(upstream.id@, reply) == Ok::<ShapeView, Failure>(shape@),
            Err(error) => shape_for(upstream.id@, reply) == Err::<ShapeView, Failure>(error@),
        },
{
    let reply = match reply {
        Some(reply) => reply,
        None => {
            return Err(BlobFetchError::AuthProbe { upstream: upstream.id.clone() });
        },
    };
    if registry_auth::is_success(reply.status) || (reply.status == 404
        && reply.www_authenticate.is_none()) {
        return Ok(AuthShape::Anonymous);
    }
    if reply.status == 401 {
        if let Some(challenge) = registry_auth::challenge_in_reply(&reply) {
            return Ok(AuthShape::Bearer { realm: challenge.realm, service: challenge.service });
        }
    }
    Err(
        BlobFetchError::UnexpectedAuthProbeStatus {
            upstream: upstream.id.clone(),
            status: reply.status,
        },
    )
}

// ---------------------------------------------------------------------------
// Authentication for a repository
// ---------------------------------------------------------------------------

/// How to authenticate a request for content.
#[derive(Debug, PartialEq, Eq)]
pub enum RegistryAuth {
    Anonymous,
    Bearer(String),
}

/// The same, with its characters.
pub enum AuthView {
    Anonymous,
    Bearer(Seq<char>),
}

impl View for RegistryAuth {
    type V = AuthView;

    open spec fn view(&self) -> AuthView {
        match self {
            RegistryAuth::Anonymous => AuthView::Anonymous,
            RegistryAuth::Bearer(token) => AuthView::Bearer(token@),
        }
    }
}

/// What a token is needed for.
#[derive(Debug, Clone, Copy, PartialEq, Eq, Structural)]
pub enum TokenPurpose {
    /// To make sure that the repository can be had without credentials.
    Check,
    /// To use the configured credentials, after that was made sure.
    Credentials,
}

/// Authentication that waits for a token.
#[derive(Debug)]
pub struct PendingToken {
    pub challenge: BearerChallenge,
    pub purpose: TokenPurpose,
}

/// What comes next in authentication.
#[derive(Debug)]
pub enum AuthStep {
    /// Ask the upstream at this URL how it authenticates.
    AskUpstream(String),
    /// Fetch a token.
    FetchToken(TokenRequest, PendingToken),
    /// Authentication is determined, or there is none.
    Done(Result<RegistryAuth, BlobFetchError>),
}

/// A step of authentication.
pub enum AuthStepView {
    AskUpstream(Seq<char>),
    FetchToken {
        challenge: ChallengeView,
        credentials: Option<UpstreamCredentials>,
        purpose: TokenPurpose,
    },
    Done(Result<AuthView, Failure>),
}

impl AuthStep {
    /// This is the step that `step` describes; a token request asks for what it says.
    pub open spec fn shows(&self, step: AuthStepView) -> bool {
        match self {
            AuthStep::AskUpstream(url) => step == AuthStepView::AskUpstream(url@),
            AuthStep::FetchToken(request, pending) => {
                &&& step matches AuthStepView::FetchToken { challenge, credentials, purpose }
                &&& request.asks_for(challenge, credentials)
                &&& pending.challenge@ == challenge
                &&& pending.purpose == purpose
            },
            AuthStep::Done(Ok(auth)) => step == AuthStepView::Done(Ok(auth@)),
            AuthStep::Done(Err(error)) => step == AuthStepView::Done(Err(error@)),
        }
    }
}

/// The permission to pull from `repository`.
pub open spec fn pull_scope(repository: Seq<char>) -> Seq<char> {
    "repository:"@ + repository + ":pull"@
}

/// The challenge for pulling from `repository`. The upstream's own scope plays no part.
pub open spec fn challenge_for(
    realm: Seq<char>,
    service: Option<Seq<char>>,
    repository: Seq<char>,
) -> ChallengeView {
    ChallengeView { realm, service, scope: Some(pull_scope(repository)) }
}

/// The step once it is known how the upstream authenticates. A token is first asked for without
/// credentials, whether there are any or not.
pub open spec fn step_for_shape(
    upstream: Upstream,
    repository: Seq<char>,
    shape: ShapeView,
    trusted: bool,
) -> AuthStepView {
    match shape {
        ShapeView::Anonymous => AuthStepView::Done(Ok(AuthView::Anonymous)),
        ShapeView::Bearer { realm, service } => if trusted {
            AuthStepView::FetchToken {
                challenge: challenge_for(realm, service, repository),
                credentials: None,
                purpose: TokenPurpose::Check,
            }
        } else {
            AuthStepView::Done(Err(Failure::UntrustedRealm { upstream: upstream.id@, realm }))
        },
    }
}

/// The step once the token was asked for. Without a token from the check there is no
/// authentication at all, even if credentials might give access.
pub open spec fn step_for_token(
    upstream: Upstream,
    repository: Seq<char>,
    challenge: ChallengeView,
    purpose: TokenPurpose,
    token: Option<Seq<char>>,
    trusted: bool,
) -> AuthStepView {
    let untrusted = Failure::UntrustedRealm { upstream: upstream.id@, realm: challenge.realm };
    match (purpose, token) {
        (TokenPurpose::Check, None) => AuthStepView::Done(
            Err(Failure::AuthenticationRequired { upstream: upstream.id@, repository }),
        ),
        (TokenPurpose::Check, Some(token)) => match upstream.credentials {
            None => AuthStepView::Done(Ok(AuthView::Bearer(token))),
            Some(_) => if trusted {
                AuthStepView::FetchToken {
                    challenge,
                    credentials: upstream.credentials,
                    purpose: TokenPurpose::Credentials,
                }
            } else {
                AuthStepView::Done(Err(untrusted))
            },
        },
        (TokenPurpose::Credentials, None) => AuthStepView::Done(Err(untrusted)),
        (TokenPurpose::Credentials, Some(token)) => AuthStepView::Done(Ok(AuthView::Bearer(token))),
    }
}

// ---------------------------------------------------------------------------
// Fetching
// ---------------------------------------------------------------------------

/// How to pull content from an upstream.
#[derive(Debug)]
pub struct Pull {
    pub registry: String,
    pub protocol: ClientProtocol,
    pub repository: String,
    pub reference: ManifestReference,
    /// The bearer token to log in with first. Where none is wanted there is no login: it would only
    /// ask the upstream once more how it authenticates.
    pub login: Option<String>,
}

/// The token of an authentication.
pub open spec fn login_of(auth: AuthView) -> Option<Seq<char>> {
    match auth {
        AuthView::Anonymous => None,
        AuthView::Bearer(token) => Some(token),
    }
}

/// What is known of the upstreams from which content is fetched.
pub struct OciBlobSource {
    /// How each upstream that was asked authenticates, by its id.
    auth_shapes: StringHashMap<AuthShape>,
}

impl View for OciBlobSource {
    type V = Map<Seq<char>, ShapeView>;

    closed spec fn view(&self) -> Map<Seq<char>, ShapeView> {
        self.auth_shapes@.map_values(|shape: AuthShape| shape@)
    }
}

impl OciBlobSource {
    /// The first step of authentication for `repository`.
    pub open spec fn auth_step(&self, upstream: Upstream, repository: Seq<char>) -> AuthStepView {
        if self@.contains_key(upstream.id@) {
            let shape = self@[upstream.id@];
            step_for_shape(
                upstream,
                repository,
                shape,
                shape matches ShapeView::Bearer { realm, .. } && registry_auth::trusts(
                    upstream,
                    realm,
                ),
            )
        } else {
            AuthStepView::AskUpstream(upstream.base_url@ + "/v2/"@)
        }
    }

    /// Nothing is known of any upstream.
    pub fn new() -> (source: Self)
        ensures
            source@ == Map::<Seq<char>, ShapeView>::empty(),
    {
        let source = OciBlobSource { auth_shapes: StringHashMap::new() };
        assert(source@ =~= Map::<Seq<char>, ShapeView>::empty());
        source
    }

    /// How `upstream` authenticates, if it was asked before.
    pub fn auth_shape(&self, upstream: &Upstream) -> (shape: Option<AuthShape>)
        ensures
            match shape {
                Some(shape) => self@.contains_key(upstream.id@) && self@[upstream.id@] == shape@,
                None => !self@.contains_key(upstream.id@),
            },
    {
        match self.auth_shapes.get(upstream.id.as_str()) {
            Some(shape) => Some(shape.clone()),
            None => None,
        }
    }

    /// Begins to determine how to authenticate for `repository`. An upstream that was asked
    /// before how it authenticates is not asked again.
    pub fn resolve_auth(&self, upstream: &Upstream, repository: &str) -> (step: AuthStep)
        ensures
            step.shows(self.auth_step(*upstream, repository@)),
    {
        match self.auth_shape(upstream) {
            Some(shape) => Self::with_shape(upstream, repository, shape),
            None => {
                let mut url = upstream.base_url.clone();
                url.append("/v2/");
                AuthStep::AskUpstream(url)
            },
        }
    }

    /// Begins to determine how to authenticate for a manifest of `repository`. Unlike for other
    /// content, an upstream that cannot be pulled from is not asked anything.
    pub fn fetch_manifest(&self, upstream: &Upstream, repository: &str) -> (step: AuthStep)
        ensures
            match endpoint(upstream.base_url@) {
                Some(_) => step.shows(self.auth_step(*upstream, repository@)),
                None => step.shows(
                    AuthStepView::Done(Err(Failure::InvalidUpstreamUrl(upstream.base_url@))),
                ),
            },
    {
        match parse_upstream_url(upstream.base_url.as_str()) {
            Ok(_) => self.resolve_auth(upstream, repository),
            Err(error) => AuthStep::Done(Err(error)),
        }
    }

    /// Goes on once the upstream was asked how it authenticates; there is no reply if it could not
    /// be reached. What it wants is kept, a failure is not.
    pub fn on_auth_reply(
        &mut self,
        upstream: &Upstream,
        repository: &str,
        reply: Option<UpstreamReply>,
    ) -> (step: AuthStep)
        ensures
            match shape_for(upstream.id@, reply) {
                Ok(shape) => {
                    &&& final(self)@ == old(self)@.insert(upstream.id@, shape)
                    &&& step.shows(
                        step_for_shape(
                            *upstream,
                            repository@,
                            shape,
                            shape matches ShapeView::Bearer { realm, .. } && registry_auth::trusts(
                                *upstream,
                                realm,
                            ),
                        ),
                    )
                },
                Err(failure) => {
                    &&& final(self)@ == old(self)@
                    &&& step.shows(AuthStepView::Done(Err(failure)))
                },
            },
    {
        match auth_shape_in_reply(upstream, reply) {
            Ok(shape) => {
                self.auth_shapes.insert(upstream.id.clone(), shape.clone());
                assert(self@ =~= old(self)@.insert(upstream.id@, shape@));
                Self::with_shape(upstream, repository, shape)
            },
            Err(error) => AuthStep::Done(Err(error)),
        }
    }

    /// Goes on once it is known how the upstream authenticates.
    fn with_shape(upstream: &Upstream, repository: &str, shape: AuthShape) -> (step: AuthStep)
        ensures
            step.shows(
                step_for_shape(
                    *upstream,
                    repository@,
                    shape@,
                    shape@ matches ShapeView::Bearer { realm, .. } && registry_auth::trusts(
                        *upstream,
                        realm,
                    ),
                ),
            ),
    {
        let trusted = match &shape {
            AuthShape::Anonymous => false,
            AuthShape::Bearer { realm, .. } => registry_auth::realm_is_trusted(
                upstream,
                realm.as_str(),
            ),
        };
        Self::on_shape(upstream, repository, shape, trusted)
    }

    /// Goes on once it is known how the upstream authenticates, and whether the place that issues
    /// its tokens is trusted.
    pub fn on_shape(
        upstream: &Upstream,
        repository: &str,
        shape: AuthShape,
        trusted: bool,
    ) -> (step: AuthStep)
        ensures
            step.shows(step_for_shape(*upstream, repository@, shape@, trusted)),
    {
        match shape {
            AuthShape::Anonymous => AuthStep::Done(Ok(RegistryAuth::Anonymous)),
            AuthShape::Bearer { realm, service } => {
                if !trusted {
                    return AuthStep::Done(
                        Err(
                            BlobFetchError::UntrustedRealm { upstream: upstream.id.clone(), realm },
                        ),
                    );
                }
                let mut scope = "repository:".to_owned();
                scope.append(repository);
                scope.append(":pull");
                let challenge = BearerChallenge { realm, service, scope: Some(scope) };
                let request = registry_auth::token_request(&challenge, None);
                AuthStep::FetchToken(
                    request,
                    PendingToken { challenge, purpose: TokenPurpose::Check },
                )
            },
        }
    }

    /// Goes on once the token was asked for.
    pub fn on_token(
        upstream: &Upstream,
        repository: &str,
        pending: PendingToken,
        token: Option<String>,
    ) -> (step: AuthStep)
        ensures
            step.shows(
                step_for_token(
                    *upstream,
                    repository@,
                    pending.challenge@,
                    pending.purpose,
                    text::opt_text(token),
                    registry_auth::trusts(*upstream, pending.challenge.realm@),
                ),
            ),
    {
        let trusted = registry_auth::realm_is_trusted(upstream, pending.challenge.realm.as_str());
        Self::on_token_reply(upstream, repository, pending, token, trusted)
    }

    /// Goes on once the token was asked for, where the place that issues it is trusted or not.
    pub fn on_token_reply(
        upstream: &Upstream,
        repository: &str,
        pending: PendingToken,
        token: Option<String>,
        trusted: bool,
    ) -> (step: AuthStep)
        ensures
            step.shows(
                step_for_token(
                    *upstream,
                    repository@,
                    pending.challenge@,
                    pending.purpose,
                    text::opt_text(token),
                    trusted,
                ),
            ),
    {
        let challenge = pending.challenge;
        match (pending.purpose, token) {
            (TokenPurpose::Check, None) => AuthStep::Done(
                Err(
                    BlobFetchError::AuthenticationRequired {
                        upstream: upstream.id.clone(),
                        repository: repository.to_owned(),
                    },
                ),
            ),
            (TokenPurpose::Check, Some(token)) => match &upstream.credentials {
                None => AuthStep::Done(Ok(RegistryAuth::Bearer(token))),
                Some(credentials) => {
                    if !trusted {
                        return Self::untrusted(upstream, challenge);
                    }
                    let request = registry_auth::token_request(&challenge, Some(credentials));
                    AuthStep::FetchToken(
                        request,
                        PendingToken { challenge, purpose: TokenPurpose::Credentials },
                    )
                },
            },
            (TokenPurpose::Credentials, None) => Self::untrusted(upstream, challenge),
            (TokenPurpose::Credentials, Some(token)) => AuthStep::Done(
                Ok(RegistryAuth::Bearer(token)),
            ),
        }
    }

    /// How to pull the content of `digest` once authentication is determined.
    pub fn fetch_into(
        upstream: &Upstream,
        repository: &str,
        digest: &str,
        auth: RegistryAuth,
    ) -> (pull: Result<Pull, BlobFetchError>)
        ensures
            match pull {
                Ok(pull) => {
                    &&& endpoint(upstream.base_url@) == Some((pull.registry@, pull.protocol))
                    &&& pull.repository@ == repository@
                    &&& pull.reference matches ManifestReference::Digest(named)
                    &&& named@ == digest@
                    &&& text::opt_text(pull.login) == login_of(auth@)
                    &&& auth matches RegistryAuth::Bearer(token) ==> pull.login == Some(token)
                    &&& auth is Anonymous ==> pull.login is None
                },
                Err(error) => {
                    &&& endpoint(upstream.base_url@) is None
                    &&& error@ == Failure::InvalidUpstreamUrl(upstream.base_url@)
                },
            },
    {
        let reference = ManifestReference::Digest(digest.to_owned());
        Self::pull_manifest(upstream, repository, reference, auth)
    }

    /// How to pull a manifest once authentication is determined.
    pub fn pull_manifest(
        upstream: &Upstream,
        repository: &str,
        reference: ManifestReference,
        auth: RegistryAuth,
    ) -> (pull: Result<Pull, BlobFetchError>)
        ensures
            match pull {
                Ok(pull) => {
                    &&& endpoint(upstream.base_url@) == Some((pull.registry@, pull.protocol))
                    &&& pull.repository@ == repository@
                    &&& pull.reference == reference
                    &&& text::opt_text(pull.login) == login_of(auth@)
                    &&& auth matches RegistryAuth::Bearer(token) ==> pull.login == Some(token)
                    &&& auth is Anonymous ==> pull.login is None
                },
                Err(error) => {
                    &&& endpoint(upstream.base_url@) is None
                    &&& error@ == Failure::InvalidUpstreamUrl(upstream.base_url@)
                },
            },
    {
        let (registry, protocol) = match parse_upstream_url(upstream.base_url.as_str()) {
            Ok(endpoint) => endpoint,
            Err(error) => {
                return Err(error);
            },
        };
        let login = match auth {
            RegistryAuth::Anonymous => None,
            RegistryAuth::Bearer(token) => Some(token),
        };
        Ok(Pull { registry, protocol, repository: repository.to_owned(), reference, login })
    }

    /// The end of authentication at a realm that gives no token.
    fn untrusted(upstream: &Upstream, challenge: BearerChallenge) -> (step: AuthStep)
        ensures
            step.shows(
                AuthStepView::Done(
                    Err(
                        Failure::UntrustedRealm {
                            upstream: upstream.id@,
                            realm: challenge.realm@,
                        },
                    ),
                ),
            ),
    {
        AuthStep::Done(
            Err(
                BlobFetchError::UntrustedRealm {
                    upstream: upstream.id.clone(),
                    realm: challenge.realm,
                },
            ),
        )
    }
}

impl Default for OciBlobSource {
    fn default() -> (source: Self)
        ensures
            source@ == Map::<Seq<char>, ShapeView>::empty(),
    {
        OciBlobSource::new()
    }
}

} // verus!
