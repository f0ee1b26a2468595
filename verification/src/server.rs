//! Requests of clients, and how they are answered.
use vstd::prelude::*;
use vstd::string::*;

use crate::cache::blob;
use crate::cache::blob::{BlobCache, BlobPath};
use crate::cache::in_flight::InFlightEntry;
use crate::cache::laws;
use crate::cache::manifest;
use crate::cache::manifest::{
    ManifestCache, ManifestReference, ManifestResponse, TagName, TagStates, TagView,
};
use crate::cache::source::{OciBlobSource, ShapeView};
use crate::clock;
use crate::routing::config;
use crate::routing::config::{RoutingConfig, Upstream};
use crate::routing::memo::{InMemoryRoutingMemo, MemoView, RoutingMemoStore};
use crate::routing::router;
use crate::routing::router::{Resolution, Router, RoutingError};
use crate::text;

verus! {

// ---------------------------------------------------------------------------
// Paths
// ---------------------------------------------------------------------------

/// The repository, the kind of content and the reference in the path of a request below `/v2/`.
/// The repository may hold slashes, the other two are what follows the last two of them.
pub open spec fn v2_parts(rest: Seq<char>) -> Option<(Seq<char>, Seq<char>, Seq<char>)> {
    match text::cut_last(rest, '/') {
        Some((head, reference)) => match text::cut_last(head, '/') {
            Some((repository, verb)) => if repository.len() > 0 && verb.len() > 0
                && reference.len() > 0 {
                Some((repository, verb, reference))
            } else {
                None
            },
            None => None,
        },
        None => None,
    }
}

/// Splits the path of a request below `/v2/` into the repository, the kind of content and the
/// reference.
pub fn split_v2_path(rest: &str) -> (parts: Option<(&str, &str, &str)>)
    ensures
        match parts {
            Some((repository, verb, reference)) => v2_parts(rest@) == Some(
                (repository@, verb@, reference@),
            ),
            None => v2_parts(rest@) is None,
        },
{
    let (head, reference) = match text::rsplit_once(rest, '/') {
        Some(cut) => cut,
        None => {
            return None;
        },
    };
    let (repository, verb) = match text::rsplit_once(head, '/') {
        Some(cut) => cut,
        None => {
            return None;
        },
    };
    if repository.unicode_len() == 0 || verb.unicode_len() == 0 || reference.unicode_len() == 0 {
        return None;
    }
    Some((repository, verb, reference))
}

/// Whether a reference to a manifest is a digest. A tag holds no colon.
pub fn is_digest(reference: &str) -> (digest: bool)
    ensures
        digest == reference@.contains(':'),
{
    text::contains_char(reference, ':')
}

// ---------------------------------------------------------------------------
// State
// ---------------------------------------------------------------------------

/// What the server keeps from one request to the next. Manifests and other content are fetched and
/// kept apart from each other, in one store.
pub struct AppState {
    pub router: Router,
    pub memo: InMemoryRoutingMemo,
    pub blob_source: OciBlobSource,
    pub blob_cache: BlobCache,
    pub manifest_source: OciBlobSource,
    pub manifest_blobs: BlobCache,
    pub manifest_cache: ManifestCache,
}

impl AppState {
    /// The state before the first request: nothing is known of any repository, upstream or tag.
    pub fn new(config: RoutingConfig) -> (state: Self)
        ensures
            state.router.config == config,
            state.memo.view() == MemoView::fresh().activate(router::fingerprint(config.upstreams@)),
            state.router.generation == state.memo.view().generation,
            clock::nanos(state.router.negative_ttl) == Router::DEFAULT_NEGATIVE_TTL_SECS
                * clock::NANOS_PER_SEC,
            state.blob_source@ == Map::<Seq<char>, ShapeView>::empty(),
            state.manifest_source@ == Map::<Seq<char>, ShapeView>::empty(),
            state.blob_cache@.entries == Map::<Seq<char>, InFlightEntry>::empty(),
            state.blob_cache@.well_formed(),
            state.manifest_blobs@.entries == Map::<Seq<char>, InFlightEntry>::empty(),
            state.manifest_blobs@.well_formed(),
            state.manifest_cache@ == TagStates::empty(),
            clock::nanos(state.manifest_cache.ttl()) == ManifestCache::DEFAULT_TAG_TTL_SECS
                * clock::NANOS_PER_SEC,
    {
        let mut memo = InMemoryRoutingMemo::default();
        let router = Router::new(config, &mut memo);
        AppState {
            router,
            memo,
            blob_source: OciBlobSource::new(),
            blob_cache: BlobCache::new(),
            manifest_source: OciBlobSource::new(),
            manifest_blobs: BlobCache::new(),
            manifest_cache: ManifestCache::new(),
        }
    }
}

// ---------------------------------------------------------------------------
// Requests
// ---------------------------------------------------------------------------

/// A request for something in a repository.
#[derive(Debug)]
pub struct V2Request {
    pub repository: String,
    pub verb: String,
    pub reference: String,
}

/// The same, with its characters.
pub struct V2RequestView {
    pub repository: Seq<char>,
    pub verb: Seq<char>,
    pub reference: Seq<char>,
}

impl View for V2Request {
    type V = V2RequestView;

    open spec fn view(&self) -> V2RequestView {
        V2RequestView {
            repository: self.repository@,
            verb: self.verb@,
            reference: self.reference@,
        }
    }
}

/// What follows the status of a response.
#[derive(Debug, PartialEq, Eq)]
pub enum Body {
    Empty,
    /// The content of a manifest, with its digest in the header `Docker-Content-Digest`. If it is
    /// stale, the client is told that the upstream did not confirm it.
    Manifest { digest: String, content: Vec<u8>, stale: bool },
    /// The file that was opened.
    File,
}

/// A response to a client.
#[derive(Debug, PartialEq, Eq)]
pub struct Response {
    pub status: u16,
    pub body: Body,
}

/// What comes next for a request.
///
/// What is asked for by digest is looked for in the store before anything else: what a digest names
/// is the same wherever it comes from, so no upstream is needed to serve it.
#[derive(Debug)]
pub enum ServerStep {
    /// See whether the file at this place in the store can be opened.
    OpenStored { path: BlobPath, request: V2Request },
    /// See whether a manifest can be read at this place in the store.
    ReadStored { path: BlobPath, request: V2Request },
    /// Determine the upstream that has the repository.
    Resolve(V2Request),
    /// Get a manifest from the upstream at this place.
    GetManifest { upstream: usize, repository: String, reference: ManifestReference },
    /// Get content from the upstream at this place.
    GetBlob { upstream: usize, repository: String, digest: String },
    /// Open the file at this place in the store.
    Open(BlobPath),
    /// Read, at this place in the store, the manifest that a tag last named.
    ReadLast { path: BlobPath, digest: String },
    /// Answer the client.
    Respond(Response),
}

/// A step, with its characters.
pub enum ServerStepView {
    OpenStored { algorithm: Seq<char>, hex: Seq<char>, request: V2RequestView },
    ReadStored { algorithm: Seq<char>, hex: Seq<char>, request: V2RequestView },
    Resolve(V2RequestView),
    GetTag { upstream: int, repository: Seq<char>, tag: Seq<char> },
    GetDigest { upstream: int, repository: Seq<char>, digest: Seq<char> },
    GetBlob { upstream: int, repository: Seq<char>, digest: Seq<char> },
    Open { algorithm: Seq<char>, hex: Seq<char> },
    ReadLast { algorithm: Seq<char>, hex: Seq<char>, digest: Seq<char> },
    Status(u16),
    Manifest { status: u16, digest: Seq<char>, content: Seq<u8>, stale: bool },
    File(u16),
}

impl View for ServerStep {
    type V = ServerStepView;

    open spec fn view(&self) -> ServerStepView {
        match *self {
            ServerStep::OpenStored { path, request } => ServerStepView::OpenStored {
                algorithm: path.algorithm@,
                hex: path.hex@,
                request: request@,
            },
            ServerStep::ReadStored { path, request } => ServerStepView::ReadStored {
                algorithm: path.algorithm@,
                hex: path.hex@,
                request: request@,
            },
            ServerStep::ReadLast { path, digest } => ServerStepView::ReadLast {
                algorithm: path.algorithm@,
                hex: path.hex@,
                digest: digest@,
            },
            ServerStep::Resolve(request) => ServerStepView::Resolve(request@),
            ServerStep::GetManifest {
                upstream,
                repository,
                reference: ManifestReference::Tag(tag),
            } => ServerStepView::GetTag {
                upstream: upstream as int,
                repository: repository@,
                tag: tag@,
            },
            ServerStep::GetManifest {
                upstream,
                repository,
                reference: ManifestReference::Digest(digest),
            } => ServerStepView::GetDigest {
                upstream: upstream as int,
                repository: repository@,
                digest: digest@,
            },
            ServerStep::GetBlob { upstream, repository, digest } => ServerStepView::GetBlob {
                upstream: upstream as int,
                repository: repository@,
                digest: digest@,
            },
            ServerStep::Open(path) => ServerStepView::Open {
                algorithm: path.algorithm@,
                hex: path.hex@,
            },
            ServerStep::Respond(response) => match response.body {
                Body::Empty => ServerStepView::Status(response.status),
                Body::Manifest { digest, content, stale } => ServerStepView::Manifest {
                    status: response.status,
                    digest: digest@,
                    content: content@,
                    stale,
                },
                Body::File => ServerStepView::File(response.status),
            },
        }
    }
}

/// The status that tells a client why no upstream was determined, where nothing else can be told.
pub open spec fn status_for(error: RoutingError) -> u16 {
    match error {
        RoutingError::NotFoundOnAnyUpstream => 404,
        RoutingError::UnknownUpstream(_) => 400,
        RoutingError::Unreachable(_) => 502,
    }
}

/// The step for a request that the upstream at `upstream` is to serve.
pub open spec fn content_step(upstream: int, request: V2RequestView) -> ServerStepView {
    let V2RequestView { repository, verb, reference } = request;
    if verb == "manifests"@ {
        if reference.contains(':') {
            ServerStepView::GetDigest { upstream, repository, digest: reference }
        } else {
            ServerStepView::GetTag { upstream, repository, tag: reference }
        }
    } else if verb == "blobs"@ {
        ServerStepView::GetBlob { upstream, repository, digest: reference }
    } else {
        ServerStepView::Status(404)
    }
}

/// The first step for a request.
pub open spec fn request_step(request: V2RequestView) -> ServerStepView {
    match blob::digest_parts(request.reference) {
        Some((algorithm, hex)) => if request.verb == "blobs"@ {
            ServerStepView::OpenStored { algorithm, hex, request }
        } else if request.verb == "manifests"@ {
            ServerStepView::ReadStored { algorithm, hex, request }
        } else {
            ServerStepView::Resolve(request)
        },
        None => ServerStepView::Resolve(request),
    }
}

/// The step after content was looked for in the store.
pub open spec fn opened_step(request: V2RequestView, opened: bool) -> ServerStepView {
    if opened {
        ServerStepView::File(200)
    } else {
        ServerStepView::Resolve(request)
    }
}

/// The step after a manifest was looked for in the store.
pub open spec fn read_step(request: V2RequestView, content: Option<Seq<u8>>) -> ServerStepView {
    match content {
        Some(content) => ServerStepView::Manifest {
            status: 200,
            digest: request.reference,
            content,
            stale: false,
        },
        None => ServerStepView::Resolve(request),
    }
}

/// The step for a request whose upstream gives no answer: what a tag last named there will do. Where
/// several upstreams were asked, it is the first one that gave none.
pub open spec fn silent_step(
    states: TagStates,
    upstream: Seq<char>,
    request: V2RequestView,
) -> ServerStepView {
    let V2RequestView { repository, verb, reference } = request;
    if verb == "manifests"@ && !reference.contains(':') {
        match manifest::last_digest(states, (upstream, repository, reference)) {
            Some(digest) => match blob::digest_parts(digest) {
                Some((algorithm, hex)) => ServerStepView::ReadLast { algorithm, hex, digest },
                None => ServerStepView::Status(502),
            },
            None => ServerStepView::Status(502),
        }
    } else {
        ServerStepView::Status(502)
    }
}

/// The step after the manifest that a tag last named was read, or not.
pub open spec fn read_last_step(digest: Seq<char>, content: Option<Seq<u8>>) -> ServerStepView {
    match content {
        Some(content) => ServerStepView::Manifest { status: 200, digest, content, stale: true },
        None => ServerStepView::Status(502),
    }
}

/// The step once the upstream was determined, or not. One that is not configured cannot be asked.
pub open spec fn resolution_step(
    upstreams: Seq<Upstream>,
    states: TagStates,
    request: V2RequestView,
    resolution: Result<Resolution, RoutingError>,
) -> ServerStepView {
    match resolution {
        Ok(resolution) => match config::position(upstreams, resolution.upstream@) {
            Some(upstream) => content_step(upstream, request),
            None => ServerStepView::Status(502),
        },
        Err(RoutingError::Unreachable(id)) => silent_step(states, id@, request),
        Err(error) => ServerStepView::Status(status_for(error)),
    }
}

/// A response that is its status alone.
fn respond(status: u16) -> (step: ServerStep)
    ensures
        step@ == ServerStepView::Status(status),
{
    ServerStep::Respond(Response { status, body: Body::Empty })
}

/// Answers the question whether this is a registry.
pub fn handle_base_check() -> (step: ServerStep)
    ensures
        step@ == ServerStepView::Status(200),
{
    respond(200)
}

/// Begins to answer the request for the path `rest` below `/v2/`.
pub fn handle_v2_request(rest: &str) -> (step: ServerStep)
    ensures
        step@ == (match v2_parts(rest@) {
            Some((repository, verb, reference)) => request_step(
                V2RequestView { repository, verb, reference },
            ),
            None => ServerStepView::Status(404),
        }),
{
    let request = match split_v2_path(rest) {
        Some((repository, verb, reference)) => V2Request {
            repository: repository.to_owned(),
            verb: verb.to_owned(),
            reference: reference.to_owned(),
        },
        None => {
            return respond(404);
        },
    };
    match blob::blob_path(request.reference.as_str()) {
        Ok(path) => if text::same_text(request.verb.as_str(), "blobs") {
            ServerStep::OpenStored { path, request }
        } else if text::same_text(request.verb.as_str(), "manifests") {
            ServerStep::ReadStored { path, request }
        } else {
            ServerStep::Resolve(request)
        },
        Err(_) => ServerStep::Resolve(request),
    }
}

/// Answers with content from the store, or goes on to determine the upstream if it is not there.
pub fn on_opened(request: V2Request, opened: bool) -> (step: ServerStep)
    ensures
        step@ == opened_step(request@, opened),
{
    if opened {
        ServerStep::Respond(Response { status: 200, body: Body::File })
    } else {
        ServerStep::Resolve(request)
    }
}

/// Answers with a manifest from the store, or goes on to determine the upstream if it is not there.
pub fn on_read(request: V2Request, content: Option<Vec<u8>>) -> (step: ServerStep)
    ensures
        step@ == read_step(request@, manifest::opt_bytes(content)),
{
    match content {
        Some(content) => ServerStep::Respond(
            Response {
                status: 200,
                body: Body::Manifest { digest: request.reference, content, stale: false },
            },
        ),
        None => ServerStep::Resolve(request),
    }
}

/// Goes on once the upstream was determined, or not. `tags` is what is known of the upstreams'
/// tags.
pub fn on_resolution(
    config: &RoutingConfig,
    tags: &ManifestCache,
    request: V2Request,
    resolution: Result<Resolution, RoutingError>,
) -> (step: ServerStep)
    ensures
        step@ == resolution_step(config.upstreams@, tags@, request@, resolution),
{
    let resolution = match resolution {
        Ok(resolution) => resolution,
        Err(RoutingError::NotFoundOnAnyUpstream) => {
            return respond(404);
        },
        Err(RoutingError::UnknownUpstream(_)) => {
            return respond(400);
        },
        Err(RoutingError::Unreachable(id)) => {
            return on_silence(tags, id.as_str(), request);
        },
    };
    let upstream: usize = match config.index_of(resolution.upstream.as_str()) {
        Some(upstream) => upstream,
        None => {
            return respond(502);
        },
    };
    let V2Request { repository, verb, reference } = request;
    if text::same_text(verb.as_str(), "manifests") {
        let reference = if is_digest(reference.as_str()) {
            ManifestReference::Digest(reference)
        } else {
            ManifestReference::Tag(reference)
        };
        ServerStep::GetManifest { upstream, repository, reference }
    } else if text::same_text(verb.as_str(), "blobs") {
        ServerStep::GetBlob { upstream, repository, digest: reference }
    } else {
        respond(404)
    }
}

/// Goes on where the upstream gives no answer.
fn on_silence(tags: &ManifestCache, upstream_id: &str, request: V2Request) -> (step: ServerStep)
    ensures
        step@ == silent_step(tags@, upstream_id@, request@),
{
    if !text::same_text(request.verb.as_str(), "manifests") || is_digest(
        request.reference.as_str(),
    ) {
        return respond(502);
    }
    let last = tags.last_tag_state(
        upstream_id,
        request.repository.as_str(),
        request.reference.as_str(),
    );
    match last {
        Some(digest) => match blob::blob_path(digest.as_str()) {
            Ok(path) => ServerStep::ReadLast { path, digest },
            Err(_) => respond(502),
        },
        None => respond(502),
    }
}

/// Answers with the manifest that a tag last named, or that the upstream gave none.
pub fn on_read_last(digest: String, content: Option<Vec<u8>>) -> (step: ServerStep)
    ensures
        step@ == read_last_step(digest@, manifest::opt_bytes(content)),
{
    match content {
        Some(content) => ServerStep::Respond(
            Response { status: 200, body: Body::Manifest { digest, content, stale: true } },
        ),
        None => respond(502),
    }
}

/// Answers with a manifest, or that the upstream gave none.
pub fn on_manifest<E>(manifest: Result<ManifestResponse, E>) -> (step: ServerStep)
    ensures
        step@ == (match manifest {
            Ok(manifest) => ServerStepView::Manifest {
                status: 200,
                digest: manifest.digest@,
                content: manifest.content@,
                stale: manifest.stale,
            },
            Err(_) => ServerStepView::Status(502),
        }),
{
    match manifest {
        Ok(manifest) => ServerStep::Respond(
            Response {
                status: 200,
                body: Body::Manifest {
                    digest: manifest.digest,
                    content: manifest.content,
                    stale: manifest.stale,
                },
            },
        ),
        Err(_) => respond(502),
    }
}

/// Goes on once the content is in the store, or answers that the upstream gave none.
pub fn on_blob<E>(stored: Result<BlobPath, E>) -> (step: ServerStep)
    ensures
        step@ == (match stored {
            Ok(path) => ServerStepView::Open { algorithm: path.algorithm@, hex: path.hex@ },
            Err(_) => ServerStepView::Status(502),
        }),
{
    match stored {
        Ok(path) => ServerStep::Open(path),
        Err(_) => respond(502),
    }
}

/// Answers with a file of the store, or that it could not be opened.
pub fn serve_file(opened: bool) -> (step: ServerStep)
    ensures
        step@ == (if opened {
            ServerStepView::File(200)
        } else {
            ServerStepView::Status(500)
        }),
{
    if opened {
        ServerStep::Respond(Response { status: 200, body: Body::File })
    } else {
        respond(500)
    }
}

// ---------------------------------------------------------------------------
// Laws
// ---------------------------------------------------------------------------

/// The path of a request is the repository, the kind of content and the reference, and nothing
/// else: no part of it names an upstream.
pub proof fn law_path_holds_nothing_else(rest: Seq<char>)
    requires
        v2_parts(rest) is Some,
    ensures
        ({
            let (repository, verb, reference) = v2_parts(rest)->0;
            &&& rest == repository.push('/') + verb.push('/') + reference
            &&& repository.len() > 0 && verb.len() > 0 && reference.len() > 0
            &&& !verb.contains('/') && !reference.contains('/')
        }),
{
    text::lemma_cut_last(rest, '/');
    let (head, reference) = text::cut_last(rest, '/')->0;
    text::lemma_cut_last(head, '/');
    let (repository, verb) = text::cut_last(head, '/')->0;
    assert(head.push('/') == repository.push('/') + verb.push('/'));
}

/// Every repository can be named, however many slashes it holds.
pub proof fn law_every_repository_can_be_named(
    repository: Seq<char>,
    verb: Seq<char>,
    reference: Seq<char>,
)
    requires
        repository.len() > 0,
        verb.len() > 0,
        reference.len() > 0,
        !verb.contains('/'),
        !reference.contains('/'),
    ensures
        v2_parts(repository.push('/') + verb.push('/') + reference) == Some(
            (repository, verb, reference),
        ),
{
    let head = repository.push('/') + verb;
    assert(head.push('/') == repository.push('/') + verb.push('/'));
    text::lemma_cut_last_unique(head, '/', reference);
    text::lemma_cut_last_unique(repository, '/', verb);
}

/// Different repositories, kinds of content or references have different paths.
pub proof fn law_paths_are_unambiguous(a: Seq<char>, b: Seq<char>)
    requires
        v2_parts(a) is Some,
        v2_parts(a) == v2_parts(b),
    ensures
        a == b,
{
    law_path_holds_nothing_else(a);
    law_path_holds_nothing_else(b);
}

/// What is asked for by digest and is in the store is served from it, whether any upstream can be
/// asked or not. What is not there is looked for at an upstream.
pub proof fn law_stored_content_needs_no_upstream(request: V2RequestView, content: Seq<u8>)
    requires
        blob::digest_parts(request.reference) is Some,
        request.verb == "blobs"@ || request.verb == "manifests"@,
    ensures
        ({
            let (algorithm, hex) = blob::digest_parts(request.reference)->0;
            if request.verb == "blobs"@ {
                &&& request_step(request) == ServerStepView::OpenStored { algorithm, hex, request }
                &&& opened_step(request, true) == ServerStepView::File(200)
                &&& opened_step(request, false) == ServerStepView::Resolve(request)
            } else {
                &&& request_step(request) == ServerStepView::ReadStored { algorithm, hex, request }
                &&& read_step(request, Some(content)) == (ServerStepView::Manifest {
                    status: 200,
                    digest: request.reference,
                    content,
                    stale: false,
                })
                &&& read_step(request, None) == ServerStepView::Resolve(request)
            }
        }),
{
}

/// While the upstream of a tag gives no answer, what the tag last named there serves, marked as not
/// confirmed, if it can be read. Where nothing of that upstream can serve, the client is told that
/// the upstream gave none.
pub proof fn law_last_manifest_serves_while_upstream_is_silent(
    upstreams: Seq<Upstream>,
    states: TagStates,
    request: V2RequestView,
    id: String,
    content: Option<Seq<u8>>,
)
    requires
        request.verb == "manifests"@,
        !request.reference.contains(':'),
    ensures
        ({
            let step = resolution_step(
                upstreams,
                states,
                request,
                Err(RoutingError::Unreachable(id)),
            );
            match manifest::last_digest(states, (id@, request.repository, request.reference)) {
                Some(digest) if blob::digest_parts(digest) is Some => {
                    let (algorithm, hex) = blob::digest_parts(digest)->0;
                    &&& step == ServerStepView::ReadLast { algorithm, hex, digest }
                    &&& content is Some ==> read_last_step(digest, content)
                        == (ServerStepView::Manifest {
                        status: 200,
                        digest,
                        content: content->0,
                        stale: true,
                    })
                    &&& content is None ==> read_last_step(digest, content)
                        == ServerStepView::Status(502)
                },
                _ => step == ServerStepView::Status(502),
            }
        }),
{
}

/// What is on record for another upstream, repository or tag than the one that gives no answer plays
/// no part in an answer.
pub proof fn law_answers_are_independent(
    upstreams: Seq<Upstream>,
    states: TagStates,
    request: V2RequestView,
    resolution: Result<Resolution, RoutingError>,
    other: TagName,
    record: TagView,
)
    requires
        resolution matches Err(RoutingError::Unreachable(id)) ==> other != (
            id@,
            request.repository,
            request.reference,
        ),
    ensures
        resolution_step(upstreams, states.insert(other, record), request, resolution)
            == resolution_step(upstreams, states, request, resolution),
{
}

/// The path of a request for something in a repository.
pub open spec fn path_to(
    repository: Seq<char>,
    verb: Seq<char>,
    reference: Seq<char>,
) -> Seq<char> {
    repository.push('/') + verb.push('/') + reference
}

/// Once the upstream is determined, what is asked for there is what the path of the request names:
/// the manifest with the digest or with the tag, or the content with the digest, in the repository.
/// Anything else is not found.
pub proof fn law_what_the_path_names_is_asked_for(
    upstreams: Seq<Upstream>,
    states: TagStates,
    repository: Seq<char>,
    verb: Seq<char>,
    reference: Seq<char>,
    resolution: Resolution,
    i: int,
)
    requires
        repository.len() > 0,
        verb.len() > 0,
        reference.len() > 0,
        !verb.contains('/'),
        !reference.contains('/'),
        0 <= i < upstreams.len(),
        upstreams[i].id@ == resolution.upstream@,
        forall|j: int| 0 <= j < i ==> (#[trigger] upstreams[j]).id@ != resolution.upstream@,
    ensures
        ({
            let named = v2_parts(path_to(repository, verb, reference))->0;
            let request = V2RequestView {
                repository: named.0,
                verb: named.1,
                reference: named.2,
            };
            let step = resolution_step(upstreams, states, request, Ok(resolution));
            &&& v2_parts(path_to(repository, verb, reference)) is Some
            &&& verb == "manifests"@ && reference.contains(':') ==> step
                == (ServerStepView::GetDigest { upstream: i, repository, digest: reference })
            &&& verb == "manifests"@ && !reference.contains(':') ==> step
                == (ServerStepView::GetTag { upstream: i, repository, tag: reference })
            &&& verb == "blobs"@ ==> step == (ServerStepView::GetBlob {
                upstream: i,
                repository,
                digest: reference,
            })
            &&& verb != "manifests"@ && verb != "blobs"@ ==> step == ServerStepView::Status(404)
        }),
{
    law_every_repository_can_be_named(repository, verb, reference);
    assert(config::is_first(upstreams, resolution.upstream@, i));
    config::lemma_position(upstreams, resolution.upstream@, i);
    reveal_strlit("manifests");
    reveal_strlit("blobs");
    assert("manifests"@.len() != "blobs"@.len());
}

/// Where no upstream is determined, the status tells why: 404 if none has the repository, 400 if
/// the hint names none, 502 if one that is needed gives no answer or is not configured.
pub proof fn law_why_nothing_is_answered(
    upstreams: Seq<Upstream>,
    states: TagStates,
    request: V2RequestView,
    id: String,
    resolution: Resolution,
)
    ensures
        resolution_step(upstreams, states, request, Err(RoutingError::NotFoundOnAnyUpstream))
            == ServerStepView::Status(404),
        resolution_step(upstreams, states, request, Err(RoutingError::UnknownUpstream(id)))
            == ServerStepView::Status(400),
        !(states.contains_key((id@, request.repository, request.reference)) && request.verb
            == "manifests"@ && !request.reference.contains(':')) ==> resolution_step(
            upstreams,
            states,
            request,
            Err(RoutingError::Unreachable(id)),
        ) == ServerStepView::Status(502),
        (forall|j: int|
            0 <= j < upstreams.len() ==> (#[trigger] upstreams[j]).id@ != resolution.upstream@)
            ==> resolution_step(upstreams, states, request, Ok(resolution))
            == ServerStepView::Status(502),
        status_for(RoutingError::NotFoundOnAnyUpstream) == 404,
        status_for(RoutingError::UnknownUpstream(id)) == 400,
        status_for(RoutingError::Unreachable(id)) == 502,
{
    if forall|j: int|
        0 <= j < upstreams.len() ==> (#[trigger] upstreams[j]).id@ != resolution.upstream@ {
        if let Some(i) = config::position(upstreams, resolution.upstream@) {
            assert(config::is_first(upstreams, resolution.upstream@, i));
            assert(upstreams[i].id@ != resolution.upstream@);
        }
    }
}

/// While the upstream of a tag gives no answer, the manifest on record for the tag at that upstream
/// is read at the place of its digest; if it can be read, it is the answer, marked as not
/// confirmed.
pub proof fn law_manifest_on_record_serves(
    upstreams: Seq<Upstream>,
    states: TagStates,
    request: V2RequestView,
    id: String,
    algorithm: Seq<char>,
    hex: Seq<char>,
    content: Seq<u8>,
)
    requires
        request.verb == "manifests"@,
        !request.reference.contains(':'),
        states.contains_key((id@, request.repository, request.reference)),
        states[(id@, request.repository, request.reference)].digest == algorithm.push(':') + hex,
        blob::is_algorithm(algorithm),
        blob::is_hex(hex),
    ensures
        ({
            let digest = algorithm.push(':') + hex;
            &&& resolution_step(upstreams, states, request, Err(RoutingError::Unreachable(id)))
                == (ServerStepView::ReadLast { algorithm, hex, digest })
            &&& read_last_step(digest, Some(content)) == (ServerStepView::Manifest {
                status: 200,
                digest,
                content,
                stale: true,
            })
            &&& read_last_step(digest, None) == ServerStepView::Status(502)
        }),
{
    laws::law_every_digest_has_a_place(algorithm, hex);
}

/// What is asked for by digest is looked for at the place of the digest, content to be opened and
/// manifests to be read. Everything else goes to an upstream at once.
pub proof fn law_where_a_request_looks_first(
    request: V2RequestView,
    algorithm: Seq<char>,
    hex: Seq<char>,
)
    ensures
        blob::is_algorithm(algorithm) && blob::is_hex(hex) && request.reference == algorithm.push(
            ':',
        ) + hex ==> {
            &&& request.verb == "blobs"@ ==> request_step(request) == (ServerStepView::OpenStored {
                algorithm,
                hex,
                request,
            })
            &&& request.verb == "manifests"@ ==> request_step(request)
                == (ServerStepView::ReadStored { algorithm, hex, request })
        },
        request.verb != "blobs"@ && request.verb != "manifests"@ ==> request_step(request)
            == ServerStepView::Resolve(request),
        !request.reference.contains(':') ==> request_step(request) == ServerStepView::Resolve(
            request,
        ),
        blob::digest_parts(request.reference) is None ==> request_step(request)
            == ServerStepView::Resolve(request),
{
    reveal_strlit("manifests");
    reveal_strlit("blobs");
    assert("manifests"@.len() != "blobs"@.len());
    if blob::is_algorithm(algorithm) && blob::is_hex(hex) {
        laws::law_every_digest_has_a_place(algorithm, hex);
    }
    text::lemma_cut_first(request.reference, ':');
    if let Some((head, tail)) = text::cut_first(request.reference, ':') {
        assert(request.reference[head.len() as int] == ':');
    }
}

/// What a request and a step show is all there is to them.
pub proof fn law_server_steps_show_what_they_are(
    request: V2Request,
    path: BlobPath,
    upstream: usize,
    repository: String,
    name: String,
    status: u16,
    content: Vec<u8>,
    stale: bool,
)
    ensures
        request@.repository == request.repository@,
        request@.verb == request.verb@,
        request@.reference == request.reference@,
        (ServerStep::OpenStored { path, request })@ == (ServerStepView::OpenStored {
            algorithm: path.algorithm@,
            hex: path.hex@,
            request: request@,
        }),
        (ServerStep::ReadStored { path, request })@ == (ServerStepView::ReadStored {
            algorithm: path.algorithm@,
            hex: path.hex@,
            request: request@,
        }),
        ServerStep::Resolve(request)@ == ServerStepView::Resolve(request@),
        (ServerStep::GetManifest {
            upstream,
            repository,
            reference: ManifestReference::Tag(name),
        })@ == (ServerStepView::GetTag {
            upstream: upstream as int,
            repository: repository@,
            tag: name@,
        }),
        (ServerStep::GetManifest {
            upstream,
            repository,
            reference: ManifestReference::Digest(name),
        })@ == (ServerStepView::GetDigest {
            upstream: upstream as int,
            repository: repository@,
            digest: name@,
        }),
        (ServerStep::GetBlob { upstream, repository, digest: name })@
            == (ServerStepView::GetBlob {
            upstream: upstream as int,
            repository: repository@,
            digest: name@,
        }),
        ServerStep::Open(path)@ == (ServerStepView::Open {
            algorithm: path.algorithm@,
            hex: path.hex@,
        }),
        (ServerStep::ReadLast { path, digest: name })@ == (ServerStepView::ReadLast {
            algorithm: path.algorithm@,
            hex: path.hex@,
            digest: name@,
        }),
        ServerStep::Respond(Response { status, body: Body::Empty })@ == ServerStepView::Status(
            status,
        ),
        ServerStep::Respond(Response { status, body: Body::File })@ == ServerStepView::File(
            status,
        ),
        ServerStep::Respond(
            Response { status, body: Body::Manifest { digest: name, content, stale } },
        )@ == (ServerStepView::Manifest { status, digest: name@, content: content@, stale }),
{
}

} // verus!
