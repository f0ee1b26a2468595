//! Requests of clients.
use oci_cache::cache::{
    BlobPath, Fetched, ManifestCache, ManifestReference, ManifestResponse, ManifestStep,
};
use oci_cache::routing::{
    Resolution, ResolutionSource, RoutingConfig, RoutingError, RoutingMemoStore,
};
use oci_cache::server::{
    handle_base_check, handle_v2_request, is_digest, on_blob, on_manifest, on_opened, on_read,
    on_read_last, on_resolution, serve_file, split_v2_path, AppState, Body, Response, ServerStep,
    V2Request,
};

fn status(step: ServerStep) -> u16 {
    match step {
        ServerStep::Respond(Response { status, body: Body::Empty }) => status,
        other => panic!("{other:?}"),
    }
}

/// The request for `path`, as it is when nothing is in the store.
fn request(path: &str) -> V2Request {
    let step = match handle_v2_request(path) {
        ServerStep::OpenStored { request, .. } => on_opened(request, false),
        ServerStep::ReadStored { request, .. } => on_read(request, None),
        step => step,
    };
    match step {
        ServerStep::Resolve(request) => request,
        other => panic!("{other:?}"),
    }
}

/// What is known after `upstream` sent a manifest with `digest` for a tag.
fn known(upstream: &str, repository: &str, tag: &str, digest: &str) -> ManifestCache {
    let mut tags = ManifestCache::new();
    let fetched = Fetched { content: vec![1], digest: digest.to_string() };
    let step: ManifestStep<()> = tags.on_stored(upstream, repository, tag, 0, fetched, Ok(()));
    assert!(matches!(step, ManifestStep::Done(Ok(_))));
    tags
}

fn found(upstream: &str) -> Result<Resolution, RoutingError> {
    Ok(Resolution { upstream: upstream.to_string(), source: ResolutionSource::Fallback })
}

#[test]
fn path_is_split_from_its_end() {
    assert_eq!(
        split_v2_path("library/nginx/manifests/latest"),
        Some(("library/nginx", "manifests", "latest"))
    );
    assert_eq!(split_v2_path("nginx/blobs/sha256:ab"), Some(("nginx", "blobs", "sha256:ab")));
    assert_eq!(split_v2_path("a/b/c/d/tags/list"), Some(("a/b/c/d", "tags", "list")));
    assert_eq!(split_v2_path("a//x/y"), Some(("a/", "x", "y")));
    for rest in ["", "/", "a", "a/b", "//", "a/b/", "a//b", "/b/c", "/a"] {
        assert_eq!(split_v2_path(rest), None, "{rest}");
    }
}

#[test]
fn colon_tells_digest_from_tag() {
    assert!(is_digest("sha256:ab"));
    assert!(is_digest(":"));
    assert!(!is_digest("latest"));
    assert!(!is_digest(""));
}

#[test]
fn base_check_succeeds() {
    assert_eq!(status(handle_base_check()), 200);
}

#[test]
fn path_of_another_form_is_not_found() {
    assert_eq!(status(handle_v2_request("nginx/manifests")), 404);
    let request = request("library/nginx/manifests/latest");
    assert_eq!(request.repository, "library/nginx");
    assert_eq!(request.verb, "manifests");
    assert_eq!(request.reference, "latest");
}

#[test]
fn failed_resolution_is_told_by_the_status() {
    let config = RoutingConfig::default();
    for (error, expected) in [
        (RoutingError::NotFoundOnAnyUpstream, 404),
        (RoutingError::UnknownUpstream("x".to_string()), 400),
        (RoutingError::Unreachable("docker.io".to_string()), 502),
    ] {
        let step = on_resolution(&config, &ManifestCache::new(), request("a/manifests/b"), Err(error));
        assert_eq!(status(step), expected);
    }
    let step = on_resolution(&config, &ManifestCache::new(), request("a/manifests/b"), found("gone.example"));
    assert_eq!(status(step), 502);
}

#[test]
fn stored_content_is_served_before_any_upstream_is_asked() {
    match handle_v2_request("a/b/blobs/sha256:ab") {
        ServerStep::OpenStored { path, request } => {
            assert_eq!(path.components(), vec!["blobs", "sha256", "ab"]);
            match on_opened(request, true) {
                ServerStep::Respond(response) => {
                    assert_eq!(response, Response { status: 200, body: Body::File })
                }
                other => panic!("{other:?}"),
            }
        }
        other => panic!("{other:?}"),
    }
    match handle_v2_request("a/b/manifests/sha256:ab") {
        ServerStep::ReadStored { path, request } => {
            assert_eq!(path.components(), vec!["blobs", "sha256", "ab"]);
            match on_read(request, Some(vec![7])) {
                ServerStep::Respond(response) => assert_eq!(
                    response,
                    Response {
                        status: 200,
                        body: Body::Manifest {
                            digest: "sha256:ab".to_string(),
                            content: vec![7],
                            stale: false,
                        },
                    }
                ),
                other => panic!("{other:?}"),
            }
        }
        other => panic!("{other:?}"),
    }
    // What is not there is looked for at an upstream.
    assert_eq!(request("a/b/blobs/sha256:ab").reference, "sha256:ab");
    assert_eq!(request("a/b/manifests/sha256:ab").reference, "sha256:ab");
}

#[test]
fn other_references_are_not_looked_for_in_the_store() {
    for path in ["a/manifests/latest", "a/manifests/x:y", "a/blobs/latest", "a/tags/sha256:ab"] {
        assert!(matches!(handle_v2_request(path), ServerStep::Resolve(_)), "{path}");
    }
}

#[test]
fn last_manifest_serves_while_the_routed_upstream_is_silent() {
    let config = RoutingConfig::default();
    let tags = known("ghcr.io", "a/b", "latest", "sha256:ab");
    let silent = |id: &str| Err(RoutingError::Unreachable(id.to_string()));

    match on_resolution(&config, &tags, request("a/b/manifests/latest"), silent("ghcr.io")) {
        ServerStep::ReadLast { path, digest } => {
            assert_eq!(path.components(), vec!["blobs", "sha256", "ab"]);
            match on_read_last(digest, Some(vec![1])) {
                ServerStep::Respond(response) => assert_eq!(
                    response,
                    Response {
                        status: 200,
                        body: Body::Manifest {
                            digest: "sha256:ab".to_string(),
                            content: vec![1],
                            stale: true,
                        },
                    }
                ),
                other => panic!("{other:?}"),
            }
        }
        other => panic!("{other:?}"),
    }
    assert_eq!(status(on_read_last("sha256:ab".to_string(), None)), 502);

    // Nothing of another upstream, repository, tag or kind serves.
    for (path, id) in [
        ("a/b/manifests/latest", "docker.io"),
        ("a/c/manifests/latest", "ghcr.io"),
        ("a/b/manifests/other", "ghcr.io"),
        ("a/b/manifests/sha256:ab", "ghcr.io"),
        ("a/b/blobs/latest", "ghcr.io"),
        ("a/b/tags/latest", "ghcr.io"),
    ] {
        assert_eq!(status(on_resolution(&config, &tags, request(path), silent(id))), 502, "{path}");
    }
    let odd = known("ghcr.io", "a/b", "latest", "no digest");
    let step = on_resolution(&config, &odd, request("a/b/manifests/latest"), silent("ghcr.io"));
    assert_eq!(status(step), 502);
    // An upstream that denies is no silent one.
    let step = on_resolution(
        &config,
        &tags,
        request("a/b/manifests/latest"),
        Err(RoutingError::NotFoundOnAnyUpstream),
    );
    assert_eq!(status(step), 404);
}

#[test]
fn content_is_asked_for_at_the_upstream() {
    let config = RoutingConfig::default();
    match on_resolution(&config, &ManifestCache::new(), request("a/b/manifests/latest"), found("ghcr.io")) {
        ServerStep::GetManifest { upstream, repository, reference } => {
            assert_eq!(upstream, 1);
            assert_eq!(repository, "a/b");
            assert_eq!(reference, ManifestReference::Tag("latest".to_string()));
        }
        other => panic!("{other:?}"),
    }
    match on_resolution(&config, &ManifestCache::new(), request("a/manifests/sha256:ab"), found("docker.io")) {
        ServerStep::GetManifest { upstream, reference, .. } => {
            assert_eq!(upstream, 0);
            assert_eq!(reference, ManifestReference::Digest("sha256:ab".to_string()));
        }
        other => panic!("{other:?}"),
    }
    match on_resolution(&config, &ManifestCache::new(), request("a/blobs/sha256:ab"), found("quay.io")) {
        ServerStep::GetBlob { upstream, repository, digest } => {
            assert_eq!(upstream, 2);
            assert_eq!(repository, "a");
            assert_eq!(digest, "sha256:ab");
        }
        other => panic!("{other:?}"),
    }
    assert_eq!(status(on_resolution(&config, &ManifestCache::new(), request("a/tags/list"), found("quay.io"))), 404);
}

#[test]
fn manifest_is_answered_with_its_digest() {
    let manifest = ManifestResponse {
        content: vec![1, 2],
        digest: "sha256:ab".to_string(),
        stale: true,
    };
    match on_manifest::<()>(Ok(manifest)) {
        ServerStep::Respond(response) => {
            assert_eq!(response.status, 200);
            assert_eq!(
                response.body,
                Body::Manifest {
                    digest: "sha256:ab".to_string(),
                    content: vec![1, 2],
                    stale: true,
                }
            );
        }
        other => panic!("{other:?}"),
    }
    assert_eq!(status(on_manifest(Err("no"))), 502);
}

#[test]
fn stored_content_is_answered_from_its_file() {
    let path = BlobPath { algorithm: "sha256".to_string(), hex: "ab".to_string() };
    match on_blob::<()>(Ok(path)) {
        ServerStep::Open(path) => assert_eq!(path.hex, "ab"),
        other => panic!("{other:?}"),
    }
    assert_eq!(status(on_blob(Err("no"))), 502);
    match serve_file(true) {
        ServerStep::Respond(response) => {
            assert_eq!(response, Response { status: 200, body: Body::File })
        }
        other => panic!("{other:?}"),
    }
    assert_eq!(status(serve_file(false)), 500);
}

#[test]
fn state_is_empty_at_first() {
    let state = AppState::new(RoutingConfig::default());
    assert_eq!(state.router.config, RoutingConfig::default());
    assert_eq!(state.router.generation, state.memo.generation());
    assert!(state.memo.get("library/nginx").is_none());
    assert!(state.blob_source.auth_shape(&state.router.config.upstreams[0]).is_none());
    assert!(!state.blob_cache.is_in_flight("sha256:ab"));
    assert_eq!(state.manifest_cache.fresh_tag_state("docker.io", "library/nginx", "latest", 0), None);
}
