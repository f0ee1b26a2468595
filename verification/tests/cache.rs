//! Fetching content and keeping it.
use std::time::Duration;

use oci_cache::cache::blob::blob_path;
use oci_cache::cache::source::{auth_shape_in_reply, parse_upstream_url};
use oci_cache::cache::{
    AuthShape, AuthStep, BlobCache, BlobFetchError, BlobPath, ClientProtocol, Fetched, Filling,
    ManifestCache, ManifestReference, ManifestResponse, ManifestStep, OciBlobSource, PendingToken,
    RegistryAuth, StoreEvent, StoreStage, StoreWork, TokenPurpose,
};
use oci_cache::registry_auth::{
    token_in_reply, BearerChallenge, TokenRequest, TokenResponse, UpstreamReply,
};
use oci_cache::routing::Upstream;

const SECOND: u64 = 1_000_000_000;

// ---------------------------------------------------------------------------
// A store in memory and an upstream from a table
// ---------------------------------------------------------------------------

/// A store in memory.
struct Disk {
    files: Vec<(String, Vec<u8>)>,
    next_tmp: u64,
}

impl Disk {
    fn new() -> Self {
        Disk { files: Vec::new(), next_tmp: 0 }
    }

    fn read(&self, path: &str) -> Option<Vec<u8>> {
        self.files.iter().find(|(name, _)| name == path).map(|(_, content)| content.clone())
    }

    fn remove(&mut self, path: &str) {
        self.files.retain(|(name, _)| name != path);
    }
}

fn place(path: &BlobPath) -> String {
    path.components().join("/")
}

/// Gets `digest`, with `fetch` in place of an upstream. Counts fetches.
fn run_store(
    disk: &mut Disk,
    digest: &str,
    fetch: Result<Vec<u8>, String>,
    fetches: &mut usize,
) -> Result<String, String> {
    let upstream = Upstream::new("docker.io", "http://127.0.0.1:4567");
    let mut cache = BlobCache::new();
    let work = match cache.get(&upstream, "library/nginx", digest) {
        Ok(work) => work,
        Err(error) => return Err(format!("{error:?}")),
    };
    perform(&mut cache, disk, digest, work, fetch, fetches)
}

/// Does what the stages say until the end. What is not at hand is what `fetch` gives.
fn perform(
    cache: &mut BlobCache,
    disk: &mut Disk,
    digest: &str,
    work: StoreWork<'_, String>,
    fetch: Result<Vec<u8>, String>,
    fetches: &mut usize,
) -> Result<String, String> {
    let StoreWork { path, filling, mut stage } = work;
    let target = place(&path);
    let mut tmp = String::new();
    let mut held = None;
    loop {
        let event = match &stage {
            StoreStage::CheckFirst | StoreStage::CheckAgain => {
                StoreEvent::Checked(disk.read(&target).is_some())
            }
            StoreStage::Reserve => {
                assert!(cache.has_room(digest));
                held = Some(cache.acquire_in_flight(digest));
                StoreEvent::Done
            }
            StoreStage::CreateTmp => {
                tmp = path.tmp_name(1, disk.next_tmp);
                disk.next_tmp += 1;
                if disk.read(&tmp).is_some() {
                    StoreEvent::Taken
                } else {
                    disk.files.push((tmp.clone(), Vec::new()));
                    StoreEvent::Done
                }
            }
            StoreStage::Fill => {
                let filled = match filling {
                    Filling::Upstream { .. } => {
                        *fetches += 1;
                        fetch.clone()
                    }
                    Filling::Bytes(bytes) => Ok(bytes.to_vec()),
                };
                match filled {
                    Ok(content) => {
                        disk.remove(&tmp);
                        disk.files.push((tmp.clone(), content));
                        StoreEvent::Done
                    }
                    Err(error) => StoreEvent::Failed(error),
                }
            }
            StoreStage::Discard(_) => {
                disk.remove(&tmp);
                StoreEvent::Done
            }
            StoreStage::Publish => {
                let content = disk.read(&tmp).unwrap();
                disk.remove(&tmp);
                disk.files.push((target.clone(), content));
                StoreEvent::Done
            }
            StoreStage::CreateParent | StoreStage::SyncTmp | StoreStage::SyncParent => {
                StoreEvent::Done
            }
            StoreStage::Ended(_) => break,
        };
        stage = stage.advance(event);
    }
    if let Some(held) = held {
        cache.release_in_flight(held);
    }
    match stage {
        StoreStage::Ended(Ok(_)) => Ok(target),
        StoreStage::Ended(Err(error)) => Err(error),
        _ => unreachable!(),
    }
}

fn reply(status: u16, header: Option<String>) -> Option<UpstreamReply> {
    Some(UpstreamReply { status, www_authenticate: header })
}

/// Authenticates at an upstream that replies with `hello` and gives `token` for every request.
/// Returns the result with the URLs that were asked and the token requests.
fn authenticate(
    source: &mut OciBlobSource,
    upstream: &Upstream,
    repository: &str,
    hello: Option<UpstreamReply>,
    mut tokens: Vec<Option<String>>,
) -> (Result<RegistryAuth, BlobFetchError>, Vec<String>, Vec<TokenRequest>) {
    let mut asked = Vec::new();
    let mut requests = Vec::new();
    let mut hello = hello;
    let mut step = source.resolve_auth(upstream, repository);
    loop {
        match step {
            AuthStep::AskUpstream(url) => {
                asked.push(url);
                step = source.on_auth_reply(upstream, repository, hello.take());
            }
            AuthStep::FetchToken(request, pending) => {
                requests.push(request);
                let token = tokens.remove(0);
                step = OciBlobSource::on_token(upstream, repository, pending, token);
            }
            AuthStep::Done(result) => return (result, asked, requests),
        }
    }
}

/// Makes sure that `digest` can be pulled from an upstream that serves content alone: nothing is
/// served at `/v2/`.
fn can_be_pulled(repository: &str, digest: &str) {
    let upstream = Upstream::new("docker.io", "http://127.0.0.1:4567");
    let mut source = OciBlobSource::new();
    let (auth, _, requests) =
        authenticate(&mut source, &upstream, repository, reply(404, None), vec![]);
    assert!(requests.is_empty());
    let pull =
        OciBlobSource::fetch_into(&upstream, repository, digest, auth.unwrap()).unwrap();
    assert_eq!(pull.registry, "127.0.0.1:4567");
    assert_eq!(pull.repository, repository);
    assert_eq!(pull.reference, ManifestReference::Digest(digest.to_string()));
    assert_eq!(pull.login, None);
}

// ---------------------------------------------------------------------------
// Content by digest
// ---------------------------------------------------------------------------

#[test]
fn blob_served_from_store_without_upstream_call() {
    let content = b"this is a fake layer blob for the test".to_vec();
    let digest = "sha256:58366054c5324a606cec237946917ad8c957518a31675c8e7fc814c2a07cf29a";
    can_be_pulled("library/nginx", digest);
    let mut disk = Disk::new();
    let mut fetches = 0;

    let first = run_store(&mut disk, digest, Ok(content.clone()), &mut fetches).unwrap();
    assert_eq!(disk.read(&first), Some(content.clone()));
    assert_eq!(fetches, 1);

    let second = run_store(&mut disk, digest, Ok(content.clone()), &mut fetches).unwrap();
    assert_eq!(second, first);
    assert_eq!(disk.read(&second), Some(content));
    assert_eq!(fetches, 1);
}

#[test]
fn blob_is_stored_under_digest_addressed_path() {
    let content = b"another fake layer blob".to_vec();
    let digest = "sha256:9952f06d5a910019bc54825da8984530ece750a397dc8384da5e7e91e470b983";
    let hex = digest.strip_prefix("sha256:").unwrap();
    can_be_pulled("library/nginx", digest);
    let mut disk = Disk::new();

    let stored = run_store(&mut disk, digest, Ok(content), &mut 0).unwrap();

    assert_eq!(stored, format!("blobs/sha256/{hex}"));
}

#[test]
fn blob_fetch_succeeds_after_bearer_challenge() {
    let repository = "library/nginx";
    let content = b"blob behind a bearer challenge".to_vec();
    let digest = "sha256:a065677eda7314512044f1c9012d40df285efc2471f638969e474d45c13d0318";
    let server = "http://127.0.0.1:4567";
    let realm = format!("{server}/token");
    let upstream = Upstream::new("docker.io", server);
    let mut source = OciBlobSource::new();
    let header = format!(r#"Bearer realm="{realm}",service="registry.docker.io""#);
    let body = TokenResponse { token: Some("test-token".to_string()), access_token: None };
    let token = token_in_reply(200, Some(body));

    let (auth, asked, requests) =
        authenticate(&mut source, &upstream, repository, reply(401, Some(header)), vec![token]);

    assert_eq!(asked, vec![format!("{server}/v2/")]);
    assert_eq!(requests.len(), 1);
    assert_eq!(requests[0].url, realm);
    assert_eq!(
        requests[0].query,
        vec![
            ("service".to_string(), "registry.docker.io".to_string()),
            ("scope".to_string(), "repository:library/nginx:pull".to_string()),
        ]
    );
    let pull =
        OciBlobSource::fetch_into(&upstream, repository, digest, auth.unwrap()).unwrap();
    assert_eq!(pull.repository, repository);
    assert_eq!(pull.reference, ManifestReference::Digest(digest.to_string()));
    assert_eq!(pull.registry, "127.0.0.1:4567");
    assert_eq!(pull.protocol, ClientProtocol::Http);
    assert_eq!(pull.login, Some("test-token".to_string()));

    // What comes with the token is what is stored.
    let mut disk = Disk::new();
    let stored = run_store(&mut disk, digest, Ok(content.clone()), &mut 0).unwrap();
    assert_eq!(disk.read(&stored), Some(content));
}

#[test]
fn blob_fetch_rejects_bearer_realm_with_untrusted_host() {
    let repository = "library/nginx";
    let forged_realm = "http://127.0.0.1:6666/token";
    let upstream = Upstream::new("docker.io", "http://127.0.0.1:4567");
    let mut source = OciBlobSource::new();
    let header = format!(r#"Bearer realm="{forged_realm}",service="registry.docker.io""#);

    let (auth, _, requests) = authenticate(
        &mut source,
        &upstream,
        repository,
        reply(401, Some(header)),
        vec![Some("stolen-token".to_string())],
    );

    assert_eq!(
        auth,
        Err(BlobFetchError::UntrustedRealm {
            upstream: "docker.io".to_string(),
            realm: forged_realm.to_string(),
        })
    );
    assert!(requests.is_empty());
}

#[test]
fn concurrent_requests_for_same_digest_are_coalesced() {
    let content = b"coalesced blob content".to_vec();
    let digest = "sha256:50b2656021f52ba6ad412243c7314b4f3985e30583301b29ada35987a7521be5";
    can_be_pulled("library/nginx", digest);
    let upstream = Upstream::new("docker.io", "http://127.0.0.1:4567");
    let mut cache = BlobCache::new();
    let mut disk = Disk::new();

    // Eight requests find nothing in the store, and come to hold the digest.
    let mut works: Vec<StoreWork<'_, String>> = Vec::new();
    let mut held = Vec::new();
    for _ in 0..8 {
        let mut work = cache.get(&upstream, "library/nginx", digest).unwrap();
        work.stage = work.stage.advance(StoreEvent::Checked(false));
        assert!(matches!(work.stage, StoreStage::Reserve));
        works.push(work);
        held.push(cache.acquire_in_flight(digest));
    }
    for reservation in &held {
        assert_eq!(reservation.id, held[0].id);
    }

    // They take turns; after the first, the content is there.
    let mut blob_requests = 0;
    for mut work in works {
        work.stage = work.stage.advance(StoreEvent::Done);
        assert!(matches!(work.stage, StoreStage::CheckAgain));
        assert!(cache.is_in_flight(digest));
        let stored = perform(
            &mut cache,
            &mut disk,
            digest,
            work,
            Ok(content.clone()),
            &mut blob_requests,
        )
        .unwrap();
        assert_eq!(disk.read(&stored), Some(content.clone()));
        cache.release_in_flight(held.remove(0));
    }
    assert_eq!(blob_requests, 1);
    assert!(!cache.is_in_flight(digest));
}

#[test]
fn repeated_fetch_reuses_cached_auth_shape_for_anonymous_upstream() {
    let repository = "library/nginx";
    let upstream = Upstream::new("docker.io", "http://127.0.0.1:4567");
    let mut source = OciBlobSource::new();

    // Nothing is served at `/v2/`, and no challenge is sent.
    let (first, asked, requests) =
        authenticate(&mut source, &upstream, repository, reply(404, None), vec![]);
    assert_eq!(first, Ok(RegistryAuth::Anonymous));
    assert_eq!(asked, vec!["http://127.0.0.1:4567/v2/".to_string()]);
    assert!(requests.is_empty());

    let (second, asked, requests) =
        authenticate(&mut source, &upstream, repository, reply(404, None), vec![]);
    assert_eq!(second, Ok(RegistryAuth::Anonymous));
    assert!(asked.is_empty());
    assert!(requests.is_empty());

    let mut disk = Disk::new();
    for (auth, content, digest) in [
        (
            first.unwrap(),
            b"first blob".to_vec(),
            "sha256:1959cd83e10231a0da7dfe763c941f6fe151e3c01bdb41675b86d0d30b733816",
        ),
        (
            second.unwrap(),
            b"second blob".to_vec(),
            "sha256:dd4df3d5e3611692e83a452cf2ed7688fd5b926e0c8794f53a1d3ea1c0706550",
        ),
    ] {
        let pull = OciBlobSource::fetch_into(&upstream, repository, digest, auth).unwrap();
        assert_eq!(pull.repository, repository);
        assert_eq!(pull.reference, ManifestReference::Digest(digest.to_string()));
        assert_eq!(pull.login, None);
        let stored = run_store(&mut disk, digest, Ok(content.clone()), &mut 0).unwrap();
        assert_eq!(disk.read(&stored), Some(content));
    }
}

#[test]
fn holder_after_a_failed_one_fetches_and_the_next_does_not() {
    let mut disk = Disk::new();
    let mut fetches = 0;
    let digest = "sha256:ab";
    run_store(&mut disk, digest, Err("no".to_string()), &mut fetches).unwrap_err();
    run_store(&mut disk, digest, Ok(vec![1]), &mut fetches).unwrap();
    run_store(&mut disk, digest, Ok(vec![2]), &mut fetches).unwrap();
    assert_eq!(fetches, 2);
    assert_eq!(disk.read("blobs/sha256/ab"), Some(vec![1]));
}

#[test]
fn digests_of_other_forms_have_no_place() {
    for digest in [
        "",
        "sha256",
        "sha256:",
        ":abc",
        "SHA256:abc",
        "sha-256:abc",
        "sha256:xyz",
        "sha256:ab:cd",
        "sha256:../../etc/passwd",
        "../sha256:abc",
        "sha256:\u{ff41}",
        "sha256: abc",
    ] {
        assert_eq!(
            blob_path(digest),
            Err(BlobFetchError::InvalidDigest(digest.to_string()))
        );
        let cache = BlobCache::new();
        let upstream = Upstream::new("docker.io", "http://127.0.0.1:4567");
        assert!(cache.get::<()>(&upstream, "library/nginx", digest).is_err());
        assert!(cache.store::<()>(digest, b"x").is_err());
    }
}

#[test]
fn places_are_made_of_the_digest() {
    let path = blob_path("sha512:0aF9").unwrap();
    assert_eq!(path, BlobPath { algorithm: "sha512".to_string(), hex: "0aF9".to_string() });
    assert_eq!(path.components(), vec!["blobs", "sha512", "0aF9"]);
    assert_eq!(path.tmp_name(4321, 0), "0aF9.tmp.4321.0");
    assert_eq!(
        path.tmp_name(u32::MAX, u64::MAX),
        "0aF9.tmp.4294967295.18446744073709551615"
    );
    assert_ne!(blob_path("a:1").unwrap(), blob_path("b:1").unwrap());
}

#[test]
fn failed_fetch_leaves_nothing_behind() {
    let mut disk = Disk::new();
    let mut fetches = 0;
    let result = run_store(&mut disk, "sha256:ab", Err("no".to_string()), &mut fetches);
    assert_eq!(result, Err("no".to_string()));
    assert!(disk.files.is_empty());

    let stored = run_store(&mut disk, "sha256:ab", Ok(vec![1]), &mut fetches).unwrap();
    assert_eq!(fetches, 2);
    assert_eq!(disk.files, vec![(stored, vec![1])]);
}

#[test]
fn first_content_under_a_digest_stays() {
    let mut cache = BlobCache::new();
    let mut disk = Disk::new();
    let mut fetches = 0;
    for content in [b"one".to_vec(), b"another".to_vec()] {
        let work = cache.store("sha256:ab", &content).unwrap();
        assert!(matches!(work.filling, Filling::Bytes(bytes) if bytes == content.as_slice()));
        let stored = perform(
            &mut cache,
            &mut disk,
            "sha256:ab",
            work,
            Err("never asked".to_string()),
            &mut fetches,
        );
        assert_eq!(stored, Ok("blobs/sha256/ab".to_string()));
        assert_eq!(disk.files, vec![("blobs/sha256/ab".to_string(), b"one".to_vec())]);
    }
    // Nor does other work change it.
    run_store(&mut disk, "sha512:ab", Ok(vec![1]), &mut fetches).unwrap();
    run_store(&mut disk, "sha256:cd", Err("no".to_string()), &mut fetches).unwrap_err();
    run_store(&mut disk, "sha256:ab", Ok(vec![2]), &mut fetches).unwrap();
    assert_eq!(disk.read("blobs/sha256/ab"), Some(b"one".to_vec()));
    assert_eq!(fetches, 2);
}

#[test]
fn work_says_where_the_content_comes_from() {
    let upstream = Upstream::new("docker.io", "http://127.0.0.1:4567");
    let cache = BlobCache::new();
    let work = cache.get::<()>(&upstream, "library/nginx", "sha256:ab").unwrap();
    assert_eq!(work.path, blob_path("sha256:ab").unwrap());
    match work.filling {
        Filling::Upstream { upstream: u, repository } => {
            assert_eq!(*u, upstream);
            assert_eq!(repository, "library/nginx");
        }
        Filling::Bytes(_) => panic!("it is fetched"),
    }
}

#[test]
fn taken_name_for_incomplete_content_is_passed_over() {
    let mut disk = Disk::new();
    disk.files.push(("ab.tmp.1.0".to_string(), vec![9]));
    let stored = run_store(&mut disk, "sha256:ab", Ok(vec![1]), &mut 0).unwrap();
    assert_eq!(disk.read(&stored), Some(vec![1]));
    assert_eq!(disk.read("ab.tmp.1.0"), Some(vec![9]));
    assert_eq!(disk.next_tmp, 2);
}

#[test]
fn every_failure_ends_the_work() {
    for stage in [
        StoreStage::CheckFirst,
        StoreStage::CheckAgain,
        StoreStage::CreateParent,
        StoreStage::CreateTmp,
        StoreStage::SyncTmp,
        StoreStage::Publish,
        StoreStage::SyncParent,
    ] {
        match stage.advance(StoreEvent::Failed("no")) {
            StoreStage::Ended(Err(error)) => assert_eq!(error, "no"),
            _ => panic!("the work has failed"),
        }
    }
    let discard = StoreStage::Fill.advance(StoreEvent::Failed("first"));
    match discard.advance(StoreEvent::Failed("second")) {
        StoreStage::Ended(Err(error)) => assert_eq!(error, "first"),
        _ => panic!("the work has failed"),
    }
}

#[test]
fn content_appears_complete_and_durable() {
    let mut stage: StoreStage<()> = StoreStage::CreateTmp;
    let mut order = Vec::new();
    while !matches!(stage, StoreStage::Ended(_)) {
        order.push(format!("{stage:?}"));
        stage = stage.advance(StoreEvent::Done);
    }
    assert_eq!(order, vec!["CreateTmp", "Fill", "SyncTmp", "Publish", "SyncParent"]);
    assert!(matches!(stage, StoreStage::Ended(Ok(()))));
}

#[test]
fn entry_lives_as_long_as_it_is_held() {
    let mut cache = BlobCache::new();
    let first = cache.acquire_in_flight("a:1");
    let other = cache.acquire_in_flight("b:2");
    let second = cache.acquire_in_flight("a:1");
    assert_eq!(first.id, second.id);
    assert_ne!(first.id, other.id);
    cache.release_in_flight(first);
    assert!(cache.is_in_flight("a:1"));
    let old_id = second.id;
    cache.release_in_flight(second);
    assert!(!cache.is_in_flight("a:1"));
    assert!(cache.is_in_flight("b:2"));

    // A late release does not touch the entry that took the place of the old one.
    let third = cache.acquire_in_flight("a:1");
    assert_ne!(third.id, old_id);
    cache.release_in_flight(oci_cache::cache::Reservation { digest: "a:1".to_string(), id: old_id });
    assert!(cache.is_in_flight("a:1"));
    cache.release_in_flight(third);
    cache.release_in_flight(other);
    assert!(!cache.is_in_flight("b:2"));
}

// ---------------------------------------------------------------------------
// Authentication
// ---------------------------------------------------------------------------

#[test]
fn base_url_is_split_into_registry_and_protocol() {
    assert_eq!(
        parse_upstream_url("https://registry-1.docker.io"),
        Ok(("registry-1.docker.io".to_string(), ClientProtocol::Https))
    );
    assert_eq!(
        parse_upstream_url("http://localhost:5000//"),
        Ok(("localhost:5000".to_string(), ClientProtocol::Http))
    );
    assert_eq!(
        parse_upstream_url("https://host/path/"),
        Ok(("host/path".to_string(), ClientProtocol::Https))
    );
    for url in ["", "ftp://host", "HTTPS://host", "registry-1.docker.io", "https:/host"] {
        assert_eq!(
            parse_upstream_url(url),
            Err(BlobFetchError::InvalidUpstreamUrl(url.to_string()))
        );
    }
}

#[test]
fn upstream_with_another_scheme_cannot_be_pulled_from() {
    let upstream = Upstream::new("x", "ftp://host");
    let error =
        OciBlobSource::fetch_into(&upstream, "repo", "sha256:ab", RegistryAuth::Anonymous)
            .unwrap_err();
    assert_eq!(error, BlobFetchError::InvalidUpstreamUrl("ftp://host".to_string()));

    // For a manifest that is found out before the upstream is asked anything.
    let source = OciBlobSource::default();
    match source.fetch_manifest(&upstream, "repo") {
        AuthStep::Done(Err(error)) => {
            assert_eq!(error, BlobFetchError::InvalidUpstreamUrl("ftp://host".to_string()))
        }
        _ => panic!("there is nothing to ask"),
    }
    match source.resolve_auth(&upstream, "repo") {
        AuthStep::AskUpstream(url) => assert_eq!(url, "ftp://host/v2/"),
        _ => panic!("the upstream was not asked yet"),
    }
    match source.fetch_manifest(&Upstream::new("x", "http://host"), "repo") {
        AuthStep::AskUpstream(url) => assert_eq!(url, "http://host/v2/"),
        _ => panic!("the upstream was not asked yet"),
    }
}

#[test]
fn manifest_is_pulled_by_tag() {
    let upstream = Upstream::new("ghcr.io", "https://ghcr.io/");
    let pull = OciBlobSource::pull_manifest(
        &upstream,
        "a/b",
        ManifestReference::Tag("latest".to_string()),
        RegistryAuth::Bearer("t".to_string()),
    )
    .unwrap();
    assert_eq!(pull.registry, "ghcr.io");
    assert_eq!(pull.protocol, ClientProtocol::Https);
    assert_eq!(pull.repository, "a/b");
    assert_eq!(pull.reference, ManifestReference::Tag("latest".to_string()));
    assert_eq!(pull.login, Some("t".to_string()));
}

#[test]
fn unclear_reply_is_an_error_and_is_not_kept() {
    let upstream = Upstream::new("docker.io", "http://127.0.0.1:4567");
    let mut source = OciBlobSource::new();
    for (status, header) in [
        (404, Some("Bearer realm=\"x\"".to_string())),
        (403, None),
        (301, None),
        (429, None),
        (500, None),
        (401, None),
        (401, Some("Basic realm=\"x\"".to_string())),
        (401, Some("Bearer service=\"x\"".to_string())),
    ] {
        let (result, asked, _) =
            authenticate(&mut source, &upstream, "repo", reply(status, header), vec![]);
        assert_eq!(
            result,
            Err(BlobFetchError::UnexpectedAuthProbeStatus {
                upstream: "docker.io".to_string(),
                status,
            })
        );
        assert_eq!(asked.len(), 1);
        assert!(source.auth_shape(&upstream).is_none());
    }
    let (result, _, _) = authenticate(&mut source, &upstream, "repo", None, vec![]);
    assert_eq!(result, Err(BlobFetchError::AuthProbe { upstream: "docker.io".to_string() }));
    assert!(source.auth_shape(&upstream).is_none());
}

#[test]
fn shape_is_read_from_the_reply() {
    let upstream = Upstream::new("docker.io", "https://registry-1.docker.io");
    for status in [200, 204, 299, 404] {
        assert!(matches!(
            auth_shape_in_reply(&upstream, reply(status, None)),
            Ok(AuthShape::Anonymous)
        ));
    }
    let header = "Bearer realm=\"https://auth.docker.io/token\"".to_string();
    assert!(matches!(
        auth_shape_in_reply(&upstream, reply(200, Some(header))),
        Ok(AuthShape::Anonymous)
    ));
    let header = "Bearer realm=\"https://auth.docker.io/token\",scope=\"ignored\"".to_string();
    match auth_shape_in_reply(&upstream, reply(401, Some(header))) {
        Ok(AuthShape::Bearer { realm, service }) => {
            assert_eq!(realm, "https://auth.docker.io/token");
            assert_eq!(service, None);
        }
        _ => panic!("a token is wanted"),
    }
}

fn private_upstream() -> Upstream {
    Upstream::new("docker.io", "https://registry-1.docker.io")
        .with_token_host("auth.docker.io")
        .with_credentials("someone", "something")
}

fn docker_challenge() -> Option<UpstreamReply> {
    reply(
        401,
        Some(
            "Bearer realm=\"https://auth.docker.io/token\",service=\"registry.docker.io\""
                .to_string(),
        ),
    )
}

#[test]
fn content_that_needs_credentials_is_refused() {
    let mut source = OciBlobSource::new();
    let (result, _, requests) =
        authenticate(&mut source, &private_upstream(), "secret/app", docker_challenge(), vec![None]);
    assert_eq!(
        result,
        Err(BlobFetchError::AuthenticationRequired {
            upstream: "docker.io".to_string(),
            repository: "secret/app".to_string(),
        })
    );
    // The credentials were never used.
    assert_eq!(requests.len(), 1);
    assert!(requests[0].credentials.is_none());
}

#[test]
fn credentials_are_used_only_after_a_check_without_them() {
    let mut source = OciBlobSource::new();
    let tokens = vec![Some("anonymous".to_string()), Some("relaxed".to_string())];
    let (result, _, requests) =
        authenticate(&mut source, &private_upstream(), "library/nginx", docker_challenge(), tokens);
    assert_eq!(result, Ok(RegistryAuth::Bearer("relaxed".to_string())));
    assert_eq!(requests.len(), 2);
    assert!(requests[0].credentials.is_none());
    assert_eq!(requests[1].credentials, private_upstream().credentials);
    assert_eq!(requests[0].url, requests[1].url);
    assert_eq!(requests[0].query, requests[1].query);

    // How the upstream authenticates is known now; the check is made again all the same.
    let tokens = vec![Some("anonymous".to_string()), None];
    let (result, asked, requests) =
        authenticate(&mut source, &private_upstream(), "library/redis", None, tokens);
    assert!(asked.is_empty());
    assert_eq!(requests.len(), 2);
    assert_eq!(
        requests[0].query[1],
        ("scope".to_string(), "repository:library/redis:pull".to_string())
    );
    assert_eq!(
        result,
        Err(BlobFetchError::UntrustedRealm {
            upstream: "docker.io".to_string(),
            realm: "https://auth.docker.io/token".to_string(),
        })
    );
}

#[test]
fn step_follows_from_shape_and_trust() {
    let upstream = private_upstream();
    let shape = AuthShape::Bearer { realm: "r".to_string(), service: None };
    assert!(matches!(
        OciBlobSource::on_shape(&upstream, "repo", AuthShape::Anonymous, false),
        AuthStep::Done(Ok(RegistryAuth::Anonymous))
    ));
    match OciBlobSource::on_shape(&upstream, "repo", shape.clone(), true) {
        AuthStep::FetchToken(request, pending) => {
            assert_eq!(request.url, "r");
            assert_eq!(
                request.query,
                vec![("scope".to_string(), "repository:repo:pull".to_string())]
            );
            assert_eq!(pending.purpose, TokenPurpose::Check);
        }
        _ => panic!("a token is wanted"),
    }
    assert!(matches!(
        OciBlobSource::on_shape(&upstream, "repo", shape, false),
        AuthStep::Done(Err(BlobFetchError::UntrustedRealm { .. }))
    ));
}

#[test]
fn step_follows_from_token_and_trust() {
    let upstream = private_upstream();
    let pending = |purpose: TokenPurpose| PendingToken {
        challenge: BearerChallenge { realm: "r".to_string(), service: None, scope: None },
        purpose,
    };
    assert!(matches!(
        OciBlobSource::on_token_reply(
            &upstream,
            "repo",
            pending(TokenPurpose::Check),
            Some("t".to_string()),
            false
        ),
        AuthStep::Done(Err(BlobFetchError::UntrustedRealm { .. }))
    ));
    assert!(matches!(
        OciBlobSource::on_token_reply(
            &upstream,
            "repo",
            pending(TokenPurpose::Check),
            Some("t".to_string()),
            true
        ),
        AuthStep::FetchToken(_, PendingToken { purpose: TokenPurpose::Credentials, .. })
    ));
    assert!(matches!(
        OciBlobSource::on_token_reply(
            &upstream,
            "repo",
            pending(TokenPurpose::Credentials),
            Some("t".to_string()),
            true
        ),
        AuthStep::Done(Ok(RegistryAuth::Bearer(_)))
    ));
    let plain = Upstream::new("docker.io", "https://registry-1.docker.io");
    assert!(matches!(
        OciBlobSource::on_token_reply(
            &plain,
            "repo",
            pending(TokenPurpose::Check),
            Some("t".to_string()),
            true
        ),
        AuthStep::Done(Ok(RegistryAuth::Bearer(_)))
    ));
}

// ---------------------------------------------------------------------------
// Manifests
// ---------------------------------------------------------------------------

/// Gets a manifest by its tag, with a table for the store and `sent` in place of the upstream.
/// Returns the result and whether the upstream was asked.
fn get_tag(
    cache: &mut ManifestCache,
    store: &mut Vec<(String, Vec<u8>)>,
    repository: &str,
    tag: &str,
    now: u64,
    sent: Result<(&str, &[u8]), &'static str>,
) -> (Result<ManifestResponse, &'static str>, bool) {
    get_tag_at(cache, store, "docker.io", repository, tag, now, sent)
}

/// The same, at a given upstream.
fn get_tag_at(
    cache: &mut ManifestCache,
    store: &mut Vec<(String, Vec<u8>)>,
    upstream: &str,
    repository: &str,
    tag: &str,
    now: u64,
    sent: Result<(&str, &[u8]), &'static str>,
) -> (Result<ManifestResponse, &'static str>, bool) {
    let read = |store: &Vec<(String, Vec<u8>)>, digest: &str| {
        store.iter().find(|(known, _)| known == digest).map(|(_, content)| content.clone())
    };
    let mut asked = false;
    let mut step: ManifestStep<&'static str> =
        cache.get(upstream, repository, &ManifestReference::Tag(tag.to_string()), now);
    loop {
        step = match step {
            ManifestStep::GetDigest(_) => panic!("it was asked for by tag"),
            ManifestStep::ReadFresh(digest) => {
                let content = read(store, &digest);
                ManifestCache::on_read_fresh(digest, content)
            }
            ManifestStep::Fetch => {
                asked = true;
                let fetched = sent.map(|(digest, content)| Fetched {
                    content: content.to_vec(),
                    digest: digest.to_string(),
                });
                cache.on_fetched(upstream, repository, tag, fetched)
            }
            ManifestStep::Store(fetched) => {
                let stored = match blob_path(&fetched.digest) {
                    Ok(_) => {
                        store.push((fetched.digest.clone(), fetched.content.clone()));
                        Ok(())
                    }
                    Err(_) => Err("not stored"),
                };
                cache.on_stored(upstream, repository, tag, now, fetched, stored)
            }
            ManifestStep::ReadStale(digest, error) => {
                let content = read(store, &digest);
                ManifestCache::on_read_stale(digest, error, content)
            }
            ManifestStep::Done(result) => return (result, asked),
        };
    }
}

fn manifest(content: &[u8], digest: &str, stale: bool) -> ManifestResponse {
    ManifestResponse { content: content.to_vec(), digest: digest.to_string(), stale }
}

#[test]
fn tag_is_asked_for_again_after_half_an_hour() {
    assert_eq!(ManifestCache::DEFAULT_TAG_TTL_SECS, 1800);
    let mut cache = ManifestCache::new();
    let mut store = Vec::new();
    let start = 3 * SECOND;

    let (first, asked) =
        get_tag(&mut cache, &mut store, "library/nginx", "latest", start, Ok(("a:1", b"one")));
    assert_eq!(first, Ok(manifest(b"one", "a:1", false)));
    assert!(asked);

    let just_before = start + 1800 * SECOND - 1;
    let (second, asked) =
        get_tag(&mut cache, &mut store, "library/nginx", "latest", just_before, Ok(("a:2", b"two")));
    assert_eq!(second, Ok(manifest(b"one", "a:1", false)));
    assert!(!asked);

    let (third, asked) = get_tag(
        &mut cache,
        &mut store,
        "library/nginx",
        "latest",
        start + 1800 * SECOND,
        Ok(("a:2", b"two")),
    );
    assert_eq!(third, Ok(manifest(b"two", "a:2", false)));
    assert!(asked);
}

#[test]
fn configured_time_for_tags_is_used() {
    let mut cache = ManifestCache::with_tag_ttl(Duration::from_secs(10));
    let mut store = Vec::new();
    get_tag(&mut cache, &mut store, "r", "t", 0, Ok(("a:1", b"one"))).0.unwrap();
    assert!(!get_tag(&mut cache, &mut store, "r", "t", 10 * SECOND - 1, Err("no")).1);
    assert!(get_tag(&mut cache, &mut store, "r", "t", 10 * SECOND, Err("no")).1);
    assert_eq!(cache.fresh_tag_state("docker.io", "r", "t", 9 * SECOND), Some("a:1".to_string()));
    assert_eq!(cache.fresh_tag_state("docker.io", "r", "t", 11 * SECOND), None);

    let mut never = ManifestCache::with_tag_ttl(Duration::from_secs(0));
    get_tag(&mut never, &mut store, "r", "t", 5, Ok(("a:1", b"one"))).0.unwrap();
    assert!(get_tag(&mut never, &mut store, "r", "t", 5, Ok(("a:1", b"one"))).1);
}

#[test]
fn last_manifest_serves_while_the_upstream_fails() {
    let mut cache = ManifestCache::with_tag_ttl(Duration::from_secs(10));
    let mut store = Vec::new();
    let (nothing, _) = get_tag(&mut cache, &mut store, "r", "t", 0, Err("down"));
    assert_eq!(nothing, Err("down"));

    get_tag(&mut cache, &mut store, "r", "t", 0, Ok(("a:1", b"one"))).0.unwrap();
    let later = 1_000_000 * SECOND;
    let (stale, asked) = get_tag(&mut cache, &mut store, "r", "t", later, Err("down"));
    assert_eq!(stale, Ok(manifest(b"one", "a:1", true)));
    assert!(asked);

    // Still outdated, so the upstream is asked again.
    let (fresh, _) = get_tag(&mut cache, &mut store, "r", "t", later, Ok(("a:2", b"two")));
    assert_eq!(fresh, Ok(manifest(b"two", "a:2", false)));

    store.clear();
    let (lost, _) = get_tag(&mut cache, &mut store, "r", "t", later, Err("down"));
    assert_eq!(lost, Err("down"));
}

#[test]
fn lost_content_is_fetched_again_within_the_time() {
    let mut cache = ManifestCache::new();
    let mut store = Vec::new();
    get_tag(&mut cache, &mut store, "r", "t", 0, Ok(("a:1", b"one"))).0.unwrap();
    store.clear();
    let (again, asked) = get_tag(&mut cache, &mut store, "r", "t", 1, Ok(("a:1", b"one")));
    assert_eq!(again, Ok(manifest(b"one", "a:1", false)));
    assert!(asked);
}

#[test]
fn manifest_that_cannot_be_stored_is_not_recorded() {
    let mut cache = ManifestCache::new();
    let mut store = Vec::new();
    let (result, _) = get_tag(&mut cache, &mut store, "r", "t", 0, Ok(("bad", b"one")));
    assert_eq!(result, Err("not stored"));
    assert_eq!(cache.fresh_tag_state("docker.io", "r", "t", 0), None);
}

#[test]
fn tags_of_repositories_are_told_apart() {
    let mut cache = ManifestCache::new();
    let mut store = Vec::new();
    get_tag(&mut cache, &mut store, "ab", "c", 0, Ok(("a:1", b"one"))).0.unwrap();
    assert_eq!(cache.fresh_tag_state("docker.io", "ab", "c", 0), Some("a:1".to_string()));
    for (repository, tag) in [("a", "bc"), ("abc", ""), ("", "abc"), ("ab", "d"), ("2:ab", "c")] {
        assert_eq!(cache.fresh_tag_state("docker.io", repository, tag, 0), None);
    }
    get_tag(&mut cache, &mut store, "a", "bc", 0, Ok(("a:2", b"two"))).0.unwrap();
    assert_eq!(cache.fresh_tag_state("docker.io", "ab", "c", 0), Some("a:1".to_string()));
    assert_eq!(cache.fresh_tag_state("docker.io", "a", "bc", 0), Some("a:2".to_string()));
}

#[test]
fn no_upstream_answers_for_another() {
    let mut cache = ManifestCache::new();
    let mut store = Vec::new();
    get_tag_at(&mut cache, &mut store, "docker.io", "r", "t", 0, Ok(("a:1", b"one"))).0.unwrap();

    // Within the time, and with the content in the store, the other upstream is asked all the same.
    let (failed, asked) = get_tag_at(&mut cache, &mut store, "ghcr.io", "r", "t", 1, Err("down"));
    assert_eq!(failed, Err("down"));
    assert!(asked);

    let (other, asked) =
        get_tag_at(&mut cache, &mut store, "ghcr.io", "r", "t", 1, Ok(("a:2", b"two")));
    assert_eq!(other, Ok(manifest(b"two", "a:2", false)));
    assert!(asked);
    assert_eq!(cache.last_tag_state("docker.io", "r", "t"), Some("a:1".to_string()));
    assert_eq!(cache.last_tag_state("ghcr.io", "r", "t"), Some("a:2".to_string()));
    assert_eq!(cache.last_tag_state("quay.io", "r", "t"), None);

    let (first, asked) = get_tag_at(&mut cache, &mut store, "docker.io", "r", "t", 2, Err("down"));
    assert_eq!(first, Ok(manifest(b"one", "a:1", false)));
    assert!(!asked);
}

#[test]
fn upstreams_repositories_and_tags_are_not_run_together() {
    let mut cache = ManifestCache::new();
    let mut store = Vec::new();
    get_tag_at(&mut cache, &mut store, "a", "bc", "d", 0, Ok(("a:1", b"one"))).0.unwrap();
    for (upstream, repository, tag) in
        [("ab", "c", "d"), ("a", "b", "cd"), ("a", "bcd", ""), ("", "abc", "d"), ("a2:b", "c", "d")]
    {
        assert_eq!(cache.last_tag_state(upstream, repository, tag), None);
    }
    assert_eq!(cache.last_tag_state("a", "bc", "d"), Some("a:1".to_string()));
}

#[test]
fn manifest_by_digest_has_no_time() {
    let cache = ManifestCache::with_tag_ttl(Duration::from_secs(0));
    let reference = ManifestReference::Digest("a:1".to_string());
    match cache.get::<&'static str>("docker.io", "r", &reference, u64::MAX) {
        ManifestStep::GetDigest(digest) => assert_eq!(digest, "a:1"),
        _ => panic!("it was asked for by digest"),
    }
    match ManifestCache::on_digest::<&'static str>("a:1".to_string(), Ok(vec![1])) {
        ManifestStep::Done(result) => assert_eq!(result, Ok(manifest(&[1], "a:1", false))),
        _ => panic!("the manifest is there"),
    }
    match ManifestCache::on_digest("a:1".to_string(), Err("no")) {
        ManifestStep::Done(result) => assert_eq!(result, Err("no")),
        _ => panic!("there is no manifest"),
    }
}
