//! Which upstream serves a repository.
use std::time::Duration;

use oci_cache::registry_auth::{token_in_reply, TokenResponse, UpstreamReply};
use oci_cache::routing::router::order_fingerprint;
use oci_cache::routing::{
    HttpUpstreamProbe, InMemoryRoutingMemo, PendingProbe, ProbeOutcome, ProbeStage, ProbeStep,
    Resolution, ResolutionSource, RetryStep, RouteStep, Router, RoutingConfig, RoutingError,
    RoutingMemoStore, Upstream,
};

const SECOND: u64 = 1_000_000_000;

/// Upstreams that answer from a table, and remember who was asked.
struct Upstreams {
    answers: Vec<(&'static str, Option<ProbeOutcome>)>,
    asked: Vec<String>,
}

impl Upstreams {
    fn new(answers: Vec<(&'static str, Option<ProbeOutcome>)>) -> Self {
        Upstreams { answers, asked: Vec::new() }
    }

    fn probe(&mut self, id: &str) -> Option<ProbeOutcome> {
        self.asked.push(id.to_string());
        for (known, answer) in &self.answers {
            if *known == id {
                return *answer;
            }
        }
        Some(ProbeOutcome::NotFound)
    }

    fn times_asked(&self, id: &str) -> usize {
        self.asked.iter().filter(|asked| asked.as_str() == id).count()
    }
}

const FOUND: Option<ProbeOutcome> = Some(ProbeOutcome::Found);
const MISSING: Option<ProbeOutcome> = Some(ProbeOutcome::NotFound);
const NO_CONNECTION: Option<ProbeOutcome> = Some(ProbeOutcome::Unreachable);
const TOO_LATE: Option<ProbeOutcome> = None;

fn config(ids: &[&str]) -> RoutingConfig {
    let mut upstreams = Vec::new();
    for id in ids {
        upstreams.push(Upstream::new(id, &format!("https://{id}")));
    }
    RoutingConfig { upstreams, probe_timeout: Duration::from_secs(5) }
}

fn resolve_at(
    router: &Router,
    memo: &mut InMemoryRoutingMemo,
    upstreams: &mut Upstreams,
    repository: &str,
    ns_hint: Option<&str>,
    now: u64,
) -> Result<Resolution, RoutingError> {
    let mut step = router.resolve(memo, repository, ns_hint, now);
    loop {
        match step {
            RouteStep::Done(result) => return result,
            RouteStep::Probe(pending) => {
                assert_eq!(pending.repository, repository);
                let id = router.config.upstreams[pending.upstream_index()].id.clone();
                let answer = upstreams.probe(&id);
                step = router.advance(memo, pending, answer, now);
            }
        }
    }
}

fn resolve(
    router: &Router,
    memo: &mut InMemoryRoutingMemo,
    upstreams: &mut Upstreams,
    repository: &str,
    ns_hint: Option<&str>,
) -> Result<Resolution, RoutingError> {
    resolve_at(router, memo, upstreams, repository, ns_hint, 0)
}

#[test]
fn ns_hint_selects_single_upstream() {
    let mut upstreams =
        Upstreams::new(vec![("docker.io", FOUND), ("ghcr.io", FOUND), ("quay.io", FOUND)]);
    let repo = "library/nginx";
    let mut memo = InMemoryRoutingMemo::default();
    let router = Router::new(config(&["docker.io", "ghcr.io", "quay.io"]), &mut memo);

    let resolution =
        resolve(&router, &mut memo, &mut upstreams, repo, Some("ghcr.io")).unwrap();

    assert_eq!(resolution.upstream, "ghcr.io");
    assert_eq!(resolution.source, ResolutionSource::NsHint);
    assert_eq!(upstreams.times_asked("ghcr.io"), 1);
    assert_eq!(upstreams.times_asked("docker.io"), 0);
    assert_eq!(upstreams.times_asked("quay.io"), 0);
}

#[test]
fn ordered_fallback_returns_first_success() {
    let mut upstreams = Upstreams::new(vec![("docker.io", MISSING), ("ghcr.io", FOUND)]);
    let repo = "library/nginx";
    let mut memo = InMemoryRoutingMemo::default();
    let router = Router::new(config(&["docker.io", "ghcr.io", "quay.io"]), &mut memo);

    let resolution = resolve(&router, &mut memo, &mut upstreams, repo, None).unwrap();

    assert_eq!(resolution.upstream, "ghcr.io");
    assert_eq!(resolution.source, ResolutionSource::Fallback);
    assert_eq!(upstreams.times_asked("quay.io"), 0);
    assert_eq!(memo.get(repo), Some("ghcr.io".to_string()));
}

#[test]
fn routing_memo_skips_probe_on_second_request() {
    let mut upstreams = Upstreams::new(vec![("docker.io", FOUND)]);
    let repo = "library/nginx";
    let mut memo = InMemoryRoutingMemo::default();
    let router = Router::new(config(&["docker.io", "ghcr.io", "quay.io"]), &mut memo);

    let first = resolve(&router, &mut memo, &mut upstreams, repo, None).unwrap();
    assert_eq!(first.source, ResolutionSource::Fallback);

    let second = resolve(&router, &mut memo, &mut upstreams, repo, None).unwrap();
    assert_eq!(second.upstream, "docker.io");
    assert_eq!(second.source, ResolutionSource::Memo);

    assert_eq!(upstreams.times_asked("ghcr.io"), 0);
    assert_eq!(upstreams.times_asked("quay.io"), 0);
}

#[test]
fn name_collision_resolved_by_configured_order() {
    let mut upstreams = Upstreams::new(vec![("docker.io", FOUND), ("ghcr.io", FOUND)]);
    let repo = "library/nginx";
    let mut memo = InMemoryRoutingMemo::default();
    let router = Router::new(config(&["docker.io", "ghcr.io", "quay.io"]), &mut memo);

    let resolution = resolve(&router, &mut memo, &mut upstreams, repo, None).unwrap();

    assert_eq!(resolution.upstream, "docker.io");
    assert_eq!(upstreams.times_asked("ghcr.io"), 0);
    assert_eq!(upstreams.times_asked("quay.io"), 0);
}

#[test]
fn configured_upstream_order_is_used() {
    let mut upstreams = Upstreams::new(vec![("docker.io", FOUND), ("quay.io", FOUND)]);
    let repo = "library/nginx";
    let mut memo = InMemoryRoutingMemo::default();
    let router = Router::new(config(&["quay.io", "ghcr.io", "docker.io"]), &mut memo);

    let resolution = resolve(&router, &mut memo, &mut upstreams, repo, None).unwrap();

    assert_eq!(resolution.upstream, "quay.io");
    assert_eq!(upstreams.times_asked("docker.io"), 0);
}

#[test]
fn routing_memo_discarded_when_recorded_upstream_misses() {
    let mut upstreams = Upstreams::new(vec![("docker.io", FOUND)]);
    let repo = "library/nginx";
    let mut memo = InMemoryRoutingMemo::default();
    let router = Router::new(config(&["docker.io", "ghcr.io", "quay.io"]), &mut memo);

    let first = resolve(&router, &mut memo, &mut upstreams, repo, None).unwrap();
    assert_eq!(first.upstream, "docker.io");

    // The repository moves from docker.io to ghcr.io.
    let mut upstreams = Upstreams::new(vec![("docker.io", MISSING), ("ghcr.io", FOUND)]);
    let second = resolve(&router, &mut memo, &mut upstreams, repo, None).unwrap();

    assert_eq!(second.upstream, "ghcr.io");
    assert_eq!(second.source, ResolutionSource::Fallback);
    assert_eq!(upstreams.times_asked("quay.io"), 0);
    assert_eq!(upstreams.times_asked("docker.io"), 2);
}

#[test]
fn unresponsive_upstream_advances_to_next() {
    let mut upstreams = Upstreams::new(vec![("docker.io", TOO_LATE), ("ghcr.io", FOUND)]);
    let repo = "library/nginx";
    let mut memo = InMemoryRoutingMemo::default();
    let router = Router::new(config(&["docker.io", "ghcr.io", "quay.io"]), &mut memo);

    let resolution = resolve(&router, &mut memo, &mut upstreams, repo, None).unwrap();

    assert_eq!(resolution.upstream, "ghcr.io");
    assert_eq!(upstreams.times_asked("quay.io"), 0);
}

#[test]
fn routing_memo_discarded_when_upstream_order_changes() {
    let mut upstreams = Upstreams::new(vec![("docker.io", FOUND), ("ghcr.io", FOUND)]);
    let repo = "library/nginx";
    // One memo, and two routers as before and after a reload of the configuration.
    let mut memo = InMemoryRoutingMemo::default();

    let router_a = Router::new(config(&["docker.io", "ghcr.io", "quay.io"]), &mut memo);
    let first = resolve(&router_a, &mut memo, &mut upstreams, repo, None).unwrap();
    assert_eq!(first.upstream, "docker.io");

    let router_b = Router::new(config(&["ghcr.io", "docker.io", "quay.io"]), &mut memo);
    let second = resolve(&router_b, &mut memo, &mut upstreams, repo, None).unwrap();

    assert_eq!(second.upstream, "ghcr.io");
    assert_ne!(upstreams.times_asked("ghcr.io"), 0);
}

#[test]
fn upstream_probe_timeout_default_is_5_seconds() {
    assert_eq!(
        RoutingConfig::default().probe_timeout,
        Duration::from_secs(5)
    );
}

#[test]
fn fallback_reports_unreachable_when_some_upstream_times_out() {
    let mut upstreams = Upstreams::new(vec![("docker.io", TOO_LATE), ("ghcr.io", MISSING)]);
    let repo = "library/nginx";
    let mut memo = InMemoryRoutingMemo::default();
    let router = Router::new(config(&["docker.io", "ghcr.io"]), &mut memo);

    let error = resolve(&router, &mut memo, &mut upstreams, repo, None).unwrap_err();

    assert!(matches!(error, RoutingError::Unreachable(_)));
}

#[test]
fn fallback_reports_not_found_when_all_upstreams_miss() {
    let mut upstreams = Upstreams::new(vec![("docker.io", MISSING), ("ghcr.io", MISSING)]);
    let repo = "library/nginx";
    let mut memo = InMemoryRoutingMemo::default();
    let router = Router::new(config(&["docker.io", "ghcr.io"]), &mut memo);

    let error = resolve(&router, &mut memo, &mut upstreams, repo, None).unwrap_err();

    assert!(matches!(error, RoutingError::NotFoundOnAnyUpstream));
}

#[test]
fn routing_memo_rejects_write_from_stale_generation() {
    let repo = "library/nginx";
    let mut memo = InMemoryRoutingMemo::default();

    let router_a = Router::new(config(&["docker.io", "ghcr.io"]), &mut memo);
    let pending = match router_a.resolve(&mut memo, repo, None, 0) {
        RouteStep::Probe(pending) => pending,
        RouteStep::Done(_) => panic!("docker.io is to be asked"),
    };

    // The order changes while docker.io is being asked.
    let _router_b = Router::new(config(&["ghcr.io", "docker.io"]), &mut memo);

    let step = router_a.advance(&mut memo, pending, FOUND, 0);
    match step {
        RouteStep::Done(Ok(resolution)) => assert_eq!(resolution.upstream, "docker.io"),
        _ => panic!("docker.io has the repository"),
    }
    assert!(memo.get(repo).is_none());
}

fn reply(status: u16, header: Option<String>) -> Option<UpstreamReply> {
    Some(UpstreamReply { status, www_authenticate: header })
}

#[test]
fn probe_retries_after_bearer_challenge() {
    let repo = "library/nginx";
    let server = "http://127.0.0.1:4567";
    let realm = format!("{server}/token");
    let upstream = Upstream::new("docker.io", server);

    let probe = HttpUpstreamProbe::probe(&upstream, repo);
    assert_eq!(probe.url, format!("{server}/v2/{repo}/tags/list"));

    let header = format!(
        r#"Bearer realm="{realm}",service="registry.docker.io",scope="repository:{repo}:pull""#
    );
    let request = match HttpUpstreamProbe::on_reply(&upstream, reply(401, Some(header))) {
        ProbeStep::FetchToken(request) => request,
        ProbeStep::Done(_) => panic!("a token is needed"),
    };
    assert_eq!(request.url, realm);
    assert_eq!(
        request.query,
        vec![
            ("service".to_string(), "registry.docker.io".to_string()),
            ("scope".to_string(), format!("repository:{repo}:pull")),
        ]
    );
    assert!(request.credentials.is_none());

    let body = TokenResponse { token: Some("test-token".to_string()), access_token: None };
    match HttpUpstreamProbe::on_token(token_in_reply(200, Some(body))) {
        RetryStep::AskWithToken(token) => assert_eq!(token, "test-token"),
        RetryStep::Done(_) => panic!("a token was issued"),
    }
    let outcome = HttpUpstreamProbe::on_retry(Some(200));

    assert_eq!(outcome, ProbeOutcome::Found);
}

#[test]
fn probe_rejects_bearer_realm_with_untrusted_host() {
    let repo = "library/nginx";
    let forged_realm = "http://127.0.0.1:6666/token";
    let upstream = Upstream::new("docker.io", "http://127.0.0.1:4567");

    let header = format!(
        r#"Bearer realm="{forged_realm}",service="registry.docker.io",scope="repository:{repo}:pull""#
    );
    match HttpUpstreamProbe::on_reply(&upstream, reply(401, Some(header))) {
        ProbeStep::Done(outcome) => assert_eq!(outcome, ProbeOutcome::Unreachable),
        ProbeStep::FetchToken(_) => panic!("nothing may be sent there"),
    }
}

#[test]
fn activate_order_increments_generation_for_distinct_fingerprints() {
    let mut memo = InMemoryRoutingMemo::default();

    let g1 = memo.activate_order("docker.io\u{0}ghcr.io");
    let g2 = memo.activate_order("docker.io\u{0}ghcr.io");
    let g3 = memo.activate_order("ghcr.io\u{0}docker.io");

    assert_eq!(g1, g2);
    assert_ne!(g2, g3);
}

/// Calls that come at the same time are taken one after another, in any order.
#[test]
fn concurrent_activate_order_calls_yield_distinct_generations() {
    let fingerprints = ["a\u{0}b", "b\u{0}a", "a\u{0}b\u{0}c", "c\u{0}b\u{0}a"];
    for first in 0..4 {
        for second in 0..4 {
            for third in 0..4 {
                if first == second || first == third || second == third {
                    continue;
                }
                let fourth = 6 - first - second - third;
                let mut memo = InMemoryRoutingMemo::default();
                let mut generations: Vec<u64> = [first, second, third, fourth]
                    .iter()
                    .map(|i| memo.activate_order(fingerprints[*i]))
                    .collect();
                generations.sort_unstable();
                generations.dedup();

                assert_eq!(generations.len(), fingerprints.len());
            }
        }
    }
}

// ---------------------------------------------------------------------------
// Further cases
// ---------------------------------------------------------------------------

#[test]
fn default_configuration_names_three_upstreams() {
    let config = RoutingConfig::default();
    let ids: Vec<&str> = config.upstreams.iter().map(|upstream| upstream.id.as_str()).collect();
    assert_eq!(ids, vec!["docker.io", "ghcr.io", "quay.io"]);
    assert_eq!(config.upstreams[0].base_url, "https://registry-1.docker.io");
    assert_eq!(config.upstreams[0].token_host, Some("auth.docker.io".to_string()));
    assert_eq!(config.upstreams[1].base_url, "https://ghcr.io");
    assert_eq!(config.upstreams[2].base_url, "https://quay.io");
    assert!(config.upstreams[1].token_host.is_none());
    assert!(config.upstreams[0].credentials.is_none());
}

#[test]
fn configured_upstream_is_found_by_its_id() {
    let config = RoutingConfig::default();
    assert_eq!(config.find("quay.io").map(|u| u.base_url.clone()), Some("https://quay.io".to_string()));
    assert_eq!(config.index_of("ghcr.io"), Some(1));
    assert!(config.find("example.org").is_none());
    assert_eq!(config.index_of("example.org"), None);
}

#[test]
fn first_of_two_upstreams_with_one_id_is_found() {
    let mut config = config(&["a", "b"]);
    config.upstreams.push(Upstream::new("a", "https://elsewhere"));
    assert_eq!(config.index_of("a"), Some(0));
    assert_eq!(config.find("a").map(|u| u.base_url.clone()), Some("https://a".to_string()));
}

#[test]
fn credentials_are_kept_with_the_upstream() {
    let upstream = Upstream::new("docker.io", "https://registry-1.docker.io")
        .with_token_host("auth.docker.io")
        .with_credentials("someone", "something");
    assert_eq!(upstream.id, "docker.io");
    assert_eq!(upstream.token_host, Some("auth.docker.io".to_string()));
    let given = upstream.credentials.clone().unwrap();
    assert_eq!(given.username, "someone");
    assert_eq!(given.password, "something");
    assert_eq!(upstream.clone(), upstream);
}

#[test]
fn unknown_hint_is_refused_without_asking() {
    let mut upstreams = Upstreams::new(vec![("docker.io", FOUND)]);
    let mut memo = InMemoryRoutingMemo::default();
    let router = Router::new(config(&["docker.io"]), &mut memo);

    let error =
        resolve(&router, &mut memo, &mut upstreams, "library/nginx", Some("example.org")).unwrap_err();

    assert_eq!(error, RoutingError::UnknownUpstream("example.org".to_string()));
    assert!(upstreams.asked.is_empty());
}

#[test]
fn hinted_upstream_serves_even_if_it_denies() {
    let mut upstreams = Upstreams::new(vec![("docker.io", MISSING)]);
    let mut memo = InMemoryRoutingMemo::default();
    let router = Router::new(config(&["docker.io", "ghcr.io"]), &mut memo);

    let resolution =
        resolve(&router, &mut memo, &mut upstreams, "library/nginx", Some("docker.io")).unwrap();

    assert_eq!(resolution.upstream, "docker.io");
    assert!(memo.get("library/nginx").is_none());
}

#[test]
fn silent_hinted_upstream_is_reported() {
    let mut upstreams = Upstreams::new(vec![("docker.io", TOO_LATE), ("ghcr.io", FOUND)]);
    let mut memo = InMemoryRoutingMemo::default();
    let router = Router::new(config(&["docker.io", "ghcr.io"]), &mut memo);

    let error =
        resolve(&router, &mut memo, &mut upstreams, "library/nginx", Some("docker.io")).unwrap_err();

    assert_eq!(error, RoutingError::Unreachable("docker.io".to_string()));
    assert_eq!(upstreams.asked, vec!["docker.io".to_string()]);
}

#[test]
fn silent_recorded_upstream_is_reported_and_stays_on_record() {
    let repo = "library/nginx";
    let mut memo = InMemoryRoutingMemo::default();
    let router = Router::new(config(&["docker.io", "ghcr.io"]), &mut memo);
    let mut upstreams = Upstreams::new(vec![("docker.io", MISSING), ("ghcr.io", FOUND)]);
    resolve(&router, &mut memo, &mut upstreams, repo, None).unwrap();

    let mut upstreams = Upstreams::new(vec![("docker.io", FOUND), ("ghcr.io", NO_CONNECTION)]);
    let error = resolve(&router, &mut memo, &mut upstreams, repo, None).unwrap_err();

    assert_eq!(error, RoutingError::Unreachable("ghcr.io".to_string()));
    assert_eq!(memo.get(repo), Some("ghcr.io".to_string()));
    assert_eq!(upstreams.asked, vec!["ghcr.io".to_string()]);
}

#[test]
fn record_of_an_upstream_that_is_gone_is_dropped() {
    let repo = "library/nginx";
    let mut memo = InMemoryRoutingMemo::default();
    let router = Router::new(config(&["docker.io", "ghcr.io"]), &mut memo);
    memo.put(repo, "gone.example", router.generation);

    let mut upstreams = Upstreams::new(vec![("docker.io", FOUND)]);
    let resolution = resolve(&router, &mut memo, &mut upstreams, repo, None).unwrap();

    assert_eq!(resolution.source, ResolutionSource::Fallback);
    assert_eq!(memo.get(repo), Some("docker.io".to_string()));
}

#[test]
fn first_silent_upstream_is_named() {
    let mut upstreams = Upstreams::new(vec![
        ("a", MISSING),
        ("b", NO_CONNECTION),
        ("c", TOO_LATE),
        ("d", MISSING),
    ]);
    let mut memo = InMemoryRoutingMemo::default();
    let router = Router::new(config(&["a", "b", "c", "d"]), &mut memo);

    let error = resolve(&router, &mut memo, &mut upstreams, "x", None).unwrap_err();

    assert_eq!(error, RoutingError::Unreachable("b".to_string()));
    assert_eq!(upstreams.asked, vec!["a", "b", "c", "d"]);
}

#[test]
fn denial_by_all_is_remembered_for_half_an_hour() {
    let repo = "library/nothing";
    let mut memo = InMemoryRoutingMemo::default();
    let router = Router::new(config(&["docker.io", "ghcr.io"]), &mut memo);
    assert_eq!(router.negative_ttl, Duration::from_secs(1800));
    assert_eq!(Router::DEFAULT_NEGATIVE_TTL_SECS, 1800);

    let mut upstreams = Upstreams::new(vec![("docker.io", MISSING), ("ghcr.io", MISSING)]);
    let start = 7 * SECOND;
    let error =
        resolve_at(&router, &mut memo, &mut upstreams, repo, None, start).unwrap_err();
    assert_eq!(error, RoutingError::NotFoundOnAnyUpstream);
    assert_eq!(upstreams.asked.len(), 2);

    let just_before = start + 1800 * SECOND - 1;
    let error =
        resolve_at(&router, &mut memo, &mut upstreams, repo, None, just_before).unwrap_err();
    assert_eq!(error, RoutingError::NotFoundOnAnyUpstream);
    assert_eq!(upstreams.asked.len(), 2);

    let mut upstreams = Upstreams::new(vec![("docker.io", FOUND)]);
    let resolution =
        resolve_at(&router, &mut memo, &mut upstreams, repo, None, start + 1800 * SECOND).unwrap();
    assert_eq!(resolution.upstream, "docker.io");
}

#[test]
fn remembered_denial_has_the_configured_length_and_does_not_bind_hints() {
    let repo = "library/nothing";
    let mut memo = InMemoryRoutingMemo::default();
    let router =
        Router::with_negative_ttl(config(&["docker.io"]), &mut memo, Duration::from_secs(2));
    let mut upstreams = Upstreams::new(vec![("docker.io", MISSING)]);
    resolve_at(&router, &mut memo, &mut upstreams, repo, None, 0).unwrap_err();
    assert!(memo.is_negative_cached(repo, 2 * SECOND - 1));
    assert!(!memo.is_negative_cached("another", 0));

    let resolution =
        resolve_at(&router, &mut memo, &mut upstreams, repo, Some("docker.io"), SECOND).unwrap();
    assert_eq!(resolution.source, ResolutionSource::NsHint);

    assert!(!memo.is_negative_cached(repo, 2 * SECOND));
    // The finding that has expired is gone.
    assert!(!memo.is_negative_cached(repo, 0));
}

#[test]
fn silence_is_not_remembered_as_denial() {
    let repo = "library/nginx";
    let mut memo = InMemoryRoutingMemo::default();
    let router = Router::new(config(&["docker.io"]), &mut memo);
    let mut upstreams = Upstreams::new(vec![("docker.io", TOO_LATE)]);
    resolve(&router, &mut memo, &mut upstreams, repo, None).unwrap_err();
    assert!(!memo.is_negative_cached(repo, 0));
}

#[test]
fn no_upstreams_means_not_found() {
    let mut memo = InMemoryRoutingMemo::default();
    let router = Router::new(config(&[]), &mut memo);
    let mut upstreams = Upstreams::new(vec![]);
    let error = resolve(&router, &mut memo, &mut upstreams, "x", None).unwrap_err();
    assert_eq!(error, RoutingError::NotFoundOnAnyUpstream);
    assert!(memo.is_negative_cached("x", 1800 * SECOND - 1));
    assert!(!memo.is_negative_cached("x", 1800 * SECOND));
}

#[test]
fn outdated_router_records_no_upstream_but_a_denial() {
    let mut memo = InMemoryRoutingMemo::default();
    let outdated = Router::new(config(&["a", "b"]), &mut memo);
    Router::new(config(&["b", "a"]), &mut memo);
    let mut upstreams = Upstreams::new(vec![("b", FOUND)]);
    resolve(&outdated, &mut memo, &mut upstreams, "x", None).unwrap();
    assert!(memo.get("x").is_none());
    let mut upstreams = Upstreams::new(vec![]);
    resolve(&outdated, &mut memo, &mut upstreams, "x", None).unwrap_err();
    assert!(memo.get("x").is_none());
    assert!(memo.is_negative_cached("x", 0));
}

#[test]
fn resolution_takes_at_most_one_answer_more_than_there_are_upstreams() {
    let repo = "library/nginx";
    let mut memo = InMemoryRoutingMemo::default();
    let router = Router::new(config(&["a", "b", "c"]), &mut memo);
    memo.put(repo, "c", router.generation);
    let mut upstreams = Upstreams::new(vec![]);
    resolve(&router, &mut memo, &mut upstreams, repo, None).unwrap_err();
    assert_eq!(upstreams.asked, vec!["c", "a", "b", "c"]);
}

#[test]
fn resolution_names_a_configured_upstream() {
    let mut memo = InMemoryRoutingMemo::default();
    let router = Router::new(config(&["a", "b"]), &mut memo);
    for hint in [None, Some("a"), Some("b")] {
        let mut upstreams = Upstreams::new(vec![("a", MISSING), ("b", FOUND)]);
        let resolution = resolve(&router, &mut memo, &mut upstreams, "x", hint).unwrap();
        assert!(router.config.find(&resolution.upstream).is_some());
    }
}

#[test]
fn order_is_told_by_its_fingerprint() {
    let ab = order_fingerprint(&config(&["a", "b"]).upstreams);
    let ba = order_fingerprint(&config(&["b", "a"]).upstreams);
    assert_eq!(ab, "a\u{0}b");
    assert_eq!(ba, "b\u{0}a");
    assert_ne!(ab, order_fingerprint(&config(&["ab"]).upstreams));
    assert_eq!(order_fingerprint(&config(&[]).upstreams), "");
    assert_ne!(order_fingerprint(&config(&["a"]).upstreams), "");
}

#[test]
fn same_order_keeps_records_and_generation() {
    let mut memo = InMemoryRoutingMemo::default();
    let first = Router::new(config(&["a", "b"]), &mut memo);
    memo.put("x", "b", first.generation);
    let second = Router::new(config(&["a", "b"]), &mut memo);
    assert_eq!(first.generation, second.generation);
    assert_eq!(memo.generation(), first.generation);
    assert_eq!(memo.get("x"), Some("b".to_string()));
    memo.discard("x");
    assert!(memo.get("x").is_none());
}

#[test]
fn stage_tells_the_upstream_that_is_asked() {
    let pending = |stage: ProbeStage| PendingProbe { repository: "x".to_string(), stage };
    assert_eq!(pending(ProbeStage::Hint(2)).upstream_index(), 2);
    assert_eq!(pending(ProbeStage::Memo(1)).upstream_index(), 1);
    let stage = ProbeStage::Fallback { index: 3, unreachable: Some(0) };
    assert_eq!(pending(stage).upstream_index(), 3);
}

#[test]
fn probe_reads_the_status() {
    let upstream = Upstream::new("docker.io", "https://registry-1.docker.io");
    for (status, expected) in [
        (200, ProbeOutcome::Found),
        (404, ProbeOutcome::NotFound),
        (201, ProbeOutcome::Unreachable),
        (302, ProbeOutcome::Unreachable),
        (429, ProbeOutcome::Unreachable),
        (503, ProbeOutcome::Unreachable),
    ] {
        match HttpUpstreamProbe::on_reply(&upstream, reply(status, None)) {
            ProbeStep::Done(outcome) => assert_eq!(outcome, expected),
            ProbeStep::FetchToken(_) => panic!("no token was asked for"),
        }
        assert_eq!(HttpUpstreamProbe::on_retry(Some(status)), expected);
    }
    assert_eq!(HttpUpstreamProbe::on_retry(None), ProbeOutcome::Unreachable);
    assert_eq!(HttpUpstreamProbe::on_retry(Some(401)), ProbeOutcome::Unreachable);
    assert!(matches!(
        HttpUpstreamProbe::on_reply(&upstream, None),
        ProbeStep::Done(ProbeOutcome::Unreachable)
    ));
    assert!(matches!(
        HttpUpstreamProbe::on_reply(&upstream, reply(401, None)),
        ProbeStep::Done(ProbeOutcome::Unreachable)
    ));
    assert!(matches!(
        HttpUpstreamProbe::on_token(None),
        RetryStep::Done(ProbeOutcome::Unreachable)
    ));
    assert!(matches!(
        HttpUpstreamProbe::probe_with_bearer_retry(None),
        ProbeStep::Done(ProbeOutcome::Unreachable)
    ));
}
