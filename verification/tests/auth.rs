//! Challenges, and the places that issue tokens.
use oci_cache::registry_auth::{
    fetch_bearer_token, is_success, issuer_is_trusted, parse_bearer_challenge, realm_is_trusted,
    token_in_reply, token_request, BearerChallenge, TokenResponse, UrlParts,
};
use oci_cache::routing::{Upstream, UpstreamCredentials};

fn text(s: &str) -> Option<String> {
    Some(s.to_string())
}

#[test]
fn challenge_is_read() {
    let challenge = parse_bearer_challenge(
        r#"Bearer realm="https://auth.docker.io/token",service="registry.docker.io",scope="repository:library/nginx:pull""#,
    )
    .unwrap();
    assert_eq!(challenge.realm, "https://auth.docker.io/token");
    assert_eq!(challenge.service, text("registry.docker.io"));
    assert_eq!(challenge.scope, text("repository:library/nginx:pull"));
}

#[test]
fn challenge_tolerates_order_white_space_and_other_parameters() {
    let challenge = parse_bearer_challenge(
        "Bearer  scope = s , error=\"x\",\u{3000}realm\t=  \"https://a/?b=c\"  ",
    )
    .unwrap();
    assert_eq!(challenge.realm, "https://a/?b=c");
    assert_eq!(challenge.service, None);
    assert_eq!(challenge.scope, text("s"));
}

#[test]
fn last_of_equal_parameters_counts() {
    let challenge = parse_bearer_challenge("Bearer realm=\"a\",realm=\"b\"").unwrap();
    assert_eq!(challenge.realm, "b");
    let empty = parse_bearer_challenge("Bearer realm=\"\"").unwrap();
    assert_eq!(empty.realm, "");
    let quotes = parse_bearer_challenge("Bearer realm=\"\"\"a\"\"").unwrap();
    assert_eq!(quotes.realm, "a");
}

#[test]
fn other_headers_are_no_challenge() {
    for header in [
        "",
        "Bearer",
        "Bearer ",
        "bearer realm=\"a\"",
        "Basic realm=\"a\"",
        " Bearer realm=\"a\"",
        "Bearer service=\"a\"",
        "Bearer realm=\"a\",",
        "Bearer realm=\"a\",flag",
        "Bearer realm=\"a\",scope=\"repository:x:pull,push\"",
        "Bearer Realm=\"a\"",
    ] {
        assert!(parse_bearer_challenge(header).is_none(), "{header}");
    }
}

#[test]
fn own_host_and_port_may_issue_tokens() {
    let upstream = Upstream::new("ghcr.io", "https://ghcr.io");
    assert!(realm_is_trusted(&upstream, "https://ghcr.io/token"));
    assert!(realm_is_trusted(&upstream, "https://ghcr.io:443/token"));
    assert!(realm_is_trusted(&upstream, "HTTPS://GHCR.IO/token?x=y"));
    for realm in [
        "http://ghcr.io/token",
        "https://ghcr.io:8443/token",
        "https://evil.example/token",
        "https://ghcr.io.evil.example/token",
        "https://ghcr.io@evil.example/token",
        "ghcr.io/token",
        "",
        "https://",
    ] {
        assert!(!realm_is_trusted(&upstream, realm), "{realm}");
    }
}

#[test]
fn configured_host_may_issue_tokens_on_any_port() {
    let upstream = Upstream::new("docker.io", "https://registry-1.docker.io")
        .with_token_host("auth.docker.io");
    assert!(realm_is_trusted(&upstream, "https://auth.docker.io/token"));
    assert!(realm_is_trusted(&upstream, "https://auth.docker.io:8443/token"));
    assert!(!realm_is_trusted(&upstream, "http://auth.docker.io/token"));
    assert!(!realm_is_trusted(&upstream, "https://registry-1.docker.io/token"));
}

#[test]
fn upstream_without_a_readable_url_trusts_nobody() {
    let upstream = Upstream::new("x", "not a url").with_token_host("auth.docker.io");
    assert!(!realm_is_trusted(&upstream, "https://auth.docker.io/token"));
    let hostless = Upstream::new("x", "data:x");
    assert!(!realm_is_trusted(&hostless, "data:x"));
}

fn url(scheme: &str, host: Option<&str>, port: Option<u16>) -> Option<UrlParts> {
    Some(UrlParts { scheme: scheme.to_string(), host: host.map(|h| h.to_string()), port })
}

#[test]
fn trust_follows_from_the_parts() {
    let base = url("https", Some("a"), Some(443));
    assert!(issuer_is_trusted(&base, &url("https", Some("a"), Some(443)), &None));
    assert!(!issuer_is_trusted(&base, &url("https", Some("a"), Some(444)), &None));
    assert!(!issuer_is_trusted(&base, &url("https", Some("b"), Some(443)), &None));
    assert!(!issuer_is_trusted(&base, &url("http", Some("a"), Some(443)), &None));
    assert!(!issuer_is_trusted(&base, &None, &None));
    assert!(!issuer_is_trusted(&None, &base, &None));
    assert!(!issuer_is_trusted(&url("x", None, None), &url("x", None, None), &None));
    assert!(issuer_is_trusted(&base, &url("https", Some("b"), Some(1)), &text("b")));
    assert!(!issuer_is_trusted(&base, &url("https", Some("a"), Some(443)), &text("b")));
    assert!(!issuer_is_trusted(&base, &url("https", None, None), &text("b")));
}

#[test]
fn token_is_asked_for_by_service_and_scope() {
    let challenge = BearerChallenge {
        realm: "https://ghcr.io/token".to_string(),
        service: text("ghcr.io"),
        scope: text("repository:x:pull"),
    };
    let request = token_request(&challenge, None);
    assert_eq!(request.url, "https://ghcr.io/token");
    assert_eq!(
        request.query,
        vec![
            ("service".to_string(), "ghcr.io".to_string()),
            ("scope".to_string(), "repository:x:pull".to_string()),
        ]
    );
    let bare = BearerChallenge { realm: "r".to_string(), service: None, scope: None };
    let credentials =
        UpstreamCredentials { username: "u".to_string(), password: "p".to_string() };
    let request = token_request(&bare, Some(&credentials));
    assert!(request.query.is_empty());
    assert_eq!(request.credentials, Some(credentials));
}

#[test]
fn token_is_asked_for_only_at_trusted_places() {
    let upstream = Upstream::new("ghcr.io", "https://ghcr.io");
    let challenge = |realm: &str| BearerChallenge {
        realm: realm.to_string(),
        service: None,
        scope: None,
    };
    let request = fetch_bearer_token(&upstream, &challenge("https://ghcr.io/token"), None);
    assert_eq!(request.unwrap().url, "https://ghcr.io/token");
    assert!(fetch_bearer_token(&upstream, &challenge("https://evil.example"), None).is_none());
}

#[test]
fn token_is_read_from_either_field() {
    let body = |token: Option<&str>, access: Option<&str>| {
        Some(TokenResponse {
            token: token.map(|t| t.to_string()),
            access_token: access.map(|t| t.to_string()),
        })
    };
    assert_eq!(token_in_reply(200, body(Some("t"), Some("a"))), text("t"));
    assert_eq!(token_in_reply(299, body(None, Some("a"))), text("a"));
    assert_eq!(token_in_reply(200, body(None, None)), None);
    assert_eq!(token_in_reply(200, None), None);
    assert_eq!(token_in_reply(401, body(Some("t"), None)), None);
    assert_eq!(token_in_reply(300, body(Some("t"), None)), None);
    assert!(is_success(200) && is_success(299) && !is_success(199) && !is_success(300));
}
