use vstd::prelude::*;
use vstd::string::*;

use crate::registry_auth;
use crate::registry_auth::{TokenRequest, UpstreamReply};
use crate::routing::config::Upstream;

verus! {

/// What an upstream says about a repository.
#[derive(Debug, Clone, Copy, PartialEq, Eq, Structural)]
pub enum ProbeOutcome {
    Found,
    NotFound,
    /// Neither was said: no connection, no answer in time, or an answer that says neither.
    Unreachable,
}

/// What an HTTP status says about a repository.
pub open spec fn outcome_for(status: u16) -> ProbeOutcome {
    if status == 200 {
        ProbeOutcome::Found
    } else if status == 404 {
        ProbeOutcome::NotFound
    } else {
        ProbeOutcome::Unreachable
    }
}

/// What an HTTP status says about a repository.
pub fn outcome_from_status(status: u16) -> (outcome: ProbeOutcome)
    ensures
        outcome == outcome_for(status),
{
    if status == 200 {
        ProbeOutcome::Found
    } else if status == 404 {
        ProbeOutcome::NotFound
    } else {
        ProbeOutcome::Unreachable
    }
}

/// Asking an upstream over HTTP whether it has a repository.
///
/// The list of tags is asked for, since it tells of a repository without naming a tag. An upstream
/// that wants a token first is asked a second time with one, and no more often: Docker Hub wants
/// one even for public content.
#[derive(Debug)]
pub struct HttpUpstreamProbe {
    /// Where the list of tags is.
    pub url: String,
}

/// What comes next in asking an upstream.
#[derive(Debug)]
pub enum ProbeStep {
    /// Fetch a token and ask again with it.
    FetchToken(TokenRequest),
    /// The upstream has answered.
    Done(ProbeOutcome),
}

/// What comes next once a token was asked for.
#[derive(Debug)]
pub enum RetryStep {
    /// Ask again, with this bearer token.
    AskWithToken(String),
    /// The upstream has answered.
    Done(ProbeOutcome),
}

impl HttpUpstreamProbe {
    /// Begins by asking for the list of tags.
    pub fn probe(upstream: &Upstream, repository: &str) -> (probe: Self)
        ensures
            probe.url@ == upstream.base_url@ + "/v2/"@ + repository@ + "/tags/list"@,
    {
        let mut url = upstream.base_url.clone();
        url.append("/v2/");
        url.append(repository);
        url.append("/tags/list");
        HttpUpstreamProbe { url }
    }

    /// Goes on with the upstream's reply; there is none if it could not be reached. Credentials
    /// play no part in finding out whether an upstream has a repository.
    pub fn on_reply(upstream: &Upstream, reply: Option<UpstreamReply>) -> (step: ProbeStep)
        ensures
            match reply {
                None => step == ProbeStep::Done(ProbeOutcome::Unreachable),
                Some(reply) => if reply.status != 401 {
                    step == ProbeStep::Done(outcome_for(reply.status))
                } else {
                    match registry_auth::challenge_of(reply) {
                        Some(challenge) if registry_auth::trusts(*upstream, challenge.realm) => {
                            step matches ProbeStep::FetchToken(request) && request.asks_for(
                                challenge,
                                None,
                            )
                        },
                        _ => step == ProbeStep::Done(ProbeOutcome::Unreachable),
                    }
                },
            },
    {
        let reply = match reply {
            Some(reply) => reply,
            None => {
                return ProbeStep::Done(ProbeOutcome::Unreachable);
            },
        };
        if reply.status != 401 {
            return ProbeStep::Done(outcome_from_status(reply.status));
        }
        match registry_auth::challenge_in_reply(&reply) {
            Some(challenge) => Self::probe_with_bearer_retry(
                registry_auth::fetch_bearer_token(upstream, &challenge, None),
            ),
            None => ProbeStep::Done(ProbeOutcome::Unreachable),
        }
    }

    /// Goes on with the request for a token, which is there only if its issuer is trusted.
    pub fn probe_with_bearer_retry(request: Option<TokenRequest>) -> (step: ProbeStep)
        ensures
            step == (match request {
                Some(request) => ProbeStep::FetchToken(request),
                None => ProbeStep::Done(ProbeOutcome::Unreachable),
            }),
    {
        match request {
            Some(request) => ProbeStep::FetchToken(request),
            None => ProbeStep::Done(ProbeOutcome::Unreachable),
        }
    }

    /// Goes on with the token, if one was issued.
    pub fn on_token(token: Option<String>) -> (step: RetryStep)
        ensures
            step == (match token {
                Some(token) => RetryStep::AskWithToken(token),
                None => RetryStep::Done(ProbeOutcome::Unreachable),
            }),
    {
        match token {
            Some(token) => RetryStep::AskWithToken(token),
            None => RetryStep::Done(ProbeOutcome::Unreachable),
        }
    }

    /// Ends with the status of the second reply; there is none if the upstream could not be
    /// reached.
    pub fn on_retry(status: Option<u16>) -> (outcome: ProbeOutcome)
        ensures
            outcome == (match status {
                Some(status) => outcome_for(status),
                None => ProbeOutcome::Unreachable,
            }),
    {
        match status {
            Some(status) => outcome_from_status(status),
            None => ProbeOutcome::Unreachable,
        }
    }
}

} // verus!
