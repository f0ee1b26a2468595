//! Bearer tokens for upstream registries.
//!
//! An upstream that wants a token names the place that issues it. Taking that name on trust would
//! let a hostile upstream, or someone who poses as one, send this server's requests to any host,
//! so the place is checked against the configuration before anything is sent there.
use vstd::prelude::*;

use crate::routing::config::{Upstream, UpstreamCredentials};
use crate::text;

verus! {

/// What an upstream asks for in a `WWW-Authenticate: Bearer` header.
#[derive(Debug)]
pub struct BearerChallenge {
    pub realm: String,
    pub service: Option<String>,
    pub scope: Option<String>,
}

/// The characters of a challenge.
pub struct ChallengeView {
    pub realm: Seq<char>,
    pub service: Option<Seq<char>>,
    pub scope: Option<Seq<char>>,
}

impl View for BearerChallenge {
    type V = ChallengeView;

    open spec fn view(&self) -> ChallengeView {
        ChallengeView {
            realm: self.realm@,
            service: text::opt_text(self.service),
            scope: text::opt_text(self.scope),
        }
    }
}

// ---------------------------------------------------------------------------
// Challenges
// ---------------------------------------------------------------------------

/// The name and the value of `name = "value"`: white space around either is dropped, and then
/// quotes around the value. Without `=` it is no parameter.
pub open spec fn parameter(part: Seq<char>) -> Option<(Seq<char>, Seq<char>)> {
    match text::cut_first(part, '=') {
        Some((name, value)) => Some(
            (
                text::trim_both(name, text::white()),
                text::trim_both(text::trim_both(value, text::white()), text::only('"')),
            ),
        ),
        None => None,
    }
}

/// The value of the last of `parts` that is called `name`.
pub open spec fn value_of(parts: Seq<Seq<char>>, name: Seq<char>) -> Option<Seq<char>>
    decreases parts.len(),
{
    if parts.len() == 0 {
        None
    } else {
        match parameter(parts.last()) {
            Some((found, value)) if found == name => Some(value),
            _ => value_of(parts.drop_last(), name),
        }
    }
}

/// The challenge in a header: `Bearer `, then parameters separated by commas, among them a realm.
pub open spec fn challenge_in(header: Seq<char>) -> Option<ChallengeView> {
    if !"Bearer "@.is_prefix_of(header) {
        None
    } else {
        let parts = text::pieces(header.skip("Bearer "@.len() as int), ',');
        if exists|i: int| 0 <= i < parts.len() && parameter(#[trigger] parts[i]) is None {
            None
        } else {
            match value_of(parts, "realm"@) {
                Some(realm) => Some(
                    ChallengeView {
                        realm,
                        service: value_of(parts, "service"@),
                        scope: value_of(parts, "scope"@),
                    },
                ),
                None => None,
            }
        }
    }
}

/// Reads `WWW-Authenticate: Bearer realm="...",service="...",scope="..."`.
pub fn parse_bearer_challenge(header_value: &str) -> (challenge: Option<BearerChallenge>)
    ensures
        match challenge {
            Some(challenge) => challenge_in(header_value@) == Some(challenge@),
            None => challenge_in(header_value@) is None,
        },
{
    let rest = match text::strip_prefix(header_value, "Bearer ") {
        Some(rest) => rest,
        None => {
            return None;
        },
    };
    assert(header_value@.skip("Bearer "@.len() as int) == rest@);
    assert(header_value@.subrange(0, "Bearer "@.len() as int) == "Bearer "@);
    let parts = text::split(rest, ',');
    let ghost all = text::pieces(rest@, ',');
    let mut realm: Option<String> = None;
    let mut service: Option<String> = None;
    let mut scope: Option<String> = None;
    let mut i: usize = 0;
    while i < parts.len()
        invariant
            "Bearer "@.is_prefix_of(header_value@),
            header_value@.skip("Bearer "@.len() as int) == rest@,
            all == text::pieces(rest@, ','),
            parts@.map_values(|part: &str| part@) == all,
            i <= parts.len(),
            forall|j: int| 0 <= j < i ==> parameter(#[trigger] all[j]) is Some,
            text::opt_text(realm) == value_of(all.take(i as int), "realm"@),
            text::opt_text(service) == value_of(all.take(i as int), "service"@),
            text::opt_text(scope) == value_of(all.take(i as int), "scope"@),
        decreases parts.len() - i,
    {
        let part = parts[i];
        assert(all[i as int] == part@);
        assert(all.take(i + 1).drop_last() == all.take(i as int));
        assert(all.take(i + 1).last() == part@);
        let (name, value) = match text::split_once(part, '=') {
            Some((name, value)) => (text::trim(name), text::trim_matches(text::trim(value), '"')),
            None => {
                assert(parameter(all[i as int]) is None);
                return None;
            },
        };
        assert(parameter(part@) == Some((name@, value@)));
        proof {
            reveal_strlit("realm");
            reveal_strlit("service");
            reveal_strlit("scope");
            assert("realm"@[0] == 'r' && "scope"@[0] == 's');
            assert("realm"@.len() != "service"@.len() && "scope"@.len() != "service"@.len());
        }
        if text::same_text(name, "realm") {
            realm = Some(value.to_owned());
        } else if text::same_text(name, "service") {
            service = Some(value.to_owned());
        } else if text::same_text(name, "scope") {
            scope = Some(value.to_owned());
        }
        i += 1;
    }
    assert(all.take(i as int) == all);
    match realm {
        Some(realm) => Some(BearerChallenge { realm, service, scope }),
        None => None,
    }
}

/// What matters of an upstream's response: the status, and the `WWW-Authenticate` header if it is
/// there and is text.
#[derive(Debug)]
pub struct UpstreamReply {
    pub status: u16,
    pub www_authenticate: Option<String>,
}

/// The challenge that comes with a reply.
pub open spec fn challenge_of(reply: UpstreamReply) -> Option<ChallengeView> {
    match reply.www_authenticate {
        Some(header) => challenge_in(header@),
        None => None,
    }
}

/// The challenge that comes with a reply.
pub fn challenge_in_reply(reply: &UpstreamReply) -> (challenge: Option<BearerChallenge>)
    ensures
        match challenge {
            Some(challenge) => challenge_of(*reply) == Some(challenge@),
            None => challenge_of(*reply) is None,
        },
{
    match &reply.www_authenticate {
        Some(header) => parse_bearer_challenge(header.as_str()),
        None => None,
    }
}

// ---------------------------------------------------------------------------
// Trust
// ---------------------------------------------------------------------------

/// What trust in an issuer depends on, of a URL.
#[derive(Debug, PartialEq, Eq)]
pub struct UrlParts {
    pub scheme: String,
    pub host: Option<String>,
    /// The port, or the one that the scheme stands for.
    pub port: Option<u16>,
}

/// The parts of a URL, with their characters.
pub struct UrlView {
    pub scheme: Seq<char>,
    pub host: Option<Seq<char>>,
    pub port: Option<u16>,
}

impl View for UrlParts {
    type V = UrlView;

    open spec fn view(&self) -> UrlView {
        UrlView { scheme: self.scheme@, host: text::opt_text(self.host), port: self.port }
    }
}

/// The parts of an optional URL.
pub open spec fn opt_url(url: Option<UrlParts>) -> Option<UrlView> {
    match url {
        Some(url) => Some(url@),
        None => None,
    }
}

/// What `reqwest::Url::parse` reads from a text: nothing if the text is no URL, else what
/// `scheme`, `host_str` and `port_or_known_default` return of the URL.
pub uninterp spec fn url_in(text: Seq<char>) -> Option<UrlView>;

/// Calls `reqwest::Url::parse` and takes the scheme, the host and the port of the result. The
/// result depends on the text alone; which texts are URLs is not stated.
#[verifier::external_body]
fn parse_url(text: &str) -> (url: Option<UrlParts>)
    ensures
        opt_url(url) == url_in(text@),
{
    let url = reqwest::Url::parse(text).ok()?;
    Some(
        UrlParts {
            scheme: url.scheme().to_string(),
            host: url.host_str().map(|host| host.to_string()),
            port: url.port_or_known_default(),
        },
    )
}

/// Whether tokens for the registry at `base` may come from `realm`. Both have the same scheme. If
/// a host is configured for tokens, it is that host, on any port; else it is the registry's own
/// host, on the registry's own port, since another service may listen on another port.
pub open spec fn may_issue(
    base: Option<UrlView>,
    realm: Option<UrlView>,
    token_host: Option<Seq<char>>,
) -> bool {
    &&& base is Some
    &&& realm is Some
    &&& realm->0.scheme == base->0.scheme
    &&& match token_host {
        Some(host) => realm->0.host == Some(host),
        None => realm->0.host is Some && realm->0.host == base->0.host && realm->0.port
            == base->0.port,
    }
}

/// `realm` is a place from which tokens for `upstream` may come.
pub open spec fn trusts(upstream: Upstream, realm: Seq<char>) -> bool {
    may_issue(url_in(upstream.base_url@), url_in(realm), text::opt_text(upstream.token_host))
}

/// Whether two optional strings hold the same characters, or neither is there.
fn same_option(a: &Option<String>, b: &Option<String>) -> (same: bool)
    ensures
        same == (text::opt_text(*a) == text::opt_text(*b)),
{
    match (a, b) {
        (Some(a), Some(b)) => *a == *b,
        (None, None) => true,
        _ => false,
    }
}

/// Whether two optional ports are the same.
fn same_port(a: Option<u16>, b: Option<u16>) -> (same: bool)
    ensures
        same == (a == b),
{
    match (a, b) {
        (Some(a), Some(b)) => a == b,
        (None, None) => true,
        _ => false,
    }
}

/// Decides whether tokens for the registry at `base` may come from `realm`.
pub fn issuer_is_trusted(
    base: &Option<UrlParts>,
    realm: &Option<UrlParts>,
    token_host: &Option<String>,
) -> (trusted: bool)
    ensures
        trusted == may_issue(opt_url(*base), opt_url(*realm), text::opt_text(*token_host)),
{
    match (base, realm) {
        (Some(base), Some(realm)) => {
            if realm.scheme != base.scheme {
                return false;
            }
            match token_host {
                Some(_) => same_option(&realm.host, token_host),
                None => realm.host.is_some() && same_option(&realm.host, &base.host) && same_port(
                    realm.port,
                    base.port,
                ),
            }
        },
        _ => false,
    }
}

/// Decides whether `realm` is a place from which tokens for `upstream` may come.
pub fn realm_is_trusted(upstream: &Upstream, realm: &str) -> (trusted: bool)
    ensures
        trusted == trusts(*upstream, realm@),
{
    let base = parse_url(upstream.base_url.as_str());
    let realm = parse_url(realm);
    issuer_is_trusted(&base, &realm, &upstream.token_host)
}

// ---------------------------------------------------------------------------
// Tokens
// ---------------------------------------------------------------------------

/// A request for a token.
#[derive(Debug)]
pub struct TokenRequest {
    pub url: String,
    /// The names and values of the query, in order.
    pub query: Vec<(String, String)>,
    /// With credentials, the request carries them as basic authentication.
    pub credentials: Option<UpstreamCredentials>,
}

/// The characters of a query.
pub open spec fn query_text(query: Seq<(String, String)>) -> Seq<(Seq<char>, Seq<char>)> {
    query.map_values(|pair: (String, String)| (pair.0@, pair.1@))
}

/// One pair of a query, or none.
pub open spec fn query_pair(name: Seq<char>, value: Option<Seq<char>>) -> Seq<
    (Seq<char>, Seq<char>),
> {
    match value {
        Some(value) => seq![(name, value)],
        None => Seq::empty(),
    }
}

/// The query that asks for the token of a challenge.
pub open spec fn query_for(challenge: ChallengeView) -> Seq<(Seq<char>, Seq<char>)> {
    query_pair("service"@, challenge.service) + query_pair("scope"@, challenge.scope)
}

/// Optional credentials, by value.
pub open spec fn opt_credentials(given: Option<&UpstreamCredentials>) -> Option<
    UpstreamCredentials,
> {
    match given {
        Some(given) => Some(*given),
        None => None,
    }
}

impl TokenRequest {
    /// This is the request for the token of `challenge`, made with `credentials`.
    pub open spec fn asks_for(
        &self,
        challenge: ChallengeView,
        credentials: Option<UpstreamCredentials>,
    ) -> bool {
        &&& self.url@ == challenge.realm
        &&& query_text(self.query@) == query_for(challenge)
        &&& self.credentials == credentials
    }
}

/// The request by which to fetch the token that `challenge` asks for.
pub fn token_request(
    challenge: &BearerChallenge,
    credentials: Option<&UpstreamCredentials>,
) -> (request: TokenRequest)
    ensures
        request.asks_for(challenge@, opt_credentials(credentials)),
{
    let mut query: Vec<(String, String)> = Vec::new();
    assert(query_text(query@) == Seq::<(Seq<char>, Seq<char>)>::empty());
    if let Some(service) = &challenge.service {
        query.push(("service".to_owned(), service.clone()));
    }
    assert(query_text(query@) == query_pair("service"@, text::opt_text(challenge.service)));
    let ghost first = query@;
    if let Some(scope) = &challenge.scope {
        query.push(("scope".to_owned(), scope.clone()));
    }
    assert(query_text(query@) == query_text(first) + query_pair(
        "scope"@,
        text::opt_text(challenge.scope),
    ));
    let credentials = match credentials {
        Some(given) => Some(given.clone()),
        None => None,
    };
    TokenRequest { url: challenge.realm.clone(), query, credentials }
}

/// The request by which to fetch the token that `challenge` asks for. Where the realm is not to
/// be trusted, nothing is to be requested.
pub fn fetch_bearer_token(
    upstream: &Upstream,
    challenge: &BearerChallenge,
    credentials: Option<&UpstreamCredentials>,
) -> (request: Option<TokenRequest>)
    ensures
        match request {
            Some(request) => trusts(*upstream, challenge.realm@) && request.asks_for(
                challenge@,
                opt_credentials(credentials),
            ),
            None => !trusts(*upstream, challenge.realm@),
        },
{
    if realm_is_trusted(upstream, challenge.realm.as_str()) {
        Some(token_request(challenge, credentials))
    } else {
        None
    }
}

/// Whether an HTTP status reports success.
pub open spec fn success(status: u16) -> bool {
    200 <= status < 300
}

/// Whether an HTTP status reports success.
pub fn is_success(status: u16) -> (yes: bool)
    ensures
        yes == success(status),
{
    200 <= status && status < 300
}

/// The body of a token response.
#[derive(Debug)]
pub struct TokenResponse {
    pub token: Option<String>,
    pub access_token: Option<String>,
}

/// The token in the reply to a token request: `token`, or else `access_token`, of a successful
/// response whose body could be read.
pub fn token_in_reply(status: u16, body: Option<TokenResponse>) -> (token: Option<String>)
    ensures
        token == (match body {
            Some(body) if success(status) => if body.token is Some {
                body.token
            } else {
                body.access_token
            },
            _ => None,
        }),
{
    if !is_success(status) {
        return None;
    }
    match body {
        Some(body) => match body.token {
            Some(token) => Some(token),
            None => body.access_token,
        },
        None => None,
    }
}

// ---------------------------------------------------------------------------
// Laws
// ---------------------------------------------------------------------------

/// A parameter of a challenge as upstreams write it: `name="value"`.
pub open spec fn written(name: Seq<char>, value: Seq<char>) -> Seq<char> {
    name + seq!['=', '"'] + value + seq!['"']
}

/// The header that holds these parameters.
pub open spec fn header_with(parameters: Seq<(Seq<char>, Seq<char>)>) -> Seq<char> {
    "Bearer "@ + text::joined(
        parameters.map_values(|p: (Seq<char>, Seq<char>)| written(p.0, p.1)),
        ',',
    )
}

/// The value of the last of `parameters` that is called `name`.
pub open spec fn last_value(
    parameters: Seq<(Seq<char>, Seq<char>)>,
    name: Seq<char>,
) -> Option<Seq<char>>
    decreases parameters.len(),
{
    if parameters.len() == 0 {
        None
    } else if parameters.last().0 == name {
        Some(parameters.last().1)
    } else {
        last_value(parameters.drop_last(), name)
    }
}

/// A parameter that can be told apart from its surroundings: neither part holds a comma, the name
/// holds no `=` and no white space at its ends, and the value has no quotes at its ends.
pub open spec fn is_plain(name: Seq<char>, value: Seq<char>) -> bool {
    &&& !name.contains(',') && !name.contains('=') && !value.contains(',')
    &&& name.len() > 0 ==> !text::is_white_space(name.first()) && !text::is_white_space(name.last())
    &&& value.len() > 0 ==> value.first() != '"' && value.last() != '"'
}

/// A parameter as it is written is read back.
proof fn lemma_written_is_read_back(name: Seq<char>, value: Seq<char>)
    requires
        is_plain(name, value),
    ensures
        parameter(written(name, value)) == Some((name, value)),
        !written(name, value).contains(','),
{
    let quoted = seq!['"'] + value + seq!['"'];
    let part = written(name, value);
    assert(part == name.push('=') + quoted);
    text::lemma_cut_first_unique(name, '=', quoted);
    assert(text::trim_both(name, text::white()) == name);
    assert(quoted.first() == '"' && quoted.last() == '"');
    assert(text::trim_both(quoted, text::white()) == quoted);
    assert(text::trim_both(quoted, text::only('"')) == value) by {
        reveal_with_fuel(text::trim_front, 3);
        reveal_with_fuel(text::trim_back, 3);
        let rest = value.push('"');
        assert(quoted.skip(1) == rest);
        if value.len() == 0 {
            assert(rest.skip(1) == value);
        } else {
            assert(rest.first() == value.first());
            assert(rest.drop_last() == value);
        }
    }
    assert forall|i: int| 0 <= i < part.len() implies part[i] != ',' by {
        if i < name.len() {
            assert(name.contains(name[i]));
        } else if name.len() + 2 <= i < name.len() + 2 + value.len() {
            assert(value.contains(value[i - name.len() - 2]));
        }
    }
}

/// The value that is read for a name is the last one that was written for it.
proof fn lemma_values_are_read_back(parameters: Seq<(Seq<char>, Seq<char>)>, name: Seq<char>)
    requires
        forall|i: int|
            0 <= i < parameters.len() ==> is_plain(
                (#[trigger] parameters[i]).0,
                parameters[i].1,
            ),
    ensures
        value_of(
            parameters.map_values(|p: (Seq<char>, Seq<char>)| written(p.0, p.1)),
            name,
        ) == last_value(parameters, name),
    decreases parameters.len(),
{
    if parameters.len() > 0 {
        let f = |p: (Seq<char>, Seq<char>)| written(p.0, p.1);
        let parts = parameters.map_values(f);
        let (last_name, last) = parameters[parameters.len() - 1];
        assert(parts.last() == written(last_name, last));
        lemma_written_is_read_back(last_name, last);
        assert(parts.drop_last() == parameters.drop_last().map_values(f));
        lemma_values_are_read_back(parameters.drop_last(), name);
    }
}

/// A challenge is read from its parameters as upstreams write them, in any order and among any
/// others; of several with one name the last one counts.
pub proof fn law_written_challenge_is_read_back(parameters: Seq<(Seq<char>, Seq<char>)>)
    requires
        parameters.len() > 0,
        forall|i: int|
            0 <= i < parameters.len() ==> is_plain(
                (#[trigger] parameters[i]).0,
                parameters[i].1,
            ),
    ensures
        challenge_in(header_with(parameters)) == (match last_value(parameters, "realm"@) {
            Some(realm) => Some(
                ChallengeView {
                    realm,
                    service: last_value(parameters, "service"@),
                    scope: last_value(parameters, "scope"@),
                },
            ),
            None => None,
        }),
{
    let parts = parameters.map_values(|p: (Seq<char>, Seq<char>)| written(p.0, p.1));
    let header = header_with(parameters);
    let rest = text::joined(parts, ',');
    assert(header.subrange(0, "Bearer "@.len() as int) == "Bearer "@);
    assert(header.skip("Bearer "@.len() as int) == rest);
    assert forall|i: int| 0 <= i < parts.len() implies !(#[trigger] parts[i]).contains(',')
        && parameter(parts[i]) is Some by {
        lemma_written_is_read_back(parameters[i].0, parameters[i].1);
    }
    text::lemma_pieces_of_joined(parts, ',');
    lemma_values_are_read_back(parameters, "realm"@);
    lemma_values_are_read_back(parameters, "service"@);
    lemma_values_are_read_back(parameters, "scope"@);
}

/// A parameter as anyone may write it: white space around the name and around the value, and any
/// number of quotes around the value.
pub struct Spelling {
    pub before: Seq<char>,
    pub name: Seq<char>,
    pub between: Seq<char>,
    pub after: Seq<char>,
    pub open: Seq<char>,
    pub value: Seq<char>,
    pub close: Seq<char>,
    pub end: Seq<char>,
}

/// There is nothing but white space in `s`.
pub open spec fn is_blank(s: Seq<char>) -> bool {
    forall|i: int| 0 <= i < s.len() ==> text::is_white_space(#[trigger] s[i])
}

/// There is nothing but quotes in `s`.
pub open spec fn is_quotes(s: Seq<char>) -> bool {
    forall|i: int| 0 <= i < s.len() ==> #[trigger] s[i] == '"'
}

impl Spelling {
    /// The characters that are written.
    pub open spec fn written(self) -> Seq<char> {
        self.before + self.name + self.between + seq!['='] + self.after + self.open + self.value
            + self.close + self.end
    }

    /// What is name and what is value can be told from what is around them.
    pub open spec fn is_clear(self) -> bool {
        &&& is_blank(self.before) && is_blank(self.between)
        &&& is_blank(self.after) && is_blank(self.end)
        &&& is_quotes(self.open) && is_quotes(self.close)
        &&& !self.name.contains('=')
        &&& self.name.len() > 0 ==> !text::is_white_space(self.name[0]) && !text::is_white_space(
            self.name[self.name.len() - 1],
        )
        &&& self.value.len() > 0 ==> {
            &&& self.value[0] != '"' && self.value[self.value.len() - 1] != '"'
            &&& self.open.len() == 0 ==> !text::is_white_space(self.value[0])
            &&& self.close.len() == 0 ==> !text::is_white_space(self.value[self.value.len() - 1])
        }
    }
}

/// A parameter is read as its name and its value, however it is written.
proof fn lemma_parameter_is_read(spelling: Spelling)
    requires
        spelling.is_clear(),
    ensures
        parameter(spelling.written()) == Some((spelling.name, spelling.value)),
{
    let Spelling { before, name, between, after, open, value, close, end } = spelling;
    let head = before + name + between;
    let quoted = open + value + close;
    let tail = after + quoted + end;
    assert(spelling.written() == head.push('=') + tail);
    assert forall|i: int| 0 <= i < head.len() implies head[i] != '=' by {
        if i < before.len() {
            assert(text::is_white_space(before[i]));
        } else if i < before.len() + name.len() {
            assert(name.contains(name[i - before.len()]));
        } else {
            assert(text::is_white_space(between[i - before.len() - name.len()]));
        }
    }
    text::lemma_cut_first_unique(head, '=', tail);
    text::law_trim_both_of(before, name, between, text::white());
    assert(quoted.len() > 0 ==> !text::is_white_space(quoted[0]) && !text::is_white_space(
        quoted[quoted.len() - 1],
    )) by {
        if quoted.len() > 0 {
            if open.len() > 0 {
                assert(quoted[0] == open[0]);
            } else if value.len() > 0 {
                assert(quoted[0] == value[0]);
            } else {
                assert(quoted[0] == close[0]);
            }
            let last = quoted.len() - 1;
            if close.len() > 0 {
                assert(quoted[last] == close[close.len() - 1]);
            } else if value.len() > 0 {
                assert(quoted[last] == value[value.len() - 1]);
            } else {
                assert(quoted[last] == open[open.len() - 1]);
            }
        }
    }
    text::law_trim_both_of(after, quoted, end, text::white());
    text::law_trim_both_of(open, value, close, text::only('"'));
}

/// Everything that holds `=` is a parameter that someone may have written.
pub proof fn law_every_parameter_is_spelled(part: Seq<char>)
    requires
        part.contains('='),
    ensures
        exists|spelling: Spelling| #[trigger]
            spelling.is_clear() && spelling.written() == part,
{
    text::lemma_cut_first(part, '=');
    let (head, tail) = text::cut_first(part, '=')->0;
    let name = text::trim_both(head, text::white());
    let quoted = text::trim_both(tail, text::white());
    let value = text::trim_both(quoted, text::only('"'));
    let (before, between) = text::lemma_trimmings(head, text::white());
    let (after, end) = text::lemma_trimmings(tail, text::white());
    let (open, close) = text::lemma_trimmings(quoted, text::only('"'));
    let spelling = Spelling { before, name, between, after, open, value, close, end };
    assert(spelling.is_clear()) by {
        lemma_white(before);
        lemma_white(between);
        lemma_white(after);
        lemma_white(end);
        assert(is_quotes(open) && is_quotes(close));
        assert forall|i: int| 0 <= i < name.len() implies name[i] != '=' by {
            assert(head[i + before.len()] == name[i]);
            assert(head.contains(head[i + before.len()]));
        }
        if value.len() > 0 {
            if open.len() == 0 {
                assert(value[0] == quoted[0]);
            }
            if close.len() == 0 {
                assert(value[value.len() - 1] == quoted[quoted.len() - 1]);
            }
        }
    }
    assert(spelling.written() == head.push('=') + tail);
}

/// What satisfies the predicate of white space is blank.
proof fn lemma_white(s: Seq<char>)
    requires
        forall|i: int| 0 <= i < s.len() ==> text::white()(#[trigger] s[i]),
    ensures
        is_blank(s),
{
}

/// The names and values of parameters, however they are written.
pub open spec fn meant(spellings: Seq<Spelling>) -> Seq<(Seq<char>, Seq<char>)> {
    spellings.map_values(|spelling: Spelling| (spelling.name, spelling.value))
}

/// The value that is read for a name is the last one that was written for it.
proof fn lemma_spelled_values_are_read(spellings: Seq<Spelling>, name: Seq<char>)
    requires
        forall|i: int| 0 <= i < spellings.len() ==> (#[trigger] spellings[i]).is_clear(),
    ensures
        value_of(spellings.map_values(|spelling: Spelling| spelling.written()), name)
            == last_value(meant(spellings), name),
    decreases spellings.len(),
{
    if spellings.len() > 0 {
        let f = |spelling: Spelling| spelling.written();
        let last = spellings[spellings.len() - 1];
        assert(last.is_clear());
        lemma_parameter_is_read(last);
        assert(spellings.map_values(f).drop_last() == spellings.drop_last().map_values(f));
        assert(meant(spellings).drop_last() == meant(spellings.drop_last()));
        assert(spellings.map_values(f).last() == last.written());
        lemma_spelled_values_are_read(spellings.drop_last(), name);
    }
}

/// A challenge is read from its parameters however they are written, in any order and among any
/// others; of several with one name the last one counts. There is a challenge exactly if there is a
/// realm.
pub proof fn law_challenge_is_read_however_it_is_written(spellings: Seq<Spelling>)
    requires
        spellings.len() > 0,
        forall|i: int|
            0 <= i < spellings.len() ==> (#[trigger] spellings[i]).is_clear()
                && !spellings[i].written().contains(','),
    ensures
        ({
            let parts = spellings.map_values(|spelling: Spelling| spelling.written());
            let values = meant(spellings);
            challenge_in("Bearer "@ + text::joined(parts, ',')) == (match last_value(
                values,
                "realm"@,
            ) {
                Some(realm) => Some(
                    ChallengeView {
                        realm,
                        service: last_value(values, "service"@),
                        scope: last_value(values, "scope"@),
                    },
                ),
                None => None,
            })
        }),
{
    let parts = spellings.map_values(|spelling: Spelling| spelling.written());
    let rest = text::joined(parts, ',');
    let header = "Bearer "@ + rest;
    assert(header.subrange(0, "Bearer "@.len() as int) == "Bearer "@);
    assert(header.skip("Bearer "@.len() as int) == rest);
    assert forall|i: int| 0 <= i < parts.len() implies !(#[trigger] parts[i]).contains(',')
        && parameter(parts[i]) is Some by {
        assert(spellings[i].is_clear());
        lemma_parameter_is_read(spellings[i]);
    }
    text::lemma_pieces_of_joined(parts, ',');
    lemma_spelled_values_are_read(spellings, "realm"@);
    lemma_spelled_values_are_read(spellings, "service"@);
    lemma_spelled_values_are_read(spellings, "scope"@);
}

/// A header that does not begin with `Bearer ` is no challenge, nor is one with a part, between
/// commas, that holds no `=`.
pub proof fn law_other_headers_are_no_challenge(header: Seq<char>, parts: Seq<Seq<char>>, k: int)
    requires
        0 <= k < parts.len(),
        forall|i: int| 0 <= i < parts.len() ==> !(#[trigger] parts[i]).contains(','),
        !parts[k].contains('='),
    ensures
        !"Bearer "@.is_prefix_of(header) ==> challenge_in(header) is None,
        challenge_in("Bearer "@ + text::joined(parts, ',')) is None,
{
    let rest = text::joined(parts, ',');
    let whole = "Bearer "@ + rest;
    assert(whole.subrange(0, "Bearer "@.len() as int) == "Bearer "@);
    assert(whole.skip("Bearer "@.len() as int) == rest);
    text::lemma_pieces_of_joined(parts, ',');
    text::lemma_cut_first(parts[k], '=');
    if let Some((head, tail)) = text::cut_first(parts[k], '=') {
        assert(parts[k][head.len() as int] == '=');
    }
    assert(parameter(parts[k]) is None);
}

/// The challenge of a reply is the one in its header, whatever its status.
pub proof fn law_challenge_of_a_reply(status: u16, header: String, challenge: BearerChallenge)
    ensures
        challenge_of(UpstreamReply { status, www_authenticate: Some(header) }) == challenge_in(
            header@,
        ),
        challenge_of(UpstreamReply { status, www_authenticate: None }) is None,
        challenge@.realm == challenge.realm@,
        challenge@.service is Some <==> challenge.service is Some,
        challenge.service is Some ==> challenge@.service->0 == challenge.service->0@,
        challenge@.scope is Some <==> challenge.scope is Some,
        challenge.scope is Some ==> challenge@.scope->0 == challenge.scope->0@,
{
}

/// Tokens may come from a place exactly if it has the scheme of the registry and, where a host is
/// configured for tokens, that host, else the host and the port of the registry. A place that
/// cannot be read, or a registry that cannot, is never trusted.
pub proof fn law_who_may_issue_tokens(
    base: UrlParts,
    realm: UrlParts,
    host: String,
    token_host: Option<Seq<char>>,
    other: Option<UrlView>,
)
    ensures
        opt_url(Some(base)) == Some(base@),
        opt_url(None) is None,
        may_issue(opt_url(Some(base)), opt_url(Some(realm)), Some(host@)) <==> {
            &&& realm.scheme@ == base.scheme@
            &&& realm.host is Some
            &&& realm.host->0@ == host@
        },
        may_issue(opt_url(Some(base)), opt_url(Some(realm)), None) <==> {
            &&& realm.scheme@ == base.scheme@
            &&& realm.host is Some
            &&& base.host is Some
            &&& realm.host->0@ == base.host->0@
            &&& realm.port == base.port
        },
        !may_issue(None, other, token_host),
        !may_issue(other, None, token_host),
{
}

/// Trust in a place depends on the registry's URL, the place and the configured host alone.
pub proof fn law_trust_depends_on_urls(upstream: Upstream, realm: Seq<char>)
    ensures
        trusts(upstream, realm) <==> {
            let base = url_in(upstream.base_url@);
            let place = url_in(realm);
            &&& base is Some
            &&& place is Some
            &&& place->0.scheme == base->0.scheme
            &&& place->0.host is Some
            &&& upstream.token_host is Some ==> place->0.host->0 == upstream.token_host->0@
            &&& upstream.token_host is None ==> {
                &&& base->0.host is Some
                &&& place->0.host->0 == base->0.host->0
                &&& place->0.port == base->0.port
            }
        },
{
}

/// A request for a token goes to the realm, and names the service and the scope of the challenge,
/// in this order and as far as there are any, and nothing else. It carries the credentials that it
/// is made with.
pub proof fn law_token_request(
    request: TokenRequest,
    challenge: ChallengeView,
    credentials: Option<UpstreamCredentials>,
)
    requires
        request.asks_for(challenge, credentials),
    ensures
        request.url@ == challenge.realm,
        request.credentials == credentials,
        ({
            let query = request.query@;
            let both: int = if challenge.service is Some && challenge.scope is Some {
                1
            } else {
                0
            };
            &&& query.len() == (if challenge.service is Some {
                1int
            } else {
                0
            }) + (if challenge.scope is Some {
                1int
            } else {
                0
            })
            &&& challenge.service is Some ==> query[0].0@ == "service"@ && query[0].1@
                == challenge.service->0
            &&& challenge.scope is Some ==> query[both].0@ == "scope"@ && query[both].1@
                == challenge.scope->0
        }),
{
    let query = request.query@;
    let shown = query_for(challenge);
    assert(query_text(query) == shown);
    assert(query.len() == shown.len());
    assert(forall|i: int|
        0 <= i < query.len() ==> #[trigger] shown[i] == (query[i].0@, query[i].1@));
    let both: int = if challenge.service is Some && challenge.scope is Some {
        1
    } else {
        0
    };
    if challenge.service is Some {
        assert(shown[0] == ("service"@, challenge.service->0));
    }
    if challenge.scope is Some {
        assert(shown[both] == ("scope"@, challenge.scope->0));
    }
}

/// A request for what a challenge asks for is determined by it.
pub proof fn law_token_request_is_the_only_one(
    request: TokenRequest,
    other: TokenRequest,
    challenge: ChallengeView,
    credentials: Option<UpstreamCredentials>,
    given: UpstreamCredentials,
)
    requires
        request.asks_for(challenge, credentials),
    ensures
        other.asks_for(challenge, credentials) <==> {
            &&& other.url@ == request.url@
            &&& other.credentials == request.credentials
            &&& query_text(other.query@) == query_text(request.query@)
        },
        opt_credentials(Some(&given)) == Some(given),
        opt_credentials(None) is None,
{
}

/// The statuses that report success are those of the two hundreds.
pub proof fn law_success(status: u16)
    ensures
        success(status) <==> status / 100 == 2,
{
}

} // verus!
