use std::time::Duration;
use vstd::prelude::*;

use crate::clock;

verus! {

/// What an operator configured to identify itself to an upstream registry.
#[derive(Debug, PartialEq, Eq)]
pub struct UpstreamCredentials {
    pub username: String,
    pub password: String,
}

impl Clone for UpstreamCredentials {
    fn clone(&self) -> (copy: Self)
        ensures
            copy == *self,
    {
        UpstreamCredentials { username: self.username.clone(), password: self.password.clone() }
    }
}

/// One upstream registry.
///
/// `id` is what routing records and namespace hints (`?ns=`) name; `base_url` is where requests
/// go. The two differ because the namespace that containerd sends need not be the host that
/// serves it.
#[derive(Debug, PartialEq, Eq)]
pub struct Upstream {
    pub id: String,
    pub base_url: String,
    /// The host that may issue tokens for this upstream. Without one, only the host and port of
    /// `base_url` may.
    pub token_host: Option<String>,
    /// Used to relax the upstream's rate limit, never to reach private content.
    pub credentials: Option<UpstreamCredentials>,
}

impl Clone for Upstream {
    fn clone(&self) -> (copy: Self)
        ensures
            copy == *self,
    {
        Upstream {
            id: self.id.clone(),
            base_url: self.base_url.clone(),
            token_host: self.token_host.clone(),
            credentials: self.credentials.clone(),
        }
    }
}

impl Upstream {
    /// An upstream that trusts its own host for tokens and has no credentials.
    pub fn new(id: &str, base_url: &str) -> (upstream: Self)
        ensures
            upstream.id@ == id@,
            upstream.base_url@ == base_url@,
            upstream.token_host is None,
            upstream.credentials is None,
    {
        Upstream {
            id: id.to_owned(),
            base_url: base_url.to_owned(),
            token_host: None,
            credentials: None,
        }
    }

    /// The same upstream, with `token_host` as the host that may issue its tokens.
    pub fn with_token_host(self, token_host: &str) -> (upstream: Self)
        ensures
            upstream.token_host matches Some(host) && host@ == token_host@,
            upstream.id == self.id,
            upstream.base_url == self.base_url,
            upstream.credentials == self.credentials,
    {
        Upstream { token_host: Some(token_host.to_owned()), ..self }
    }

    /// The same upstream, with credentials.
    pub fn with_credentials(self, username: &str, password: &str) -> (upstream: Self)
        ensures
            upstream.credentials matches Some(given) && given.username@ == username@
                && given.password@ == password@,
            upstream.id == self.id,
            upstream.base_url == self.base_url,
            upstream.token_host == self.token_host,
    {
        let given = UpstreamCredentials {
            username: username.to_owned(),
            password: password.to_owned(),
        };
        Upstream { credentials: Some(given), ..self }
    }
}

/// The configuration of routing.
#[derive(Debug, PartialEq, Eq)]
pub struct RoutingConfig {
    /// The upstream registries, in the order in which they are asked.
    pub upstreams: Vec<Upstream>,
    /// How long one upstream may take to answer.
    pub probe_timeout: Duration,
}

/// `i` is the first place of `id` in `upstreams`.
pub open spec fn is_first(upstreams: Seq<Upstream>, id: Seq<char>, i: int) -> bool {
    &&& 0 <= i < upstreams.len()
    &&& upstreams[i].id@ == id
    &&& forall|j: int| 0 <= j < i ==> (#[trigger] upstreams[j]).id@ != id
}

/// The first place of `id` in `upstreams`, if it is there.
pub open spec fn position(upstreams: Seq<Upstream>, id: Seq<char>) -> Option<int> {
    if exists|i: int| is_first(upstreams, id, i) {
        Some(choose|i: int| is_first(upstreams, id, i))
    } else {
        None
    }
}

/// `position` is where `is_first` says.
pub proof fn lemma_position(upstreams: Seq<Upstream>, id: Seq<char>, i: int)
    requires
        is_first(upstreams, id, i),
    ensures
        position(upstreams, id) == Some(i),
{
    let k = choose|k: int| is_first(upstreams, id, k);
    assert(is_first(upstreams, id, k));
    if k < i {
        assert(upstreams[k].id@ != id);
    }
    if i < k {
        assert(upstreams[i].id@ != id);
    }
}

/// An id that some upstream has is found.
pub proof fn lemma_position_exists(upstreams: Seq<Upstream>, i: int)
    requires
        0 <= i < upstreams.len(),
    ensures
        position(upstreams, upstreams[i].id@) is Some,
    decreases i,
{
    let id = upstreams[i].id@;
    if exists|j: int| 0 <= j < i && (#[trigger] upstreams[j]).id@ == id {
        let j = choose|j: int| 0 <= j < i && (#[trigger] upstreams[j]).id@ == id;
        lemma_position_exists(upstreams, j);
    } else {
        assert(is_first(upstreams, id, i));
    }
}

impl RoutingConfig {
    /// The place of the first upstream called `id`.
    pub fn index_of(&self, id: &str) -> (index: Option<usize>)
        ensures
            match index {
                Some(i) => position(self.upstreams@, id@) == Some(i as int) && is_first(
                    self.upstreams@,
                    id@,
                    i as int,
                ),
                None => position(self.upstreams@, id@) is None,
            },
    {
        let wanted = id.to_owned();
        let mut i: usize = 0;
        while i < self.upstreams.len()
            invariant
                wanted@ == id@,
                i <= self.upstreams.len(),
                forall|j: int| 0 <= j < i ==> (#[trigger] self.upstreams@[j]).id@ != id@,
            decreases self.upstreams.len() - i,
        {
            if self.upstreams[i].id == wanted {
                proof {
                    lemma_position(self.upstreams@, id@, i as int);
                }
                return Some(i);
            }
            i += 1;
        }
        None
    }

    /// The first upstream called `id`.
    pub fn find(&self, id: &str) -> (found: Option<&Upstream>)
        ensures
            match position(self.upstreams@, id@) {
                Some(i) => found == Some(&self.upstreams@[i]) && found->0.id@ == id@,
                None => found is None,
            },
    {
        match self.index_of(id) {
            Some(i) => Some(&self.upstreams[i]),
            None => None,
        }
    }
}

impl Clone for RoutingConfig {
    fn clone(&self) -> (copy: Self)
        ensures
            copy.upstreams@ == self.upstreams@,
            copy.probe_timeout == self.probe_timeout,
    {
        let upstreams = self.upstreams.clone();
        assert(upstreams@ =~= self.upstreams@);
        RoutingConfig { upstreams, probe_timeout: self.probe_timeout }
    }
}

impl Default for RoutingConfig {
    /// Docker Hub, the GitHub registry and Quay, in this order, with five seconds each.
    fn default() -> (config: Self)
        ensures
            config.upstreams@.len() == 3,
            config.upstreams@[0].id@ == "docker.io"@,
            config.upstreams@[0].base_url@ == "https://registry-1.docker.io"@,
            config.upstreams@[0].token_host matches Some(host) && host@ == "auth.docker.io"@,
            config.upstreams@[1].id@ == "ghcr.io"@,
            config.upstreams@[1].base_url@ == "https://ghcr.io"@,
            config.upstreams@[1].token_host is None,
            config.upstreams@[2].id@ == "quay.io"@,
            config.upstreams@[2].base_url@ == "https://quay.io"@,
            config.upstreams@[2].token_host is None,
            forall|i: int| 0 <= i < 3 ==> (#[trigger] config.upstreams@[i]).credentials is None,
            clock::nanos(config.probe_timeout) == 5 * clock::NANOS_PER_SEC,
    {
        let docker = Upstream::new("docker.io", "https://registry-1.docker.io").with_token_host(
            "auth.docker.io",
        );
        let ghcr = Upstream::new("ghcr.io", "https://ghcr.io");
        let quay = Upstream::new("quay.io", "https://quay.io");
        RoutingConfig { upstreams: vec![docker, ghcr, quay], probe_timeout: Duration::from_secs(5) }
    }
}

} // verus!
