//! Manifests, by digest and by tag.
//!
//! What a digest names never changes, so a manifest asked for by digest is content like any
//! other. What a tag names may change, so a manifest asked for by tag is asked for anew once some
//! time has passed; until then, and while the upstream cannot be asked, the one at hand serves.
use std::time::Duration;
use vstd::hash_map::StringHashMap;
use vstd::prelude::*;
use vstd::string::*;

use crate::clock;
use crate::text;

verus! {

/// How content is named. Only manifests have tags.
#[derive(Debug, Clone, PartialEq, Eq)]
pub enum ManifestReference {
    Tag(String),
    Digest(String),
}

/// A manifest.
#[derive(Debug, Clone, PartialEq, Eq)]
pub struct ManifestResponse {
    pub content: Vec<u8>,
    pub digest: String,
    /// The upstream could not be asked whether the tag still names this manifest.
    pub stale: bool,
}

/// What a tag named when it was last asked for.
#[derive(Debug)]
pub struct TagState {
    pub digest: String,
    pub fetched_at: u64,
}

/// The same, with its characters.
pub struct TagView {
    pub digest: Seq<char>,
    pub fetched_at: u64,
}

impl View for TagState {
    type V = TagView;

    open spec fn view(&self) -> TagView {
        TagView { digest: self.digest@, fetched_at: self.fetched_at }
    }
}

/// An upstream, a repository and a tag.
pub type TagName = (Seq<char>, Seq<char>, Seq<char>);

/// What the tags of repositories named, at each upstream, when they were last asked for.
pub type TagStates = Map<TagName, TagView>;

/// What is to be done next for a manifest. `E` is what the doing may fail with.
#[derive(Debug)]
pub enum ManifestStep<E> {
    /// Get the content of this digest.
    GetDigest(String),
    /// Read the content of this digest from the store; the tag was looked up not long ago.
    ReadFresh(String),
    /// Ask the upstream for the manifest of the tag.
    Fetch,
    /// Put what the upstream sent into the store.
    Store(Fetched),
    /// Read the content of this digest from the store; asking the upstream failed.
    ReadStale(String, E),
    /// Nothing: the manifest is there, or cannot be had.
    Done(Result<ManifestResponse, E>),
}

/// A manifest as the upstream sent it.
#[derive(Debug)]
pub struct Fetched {
    pub content: Vec<u8>,
    pub digest: String,
}

/// The same, with its bytes and characters.
pub struct FetchedView {
    pub content: Seq<u8>,
    pub digest: Seq<char>,
}

impl View for Fetched {
    type V = FetchedView;

    open spec fn view(&self) -> FetchedView {
        FetchedView { content: self.content@, digest: self.digest@ }
    }
}

/// The bytes of optional content.
pub open spec fn opt_bytes(content: Option<Vec<u8>>) -> Option<Seq<u8>> {
    match content {
        Some(content) => Some(content@),
        None => None,
    }
}

/// What an upstream sent, with its bytes and characters.
pub open spec fn fetched_view<E>(fetched: Result<Fetched, E>) -> Result<FetchedView, E> {
    match fetched {
        Ok(fetched) => Ok(fetched@),
        Err(error) => Err(error),
    }
}

/// A step, with its bytes and characters.
pub enum ManifestStepView<E> {
    GetDigest(Seq<char>),
    ReadFresh(Seq<char>),
    Fetch,
    Store(FetchedView),
    ReadStale(Seq<char>, E),
    Served { content: Seq<u8>, digest: Seq<char>, stale: bool },
    Failed(E),
}

impl<E> View for ManifestStep<E> {
    type V = ManifestStepView<E>;

    open spec fn view(&self) -> ManifestStepView<E> {
        match *self {
            ManifestStep::GetDigest(digest) => ManifestStepView::GetDigest(digest@),
            ManifestStep::ReadFresh(digest) => ManifestStepView::ReadFresh(digest@),
            ManifestStep::Fetch => ManifestStepView::Fetch,
            ManifestStep::Store(fetched) => ManifestStepView::Store(fetched@),
            ManifestStep::ReadStale(digest, error) => ManifestStepView::ReadStale(digest@, error),
            ManifestStep::Done(Ok(response)) => ManifestStepView::Served {
                content: response.content@,
                digest: response.digest@,
                stale: response.stale,
            },
            ManifestStep::Done(Err(error)) => ManifestStepView::Failed(error),
        }
    }
}

/// The manifest is there.
pub open spec fn served<E>(content: Seq<u8>, digest: Seq<char>, stale: bool) -> ManifestStepView<
    E,
> {
    ManifestStepView::Served { content, digest, stale }
}

/// `s`, with its length before it: where it ends can be told, whatever follows.
pub open spec fn counted(s: Seq<char>) -> Seq<char> {
    text::decimal(s.len()) + ":"@ + s
}

/// The string that stands for a tag of a repository of an upstream.
pub open spec fn tag_key(k: TagName) -> Seq<char> {
    counted(k.0) + counted(k.1) + k.2
}

/// The tag was looked up less than `ttl` ago.
pub open spec fn is_fresh(state: TagView, now: u64, ttl: Duration) -> bool {
    clock::elapsed(now, state.fetched_at) < clock::nanos(ttl)
}

/// The digest that the tag last named.
pub open spec fn last_digest(states: TagStates, k: TagName) -> Option<Seq<char>> {
    if states.contains_key(k) {
        Some(states[k].digest)
    } else {
        None
    }
}

/// The first step for a tag.
pub open spec fn tag_step<E>(
    states: TagStates,
    upstream: Seq<char>,
    repository: Seq<char>,
    tag: Seq<char>,
    now: u64,
    ttl: Duration,
) -> ManifestStepView<E> {
    if states.contains_key((upstream, repository, tag)) && is_fresh(states[(upstream, repository, tag)], now, ttl) {
        ManifestStepView::ReadFresh(states[(upstream, repository, tag)].digest)
    } else {
        ManifestStepView::Fetch
    }
}

/// The step after the content of `digest` was read, or not, for a tag that was looked up not long
/// ago.
pub open spec fn read_fresh_step<E>(
    digest: Seq<char>,
    content: Option<Seq<u8>>,
) -> ManifestStepView<E> {
    match content {
        Some(content) => served(content, digest, false),
        None => ManifestStepView::Fetch,
    }
}

/// The step after the upstream was asked. If it could not be asked, what the tag last named will
/// do, however long ago that was.
pub open spec fn fetched_step<E>(
    states: TagStates,
    upstream: Seq<char>,
    repository: Seq<char>,
    tag: Seq<char>,
    fetched: Result<FetchedView, E>,
) -> ManifestStepView<E> {
    match fetched {
        Ok(fetched) => ManifestStepView::Store(fetched),
        Err(error) => match last_digest(states, (upstream, repository, tag)) {
            Some(digest) => ManifestStepView::ReadStale(digest, error),
            None => ManifestStepView::Failed(error),
        },
    }
}

/// The step after what the upstream sent was put into the store.
pub open spec fn stored_step<E>(
    fetched: FetchedView,
    stored: Result<(), E>,
) -> ManifestStepView<E> {
    match stored {
        Ok(_) => served(fetched.content, fetched.digest, false),
        Err(error) => ManifestStepView::Failed(error),
    }
}

/// What the tags named, after what the upstream sent for one of them was put into the store.
pub open spec fn stored_states<E>(
    states: TagStates,
    upstream: Seq<char>,
    repository: Seq<char>,
    tag: Seq<char>,
    asked_at: u64,
    fetched: FetchedView,
    stored: Result<(), E>,
) -> TagStates {
    match stored {
        Ok(_) => states.insert(
            (upstream, repository, tag),
            TagView { digest: fetched.digest, fetched_at: asked_at },
        ),
        Err(_) => states,
    }
}

/// The step after the content of `digest` was read, or not, because the upstream could not be
/// asked.
pub open spec fn read_stale_step<E>(
    digest: Seq<char>,
    error: E,
    content: Option<Seq<u8>>,
) -> ManifestStepView<E> {
    match content {
        Some(content) => served(content, digest, true),
        None => ManifestStepView::Failed(error),
    }
}

/// Where a counted string ends can be told.
proof fn lemma_counted_injective(a: Seq<char>, x: Seq<char>, b: Seq<char>, y: Seq<char>)
    requires
        counted(a) + x == counted(b) + y,
    ensures
        a == b,
        x == y,
{
    reveal_strlit(":");
    let m = text::decimal(a.len());
    let n = text::decimal(b.len());
    text::lemma_decimal_digits(a.len());
    text::lemma_decimal_digits(b.len());
    assert forall|i: int| 0 <= i < m.len() implies m[i] != ':' by {
        assert(m[i] <= '9');
    }
    assert forall|i: int| 0 <= i < n.len() implies n[i] != ':' by {
        assert(n[i] <= '9');
    }
    assert(counted(a) + x == m.push(':') + (a + x));
    assert(counted(b) + y == n.push(':') + (b + y));
    text::lemma_cut_first_unique(m, ':', a + x);
    text::lemma_cut_first_unique(n, ':', b + y);
    text::lemma_decimal_injective(a.len(), b.len());
    assert((a + x).take(a.len() as int) == a);
    assert((b + y).take(b.len() as int) == b);
    assert((a + x).skip(a.len() as int) == x);
    assert((b + y).skip(b.len() as int) == y);
}

/// Different tags, and tags of different repositories or upstreams, have different keys.
pub proof fn lemma_tag_key_injective(j: TagName, k: TagName)
    requires
        tag_key(j) == tag_key(k),
    ensures
        j == k,
{
    assert(tag_key(j) == counted(j.0) + (counted(j.1) + j.2));
    assert(tag_key(k) == counted(k.0) + (counted(k.1) + k.2));
    lemma_counted_injective(j.0, counted(j.1) + j.2, k.0, counted(k.1) + k.2);
    lemma_counted_injective(j.1, j.2, k.1, k.2);
}

/// The string that stands for a tag of a repository of an upstream.
fn key_of(upstream: &str, repository: &str, tag: &str) -> (key: String)
    ensures
        key@ == tag_key((upstream@, repository@, tag@)),
{
    let mut key = text::decimal_text(upstream.unicode_len() as u64);
    key.append(":");
    key.append(upstream);
    key.append(text::decimal_text(repository.unicode_len() as u64).as_str());
    key.append(":");
    key.append(repository);
    key.append(tag);
    assert(key@ =~= tag_key((upstream@, repository@, tag@)));
    key
}

/// Decides how to serve manifests. What a tag names is known of each upstream by itself: none
/// answers for another.
pub struct ManifestCache {
    /// A state is kept after its time, to serve while the upstream cannot be asked.
    tag_state: StringHashMap<TagState>,
    tag_ttl: Duration,
}

impl View for ManifestCache {
    type V = TagStates;

    closed spec fn view(&self) -> TagStates {
        Map::new(
            |k: TagName| self.tag_state@.contains_key(tag_key(k)),
            |k: TagName| self.tag_state@[tag_key(k)]@,
        )
    }
}

impl ManifestCache {
    /// How long, in seconds, a tag is taken to name the same manifest unless configured otherwise.
    pub const DEFAULT_TAG_TTL_SECS: u64 = 1800;

    /// How long a tag is taken to name the same manifest.
    pub closed spec fn ttl(&self) -> Duration {
        self.tag_ttl
    }

    /// Nothing was asked for yet.
    pub fn new() -> (cache: Self)
        ensures
            cache@ == TagStates::empty(),
            clock::nanos(cache.ttl()) == Self::DEFAULT_TAG_TTL_SECS * clock::NANOS_PER_SEC,
    {
        Self::with_tag_ttl(Duration::from_secs(Self::DEFAULT_TAG_TTL_SECS))
    }

    /// Nothing was asked for yet, and a tag is taken to name the same manifest for `tag_ttl`.
    pub fn with_tag_ttl(tag_ttl: Duration) -> (cache: Self)
        ensures
            cache@ == TagStates::empty(),
            cache.ttl() == tag_ttl,
    {
        let cache = ManifestCache { tag_state: StringHashMap::new(), tag_ttl };
        assert(cache@ =~= TagStates::empty());
        cache
    }

    /// Begins to get the manifest that `reference` names. By digest, neither the tags nor the time
    /// play a part.
    pub fn get<E>(
        &self,
        upstream_id: &str,
        repository: &str,
        reference: &ManifestReference,
        now: u64,
    ) -> (step: ManifestStep<E>)
        ensures
            step@ == (match *reference {
                ManifestReference::Digest(digest) => ManifestStepView::<E>::GetDigest(digest@),
                ManifestReference::Tag(tag) => tag_step::<E>(
                    self@,
                    upstream_id@,
                    repository@,
                    tag@,
                    now,
                    self.ttl(),
                ),
            }),
    {
        match reference {
            ManifestReference::Digest(digest) => ManifestStep::GetDigest(digest.clone()),
            ManifestReference::Tag(tag) => self.get_by_tag(
                upstream_id,
                repository,
                tag.as_str(),
                now,
            ),
        }
    }

    /// Begins to get the manifest that `tag` names at an upstream.
    pub fn get_by_tag<E>(
        &self,
        upstream_id: &str,
        repository: &str,
        tag: &str,
        now: u64,
    ) -> (step: ManifestStep<E>)
        ensures
            step@ == tag_step::<E>(self@, upstream_id@, repository@, tag@, now, self.ttl()),
    {
        match self.fresh_tag_state(upstream_id, repository, tag, now) {
            Some(digest) => ManifestStep::ReadFresh(digest),
            None => ManifestStep::Fetch,
        }
    }

    /// The digest that `tag` names at an upstream, if it was looked up there not long ago.
    pub fn fresh_tag_state(
        &self,
        upstream_id: &str,
        repository: &str,
        tag: &str,
        now: u64,
    ) -> (digest: Option<String>)
        ensures
            text::opt_text(digest) == ({
                let k = (upstream_id@, repository@, tag@);
                if self@.contains_key(k) && is_fresh(self@[k], now, self.ttl()) {
                    Some(self@[k].digest)
                } else {
                    None
                }
            }),
    {
        let key = key_of(upstream_id, repository, tag);
        match self.tag_state.get(key.as_str()) {
            Some(state) => if clock::is_within(now, state.fetched_at, self.tag_ttl) {
                Some(state.digest.clone())
            } else {
                None
            },
            None => None,
        }
    }

    /// The digest that `tag` named when the upstream was last asked, however long ago that was.
    pub fn last_tag_state(&self, upstream_id: &str, repository: &str, tag: &str) -> (digest: Option<
        String,
    >)
        ensures
            text::opt_text(digest) == last_digest(self@, (upstream_id@, repository@, tag@)),
    {
        let key = key_of(upstream_id, repository, tag);
        match self.tag_state.get(key.as_str()) {
            Some(state) => Some(state.digest.clone()),
            None => None,
        }
    }

    /// Ends with the content of `digest`, which was asked for by digest.
    pub fn on_digest<E>(digest: String, content: Result<Vec<u8>, E>) -> (step: ManifestStep<E>)
        ensures
            step@ == (match content {
                Ok(content) => served::<E>(content@, digest@, false),
                Err(error) => ManifestStepView::<E>::Failed(error),
            }),
    {
        match content {
            Ok(content) => ManifestStep::Done(
                Ok(ManifestResponse { content, digest, stale: false }),
            ),
            Err(error) => ManifestStep::Done(Err(error)),
        }
    }

    /// Goes on after reading the content of `digest`, which the tag named not long ago; there is
    /// none if it could not be read.
    pub fn on_read_fresh<E>(digest: String, content: Option<Vec<u8>>) -> (step: ManifestStep<E>)
        ensures
            step@ == read_fresh_step::<E>(digest@, opt_bytes(content)),
    {
        match content {
            Some(content) => ManifestStep::Done(
                Ok(ManifestResponse { content, digest, stale: false }),
            ),
            None => ManifestStep::Fetch,
        }
    }

    /// Goes on after asking the upstream for the manifest of `tag`.
    pub fn on_fetched<E>(
        &self,
        upstream_id: &str,
        repository: &str,
        tag: &str,
        fetched: Result<Fetched, E>,
    ) -> (step: ManifestStep<E>)
        ensures
            step@ == fetched_step::<E>(self@, upstream_id@, repository@, tag@, fetched_view(fetched)),
    {
        match fetched {
            Ok(fetched) => ManifestStep::Store(fetched),
            Err(error) => match self.last_tag_state(upstream_id, repository, tag) {
                Some(digest) => ManifestStep::ReadStale(digest, error),
                None => ManifestStep::Done(Err(error)),
            },
        }
    }

    /// Ends after putting what the upstream sent into the store. It counts as what the tag named
    /// at `asked_at`, when the request came.
    pub fn on_stored<E>(
        &mut self,
        upstream_id: &str,
        repository: &str,
        tag: &str,
        asked_at: u64,
        fetched: Fetched,
        stored: Result<(), E>,
    ) -> (step: ManifestStep<E>)
        ensures
            final(self).ttl() == old(self).ttl(),
            final(self)@ == stored_states(
                old(self)@,
                upstream_id@,
                repository@,
                tag@,
                asked_at,
                fetched@,
                stored,
            ),
            step@ == stored_step::<E>(fetched@, stored),
    {
        match stored {
            Ok(_) => {
                let key = key_of(upstream_id, repository, tag);
                let state = TagState { digest: fetched.digest.clone(), fetched_at: asked_at };
                self.tag_state.insert(key, state);
                proof {
                    let k = (upstream_id@, repository@, tag@);
                    assert forall|other: TagName| other != k implies #[trigger] tag_key(other)
                        != tag_key(k) by {
                        if tag_key(other) == tag_key(k) {
                            lemma_tag_key_injective(other, k);
                        }
                    }
                    assert(self@ =~= old(self)@.insert(k, state@));
                }
                ManifestStep::Done(
                    Ok(
                        ManifestResponse {
                            content: fetched.content,
                            digest: fetched.digest,
                            stale: false,
                        },
                    ),
                )
            },
            Err(error) => ManifestStep::Done(Err(error)),
        }
    }

    /// Ends after reading the content of `digest`, which the tag named before the upstream could
    /// not be asked; there is none if it could not be read.
    pub fn on_read_stale<E>(digest: String, error: E, content: Option<Vec<u8>>) -> (step:
        ManifestStep<E>)
        ensures
            step@ == read_stale_step::<E>(digest@, error, opt_bytes(content)),
    {
        match content {
            Some(content) => ManifestStep::Done(
                Ok(ManifestResponse { content, digest, stale: true }),
            ),
            None => ManifestStep::Done(Err(error)),
        }
    }
}

// ---------------------------------------------------------------------------
// Laws
// ---------------------------------------------------------------------------

/// Everything that may happen outside while a manifest is got by its tag.
pub struct World<E> {
    /// The content of the digest that the tag last named, if it can be read at first.
    pub at_first: Option<Seq<u8>>,
    /// The same, if it can be read after asking the upstream failed.
    pub at_last: Option<Seq<u8>>,
    /// What asking the upstream gives.
    pub fetched: Result<FetchedView, E>,
    /// What putting it into the store gives.
    pub stored: Result<(), E>,
}

/// How getting a manifest by its tag ended.
pub struct Outcome<E> {
    pub states: TagStates,
    pub end: ManifestStepView<E>,
    /// The upstream was asked.
    pub asked: bool,
}

/// How getting a manifest by its tag ends, from a step on.
pub open spec fn outcome_from<E>(
    states: TagStates,
    upstream: Seq<char>,
    repository: Seq<char>,
    tag: Seq<char>,
    asked_at: u64,
    world: World<E>,
    step: ManifestStepView<E>,
) -> Outcome<E> {
    let fetch = match fetched_step(states, upstream, repository, tag, world.fetched) {
        ManifestStepView::Store(fetched) => Outcome {
            states: stored_states(states, upstream, repository, tag, asked_at, fetched, world.stored),
            end: stored_step(fetched, world.stored),
            asked: true,
        },
        ManifestStepView::ReadStale(digest, error) => Outcome {
            states,
            end: read_stale_step(digest, error, world.at_last),
            asked: true,
        },
        end => Outcome { states, end, asked: true },
    };
    match step {
        ManifestStepView::ReadFresh(digest) => match read_fresh_step::<E>(digest, world.at_first) {
            ManifestStepView::Fetch => fetch,
            end => Outcome { states, end, asked: false },
        },
        ManifestStepView::Fetch => fetch,
        end => Outcome { states, end, asked: false },
    }
}

/// How getting a manifest by its tag ends.
pub open spec fn outcome<E>(
    states: TagStates,
    upstream: Seq<char>,
    repository: Seq<char>,
    tag: Seq<char>,
    now: u64,
    ttl: Duration,
    world: World<E>,
) -> Outcome<E> {
    outcome_from(
        states,
        upstream,
        repository,
        tag,
        now,
        world,
        tag_step::<E>(states, upstream, repository, tag, now, ttl),
    )
}

/// Getting a manifest ends with it or with an error.
pub proof fn law_manifest_is_served_or_fails<E>(
    states: TagStates,
    upstream: Seq<char>,
    repository: Seq<char>,
    tag: Seq<char>,
    now: u64,
    ttl: Duration,
    world: World<E>,
)
    ensures
        ({
            let end = outcome(states, upstream, repository, tag, now, ttl, world).end;
            end is Served || end is Failed
        }),
{
}

/// Until its time has passed, what a tag named serves without asking the upstream.
pub proof fn law_known_tag_spares_the_upstream<E>(
    states: TagStates,
    upstream: Seq<char>,
    repository: Seq<char>,
    tag: Seq<char>,
    now: u64,
    ttl: Duration,
    world: World<E>,
)
    requires
        states.contains_key((upstream, repository, tag)),
        is_fresh(states[(upstream, repository, tag)], now, ttl),
        world.at_first is Some,
    ensures
        outcome(states, upstream, repository, tag, now, ttl, world) == (Outcome {
            states,
            end: served::<E>(world.at_first->0, states[(upstream, repository, tag)].digest, false),
            asked: false,
        }),
{
}

/// A tag that was never looked up, or whose time has passed, is asked for; what the upstream sends
/// serves, and counts as what the tag names from the time of the request on.
pub proof fn law_outdated_tag_is_asked_for_again<E>(
    states: TagStates,
    upstream: Seq<char>,
    repository: Seq<char>,
    tag: Seq<char>,
    now: u64,
    ttl: Duration,
    world: World<E>,
)
    requires
        !states.contains_key((upstream, repository, tag)) || !is_fresh(states[(upstream, repository, tag)], now, ttl),
    ensures
        outcome(states, upstream, repository, tag, now, ttl, world).asked,
        world.fetched is Ok && world.stored is Ok ==> outcome(
            states,
            upstream,
            repository,
            tag,
            now,
            ttl,
            world,
        ) == (Outcome {
            states: states.insert(
                (upstream, repository, tag),
                TagView { digest: world.fetched->Ok_0.digest, fetched_at: now },
            ),
            end: served::<E>(world.fetched->Ok_0.content, world.fetched->Ok_0.digest, false),
            asked: true,
        }),
{
}

/// While the upstream cannot be asked, what a tag last named serves, marked as not confirmed,
/// however long ago that was. Where there is nothing to serve, the upstream's failure is reported.
pub proof fn law_last_manifest_serves_while_upstream_fails<E>(
    states: TagStates,
    upstream: Seq<char>,
    repository: Seq<char>,
    tag: Seq<char>,
    now: u64,
    ttl: Duration,
    world: World<E>,
)
    requires
        world.fetched is Err,
        outcome(states, upstream, repository, tag, now, ttl, world).asked,
    ensures
        outcome(states, upstream, repository, tag, now, ttl, world).states == states,
        outcome(states, upstream, repository, tag, now, ttl, world).end == (if states.contains_key(
            (upstream, repository, tag),
        ) && world.at_last is Some {
            served::<E>(world.at_last->0, states[(upstream, repository, tag)].digest, true)
        } else {
            ManifestStepView::Failed(world.fetched->Err_0)
        }),
{
}

/// A manifest that is not marked was sent by the upstream now, or less than the tag's time ago.
pub proof fn law_unmarked_manifest_is_current<E>(
    states: TagStates,
    upstream: Seq<char>,
    repository: Seq<char>,
    tag: Seq<char>,
    now: u64,
    ttl: Duration,
    world: World<E>,
    content: Seq<u8>,
    digest: Seq<char>,
)
    requires
        outcome(states, upstream, repository, tag, now, ttl, world).end == served::<E>(
            content,
            digest,
            false,
        ),
    ensures
        ({
            ||| world.fetched == Ok::<FetchedView, E>(FetchedView { content, digest })
            ||| {
                &&& states.contains_key((upstream, repository, tag))
                &&& states[(upstream, repository, tag)].digest == digest
                &&& is_fresh(states[(upstream, repository, tag)], now, ttl)
            }
        }),
{
}

/// Only what the upstream sent, and what reached the store, counts as what a tag names. What is on
/// record for another tag, repository or upstream is never changed, and plays no part: were it
/// anything else, the same would happen.
pub proof fn law_tags_are_independent<E>(
    states: TagStates,
    upstream: Seq<char>,
    repository: Seq<char>,
    tag: Seq<char>,
    now: u64,
    ttl: Duration,
    world: World<E>,
    other: TagName,
    record: TagView,
)
    ensures
        world.fetched is Err || world.stored is Err ==> outcome(
            states,
            upstream,
            repository,
            tag,
            now,
            ttl,
            world,
        ).states == states,
        other != (upstream, repository, tag) ==> {
            let after = outcome(states, upstream, repository, tag, now, ttl, world);
            let changed = outcome(
                states.insert(other, record),
                upstream,
                repository,
                tag,
                now,
                ttl,
                world,
            );
            &&& after.states.contains_key(other) == states.contains_key(other)
            &&& states.contains_key(other) ==> after.states[other] == states[other]
            &&& changed.end == after.end
            &&& changed.asked == after.asked
            &&& changed.states == after.states.insert(other, record)
        },
{
    if other != (upstream, repository, tag) {
        let after = outcome(states, upstream, repository, tag, now, ttl, world);
        let changed = outcome(
            states.insert(other, record),
            upstream,
            repository,
            tag,
            now,
            ttl,
            world,
        );
        assert(changed.states =~= after.states.insert(other, record));
    }
}

/// What one upstream sent for a tag does not serve for another upstream of which nothing is on
/// record: that one is asked, and if it cannot be asked, its failure is reported.
pub proof fn law_no_upstream_answers_for_another<E>(
    states: TagStates,
    first: Seq<char>,
    second: Seq<char>,
    repository: Seq<char>,
    tag: Seq<char>,
    now: u64,
    later: u64,
    ttl: Duration,
    world: World<E>,
    later_world: World<E>,
)
    requires
        first != second,
        !states.contains_key((second, repository, tag)),
    ensures
        ({
            let known = outcome(states, first, repository, tag, now, ttl, world).states;
            let at_second = outcome(known, second, repository, tag, later, ttl, later_world);
            &&& at_second.asked
            &&& later_world.fetched is Err ==> at_second.end == ManifestStepView::Failed(
                later_world.fetched->Err_0,
            )
        }),
{
}

/// What one request got from the upstream serves the next within the tag's time, from the store
/// and without asking the upstream.
pub proof fn law_second_request_is_served_from_the_store<E>(
    states: TagStates,
    upstream: Seq<char>,
    repository: Seq<char>,
    tag: Seq<char>,
    first: u64,
    second: u64,
    ttl: Duration,
    world: World<E>,
    later: World<E>,
)
    requires
        outcome(states, upstream, repository, tag, first, ttl, world).asked,
        world.fetched is Ok,
        world.stored is Ok,
        clock::elapsed(second, first) < clock::nanos(ttl),
        later.at_first == Some(world.fetched->Ok_0.content),
    ensures
        ({
            let known = outcome(states, upstream, repository, tag, first, ttl, world);
            outcome(known.states, upstream, repository, tag, second, ttl, later) == (Outcome {
                states: known.states,
                end: known.end,
                asked: false,
            })
        }),
{
}

/// Once the tag's time has passed since the upstream was last asked, it is asked again. Before that,
/// what it sent then serves as long as it can be read, without asking. The time is counted in
/// nanoseconds.
pub proof fn law_time_of_a_tag<E>(
    states: TagStates,
    upstream: Seq<char>,
    repository: Seq<char>,
    tag: Seq<char>,
    now: u64,
    ttl: Duration,
    world: World<E>,
)
    requires
        states.contains_key((upstream, repository, tag)),
    ensures
        ({
            let fetched_at = states[(upstream, repository, tag)].fetched_at;
            let end = outcome(states, upstream, repository, tag, now, ttl, world);
            let step = tag_step::<E>(states, upstream, repository, tag, now, ttl);
            &&& now >= fetched_at + clock::nanos(ttl) ==> end.asked && step is Fetch
            &&& clock::nanos(ttl) == 0 ==> end.asked && step is Fetch
            &&& now < fetched_at + clock::nanos(ttl) && clock::nanos(ttl) > 0 ==> {
                &&& step == ManifestStepView::<E>::ReadFresh(
                    states[(upstream, repository, tag)].digest,
                )
                &&& end.asked <==> world.at_first is None
            }
        }),
{
}

/// An unmarked manifest was sent by the upstream in this request, or less than the tag's time ago.
pub proof fn law_age_of_an_unmarked_manifest<E>(
    states: TagStates,
    upstream: Seq<char>,
    repository: Seq<char>,
    tag: Seq<char>,
    now: u64,
    ttl: Duration,
    world: World<E>,
    content: Seq<u8>,
    digest: Seq<char>,
)
    requires
        outcome(states, upstream, repository, tag, now, ttl, world).end == (
        ManifestStepView::<E>::Served { content, digest, stale: false }),
    ensures
        ({
            ||| world.fetched == Ok::<FetchedView, E>(FetchedView { content, digest })
            ||| {
                &&& states.contains_key((upstream, repository, tag))
                &&& states[(upstream, repository, tag)].digest == digest
                &&& now - states[(upstream, repository, tag)].fetched_at < clock::nanos(ttl)
                &&& world.at_first == Some(content)
            }
        }),
{
}

/// How getting a manifest by its tag ends, in every case: from the store, unmarked, while the tag's
/// time lasts and the content can be read; else as the upstream sent it, if that could be put into
/// the store, and then it is on record with the time of the request; else, if the upstream could not
/// be asked, from the store, marked; else with the failure. Only success at the upstream changes
/// what is on record.
pub proof fn law_every_way_to_a_manifest<E>(
    states: TagStates,
    upstream: Seq<char>,
    repository: Seq<char>,
    tag: Seq<char>,
    now: u64,
    ttl: Duration,
    world: World<E>,
)
    ensures
        ({
            let k = (upstream, repository, tag);
            let known = states.contains_key(k);
            let current = known && clock::nanos(ttl) > 0 && now < states[k].fetched_at
                + clock::nanos(ttl);
            let end = outcome(states, upstream, repository, tag, now, ttl, world);
            if current && world.at_first is Some {
                &&& !end.asked
                &&& end.states == states
                &&& end.end == (ManifestStepView::<E>::Served {
                    content: world.at_first->0,
                    digest: states[k].digest,
                    stale: false,
                })
            } else {
                &&& end.asked
                &&& match world.fetched {
                    Ok(fetched) => match world.stored {
                        Ok(_) => {
                            &&& end.states == states.insert(
                                k,
                                TagView { digest: fetched.digest, fetched_at: now },
                            )
                            &&& end.end == (ManifestStepView::<E>::Served {
                                content: fetched.content,
                                digest: fetched.digest,
                                stale: false,
                            })
                        },
                        Err(error) => end.states == states && end.end == ManifestStepView::Failed(
                            error,
                        ),
                    },
                    Err(error) => {
                        &&& end.states == states
                        &&& known && world.at_last is Some ==> end.end == (
                        ManifestStepView::<E>::Served {
                            content: world.at_last->0,
                            digest: states[k].digest,
                            stale: true,
                        })
                        &&& !known || world.at_last is None ==> end.end
                            == ManifestStepView::Failed(error)
                    },
                }
            }
        }),
{
}

/// Each step towards a manifest, by itself.
pub proof fn law_steps_to_a_manifest<E>(
    states: TagStates,
    k: TagName,
    digest: Seq<char>,
    content: Seq<u8>,
    stale: bool,
    error: E,
    fetched: FetchedView,
)
    ensures
        served::<E>(content, digest, stale) == (ManifestStepView::<E>::Served {
            content,
            digest,
            stale,
        }),
        read_fresh_step::<E>(digest, Some(content)) == (ManifestStepView::<E>::Served {
            content,
            digest,
            stale: false,
        }),
        read_fresh_step::<E>(digest, None) is Fetch,
        fetched_step::<E>(states, k.0, k.1, k.2, Ok(fetched)) == ManifestStepView::<E>::Store(
            fetched,
        ),
        states.contains_key(k) ==> fetched_step::<E>(states, k.0, k.1, k.2, Err(error))
            == ManifestStepView::ReadStale(states[k].digest, error),
        !states.contains_key(k) ==> fetched_step::<E>(states, k.0, k.1, k.2, Err(error))
            == ManifestStepView::Failed(error),
        stored_step::<E>(fetched, Ok(())) == (ManifestStepView::<E>::Served {
            content: fetched.content,
            digest: fetched.digest,
            stale: false,
        }),
        stored_step::<E>(fetched, Err(error)) == ManifestStepView::Failed(error),
        read_stale_step::<E>(digest, error, Some(content)) == (ManifestStepView::<E>::Served {
            content,
            digest,
            stale: true,
        }),
        read_stale_step::<E>(digest, error, None) == ManifestStepView::Failed(error),
        states.contains_key(k) ==> last_digest(states, k) == Some(states[k].digest),
        !states.contains_key(k) ==> last_digest(states, k) is None,
{
    assert((k.0, k.1, k.2) == k);
}

/// What a step shows is all there is to it.
pub proof fn law_manifest_steps_show_what_they_are<E>(
    digest: String,
    fetched: Fetched,
    error: E,
    response: ManifestResponse,
    content: Vec<u8>,
    state: TagState,
)
    ensures
        ManifestStep::<E>::GetDigest(digest)@ == ManifestStepView::<E>::GetDigest(digest@),
        ManifestStep::<E>::ReadFresh(digest)@ == ManifestStepView::<E>::ReadFresh(digest@),
        ManifestStep::<E>::Fetch@ == ManifestStepView::<E>::Fetch,
        ManifestStep::<E>::Store(fetched)@ == ManifestStepView::<E>::Store(
            FetchedView { content: fetched.content@, digest: fetched.digest@ },
        ),
        ManifestStep::ReadStale(digest, error)@ == ManifestStepView::ReadStale(digest@, error),
        ManifestStep::<E>::Done(Ok(response))@ == (ManifestStepView::<E>::Served {
            content: response.content@,
            digest: response.digest@,
            stale: response.stale,
        }),
        ManifestStep::Done(Err(error))@ == ManifestStepView::Failed(error),
        opt_bytes(Some(content)) == Some(content@),
        opt_bytes(None) is None,
        fetched_view::<E>(Ok(fetched)) == Ok::<FetchedView, E>(
            FetchedView { content: fetched.content@, digest: fetched.digest@ },
        ),
        fetched_view::<E>(Err(error)) == Err::<FetchedView, E>(error),
        state@.digest == state.digest@,
        state@.fetched_at == state.fetched_at,
{
}

} // verus!
