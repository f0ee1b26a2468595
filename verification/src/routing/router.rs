use std::time::Duration;
use vstd::prelude::*;
use vstd::string::*;

use crate::clock;
use crate::routing::config;
use crate::routing::config::{RoutingConfig, Upstream};
use crate::routing::memo::{MemoView, RoutingMemoStore};
use crate::routing::probe::ProbeOutcome;
use crate::text;

verus! {

/// How an upstream was determined.
#[derive(Debug, Clone, Copy, PartialEq, Eq, Structural)]
pub enum ResolutionSource {
    /// By the client's namespace hint.
    NsHint,
    /// By the routing memo.
    Memo,
    /// By asking the upstreams in order.
    Fallback,
}

/// The upstream that serves a repository.
#[derive(Debug, Clone, PartialEq, Eq)]
pub struct Resolution {
    pub upstream: String,
    pub source: ResolutionSource,
}

/// Why no upstream was determined.
#[derive(Debug, PartialEq, Eq)]
pub enum RoutingError {
    /// The namespace hint names an upstream that is not configured.
    UnknownUpstream(String),
    /// An upstream whose answer was needed gave none.
    Unreachable(String),
    /// Every configured upstream denied having the repository.
    NotFoundOnAnyUpstream,
}

/// What the answer of an upstream is needed for.
#[derive(Debug, Clone, Copy, PartialEq, Eq, Structural)]
pub enum ProbeStage {
    /// To follow a namespace hint to this upstream.
    Hint(usize),
    /// To confirm the record of this upstream in the memo.
    Memo(usize),
    /// To find the first upstream that has the repository. All before `index` were asked and
    /// none has it; `unreachable` is the first of those that gave no answer.
    Fallback { index: usize, unreachable: Option<usize> },
}

/// A resolution that waits for the answer of an upstream.
#[derive(Debug)]
pub struct PendingProbe {
    pub repository: String,
    pub stage: ProbeStage,
}

impl PendingProbe {
    /// The place of the upstream whose answer is awaited.
    pub fn upstream_index(&self) -> (index: usize)
        ensures
            index == self.stage.target(),
    {
        match self.stage {
            ProbeStage::Hint(i) => i,
            ProbeStage::Memo(i) => i,
            ProbeStage::Fallback { index, .. } => index,
        }
    }
}

/// What comes next in a resolution.
#[derive(Debug)]
pub enum RouteStep {
    /// Ask an upstream whether it has the repository, and go on with its answer.
    Probe(PendingProbe),
    /// The resolution is complete.
    Done(Result<Resolution, RoutingError>),
}

// ---------------------------------------------------------------------------
// Model
// ---------------------------------------------------------------------------

/// The result of a resolution.
pub enum Verdict {
    Found { upstream: Seq<char>, source: ResolutionSource },
    UnknownUpstream(Seq<char>),
    Unreachable(Seq<char>),
    NotFoundOnAnyUpstream,
}

/// A step of a resolution.
pub enum StepView {
    Probe(ProbeStage),
    Done(Verdict),
}

impl View for RouteStep {
    type V = StepView;

    open spec fn view(&self) -> StepView {
        match self {
            RouteStep::Probe(pending) => StepView::Probe(pending.stage),
            RouteStep::Done(Ok(resolution)) => StepView::Done(
                Verdict::Found { upstream: resolution.upstream@, source: resolution.source },
            ),
            RouteStep::Done(Err(RoutingError::UnknownUpstream(id))) => StepView::Done(
                Verdict::UnknownUpstream(id@),
            ),
            RouteStep::Done(Err(RoutingError::Unreachable(id))) => StepView::Done(
                Verdict::Unreachable(id@),
            ),
            RouteStep::Done(Err(RoutingError::NotFoundOnAnyUpstream)) => StepView::Done(
                Verdict::NotFoundOnAnyUpstream,
            ),
        }
    }
}

impl RouteStep {
    /// A step that waits does so for `repository`.
    pub open spec fn is_for(&self, repository: Seq<char>) -> bool {
        self matches RouteStep::Probe(pending) ==> pending.repository@ == repository
    }
}

impl ProbeStage {
    /// The place of the upstream whose answer is awaited.
    pub open spec fn target(self) -> usize {
        match self {
            ProbeStage::Hint(i) => i,
            ProbeStage::Memo(i) => i,
            ProbeStage::Fallback { index, .. } => index,
        }
    }
}

/// The characters of an optional namespace hint.
pub open spec fn hint_text(hint: Option<&str>) -> Option<Seq<char>> {
    match hint {
        Some(hint) => Some(hint@),
        None => None,
    }
}

/// The ids of `upstreams`, in order.
pub open spec fn ids(upstreams: Seq<Upstream>) -> Seq<Seq<char>> {
    upstreams.map_values(|upstream: Upstream| upstream.id@)
}

/// The string that stands for the order of `upstreams`: their ids, separated by NUL.
pub open spec fn fingerprint(upstreams: Seq<Upstream>) -> Seq<char> {
    text::joined(ids(upstreams), '\0')
}

/// An answer that did not arrive in time counts as none.
pub open spec fn outcome_of(answer: Option<ProbeOutcome>) -> ProbeOutcome {
    match answer {
        Some(outcome) => outcome,
        None => ProbeOutcome::Unreachable,
    }
}

/// Decides which upstream serves a repository: by the namespace hint if there is one, else by the
/// routing memo, else by asking the upstreams in order.
pub struct Router {
    pub config: RoutingConfig,
    /// The generation of the memo under which this router records what it finds.
    pub generation: u64,
    /// How long the finding that no upstream has a repository stays in force.
    pub negative_ttl: Duration,
}

impl Router {
    /// `stage` speaks of upstreams that are configured.
    pub open spec fn covers(&self, stage: ProbeStage) -> bool {
        match stage {
            ProbeStage::Hint(i) => i < self.config.upstreams@.len(),
            ProbeStage::Memo(i) => i < self.config.upstreams@.len(),
            ProbeStage::Fallback { index, unreachable } => {
                &&& index < self.config.upstreams@.len()
                &&& unreachable matches Some(u) ==> u < index
            },
        }
    }

    /// The id of the upstream at place `i`.
    pub open spec fn id(&self, i: int) -> Seq<char> {
        self.config.upstreams@[i].id@
    }

    /// The search at the upstream with place `index`, or its end after the last one. The end is
    /// that no upstream has the repository only if each one said so, and that is recorded; an
    /// upstream that gave no answer might have had it.
    pub open spec fn search(
        &self,
        memo: MemoView,
        repository: Seq<char>,
        index: int,
        unreachable: Option<usize>,
        now: u64,
    ) -> (StepView, MemoView) {
        if index < self.config.upstreams@.len() {
            (StepView::Probe(ProbeStage::Fallback { index: index as usize, unreachable }), memo)
        } else {
            match unreachable {
                Some(u) => (StepView::Done(Verdict::Unreachable(self.id(u as int))), memo),
                None => (
                    StepView::Done(Verdict::NotFoundOnAnyUpstream),
                    memo.put_negative(repository, clock::deadline(now, self.negative_ttl)),
                ),
            }
        }
    }

    /// The first step of a resolution, and the memo after it.
    pub open spec fn first_step(
        &self,
        memo: MemoView,
        repository: Seq<char>,
        ns_hint: Option<Seq<char>>,
        now: u64,
    ) -> (StepView, MemoView) {
        let upstreams = self.config.upstreams@;
        match ns_hint {
            Some(hint) => match config::position(upstreams, hint) {
                Some(i) => (StepView::Probe(ProbeStage::Hint(i as usize)), memo),
                None => (StepView::Done(Verdict::UnknownUpstream(hint)), memo),
            },
            None => if memo.entries.contains_key(repository) {
                match config::position(upstreams, memo.entries[repository]) {
                    Some(i) => (StepView::Probe(ProbeStage::Memo(i as usize)), memo),
                    None => self.search(memo.discard(repository), repository, 0, None, now),
                }
            } else if memo.negative_at(repository, now) {
                (StepView::Done(Verdict::NotFoundOnAnyUpstream), memo)
            } else {
                self.search(memo.prune(repository, now), repository, 0, None, now)
            },
        }
    }

    /// The step after the upstream that `stage` waits for has answered, and the memo after it.
    pub open spec fn next_step(
        &self,
        memo: MemoView,
        repository: Seq<char>,
        stage: ProbeStage,
        outcome: ProbeOutcome,
        now: u64,
    ) -> (StepView, MemoView) {
        match stage {
            ProbeStage::Hint(i) => match outcome {
                ProbeOutcome::Unreachable => (
                    StepView::Done(Verdict::Unreachable(self.id(i as int))),
                    memo,
                ),
                _ => (
                    StepView::Done(
                        Verdict::Found {
                            upstream: self.id(i as int),
                            source: ResolutionSource::NsHint,
                        },
                    ),
                    memo,
                ),
            },
            ProbeStage::Memo(i) => match outcome {
                ProbeOutcome::Found => (
                    StepView::Done(
                        Verdict::Found {
                            upstream: self.id(i as int),
                            source: ResolutionSource::Memo,
                        },
                    ),
                    memo,
                ),
                ProbeOutcome::NotFound => self.search(
                    memo.discard(repository),
                    repository,
                    0,
                    None,
                    now,
                ),
                ProbeOutcome::Unreachable => (
                    StepView::Done(Verdict::Unreachable(self.id(i as int))),
                    memo,
                ),
            },
            ProbeStage::Fallback { index, unreachable } => match outcome {
                ProbeOutcome::Found => (
                    StepView::Done(
                        Verdict::Found {
                            upstream: self.id(index as int),
                            source: ResolutionSource::Fallback,
                        },
                    ),
                    memo.put(repository, self.id(index as int), self.generation),
                ),
                ProbeOutcome::NotFound => self.search(
                    memo,
                    repository,
                    index + 1,
                    unreachable,
                    now,
                ),
                ProbeOutcome::Unreachable => self.search(
                    memo,
                    repository,
                    index + 1,
                    if unreachable is Some { unreachable } else { Some(index) },
                    now,
                ),
            },
        }
    }
}

// ---------------------------------------------------------------------------
// Operations
// ---------------------------------------------------------------------------

/// The string that stands for the order of `upstreams`.
pub fn order_fingerprint(upstreams: &Vec<Upstream>) -> (order: String)
    ensures
        order@ == fingerprint(upstreams@),
{
    let mut order = String::new();
    let mut i: usize = 0;
    let ghost all = ids(upstreams@);
    while i < upstreams.len()
        invariant
            all == ids(upstreams@),
            all.len() == upstreams@.len(),
            i <= upstreams.len(),
            order@ == text::joined(all.take(i as int), '\0'),
        decreases upstreams.len() - i,
    {
        let ghost before = order@;
        if i > 0 {
            order.append("\0");
            proof {
                reveal_strlit("\0");
                assert(order@ == before.push('\0'));
            }
        }
        order.append(upstreams[i].id.as_str());
        proof {
            assert(all.take(i + 1).drop_last() == all.take(i as int));
            assert(all.take(i + 1).last() == upstreams@[i as int].id@);
            if i == 0 {
                assert(before == Seq::<char>::empty());
                assert(order@ == all.take(1)[0]);
            }
        }
        i += 1;
    }
    assert(all.take(i as int) == all);
    order
}

impl Router {
    /// How long, in seconds, the finding that no upstream has a repository stays in force unless
    /// configured otherwise.
    pub const DEFAULT_NEGATIVE_TTL_SECS: u64 = 1800;

    /// A router for `config`. If the order of the upstreams is not the one under which `memo` was
    /// filled, the records of `memo` are dropped: under the new order another upstream might come
    /// first.
    pub fn new<M: RoutingMemoStore>(config: RoutingConfig, memo: &mut M) -> (router: Self)
        requires
            old(memo).view().can_activate(fingerprint(config.upstreams@)),
        ensures
            router.config == config,
            final(memo).view() == old(memo).view().activate(fingerprint(config.upstreams@)),
            router.generation == final(memo).view().generation,
            clock::nanos(router.negative_ttl) == Self::DEFAULT_NEGATIVE_TTL_SECS
                * clock::NANOS_PER_SEC,
    {
        let negative_ttl = Duration::from_secs(Self::DEFAULT_NEGATIVE_TTL_SECS);
        Self::with_negative_ttl(config, memo, negative_ttl)
    }

    /// The same, with the time for which the finding that no upstream has a repository stays in
    /// force.
    pub fn with_negative_ttl<M: RoutingMemoStore>(
        config: RoutingConfig,
        memo: &mut M,
        negative_ttl: Duration,
    ) -> (router: Self)
        requires
            old(memo).view().can_activate(fingerprint(config.upstreams@)),
        ensures
            router.config == config,
            final(memo).view() == old(memo).view().activate(fingerprint(config.upstreams@)),
            router.generation == final(memo).view().generation,
            router.negative_ttl == negative_ttl,
    {
        let order = order_fingerprint(&config.upstreams);
        let generation = memo.activate_order(order.as_str());
        Router { config, generation, negative_ttl }
    }

    /// Begins to determine the upstream for `repository`.
    pub fn resolve<M: RoutingMemoStore>(
        &self,
        memo: &mut M,
        repository: &str,
        ns_hint: Option<&str>,
        now: u64,
    ) -> (step: RouteStep)
        ensures
            (step@, final(memo).view()) == self.first_step(
                old(memo).view(),
                repository@,
                hint_text(ns_hint),
                now,
            ),
            step.is_for(repository@),
            step matches RouteStep::Probe(pending) ==> self.covers(pending.stage),
    {
        if let Some(hint) = ns_hint {
            return self.resolve_via_ns_hint(repository, hint);
        }
        if let Some(recorded) = memo.get(repository) {
            return match self.config.index_of(recorded.as_str()) {
                Some(i) => RouteStep::Probe(
                    PendingProbe { repository: repository.to_owned(), stage: ProbeStage::Memo(i) },
                ),
                None => {
                    memo.discard(repository);
                    self.resolve_via_fallback(memo, repository, 0, None, now)
                },
            };
        }
        if memo.is_negative_cached(repository, now) {
            return RouteStep::Done(Err(RoutingError::NotFoundOnAnyUpstream));
        }
        self.resolve_via_fallback(memo, repository, 0, None, now)
    }

    /// Goes on with a resolution once the upstream that it waits for has answered, or has not
    /// answered in time.
    pub fn advance<M: RoutingMemoStore>(
        &self,
        memo: &mut M,
        pending: PendingProbe,
        answer: Option<ProbeOutcome>,
        now: u64,
    ) -> (step: RouteStep)
        requires
            self.covers(pending.stage),
        ensures
            (step@, final(memo).view()) == self.next_step(
                old(memo).view(),
                pending.repository@,
                pending.stage,
                outcome_of(answer),
                now,
            ),
            step.is_for(pending.repository@),
            step matches RouteStep::Probe(next) ==> self.covers(next.stage),
    {
        let outcome = match answer {
            Some(outcome) => outcome,
            None => ProbeOutcome::Unreachable,
        };
        assert(self.config.upstreams.len() <= usize::MAX);
        let repository = pending.repository;
        match pending.stage {
            ProbeStage::Hint(i) => match outcome {
                ProbeOutcome::Unreachable => self.unreachable(i),
                ProbeOutcome::Found | ProbeOutcome::NotFound => self.found(
                    i,
                    ResolutionSource::NsHint,
                ),
            },
            ProbeStage::Memo(i) => match outcome {
                ProbeOutcome::Found => self.found(i, ResolutionSource::Memo),
                ProbeOutcome::NotFound => {
                    memo.discard(repository.as_str());
                    self.resolve_via_fallback(memo, repository.as_str(), 0, None, now)
                },
                ProbeOutcome::Unreachable => self.unreachable(i),
            },
            ProbeStage::Fallback { index, unreachable } => match outcome {
                ProbeOutcome::Found => {
                    memo.put(
                        repository.as_str(),
                        self.config.upstreams[index].id.as_str(),
                        self.generation,
                    );
                    self.found(index, ResolutionSource::Fallback)
                },
                ProbeOutcome::NotFound => self.resolve_via_fallback(
                    memo,
                    repository.as_str(),
                    index + 1,
                    unreachable,
                    now,
                ),
                ProbeOutcome::Unreachable => {
                    let first = match unreachable {
                        Some(u) => u,
                        None => index,
                    };
                    self.resolve_via_fallback(
                        memo,
                        repository.as_str(),
                        index + 1,
                        Some(first),
                        now,
                    )
                },
            },
        }
    }

    /// Follows a namespace hint: only the upstream that it names is asked.
    fn resolve_via_ns_hint(&self, repository: &str, hint: &str) -> (step: RouteStep)
        ensures
            step@ == (match config::position(self.config.upstreams@, hint@) {
                Some(i) => StepView::Probe(ProbeStage::Hint(i as usize)),
                None => StepView::Done(Verdict::UnknownUpstream(hint@)),
            }),
            step.is_for(repository@),
            step matches RouteStep::Probe(pending) ==> self.covers(pending.stage),
    {
        match self.config.index_of(hint) {
            Some(i) => RouteStep::Probe(
                PendingProbe { repository: repository.to_owned(), stage: ProbeStage::Hint(i) },
            ),
            None => RouteStep::Done(Err(RoutingError::UnknownUpstream(hint.to_owned()))),
        }
    }

    /// Goes on with the search at place `index`.
    fn resolve_via_fallback<M: RoutingMemoStore>(
        &self,
        memo: &mut M,
        repository: &str,
        index: usize,
        unreachable: Option<usize>,
        now: u64,
    ) -> (step: RouteStep)
        requires
            index <= self.config.upstreams@.len(),
            unreachable matches Some(u) ==> u < index,
        ensures
            (step@, final(memo).view()) == self.search(
                old(memo).view(),
                repository@,
                index as int,
                unreachable,
                now,
            ),
            step.is_for(repository@),
            step matches RouteStep::Probe(pending) ==> self.covers(pending.stage),
    {
        if index < self.config.upstreams.len() {
            return RouteStep::Probe(
                PendingProbe {
                    repository: repository.to_owned(),
                    stage: ProbeStage::Fallback { index, unreachable },
                },
            );
        }
        match unreachable {
            Some(u) => self.unreachable(u),
            None => {
                memo.put_negative(repository, clock::deadline_after(now, self.negative_ttl));
                RouteStep::Done(Err(RoutingError::NotFoundOnAnyUpstream))
            },
        }
    }

    /// The end of a resolution at the upstream with place `i`.
    fn found(&self, i: usize, source: ResolutionSource) -> (step: RouteStep)
        requires
            i < self.config.upstreams@.len(),
        ensures
            step@ == StepView::Done(Verdict::Found { upstream: self.id(i as int), source }),
            step is Done,
    {
        let upstream = self.config.upstreams[i].id.clone();
        RouteStep::Done(Ok(Resolution { upstream, source }))
    }

    /// The end of a resolution for want of an answer from the upstream with place `i`.
    fn unreachable(&self, i: usize) -> (step: RouteStep)
        requires
            i < self.config.upstreams@.len(),
        ensures
            step@ == StepView::Done(Verdict::Unreachable(self.id(i as int))),
            step is Done,
    {
        RouteStep::Done(Err(RoutingError::Unreachable(self.config.upstreams[i].id.clone())))
    }
}

} // verus!
