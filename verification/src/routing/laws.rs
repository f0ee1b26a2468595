//! What holds of a resolution as a whole.
use vstd::prelude::*;

use crate::clock;
use crate::routing::config;
use crate::routing::config::Upstream;
use crate::routing::memo::MemoView;
use crate::routing::probe;
use crate::routing::probe::ProbeOutcome;
use crate::routing::router;
use crate::routing::router::{
    PendingProbe, ProbeStage, Resolution, ResolutionSource, RouteStep, Router, RoutingError,
    StepView, Verdict,
};
use crate::text;

verus! {

/// Where a resolution stands, and what the memo holds, after the upstreams that were asked have
/// given `answers`, each with the time of its arrival.
pub open spec fn run(
    router: Router,
    repository: Seq<char>,
    at: (StepView, MemoView),
    answers: Seq<(ProbeOutcome, u64)>,
) -> (StepView, MemoView)
    decreases answers.len(),
{
    match at.0 {
        StepView::Probe(stage) => if answers.len() == 0 {
            at
        } else {
            run(
                router,
                repository,
                router.next_step(at.1, repository, stage, answers[0].0, answers[0].1),
                answers.skip(1),
            )
        },
        StepView::Done(_) => at,
    }
}

/// None of `answers` says that the repository was found.
pub open spec fn none_found(answers: Seq<(ProbeOutcome, u64)>) -> bool {
    forall|j: int| 0 <= j < answers.len() ==> (#[trigger] answers[j]).0 != ProbeOutcome::Found
}

/// The first of `answers` that is none.
pub open spec fn first_silent(answers: Seq<(ProbeOutcome, u64)>) -> Option<usize>
    decreases answers.len(),
{
    if answers.len() == 0 {
        None
    } else {
        match first_silent(answers.drop_last()) {
            Some(u) => Some(u),
            None => if answers.last().0 == ProbeOutcome::Unreachable {
                Some((answers.len() - 1) as usize)
            } else {
                None
            },
        }
    }
}

/// `first_silent` is the first answer that is none, if there is one.
pub proof fn lemma_first_silent(answers: Seq<(ProbeOutcome, u64)>)
    requires
        answers.len() <= usize::MAX,
    ensures
        match first_silent(answers) {
            Some(u) => {
                &&& u < answers.len()
                &&& answers[u as int].0 == ProbeOutcome::Unreachable
                &&& forall|j: int|
                    0 <= j < u ==> (#[trigger] answers[j]).0 != ProbeOutcome::Unreachable
            },
            None => forall|j: int|
                0 <= j < answers.len() ==> (#[trigger] answers[j]).0 != ProbeOutcome::Unreachable,
        },
    decreases answers.len(),
{
    if answers.len() > 0 {
        let init = answers.drop_last();
        lemma_first_silent(init);
        assert(forall|j: int| 0 <= j < init.len() ==> init[j] == answers[j]);
    }
}

/// One more answer, after all the others.
proof fn lemma_run_one_more(
    router: Router,
    repository: Seq<char>,
    at: (StepView, MemoView),
    answers: Seq<(ProbeOutcome, u64)>,
)
    requires
        answers.len() > 0,
    ensures
        run(router, repository, at, answers) == run(
            router,
            repository,
            run(router, repository, at, answers.drop_last()),
            seq![answers.last()],
        ),
    decreases answers.len(),
{
    reveal_with_fuel(run, 2);
    if let StepView::Probe(stage) = at.0 {
        if answers.len() == 1 {
            assert(answers == seq![answers.last()]);
            assert(answers.drop_last() == Seq::<(ProbeOutcome, u64)>::empty());
        } else {
            let next = router.next_step(at.1, repository, stage, answers[0].0, answers[0].1);
            let rest = answers.skip(1);
            lemma_run_one_more(router, repository, next, rest);
            assert(rest.drop_last() == answers.drop_last().skip(1));
            assert(rest.last() == answers.last());
            assert(answers.drop_last()[0] == answers[0]);
        }
    }
}

/// A request without a hint, for a repository of which nothing is on record, starts the search.
pub proof fn law_unknown_repository_is_searched(
    router: Router,
    memo: MemoView,
    repository: Seq<char>,
    now: u64,
)
    requires
        !memo.entries.contains_key(repository),
        !memo.negative_at(repository, now),
    ensures
        router.first_step(memo, repository, None, now) == router.search(
            memo.prune(repository, now),
            repository,
            0,
            None,
            now,
        ),
        memo.prune(repository, now).entries == memo.entries,
        memo.prune(repository, now).generation == memo.generation,
{
}

/// The search asks the upstreams one after another in the configured order, and neither a denial
/// nor a missing answer keeps it from the next one.
pub proof fn law_search_asks_in_configured_order(
    router: Router,
    memo: MemoView,
    repository: Seq<char>,
    now: u64,
    answers: Seq<(ProbeOutcome, u64)>,
)
    requires
        none_found(answers),
        answers.len() < router.config.upstreams@.len(),
    ensures
        run(router, repository, router.search(memo, repository, 0, None, now), answers) == (
            StepView::Probe(
                ProbeStage::Fallback {
                    index: answers.len() as usize,
                    unreachable: first_silent(answers),
                },
            ),
            memo,
        ),
    decreases answers.len(),
{
    assert(router.config.upstreams.len() <= usize::MAX);
    let start = router.search(memo, repository, 0, None, now);
    if answers.len() > 0 {
        let init = answers.drop_last();
        assert forall|j: int| 0 <= j < init.len() implies (#[trigger] init[j]).0
            != ProbeOutcome::Found by {
            assert(answers[j].0 != ProbeOutcome::Found);
        }
        assert(answers[answers.len() - 1].0 != ProbeOutcome::Found);
        law_search_asks_in_configured_order(router, memo, repository, now, init);
        lemma_run_one_more(router, repository, start, answers);
        reveal_with_fuel(run, 2);
    }
}

/// The first upstream, in the configured order, that has the repository is the result, whatever
/// those after it would say; it is recorded for the repository.
pub proof fn law_first_success_wins(
    router: Router,
    memo: MemoView,
    repository: Seq<char>,
    now: u64,
    answers: Seq<(ProbeOutcome, u64)>,
)
    requires
        0 < answers.len() <= router.config.upstreams@.len(),
        none_found(answers.drop_last()),
        answers.last().0 == ProbeOutcome::Found,
    ensures
        ({
            let winner = router.id(answers.len() - 1);
            run(router, repository, router.search(memo, repository, 0, None, now), answers) == (
                StepView::Done(
                    Verdict::Found { upstream: winner, source: ResolutionSource::Fallback },
                ),
                memo.put(repository, winner, router.generation),
            )
        }),
{
    let start = router.search(memo, repository, 0, None, now);
    assert(router.config.upstreams.len() <= usize::MAX);
    law_search_asks_in_configured_order(router, memo, repository, now, answers.drop_last());
    lemma_run_one_more(router, repository, start, answers);
    reveal_with_fuel(run, 2);
}

/// When the last of `answers` came to a search that began at `now`.
pub open spec fn last_time(now: u64, answers: Seq<(ProbeOutcome, u64)>) -> u64 {
    if answers.len() == 0 {
        now
    } else {
        answers.last().1
    }
}

/// Where no upstream has the repository, the result is that none has it only if each one denied
/// it, and this is recorded. Else the result names the first upstream that gave no answer, and
/// nothing is recorded.
pub proof fn law_failed_search(
    router: Router,
    memo: MemoView,
    repository: Seq<char>,
    now: u64,
    answers: Seq<(ProbeOutcome, u64)>,
)
    requires
        answers.len() == router.config.upstreams@.len(),
        none_found(answers),
    ensures
        run(router, repository, router.search(memo, repository, 0, None, now), answers) == (
        match first_silent(answers) {
            Some(u) => (StepView::Done(Verdict::Unreachable(router.id(u as int))), memo),
            None => (
                StepView::Done(Verdict::NotFoundOnAnyUpstream),
                memo.put_negative(
                    repository,
                    clock::deadline(last_time(now, answers), router.negative_ttl),
                ),
            ),
        }),
        (first_silent(answers) is None) == (forall|j: int|
            0 <= j < answers.len() ==> (#[trigger] answers[j]).0 == ProbeOutcome::NotFound),
{
    assert(router.config.upstreams.len() <= usize::MAX);
    let start = router.search(memo, repository, 0, None, now);
    if answers.len() > 0 {
        let init = answers.drop_last();
        assert forall|j: int| 0 <= j < init.len() implies (#[trigger] init[j]).0
            != ProbeOutcome::Found by {
            assert(answers[j].0 != ProbeOutcome::Found);
        }
        assert(answers[answers.len() - 1].0 != ProbeOutcome::Found);
        law_search_asks_in_configured_order(router, memo, repository, now, init);
        lemma_run_one_more(router, repository, start, answers);
        reveal_with_fuel(run, 2);
    }
    lemma_first_silent(answers);
    if let Some(u) = first_silent(answers) {
        assert(answers[u as int].0 == ProbeOutcome::Unreachable);
    }
}

/// With a namespace hint, only the upstream that it names is asked, at most once, and the memo is
/// neither read nor changed.
pub proof fn law_hint_asks_one_upstream(
    router: Router,
    memo: MemoView,
    other: MemoView,
    repository: Seq<char>,
    hint: Seq<char>,
    now: u64,
    outcome: ProbeOutcome,
    later: u64,
)
    ensures
        router.first_step(memo, repository, Some(hint), now).0 == router.first_step(
            other,
            repository,
            Some(hint),
            now,
        ).0,
        router.first_step(memo, repository, Some(hint), now).1 == memo,
        match router.first_step(memo, repository, Some(hint), now).0 {
            StepView::Probe(stage) => {
                &&& router.covers(stage)
                &&& router.id(stage.target() as int) == hint
                &&& router.next_step(memo, repository, stage, outcome, later) == (
                    if outcome == ProbeOutcome::Unreachable {
                        StepView::Done(Verdict::Unreachable(hint))
                    } else {
                        StepView::Done(
                            Verdict::Found { upstream: hint, source: ResolutionSource::NsHint },
                        )
                    },
                    memo,
                )
            },
            StepView::Done(verdict) => verdict == Verdict::UnknownUpstream(hint),
        },
{
    assert(router.config.upstreams.len() <= usize::MAX);
    if let Some(i) = config::position(router.config.upstreams@, hint) {
        assert(config::is_first(router.config.upstreams@, hint, i));
    }
}

/// Once the search has found an upstream for a repository, later requests for it without a hint
/// ask that upstream and no other as long as it has the repository and the order is unchanged.
pub proof fn law_record_spares_the_search(
    router: Router,
    memo: MemoView,
    repository: Seq<char>,
    now: u64,
    answers: Seq<(ProbeOutcome, u64)>,
    later: u64,
    even_later: u64,
)
    requires
        router.generation == memo.generation,
        0 < answers.len() <= router.config.upstreams@.len(),
        none_found(answers.drop_last()),
        answers.last().0 == ProbeOutcome::Found,
    ensures
        ({
            let winner = router.id(answers.len() - 1);
            let after = run(
                router,
                repository,
                router.search(memo, repository, 0, None, now),
                answers,
            ).1;
            let again = router.first_step(after, repository, None, later);
            &&& again.1 == after
            &&& again.0 matches StepView::Probe(ProbeStage::Memo(p))
            &&& p < router.config.upstreams@.len()
            &&& router.id(p as int) == winner
            &&& router.next_step(
                after,
                repository,
                ProbeStage::Memo(p),
                ProbeOutcome::Found,
                even_later,
            ) == (
                StepView::Done(Verdict::Found { upstream: winner, source: ResolutionSource::Memo }),
                after,
            )
        }),
{
    let upstreams = router.config.upstreams@;
    assert(router.config.upstreams.len() <= usize::MAX);
    law_first_success_wins(router, memo, repository, now, answers);
    config::lemma_position_exists(upstreams, answers.len() - 1);
    let winner = router.id(answers.len() - 1);
    let i = config::position(upstreams, winner)->0;
    assert(config::is_first(upstreams, winner, i));
}

/// If the recorded upstream denies having the repository, the record is dropped and the search
/// starts anew with the first upstream. The same happens if the recorded upstream is no longer
/// configured.
pub proof fn law_wrong_record_is_dropped(
    router: Router,
    memo: MemoView,
    repository: Seq<char>,
    now: u64,
    later: u64,
)
    requires
        memo.entries.contains_key(repository),
    ensures
        !memo.discard(repository).entries.contains_key(repository),
        match router.first_step(memo, repository, None, now) {
            (StepView::Probe(ProbeStage::Memo(p)), same) => {
                &&& router.id(p as int) == memo.entries[repository]
                &&& router.next_step(
                    same,
                    repository,
                    ProbeStage::Memo(p),
                    ProbeOutcome::NotFound,
                    later,
                ) == router.search(memo.discard(repository), repository, 0, None, later)
            },
            other => other == router.search(memo.discard(repository), repository, 0, None, now),
        },
{
    assert(router.config.upstreams.len() <= usize::MAX);
    let recorded = memo.entries[repository];
    if let Some(i) = config::position(router.config.upstreams@, recorded) {
        assert(config::is_first(router.config.upstreams@, recorded, i));
    }
}

/// After each upstream has denied having a repository, requests for it without a hint are
/// answered the same way without asking any upstream until the finding expires; from then on the
/// search is made again.
pub proof fn law_denial_is_remembered(
    router: Router,
    memo: MemoView,
    repository: Seq<char>,
    now: u64,
    answers: Seq<(ProbeOutcome, u64)>,
    later: u64,
)
    requires
        !memo.entries.contains_key(repository),
        answers.len() == router.config.upstreams@.len(),
        forall|j: int|
            0 <= j < answers.len() ==> (#[trigger] answers[j]).0 == ProbeOutcome::NotFound,
    ensures
        ({
            let after = run(
                router,
                repository,
                router.search(memo, repository, 0, None, now),
                answers,
            ).1;
            let expiry = clock::deadline(last_time(now, answers), router.negative_ttl);
            &&& later < expiry ==> router.first_step(after, repository, None, later) == (
                StepView::Done(Verdict::NotFoundOnAnyUpstream),
                after,
            )
            &&& later >= expiry ==> router.first_step(after, repository, None, later)
                == router.search(after.prune(repository, later), repository, 0, None, later)
        }),
{
    law_failed_search(router, memo, repository, now, answers);
}

/// Every resolution comes to an end after at most one answer more than there are upstreams.
pub proof fn law_resolution_ends(
    router: Router,
    memo: MemoView,
    repository: Seq<char>,
    ns_hint: Option<Seq<char>>,
    now: u64,
    answers: Seq<(ProbeOutcome, u64)>,
)
    requires
        answers.len() > router.config.upstreams@.len(),
    ensures
        run(
            router,
            repository,
            router.first_step(memo, repository, ns_hint, now),
            answers,
        ).0 is Done,
{
    assert(router.config.upstreams.len() <= usize::MAX);
    reveal_with_fuel(run, 2);
    let start = router.first_step(memo, repository, ns_hint, now);
    if let StepView::Probe(stage) = start.0 {
        match stage {
            ProbeStage::Fallback { index, unreachable } => {
                lemma_search_ends(router, start.1, repository, index, unreachable, answers);
            },
            _ => {
                let next = router.next_step(start.1, repository, stage, answers[0].0, answers[0].1);
                if let StepView::Probe(ProbeStage::Fallback { index, unreachable }) = next.0 {
                    lemma_search_ends(
                        router,
                        next.1,
                        repository,
                        index,
                        unreachable,
                        answers.skip(1),
                    );
                }
            },
        }
    }
}

/// The search ends after as many answers as there are upstreams left.
proof fn lemma_search_ends(
    router: Router,
    memo: MemoView,
    repository: Seq<char>,
    index: usize,
    unreachable: Option<usize>,
    answers: Seq<(ProbeOutcome, u64)>,
)
    requires
        index < router.config.upstreams@.len(),
        answers.len() >= router.config.upstreams@.len() - index,
    ensures
        run(
            router,
            repository,
            (StepView::Probe(ProbeStage::Fallback { index, unreachable }), memo),
            answers,
        ).0 is Done,
    decreases answers.len(),
{
    assert(router.config.upstreams.len() <= usize::MAX);
    reveal_with_fuel(run, 2);
    let stage = ProbeStage::Fallback { index, unreachable };
    let next = router.next_step(memo, repository, stage, answers[0].0, answers[0].1);
    if let StepView::Probe(ProbeStage::Fallback { index: i, unreachable: u }) = next.0 {
        lemma_search_ends(router, next.1, repository, i, u, answers.skip(1));
    }
}

/// A router whose order is no longer in force records no upstream for any repository, whatever the
/// upstreams answer. That each one denied having a repository does not depend on their order, and
/// is recorded all the same.
pub proof fn law_outdated_router_records_no_upstream(
    router: Router,
    repository: Seq<char>,
    at: (StepView, MemoView),
    answers: Seq<(ProbeOutcome, u64)>,
    ns_hint: Option<Seq<char>>,
    now: u64,
)
    requires
        router.generation != at.1.generation,
    ensures
        run(router, repository, at, answers).1.entries.submap_of(at.1.entries),
        run(
            router,
            repository,
            router.first_step(at.1, repository, ns_hint, now),
            answers,
        ).1.entries.submap_of(at.1.entries),
{
    lemma_outdated_run(router, repository, at, answers);
    let start = router.first_step(at.1, repository, ns_hint, now);
    lemma_outdated_run(router, repository, start, answers);
    lemma_submap_trans(
        run(router, repository, start, answers).1.entries,
        start.1.entries,
        at.1.entries,
    );
}

/// Part of a part is a part.
proof fn lemma_submap_trans(
    a: Map<Seq<char>, Seq<char>>,
    b: Map<Seq<char>, Seq<char>>,
    c: Map<Seq<char>, Seq<char>>,
)
    requires
        a.submap_of(b),
        b.submap_of(c),
    ensures
        a.submap_of(c),
{
    assert forall|k: Seq<char>| #[trigger] a.dom().contains(k) implies c.dom().contains(k) && a[k]
        == c[k] by {
        assert(b.dom().contains(k));
    }
}

/// The answers to an outdated router add nothing to what is on record.
proof fn lemma_outdated_run(
    router: Router,
    repository: Seq<char>,
    at: (StepView, MemoView),
    answers: Seq<(ProbeOutcome, u64)>,
)
    requires
        router.generation != at.1.generation,
    ensures
        run(router, repository, at, answers).1.entries.submap_of(at.1.entries),
    decreases answers.len(),
{
    if let StepView::Probe(stage) = at.0 {
        if answers.len() > 0 {
            let next = router.next_step(at.1, repository, stage, answers[0].0, answers[0].1);
            lemma_outdated_run(router, repository, next, answers.skip(1));
            lemma_submap_trans(
                run(router, repository, at, answers).1.entries,
                next.1.entries,
                at.1.entries,
            );
        }
    }
}

/// An upstream that a resolution gives is configured.
pub proof fn law_result_is_configured(
    router: Router,
    memo: MemoView,
    repository: Seq<char>,
    ns_hint: Option<Seq<char>>,
    now: u64,
    answers: Seq<(ProbeOutcome, u64)>,
    upstream: Seq<char>,
    source: ResolutionSource,
)
    requires
        run(router, repository, router.first_step(memo, repository, ns_hint, now), answers).0
            == StepView::Done(Verdict::Found { upstream, source }),
    ensures
        config::position(router.config.upstreams@, upstream) is Some,
{
    assert(router.config.upstreams.len() <= usize::MAX);
    let start = router.first_step(memo, repository, ns_hint, now);
    if let StepView::Probe(stage) = start.0 {
        let upstreams = router.config.upstreams@;
        assert(router.covers(stage)) by {
            if let Some(hint) = ns_hint {
                if let Some(i) = config::position(upstreams, hint) {
                    assert(config::is_first(upstreams, hint, i));
                }
            } else if memo.entries.contains_key(repository) {
                let recorded = memo.entries[repository];
                if let Some(i) = config::position(upstreams, recorded) {
                    assert(config::is_first(upstreams, recorded, i));
                }
            }
        }
        lemma_result_is_configured(router, repository, start, answers, upstream, source);
    }
}

/// What a resolution that waits for a configured upstream gives is configured.
proof fn lemma_result_is_configured(
    router: Router,
    repository: Seq<char>,
    at: (StepView, MemoView),
    answers: Seq<(ProbeOutcome, u64)>,
    upstream: Seq<char>,
    source: ResolutionSource,
)
    requires
        at.0 matches StepView::Probe(stage) && router.covers(stage),
        run(router, repository, at, answers).0 == StepView::Done(
            Verdict::Found { upstream, source },
        ),
    ensures
        config::position(router.config.upstreams@, upstream) is Some,
    decreases answers.len(),
{
    assert(router.config.upstreams.len() <= usize::MAX);
    reveal_with_fuel(run, 2);
    let stage = at.0->Probe_0;
    config::lemma_position_exists(router.config.upstreams@, stage.target() as int);
    let next = router.next_step(at.1, repository, stage, answers[0].0, answers[0].1);
    if next.0 is Probe {
        lemma_result_is_configured(
            router,
            repository,
            next,
            answers.skip(1),
            upstream,
            source,
        );
    }
}

/// Putting another order into force drops every record and starts the next generation; putting the
/// same order into force again changes nothing.
pub proof fn law_new_order_starts_afresh(memo: MemoView, order: Seq<char>)
    requires
        memo.can_activate(order),
    ensures
        memo.fingerprint != Some(order) ==> {
            &&& memo.activate(order).entries == Map::<Seq<char>, Seq<char>>::empty()
            &&& memo.activate(order).generation == memo.generation + 1
        },
        memo.fingerprint == Some(order) ==> memo.activate(order) == memo,
        memo.activate(order).activate(order) == memo.activate(order),
{
}

/// The memo after these orders came into force, one after another.
pub open spec fn activated(memo: MemoView, orders: Seq<Seq<char>>) -> MemoView
    decreases orders.len(),
{
    if orders.len() == 0 {
        memo
    } else {
        activated(memo, orders.drop_last()).activate(orders.last())
    }
}

/// Different orders that come into force one after another have different generations.
pub proof fn law_orders_have_different_generations(
    memo: MemoView,
    orders: Seq<Seq<char>>,
    i: int,
    j: int,
)
    requires
        orders.no_duplicates(),
        memo.generation + orders.len() <= u64::MAX,
        0 <= i < j < orders.len(),
    ensures
        activated(memo, orders.take(i + 1)).generation < activated(
            memo,
            orders.take(j + 1),
        ).generation,
    decreases j,
{
    let before = activated(memo, orders.take(j));
    lemma_generations_are_counted(memo, orders.take(j));
    assert(orders.take(j + 1).drop_last() == orders.take(j));
    assert(orders.take(j + 1).last() == orders[j]);
    assert(orders.take(j).last() == orders[j - 1]);
    assert(before.fingerprint == Some(orders[j - 1]));
    assert(activated(memo, orders.take(j + 1)).generation == before.generation + 1);
    if i < j - 1 {
        law_orders_have_different_generations(memo, orders, i, j - 1);
    }
}

/// Each order starts at most one generation, and the last one is in force.
proof fn lemma_generations_are_counted(memo: MemoView, orders: Seq<Seq<char>>)
    requires
        memo.generation + orders.len() <= u64::MAX,
    ensures
        memo.generation <= activated(memo, orders).generation <= memo.generation + orders.len(),
        orders.len() > 0 ==> activated(memo, orders).fingerprint == Some(orders.last()),
    decreases orders.len(),
{
    if orders.len() > 0 {
        lemma_generations_are_counted(memo, orders.drop_last());
    }
}

/// Two orders of upstreams have the same fingerprint only if they are the same, provided that no id
/// holds the separator, and that no id is empty where one of the orders is.
pub proof fn law_fingerprint_tells_orders_apart(a: Seq<Upstream>, b: Seq<Upstream>)
    requires
        forall|i: int| 0 <= i < a.len() ==> !(#[trigger] a[i]).id@.contains('\0'),
        forall|i: int| 0 <= i < b.len() ==> !(#[trigger] b[i]).id@.contains('\0'),
        b.len() == 0 ==> forall|i: int| 0 <= i < a.len() ==> (#[trigger] a[i]).id@.len() > 0,
        a.len() == 0 ==> forall|i: int| 0 <= i < b.len() ==> (#[trigger] b[i]).id@.len() > 0,
        router::fingerprint(a) == router::fingerprint(b),
    ensures
        router::ids(a) == router::ids(b),
{
    let x = router::ids(a);
    let y = router::ids(b);
    assert(forall|i: int| 0 <= i < x.len() ==> !(#[trigger] x[i]).contains('\0'));
    assert(forall|i: int| 0 <= i < y.len() ==> !(#[trigger] y[i]).contains('\0'));
    if x.len() > 0 && y.len() > 0 {
        text::lemma_joined_injective(x, y, '\0');
    } else if x.len() > 0 {
        lemma_joined_is_not_empty(x);
    } else if y.len() > 0 {
        lemma_joined_is_not_empty(y);
    }
}

/// Joining parts of which none is empty gives something.
proof fn lemma_joined_is_not_empty(parts: Seq<Seq<char>>)
    requires
        parts.len() > 0,
        forall|i: int| 0 <= i < parts.len() ==> (#[trigger] parts[i]).len() > 0,
    ensures
        text::joined(parts, '\0').len() > 0,
{
    assert(parts[parts.len() - 1].len() > 0);
}

// ---------------------------------------------------------------------------
// Each decision by itself
// ---------------------------------------------------------------------------

/// An id stands for the first upstream that has it, and for none if no upstream has it.
pub proof fn law_id_stands_for_the_first_upstream(upstreams: Seq<Upstream>, id: Seq<char>)
    ensures
        match config::position(upstreams, id) {
            Some(i) => {
                &&& 0 <= i < upstreams.len()
                &&& upstreams[i].id@ == id
                &&& forall|j: int| 0 <= j < i ==> (#[trigger] upstreams[j]).id@ != id
            },
            None => forall|j: int|
                0 <= j < upstreams.len() ==> (#[trigger] upstreams[j]).id@ != id,
        },
{
    match config::position(upstreams, id) {
        Some(i) => {
            assert(config::is_first(upstreams, id, i));
        },
        None => {
            assert forall|j: int| 0 <= j < upstreams.len() implies (#[trigger] upstreams[j]).id@
                != id by {
                if upstreams[j].id@ == id {
                    config::lemma_position_exists(upstreams, j);
                }
            }
        },
    }
}

/// The first upstream with an id is what the id stands for.
proof fn lemma_first_is_position(upstreams: Seq<Upstream>, id: Seq<char>, i: int)
    requires
        0 <= i < upstreams.len(),
        upstreams[i].id@ == id,
        forall|j: int| 0 <= j < i ==> (#[trigger] upstreams[j]).id@ != id,
    ensures
        config::position(upstreams, id) == Some(i),
{
    assert(config::is_first(upstreams, id, i));
    config::lemma_position(upstreams, id, i);
}

/// An id that no upstream has stands for none.
proof fn lemma_no_position(upstreams: Seq<Upstream>, id: Seq<char>)
    requires
        forall|j: int| 0 <= j < upstreams.len() ==> (#[trigger] upstreams[j]).id@ != id,
    ensures
        config::position(upstreams, id) is None,
{
    if let Some(i) = config::position(upstreams, id) {
        assert(config::is_first(upstreams, id, i));
        assert(upstreams[i].id@ != id);
    }
}

/// A status says that a repository is there if it is 200, that it is not if it is 404, and neither
/// if it is any other. An answer that did not come in time says neither.
pub proof fn law_only_two_statuses_say_something(status: u16, answer: ProbeOutcome)
    ensures
        probe::outcome_for(status) == ProbeOutcome::Found <==> status == 200,
        probe::outcome_for(status) == ProbeOutcome::NotFound <==> status == 404,
        probe::outcome_for(status) == ProbeOutcome::Unreachable <==> status != 200 && status != 404,
        router::outcome_of(Some(answer)) == answer,
        router::outcome_of(None) == ProbeOutcome::Unreachable,
{
}

/// A record is taken under the current generation alone, for its repository alone, and is what is
/// found there afterwards. Dropping one affects no other.
pub proof fn law_records(
    memo: MemoView,
    repository: Seq<char>,
    upstream: Seq<char>,
    generation: u64,
    other: Seq<char>,
)
    ensures
        generation != memo.generation ==> memo.put(repository, upstream, generation) == memo,
        generation == memo.generation ==> {
            let after = memo.put(repository, upstream, generation);
            &&& after.entries.contains_key(repository)
            &&& after.entries[repository] == upstream
            &&& other != repository ==> {
                &&& after.entries.contains_key(other) == memo.entries.contains_key(other)
                &&& memo.entries.contains_key(other) ==> after.entries[other]
                    == memo.entries[other]
            }
            &&& after.negative == memo.negative
            &&& after.fingerprint == memo.fingerprint
            &&& after.generation == memo.generation
        },
        ({
            let after = memo.discard(repository);
            &&& !after.entries.contains_key(repository)
            &&& other != repository ==> {
                &&& after.entries.contains_key(other) == memo.entries.contains_key(other)
                &&& memo.entries.contains_key(other) ==> after.entries[other]
                    == memo.entries[other]
            }
            &&& after.negative == memo.negative
            &&& after.fingerprint == memo.fingerprint
            &&& after.generation == memo.generation
        }),
{
}

/// A finding that no upstream has a repository is in force until it expires, for that repository
/// alone. What has expired is dropped, and nothing else.
pub proof fn law_findings(
    memo: MemoView,
    repository: Seq<char>,
    expires_at: u128,
    now: u64,
    other: Seq<char>,
)
    ensures
        memo.put_negative(repository, expires_at).negative_at(repository, now) <==> now
            < expires_at,
        memo.negative_at(repository, now) <==> memo.negative.contains_key(repository) && now
            < memo.negative[repository],
        other != repository ==> memo.put_negative(repository, expires_at).negative_at(other, now)
            == memo.negative_at(other, now),
        memo.put_negative(repository, expires_at).entries == memo.entries,
        memo.put_negative(repository, expires_at).fingerprint == memo.fingerprint,
        memo.put_negative(repository, expires_at).generation == memo.generation,
        memo.negative_at(repository, now) ==> memo.prune(repository, now) == memo,
        !memo.negative_at(repository, now) ==> !memo.prune(
            repository,
            now,
        ).negative.contains_key(repository),
        other != repository ==> memo.prune(repository, now).negative_at(other, now)
            == memo.negative_at(other, now),
        memo.prune(repository, now).entries == memo.entries,
        memo.prune(repository, now).fingerprint == memo.fingerprint,
        memo.prune(repository, now).generation == memo.generation,
{
}

/// At first nothing is on record and no order is in force. An order that comes into force is in
/// force from then on; another one than before costs a generation, and there must be one left.
/// Findings that no upstream has a repository are kept.
pub proof fn law_orders(memo: MemoView, order: Seq<char>)
    ensures
        MemoView::fresh().entries == Map::<Seq<char>, Seq<char>>::empty(),
        MemoView::fresh().negative == Map::<Seq<char>, u128>::empty(),
        MemoView::fresh().fingerprint is None,
        MemoView::fresh().generation == 0,
        memo.activate(order).fingerprint == Some(order),
        memo.activate(order).negative == memo.negative,
        memo.can_activate(order) <==> (memo.fingerprint == Some(order) || memo.generation
            < u64::MAX),
{
}

/// The fingerprint of an order, cut at its separators, gives the ids in order.
pub proof fn law_fingerprint_holds_the_ids(upstreams: Seq<Upstream>)
    requires
        upstreams.len() > 0,
        forall|i: int| 0 <= i < upstreams.len() ==> !(#[trigger] upstreams[i]).id@.contains('\0'),
    ensures
        ({
            let parts = text::pieces(router::fingerprint(upstreams), '\0');
            &&& parts.len() == upstreams.len()
            &&& forall|i: int| 0 <= i < upstreams.len() ==> #[trigger] parts[i] == upstreams[i].id@
        }),
{
    let x = router::ids(upstreams);
    assert(forall|i: int| 0 <= i < x.len() ==> !(#[trigger] x[i]).contains('\0'));
    text::lemma_pieces_of_joined(x, '\0');
}

/// What a step shows is all there is to it: the upstream and how it was determined, the reason why
/// none was, or the upstream that is asked.
pub proof fn law_steps_show_what_they_are(
    resolution: Resolution,
    id: String,
    pending: PendingProbe,
    repository: Seq<char>,
    hint: &str,
)
    ensures
        RouteStep::Done(Ok(resolution))@ == StepView::Done(
            Verdict::Found { upstream: resolution.upstream@, source: resolution.source },
        ),
        RouteStep::Done(Err(RoutingError::UnknownUpstream(id)))@ == StepView::Done(
            Verdict::UnknownUpstream(id@),
        ),
        RouteStep::Done(Err(RoutingError::Unreachable(id)))@ == StepView::Done(
            Verdict::Unreachable(id@),
        ),
        RouteStep::Done(Err(RoutingError::NotFoundOnAnyUpstream))@ == StepView::Done(
            Verdict::NotFoundOnAnyUpstream,
        ),
        RouteStep::Probe(pending)@ == StepView::Probe(pending.stage),
        RouteStep::Probe(pending).is_for(repository) <==> pending.repository@ == repository,
        router::hint_text(Some(hint)) == Some(hint@),
        router::hint_text(None) is None,
{
}

/// The upstream that a stage waits for is the one that it names, and it must be configured.
pub proof fn law_stage_waits_for_one_upstream(
    router: Router,
    i: usize,
    unreachable: Option<usize>,
)
    ensures
        ProbeStage::Hint(i).target() == i,
        ProbeStage::Memo(i).target() == i,
        (ProbeStage::Fallback { index: i, unreachable }).target() == i,
        router.covers(ProbeStage::Hint(i)) <==> i < router.config.upstreams@.len(),
        router.covers(ProbeStage::Memo(i)) <==> i < router.config.upstreams@.len(),
        router.covers(ProbeStage::Fallback { index: i, unreachable }) <==> i
            < router.config.upstreams@.len() && (unreachable is None || unreachable->0 < i),
        router.id(i as int) == router.config.upstreams@[i as int].id@,
{
}

/// A hint that some upstream has for its id leads to the first one that has it; any other hint is
/// refused at once. Neither touches the memo.
pub proof fn law_hint_is_followed_or_refused(
    router: Router,
    memo: MemoView,
    repository: Seq<char>,
    hint: Seq<char>,
    now: u64,
    i: int,
)
    ensures
        0 <= i < router.config.upstreams@.len() && router.config.upstreams@[i].id@ == hint && (
        forall|j: int| 0 <= j < i ==> (#[trigger] router.config.upstreams@[j]).id@ != hint)
            ==> router.first_step(memo, repository, Some(hint), now) == (
            StepView::Probe(ProbeStage::Hint(i as usize)),
            memo,
        ),
        (forall|j: int|
            0 <= j < router.config.upstreams@.len() ==> (
            #[trigger] router.config.upstreams@[j]).id@ != hint) ==> router.first_step(
            memo,
            repository,
            Some(hint),
            now,
        ) == (StepView::Done(Verdict::UnknownUpstream(hint)), memo),
{
    let upstreams = router.config.upstreams@;
    if 0 <= i < upstreams.len() && upstreams[i].id@ == hint && (forall|j: int|
        0 <= j < i ==> (#[trigger] upstreams[j]).id@ != hint) {
        lemma_first_is_position(upstreams, hint, i);
    }
    if forall|j: int| 0 <= j < upstreams.len() ==> (#[trigger] upstreams[j]).id@ != hint {
        lemma_no_position(upstreams, hint);
    }
}

/// With an upstream on record and no hint, that upstream is asked and, before it has answered, no
/// other. If it has the repository, it is the result. If it gives no answer, the resolution ends
/// with that, whatever other upstreams would say. In both cases the memo stays as it is. If it
/// denies having the repository, its record is dropped, and the search begins with the first
/// upstream.
pub proof fn law_recorded_upstream_decides(
    router: Router,
    memo: MemoView,
    repository: Seq<char>,
    now: u64,
    i: int,
    answers: Seq<(ProbeOutcome, u64)>,
)
    requires
        memo.entries.contains_key(repository),
        0 <= i < router.config.upstreams@.len(),
        router.config.upstreams@[i].id@ == memo.entries[repository],
        forall|j: int|
            0 <= j < i ==> (#[trigger] router.config.upstreams@[j]).id@
                != memo.entries[repository],
    ensures
        ({
            let recorded = memo.entries[repository];
            let start = router.first_step(memo, repository, None, now);
            let end = run(router, repository, start, answers);
            let dropped = MemoView { entries: memo.entries.remove(repository), ..memo };
            &&& start == (StepView::Probe(ProbeStage::Memo(i as usize)), memo)
            &&& answers.len() > 0 && answers[0].0 == ProbeOutcome::Found ==> end == (
                StepView::Done(
                    Verdict::Found { upstream: recorded, source: ResolutionSource::Memo },
                ),
                memo,
            )
            &&& answers.len() > 0 && answers[0].0 == ProbeOutcome::Unreachable ==> end == (
                StepView::Done(Verdict::Unreachable(recorded)),
                memo,
            )
            &&& answers.len() == 1 && answers[0].0 == ProbeOutcome::NotFound ==> end == (
                StepView::Probe(ProbeStage::Fallback { index: 0, unreachable: None }),
                dropped,
            )
        }),
{
    assert(router.config.upstreams.len() <= usize::MAX);
    lemma_first_is_position(router.config.upstreams@, memo.entries[repository], i);
    reveal_with_fuel(run, 3);
}

/// The answer to a hint, and to a record, ends the resolution with the upstream that was asked: as
/// the result, or as the one that gave no answer. Only a denial by an upstream on record does not;
/// the record is dropped then, and the search begins with the first upstream.
pub proof fn law_answer_of_a_known_upstream(
    router: Router,
    memo: MemoView,
    repository: Seq<char>,
    i: usize,
    outcome: ProbeOutcome,
    now: u64,
)
    requires
        i < router.config.upstreams@.len(),
    ensures
        ({
            let id = router.config.upstreams@[i as int].id@;
            let hinted = router.next_step(memo, repository, ProbeStage::Hint(i), outcome, now);
            let recorded = router.next_step(memo, repository, ProbeStage::Memo(i), outcome, now);
            match outcome {
                ProbeOutcome::Unreachable => {
                    &&& hinted == (StepView::Done(Verdict::Unreachable(id)), memo)
                    &&& recorded == (StepView::Done(Verdict::Unreachable(id)), memo)
                },
                ProbeOutcome::Found => {
                    &&& hinted == (
                        StepView::Done(
                            Verdict::Found { upstream: id, source: ResolutionSource::NsHint },
                        ),
                        memo,
                    )
                    &&& recorded == (
                        StepView::Done(
                            Verdict::Found { upstream: id, source: ResolutionSource::Memo },
                        ),
                        memo,
                    )
                },
                ProbeOutcome::NotFound => {
                    &&& hinted == (
                        StepView::Done(
                            Verdict::Found { upstream: id, source: ResolutionSource::NsHint },
                        ),
                        memo,
                    )
                    &&& recorded == (
                        StepView::Probe(ProbeStage::Fallback { index: 0, unreachable: None }),
                        (MemoView { entries: memo.entries.remove(repository), ..memo }),
                    )
                },
            }
        }),
{
}

/// With an upstream on record that is no longer configured, and no hint, the record is dropped, and
/// the search begins with the first upstream.
pub proof fn law_record_of_no_upstream_is_dropped(
    router: Router,
    memo: MemoView,
    repository: Seq<char>,
    now: u64,
)
    requires
        memo.entries.contains_key(repository),
        router.config.upstreams@.len() > 0,
        forall|j: int|
            0 <= j < router.config.upstreams@.len() ==> (
            #[trigger] router.config.upstreams@[j]).id@ != memo.entries[repository],
    ensures
        router.first_step(memo, repository, None, now) == (
            StepView::Probe(ProbeStage::Fallback { index: 0, unreachable: None }),
            (MemoView { entries: memo.entries.remove(repository), ..memo }),
        ),
{
    lemma_no_position(router.config.upstreams@, memo.entries[repository]);
}

/// With nothing on record and no hint, a finding that no upstream has the repository is the result
/// while it is in force. Else the search begins with the first upstream, and a finding that has
/// expired is gone.
pub proof fn law_finding_decides(
    router: Router,
    memo: MemoView,
    repository: Seq<char>,
    now: u64,
)
    requires
        !memo.entries.contains_key(repository),
    ensures
        memo.negative.contains_key(repository) && now < memo.negative[repository]
            ==> router.first_step(memo, repository, None, now) == (
            StepView::Done(Verdict::NotFoundOnAnyUpstream),
            memo,
        ),
        !(memo.negative.contains_key(repository) && now < memo.negative[repository])
            && router.config.upstreams@.len() > 0 ==> router.first_step(
            memo,
            repository,
            None,
            now,
        ) == (
            StepView::Probe(ProbeStage::Fallback { index: 0, unreachable: None }),
            (MemoView { negative: memo.negative.remove(repository), ..memo }),
        ),
{
}

/// Each answer to the search decides the next step: the upstream that has the repository is the
/// result and is recorded under the router's generation; after any other answer the next upstream
/// in order is asked, and the first one that gave no answer is remembered. After the last upstream,
/// the first one that gave no answer is reported; if there is none, it is found, for as long as
/// configured, that no upstream has the repository.
pub proof fn law_search_step(
    router: Router,
    memo: MemoView,
    repository: Seq<char>,
    index: usize,
    unreachable: Option<usize>,
    outcome: ProbeOutcome,
    now: u64,
)
    requires
        index < router.config.upstreams@.len(),
        unreachable is Some ==> unreachable->0 < index,
    ensures
        ({
            let upstreams = router.config.upstreams@;
            let (step, after) = router.next_step(
                memo,
                repository,
                ProbeStage::Fallback { index, unreachable },
                outcome,
                now,
            );
            let silent = if unreachable is Some {
                unreachable
            } else if outcome == ProbeOutcome::Unreachable {
                Some(index)
            } else {
                None
            };
            if outcome == ProbeOutcome::Found {
                &&& step == StepView::Done(
                    Verdict::Found {
                        upstream: upstreams[index as int].id@,
                        source: ResolutionSource::Fallback,
                    },
                )
                &&& router.generation == memo.generation ==> after == (MemoView {
                    entries: memo.entries.insert(repository, upstreams[index as int].id@),
                    ..memo
                })
                &&& router.generation != memo.generation ==> after == memo
            } else if index + 1 < upstreams.len() {
                &&& step == StepView::Probe(
                    ProbeStage::Fallback { index: (index + 1) as usize, unreachable: silent },
                )
                &&& after == memo
            } else if silent is Some {
                &&& step == StepView::Done(
                    Verdict::Unreachable(upstreams[silent->0 as int].id@),
                )
                &&& after == memo
            } else {
                &&& step == StepView::Done(Verdict::NotFoundOnAnyUpstream)
                &&& now + clock::nanos(router.negative_ttl) <= u128::MAX ==> after == (MemoView {
                    negative: memo.negative.insert(
                        repository,
                        (now + clock::nanos(router.negative_ttl)) as u128,
                    ),
                    ..memo
                })
            }
        }),
{
    assert(router.config.upstreams.len() <= usize::MAX);
}

} // verus!
