//! What holds of fetching and keeping content as a whole.
use vstd::prelude::*;

use crate::cache::blob;
use crate::cache::blob::{BlobPath, Filling, StoreEvent, StoreStage};
use crate::cache::error::{BlobFetchError, Failure};
use crate::cache::source;
use crate::cache::source::{
    AuthShape, AuthStep, AuthStepView, AuthView, ClientProtocol, OciBlobSource, PendingToken,
    RegistryAuth, ShapeView, TokenPurpose,
};
use crate::registry_auth;
use crate::registry_auth::{ChallengeView, TokenRequest, UpstreamReply};
use crate::routing::config::{Upstream, UpstreamCredentials};
use crate::text;

verus! {

// ---------------------------------------------------------------------------
// Places
// ---------------------------------------------------------------------------

/// Different digests have different places.
pub proof fn law_one_digest_per_place(a: Seq<char>, b: Seq<char>)
    requires
        blob::digest_parts(a) is Some,
        blob::digest_parts(a) == blob::digest_parts(b),
    ensures
        a == b,
{
    text::lemma_cut_first(a, ':');
    text::lemma_cut_first(b, ':');
}

/// Every digest of the form `<algorithm>:<hex>` has a place, and it is made of these two.
pub proof fn law_every_digest_has_a_place(algorithm: Seq<char>, hex: Seq<char>)
    requires
        blob::is_algorithm(algorithm),
        blob::is_hex(hex),
    ensures
        blob::digest_parts(algorithm.push(':') + hex) == Some((algorithm, hex)),
{
    assert forall|i: int| 0 <= i < algorithm.len() implies algorithm[i] != ':' by {
        assert(blob::is_algorithm_char(algorithm[i]));
    }
    text::lemma_cut_first_unique(algorithm, ':', hex);
}

/// No place leads out of the store: the names in it are not empty and hold neither a path
/// separator nor a dot.
pub proof fn law_places_stay_in_the_store(digest: Seq<char>)
    requires
        blob::digest_parts(digest) is Some,
    ensures
        ({
            let (algorithm, hex) = blob::digest_parts(digest)->0;
            &&& algorithm.len() > 0
            &&& hex.len() > 0
            &&& !algorithm.contains('/') && !algorithm.contains('\\') && !algorithm.contains('.')
            &&& !hex.contains('/') && !hex.contains('\\') && !hex.contains('.')
        }),
{
    let (algorithm, hex) = blob::digest_parts(digest)->0;
    assert forall|i: int| 0 <= i < algorithm.len() implies algorithm[i] != '/' && algorithm[i]
        != '\\' && algorithm[i] != '.' by {
        assert(blob::is_algorithm_char(algorithm[i]));
    }
    assert forall|i: int| 0 <= i < hex.len() implies hex[i] != '/' && hex[i] != '\\' && hex[i]
        != '.' by {
        assert(blob::is_hex_char(hex[i]));
    }
}

/// A dot after dot-free text can be found again.
proof fn lemma_dot_splits(a: Seq<char>, x: Seq<char>, b: Seq<char>, y: Seq<char>)
    requires
        !a.contains('.'),
        !b.contains('.'),
        a.push('.') + x == b.push('.') + y,
    ensures
        a == b,
        x == y,
{
    text::lemma_cut_first_unique(a, '.', x);
    text::lemma_cut_first_unique(b, '.', y);
}

/// A decimal notation holds no dot.
proof fn lemma_decimal_has_no_dot(n: nat)
    ensures
        !text::decimal(n).contains('.'),
{
    text::lemma_decimal_digits(n);
    assert forall|i: int| 0 <= i < text::decimal(n).len() implies text::decimal(n)[i] != '.' by {
        assert('0' <= text::decimal(n)[i]);
    }
}

/// A hash holds no dot.
proof fn lemma_hex_has_no_dot(hex: Seq<char>)
    requires
        blob::is_hex(hex),
    ensures
        !hex.contains('.'),
{
    assert forall|i: int| 0 <= i < hex.len() implies hex[i] != '.' by {
        assert(blob::is_hex_char(hex[i]));
    }
}

/// Incomplete content of different hashes, processes or numbers has different names, and none of
/// them is the name of complete content.
pub proof fn law_incomplete_content_is_kept_apart(
    hex: Seq<char>,
    process: u32,
    n: u64,
    other_hex: Seq<char>,
    other_process: u32,
    other_n: u64,
)
    requires
        blob::is_hex(hex),
        blob::is_hex(other_hex),
    ensures
        blob::tmp_name_for(hex, process, n) == blob::tmp_name_for(other_hex, other_process, other_n)
            ==> hex == other_hex && process == other_process && n == other_n,
        blob::tmp_name_for(hex, process, n) != other_hex,
{
    reveal_strlit(".tmp.");
    reveal_strlit(".");
    let name = blob::tmp_name_for(hex, process, n);
    let other = blob::tmp_name_for(other_hex, other_process, other_n);
    let p = text::decimal(process as nat);
    let q = text::decimal(other_process as nat);
    let number = text::decimal(n as nat);
    let other_number = text::decimal(other_n as nat);
    let tmp = seq!['t', 'm', 'p'];
    assert(name == hex.push('.') + (tmp.push('.') + (p.push('.') + number)));
    assert(other == other_hex.push('.') + (tmp.push('.') + (q.push('.') + other_number)));
    lemma_hex_has_no_dot(hex);
    lemma_hex_has_no_dot(other_hex);
    assert(name[hex.len() as int] == '.');
    if name == other_hex {
        assert(other_hex.contains(name[hex.len() as int]));
    }
    if name == other {
        lemma_decimal_has_no_dot(process as nat);
        lemma_decimal_has_no_dot(other_process as nat);
        lemma_dot_splits(
            hex,
            tmp.push('.') + (p.push('.') + number),
            other_hex,
            tmp.push('.') + (q.push('.') + other_number),
        );
        lemma_dot_splits(tmp, p.push('.') + number, tmp, q.push('.') + other_number);
        lemma_dot_splits(p, number, q, other_number);
        text::lemma_decimal_injective(process as nat, other_process as nat);
        text::lemma_decimal_injective(n as nat, other_n as nat);
    }
}

// ---------------------------------------------------------------------------
// Getting content into the store
// ---------------------------------------------------------------------------

/// Where the work on content stands after `events`.
pub open spec fn after<E>(events: Seq<StoreEvent<E>>) -> StoreStage<E>
    decreases events.len(),
{
    if events.len() == 0 {
        StoreStage::CheckFirst
    } else {
        after(events.drop_last()).next(events.last())
    }
}

/// Each of `events` came of doing what was to be done.
pub open spec fn is_history<E>(events: Seq<StoreEvent<E>>) -> bool
    decreases events.len(),
{
    events.len() == 0 || {
        &&& is_history(events.drop_last())
        &&& after(events.drop_last()).expects(events.last())
    }
}

/// How far the work has come.
pub open spec fn progress<E>(stage: StoreStage<E>) -> int {
    match stage {
        StoreStage::CheckFirst => 0,
        StoreStage::Reserve => 1,
        StoreStage::CheckAgain => 2,
        StoreStage::CreateParent => 3,
        StoreStage::CreateTmp => 4,
        StoreStage::Fill => 5,
        StoreStage::Discard(_) => 6,
        StoreStage::SyncTmp => 7,
        StoreStage::Publish => 8,
        StoreStage::SyncParent => 9,
        StoreStage::Ended(_) => 10,
    }
}

/// Every event brings the work further, except that the name for incomplete content is taken.
pub proof fn law_work_makes_progress<E>(stage: StoreStage<E>, event: StoreEvent<E>)
    requires
        stage.expects(event),
    ensures
        progress(stage) < progress(stage.next(event)) || (stage is CreateTmp && event is Taken
            && stage.next(event) == stage),
{
}

/// Content that is in the store is served from it: nothing is fetched, whether it was there from
/// the beginning or another request put it there meanwhile.
pub proof fn law_stored_content_is_not_fetched<E>(
    events: Seq<StoreEvent<E>>,
    further: Seq<StoreEvent<E>>,
)
    requires
        is_history(events + further),
        events.len() > 0,
        events.last() == StoreEvent::<E>::Checked(true),
    ensures
        further.len() == 0,
        after(events) == StoreStage::<E>::Ended(Ok(())),
        forall|i: int|
            0 <= i <= events.len() ==> !(#[trigger] after(events.take(i)) is Fill),
{
    lemma_history_prefix(events, further);
    let before = after(events.drop_last());
    assert(before is CheckFirst || before is CheckAgain);
    assert(after(events) == StoreStage::<E>::Ended(Ok(())));
    if further.len() > 0 {
        let one = events.push(further[0]);
        assert(one + further.skip(1) == events + further);
        lemma_history_prefix(one, further.skip(1));
        assert(one.drop_last() == events);
    }
    assert forall|i: int| 0 <= i <= events.len() implies !(#[trigger] after(
        events.take(i),
    ) is Fill) by {
        if i == events.len() {
            assert(events.take(i) == events);
        } else {
            lemma_progress_is_lasting(events.drop_last(), i);
            assert(events.drop_last().take(i) == events.take(i));
        }
    }
}

/// What is a history has a history as its beginning.
proof fn lemma_history_prefix<E>(events: Seq<StoreEvent<E>>, further: Seq<StoreEvent<E>>)
    requires
        is_history(events + further),
    ensures
        is_history(events),
    decreases further.len(),
{
    if further.len() == 0 {
        assert(events + further == events);
    } else {
        assert((events + further).drop_last() == events + further.drop_last());
        lemma_history_prefix(events, further.drop_last());
    }
}

/// Work that has come so far does not fall back.
proof fn lemma_progress_is_lasting<E>(events: Seq<StoreEvent<E>>, i: int)
    requires
        is_history(events),
        0 <= i <= events.len(),
    ensures
        progress(after(events.take(i))) <= progress(after(events)),
    decreases events.len(),
{
    if i == events.len() {
        assert(events.take(i) == events);
    } else {
        lemma_progress_is_lasting(events.drop_last(), i);
        assert(events.drop_last().take(i) == events.take(i));
        law_work_makes_progress(after(events.drop_last()), events.last());
    }
}

/// Content is fetched at most once.
pub proof fn law_content_is_fetched_at_most_once<E>(events: Seq<StoreEvent<E>>, i: int, j: int)
    requires
        is_history(events),
        0 <= i < j <= events.len(),
        after(events.take(i)) is Fill,
    ensures
        !(after(events.take(j)) is Fill),
{
    let upto = events.take(j);
    let first = events.take(i + 1);
    assert(upto + events.skip(j) == events);
    lemma_history_prefix(upto, events.skip(j));
    assert(first + events.skip(i + 1) == events);
    lemma_history_prefix(first, events.skip(i + 1));
    assert(first.drop_last() == events.take(i));
    law_work_makes_progress(after(first.drop_last()), first.last());
    lemma_progress_is_lasting(upto, i + 1);
    assert(upto.take(i + 1) == first);
}

/// Content gets the name under which it is found only after it was written completely and made
/// durable.
pub proof fn law_only_complete_content_is_published<E>(events: Seq<StoreEvent<E>>)
    requires
        is_history(events),
        after(events) is Publish,
    ensures
        events.len() >= 2,
        events.last() is Done,
        events.drop_last().last() is Done,
        after(events.drop_last()) is SyncTmp,
        after(events.drop_last().drop_last()) is Fill,
{
    reveal_with_fuel(is_history, 2);
    let before = events.drop_last();
    assert(after(before) is SyncTmp);
    assert(before.len() > 0);
    assert(after(before.drop_last()) is Fill);
}

/// Success is reported only where the content was found in the store, or was published and its
/// name made durable.
pub proof fn law_success_means_stored<E>(events: Seq<StoreEvent<E>>)
    requires
        is_history(events),
        after(events) == StoreStage::<E>::Ended(Ok(())),
    ensures
        events.len() > 0,
        events.last() == StoreEvent::<E>::Checked(true) || {
            &&& events.len() >= 2
            &&& events.last() is Done
            &&& after(events.drop_last()) is SyncParent
            &&& events.drop_last().last() is Done
            &&& after(events.drop_last().drop_last()) is Publish
        },
{
    reveal_with_fuel(is_history, 2);
    let before = events.drop_last();
    if after(before) is SyncParent {
        assert(before.len() > 0);
        assert(after(before.drop_last()) is Publish);
    }
}

/// What happened to a request up to the end of its turn, if these are the events of the turn: it
/// did not find the content, and waited.
pub open spec fn with_turn<E>(turn: Seq<StoreEvent<E>>) -> Seq<StoreEvent<E>> {
    seq![StoreEvent::Checked(false), StoreEvent::Done] + turn
}

/// Content is fetched in this turn.
pub open spec fn fetches<E>(turn: Seq<StoreEvent<E>>) -> bool {
    exists|n: int| 0 <= n <= turn.len() && #[trigger] after(with_turn(turn.take(n))) is Fill
}

/// The content is in the store after this turn.
pub open spec fn succeeds<E>(turn: Seq<StoreEvent<E>>) -> bool {
    after(with_turn(turn)) == StoreStage::<E>::Ended(Ok(()))
}

/// The turns that the holders of a digest take, one after another. One who sees whether the
/// content is there sees it if it is.
pub open spec fn are_turns<E>(turns: Seq<Seq<StoreEvent<E>>>) -> bool {
    &&& forall|k: int| 0 <= k < turns.len() ==> is_history(#[trigger] with_turn(turns[k]))
    &&& forall|i: int, k: int|
        0 <= i < k < turns.len() && #[trigger] succeeds(turns[i]) && (#[trigger] turns[k]).len() > 0
            && turns[k][0] is Checked ==> turns[k][0] == StoreEvent::<E>::Checked(true)
}

/// Of all the requests that hold a digest, none fetches the content after one of them has
/// succeeded.
pub proof fn law_holders_fetch_once<E>(turns: Seq<Seq<StoreEvent<E>>>, i: int, k: int)
    requires
        are_turns(turns),
        0 <= i < k < turns.len(),
        succeeds(turns[i]),
    ensures
        !fetches(turns[k]),
{
    reveal_with_fuel(after, 4);
    let turn = turns[k];
    let start = with_turn(Seq::<StoreEvent<E>>::empty());
    assert(start == seq![StoreEvent::<E>::Checked(false)].push(StoreEvent::<E>::Done));
    assert(start.drop_last() == seq![StoreEvent::<E>::Checked(false)]);
    assert(start.drop_last().drop_last() == Seq::<StoreEvent<E>>::empty());
    assert(after(start) == StoreStage::<E>::CheckAgain);
    assert(turn.take(0) == Seq::<StoreEvent<E>>::empty());
    assert(is_history(with_turn(turn)));
    if turn.len() > 0 {
        let one = with_turn(turn.take(1));
        assert(one == start.push(turn[0]));
        assert(one.drop_last() == start);
        assert(with_turn(turn) == one + turn.skip(1));
        lemma_history_prefix(one, turn.skip(1));
        assert(after(one) is Ended);
        if turn.len() > 1 {
            let two = one.push(turn[1]);
            assert(with_turn(turn) == two + turn.skip(2));
            lemma_history_prefix(two, turn.skip(2));
            assert(two.drop_last() == one);
        }
        assert(turn.len() == 1);
    }
}

/// If the content could not be written, what was written is removed and the failure to write is
/// reported, whether removing it succeeded or not.
pub proof fn law_failed_write_is_cleaned_up<E>(error: E, removal: StoreEvent<E>)
    requires
        StoreStage::Discard(error).expects(removal),
    ensures
        StoreStage::<E>::Fill.next(StoreEvent::Failed(error)) == StoreStage::Discard(error),
        StoreStage::Discard(error).next(removal) == StoreStage::Ended(Err::<(), E>(error)),
{
}

// ---------------------------------------------------------------------------
// Authentication
// ---------------------------------------------------------------------------

/// How authentication ends for `repository` of an upstream that authenticates as `shape` says, if
/// `check` is the token issued without credentials and `credentialed` the one issued with them.
pub open spec fn authentication(
    upstream: Upstream,
    repository: Seq<char>,
    shape: ShapeView,
    check: Option<Seq<char>>,
    credentialed: Option<Seq<char>>,
    trusted: bool,
) -> AuthStepView {
    match source::step_for_shape(upstream, repository, shape, trusted) {
        AuthStepView::FetchToken { challenge, purpose, .. } => {
            match source::step_for_token(
                upstream,
                repository,
                challenge,
                purpose,
                check,
                trusted,
            ) {
                AuthStepView::FetchToken { challenge, purpose, .. } => source::step_for_token(
                    upstream,
                    repository,
                    challenge,
                    purpose,
                    credentialed,
                    trusted,
                ),
                step => step,
            }
        },
        step => step,
    }
}

/// Authentication ends with: nothing, where the upstream wants nothing; a failure, where the
/// place that issues tokens is not trusted, or where it gives none without credentials; else the
/// token that it gives with the configured credentials, or without any if none are configured.
pub proof fn law_authentication(
    upstream: Upstream,
    repository: Seq<char>,
    shape: ShapeView,
    check: Option<Seq<char>>,
    credentialed: Option<Seq<char>>,
    trusted: bool,
)
    ensures
        authentication(upstream, repository, shape, check, credentialed, trusted)
            == AuthStepView::Done(
            match shape {
                ShapeView::Anonymous => Ok(AuthView::Anonymous),
                ShapeView::Bearer { realm, .. } => if !trusted {
                    Err(Failure::UntrustedRealm { upstream: upstream.id@, realm })
                } else if check is None {
                    Err(Failure::AuthenticationRequired { upstream: upstream.id@, repository })
                } else if upstream.credentials is None {
                    Ok(AuthView::Bearer(check->0))
                } else if credentialed is Some {
                    Ok(AuthView::Bearer(credentialed->0))
                } else {
                    Err(Failure::UntrustedRealm { upstream: upstream.id@, realm })
                },
            },
        ),
{
}

/// What cannot be had without credentials is not to be had at all: whatever the credentials would
/// give, authentication fails, and they are not even sent.
pub proof fn law_private_content_is_refused(
    upstream: Upstream,
    repository: Seq<char>,
    challenge: ChallengeView,
    trusted: bool,
)
    ensures
        source::step_for_token(
            upstream,
            repository,
            challenge,
            TokenPurpose::Check,
            None,
            trusted,
        ) == AuthStepView::Done(
            Err(Failure::AuthenticationRequired { upstream: upstream.id@, repository }),
        ),
{
}

/// Credentials are sent only after a token for the same challenge was issued without them.
pub proof fn law_credentials_follow_a_check(
    upstream: Upstream,
    repository: Seq<char>,
    shape: ShapeView,
    challenge: ChallengeView,
    purpose: TokenPurpose,
    token: Option<Seq<char>>,
    trusted: bool,
)
    ensures
        source::step_for_shape(
            upstream,
            repository,
            shape,
            trusted,
        ) matches AuthStepView::FetchToken { credentials, purpose: p, .. } ==> credentials is None
            && p == TokenPurpose::Check,
        source::step_for_token(
            upstream,
            repository,
            challenge,
            purpose,
            token,
            trusted,
        ) matches AuthStepView::FetchToken { challenge: c, credentials, .. } ==> {
            &&& purpose == TokenPurpose::Check
            &&& token is Some
            &&& c == challenge
            &&& credentials == upstream.credentials
        },
{
}

/// No token is asked for at a place that is not trusted.
pub proof fn law_tokens_come_from_trusted_places(
    upstream: Upstream,
    repository: Seq<char>,
    shape: ShapeView,
    challenge: ChallengeView,
    purpose: TokenPurpose,
    token: Option<Seq<char>>,
)
    ensures
        source::step_for_shape(
            upstream,
            repository,
            shape,
            shape matches ShapeView::Bearer { realm, .. } && registry_auth::trusts(upstream, realm),
        ) matches AuthStepView::FetchToken { challenge: c, .. } ==> registry_auth::trusts(
            upstream,
            c.realm,
        ),
        source::step_for_token(
            upstream,
            repository,
            challenge,
            purpose,
            token,
            registry_auth::trusts(upstream, challenge.realm),
        ) matches AuthStepView::FetchToken { challenge: c, .. } ==> registry_auth::trusts(
            upstream,
            c.realm,
        ),
{
}

/// A place is trusted only if it has the scheme of the registry and the host that is configured
/// for tokens, or, where none is configured, the host and the port of the registry itself.
pub proof fn law_trusted_places(upstream: Upstream, realm: Seq<char>)
    requires
        registry_auth::trusts(upstream, realm),
    ensures
        registry_auth::url_in(upstream.base_url@) is Some,
        registry_auth::url_in(realm) is Some,
        ({
            let base = registry_auth::url_in(upstream.base_url@)->0;
            let place = registry_auth::url_in(realm)->0;
            &&& place.scheme == base.scheme
            &&& place.host is Some
            &&& upstream.token_host is Some ==> place.host == text::opt_text(upstream.token_host)
            &&& upstream.token_host is None ==> place.host == base.host && place.port == base.port
        }),
{
}

// ---------------------------------------------------------------------------
// Each decision by itself
// ---------------------------------------------------------------------------

/// A digest has a place exactly if it is made of small letters and digits, a colon and hexadecimal
/// digits.
pub proof fn law_form_of_a_digest(digest: Seq<char>, algorithm: Seq<char>, hex: Seq<char>)
    ensures
        blob::digest_parts(digest) == Some((algorithm, hex)) <==> {
            &&& digest == algorithm.push(':') + hex
            &&& algorithm.len() > 0
            &&& hex.len() > 0
            &&& forall|i: int|
                0 <= i < algorithm.len() ==> 'a' <= #[trigger] algorithm[i] <= 'z' || '0'
                    <= algorithm[i] <= '9'
            &&& forall|i: int|
                0 <= i < hex.len() ==> 'a' <= #[trigger] hex[i] <= 'f' || 'A' <= hex[i] <= 'F'
                    || '0' <= hex[i] <= '9'
        },
{
    text::lemma_cut_first(digest, ':');
    let letters = forall|i: int|
        0 <= i < algorithm.len() ==> 'a' <= #[trigger] algorithm[i] <= 'z' || '0' <= algorithm[i]
            <= '9';
    let digits = forall|i: int|
        0 <= i < hex.len() ==> 'a' <= #[trigger] hex[i] <= 'f' || 'A' <= hex[i] <= 'F' || '0'
            <= hex[i] <= '9';
    assert(blob::is_algorithm(algorithm) <==> algorithm.len() > 0 && letters) by {
        if blob::is_algorithm(algorithm) {
            assert forall|i: int| 0 <= i < algorithm.len() implies 'a' <= #[trigger] algorithm[i]
                <= 'z' || '0' <= algorithm[i] <= '9' by {
                assert(blob::is_algorithm_char(algorithm[i]));
            }
        }
    }
    assert(blob::is_hex(hex) <==> hex.len() > 0 && digits) by {
        if blob::is_hex(hex) {
            assert forall|i: int| 0 <= i < hex.len() implies 'a' <= #[trigger] hex[i] <= 'f' || 'A'
                <= hex[i] <= 'F' || '0' <= hex[i] <= '9' by {
                assert(blob::is_hex_char(hex[i]));
            }
        }
    }
    if digest == algorithm.push(':') + hex && algorithm.len() > 0 && hex.len() > 0 && letters
        && digits {
        law_every_digest_has_a_place(algorithm, hex);
    }
}

/// The place of a digest is below `blobs`, and its two last names spell the digest.
pub proof fn law_place_spells_the_digest(path: BlobPath, digest: Seq<char>, process: u32, n: u64)
    requires
        path.is_for(digest),
    ensures
        path.names().len() == 3,
        path.names()[0] == "blobs"@,
        path.names()[1].push(':') + path.names()[2] == digest,
        path.names() == blob::place_names(path.algorithm@, path.hex@),
        blob::tmp_names(path.algorithm@, path.hex@, process, n) == path.names().drop_last().push(
            blob::tmp_name_for(path.hex@, process, n),
        ),
{
    text::lemma_cut_first(digest, ':');
}

/// The name of incomplete content, cut at its dots, gives the hash, `tmp`, the process and the
/// number.
pub proof fn law_name_of_incomplete_content(hex: Seq<char>, process: u32, n: u64)
    requires
        blob::is_hex(hex),
    ensures
        ({
            let parts = text::pieces(blob::tmp_name_for(hex, process, n), '.');
            &&& parts.len() == 4
            &&& parts[0] == hex
            &&& parts[1] == "tmp"@
            &&& parts[2] == text::decimal(process as nat)
            &&& parts[3] == text::decimal(n as nat)
            &&& text::number_of(parts[2]) == process
            &&& text::number_of(parts[3]) == n
        }),
{
    reveal_strlit(".tmp.");
    reveal_strlit(".");
    reveal_strlit("tmp");
    let p = text::decimal(process as nat);
    let q = text::decimal(n as nat);
    let parts = seq![hex, "tmp"@, p, q];
    lemma_hex_has_no_dot(hex);
    lemma_decimal_has_no_dot(process as nat);
    lemma_decimal_has_no_dot(n as nat);
    assert(!"tmp"@.contains('.'));
    assert forall|i: int| 0 <= i < parts.len() implies !(#[trigger] parts[i]).contains('.') by {
        assert(i == 0 || i == 1 || i == 2 || i == 3);
    }
    reveal_with_fuel(text::joined, 5);
    assert(parts.drop_last() == seq![hex, "tmp"@, p]);
    assert(parts.drop_last().drop_last() == seq![hex, "tmp"@]);
    assert(parts.drop_last().drop_last().drop_last() == seq![hex]);
    assert(text::joined(parts, '.') == blob::tmp_name_for(hex, process, n));
    text::lemma_pieces_of_joined(parts, '.');
    text::law_decimal(process as nat);
    text::law_decimal(n as nat);
}

/// Every stage can fail but waiting for one's turn; only looking tells whether content is there;
/// only a new file can find its name taken; and nothing comes after the end.
pub proof fn law_what_can_come_of_a_stage<E>(stage: StoreStage<E>, error: E, there: bool)
    ensures
        stage.expects(StoreEvent::Failed(error)) <==> !(stage is Reserve) && !(stage is Ended),
        stage.expects(StoreEvent::Checked(there)) <==> stage is CheckFirst || stage is CheckAgain,
        stage.expects(StoreEvent::Taken) <==> stage is CreateTmp,
        stage.expects(StoreEvent::Done) <==> !(stage is CheckFirst) && !(stage is CheckAgain)
            && !(stage is Ended),
{
}

/// Nothing is left out: each stage is reached only from the one before it, once that was done. In
/// particular, content is looked for again after one's turn has come, and the directory is made
/// before the file in it.
pub proof fn law_nothing_is_left_out<E>(events: Seq<StoreEvent<E>>)
    requires
        is_history(events),
        events.len() > 0,
    ensures
        ({
            let before = after(events.drop_last());
            let event = events.last();
            match after(events) {
                StoreStage::CheckFirst => false,
                StoreStage::Reserve => before is CheckFirst && event
                    == StoreEvent::<E>::Checked(false),
                StoreStage::CheckAgain => before is Reserve && event is Done,
                StoreStage::CreateParent => before is CheckAgain && event
                    == StoreEvent::<E>::Checked(false),
                StoreStage::CreateTmp => (before is CreateParent && event is Done) || (
                before is CreateTmp && event is Taken),
                StoreStage::Fill => before is CreateTmp && event is Done,
                StoreStage::Discard(error) => before is Fill && event == StoreEvent::Failed(error),
                StoreStage::SyncTmp => before is Fill && event is Done,
                StoreStage::Publish => before is SyncTmp && event is Done,
                StoreStage::SyncParent => before is Publish && event is Done,
                StoreStage::Ended(Ok(_)) => {
                    ||| (before is CheckFirst || before is CheckAgain) && event
                        == StoreEvent::<E>::Checked(true)
                    ||| before is SyncParent && event is Done
                },
                StoreStage::Ended(Err(error)) => {
                    ||| before == StoreStage::<E>::Discard(error)
                    ||| !(before is Fill) && !(before is Discard) && event == StoreEvent::Failed(
                        error,
                    )
                },
            }
        }),
{
}

/// A file for incomplete content is made, written to, removed or given its name only after its
/// directory was made in the same course of work.
pub proof fn law_directory_is_made_first<E>(events: Seq<StoreEvent<E>>) -> (made: int)
    requires
        is_history(events),
        ({
            let stage = after(events);
            stage is CreateTmp || stage is Fill || stage is Discard || stage is SyncTmp
                || stage is Publish || stage is SyncParent
        }),
    ensures
        0 <= made < events.len(),
        after(events.take(made)) is CreateParent,
        events[made] is Done,
    decreases events.len(),
{
    law_nothing_is_left_out(events);
    let init = events.drop_last();
    assert(events.take(events.len() - 1) == init);
    if after(init) is CreateParent {
        events.len() - 1
    } else {
        let made = law_directory_is_made_first(init);
        assert(init.take(made) == events.take(made));
        made
    }
}

/// Work on content that is not there, in which nothing fails and no name is taken, looks twice,
/// makes the directory and the file, writes, and has the content in the store in the end.
pub proof fn law_unfailing_work<E>(events: Seq<StoreEvent<E>>)
    requires
        events.len() == 9,
        events[0] == StoreEvent::<E>::Checked(false),
        events[2] == StoreEvent::<E>::Checked(false),
        forall|i: int| 0 <= i < 9 && i != 0 && i != 2 ==> #[trigger] events[i] is Done,
    ensures
        is_history(events),
        after(events.take(0)) is CheckFirst,
        after(events.take(1)) is Reserve,
        after(events.take(2)) is CheckAgain,
        after(events.take(3)) is CreateParent,
        after(events.take(4)) is CreateTmp,
        after(events.take(5)) is Fill,
        after(events.take(6)) is SyncTmp,
        after(events.take(7)) is Publish,
        after(events.take(8)) is SyncParent,
        after(events) == StoreStage::<E>::Ended(Ok(())),
{
    assert(events.take(0) == Seq::<StoreEvent<E>>::empty());
    assert(events.take(1).drop_last() == events.take(0));
    assert(events.take(2).drop_last() == events.take(1));
    assert(events.take(3).drop_last() == events.take(2));
    assert(events.take(4).drop_last() == events.take(3));
    assert(events.take(5).drop_last() == events.take(4));
    assert(events.take(6).drop_last() == events.take(5));
    assert(events.take(7).drop_last() == events.take(6));
    assert(events.take(8).drop_last() == events.take(7));
    assert(events.drop_last() == events.take(8));
    assert(is_history(events.take(0)));
    assert(is_history(events.take(1)));
    assert(is_history(events.take(2)));
    assert(is_history(events.take(3)));
    assert(is_history(events.take(4)));
    assert(is_history(events.take(5)));
    assert(is_history(events.take(6)));
    assert(is_history(events.take(7)));
    assert(is_history(events.take(8)));
}

/// Content that is at hand is what is written, and what an upstream sends is not at hand.
pub proof fn law_what_is_at_hand(bytes: &[u8], upstream: &Upstream, repository: &str)
    ensures
        Filling::Bytes(bytes).at_hand() == Some(bytes@),
        (Filling::Upstream { upstream, repository }).at_hand() is None,
{
}

/// The registry of a base URL is what follows the protocol, without slashes at its end. There are
/// two protocols, and with any other beginning there is no registry.
pub proof fn law_registry_of_a_base_url(host: Seq<char>, slashes: nat, other: Seq<char>)
    requires
        host.len() > 0 ==> host[host.len() - 1] != '/',
        !"https://"@.is_prefix_of(other),
        !"http://"@.is_prefix_of(other),
    ensures
        source::endpoint("https://"@ + host + Seq::new(slashes, |i: int| '/')) == Some(
            (host, ClientProtocol::Https),
        ),
        source::endpoint("http://"@ + host + Seq::new(slashes, |i: int| '/')) == Some(
            (host, ClientProtocol::Http),
        ),
        source::endpoint(other) is None,
{
    let end = Seq::new(slashes, |i: int| '/');
    let rest = host + end;
    let secure = "https://"@ + host + end;
    let plain = "http://"@ + host + end;
    reveal_strlit("https://");
    reveal_strlit("http://");
    assert(secure.subrange(0, "https://"@.len() as int) == "https://"@);
    assert(secure.skip("https://"@.len() as int) == rest);
    assert(plain.subrange(0, "http://"@.len() as int) == "http://"@);
    assert(plain.skip("http://"@.len() as int) == rest);
    if "https://"@.is_prefix_of(plain) {
        assert(plain.subrange(0, "https://"@.len() as int)[4] == "https://"@[4]);
        assert(plain[4] == ':');
    }
    text::law_trim_back(rest, text::only('/'));
    let r = text::trim_back(rest, text::only('/'));
    if r.len() < host.len() {
        assert(text::only('/')(rest[host.len() - 1]));
        assert(rest[host.len() - 1] == host[host.len() - 1]);
    }
    if r.len() > host.len() {
        assert(r[r.len() - 1] == rest[r.len() - 1]);
        assert(rest[r.len() - 1] == end[r.len() - 1 - host.len()]);
    }
    assert(r == host);
}

/// An upstream wants nothing if it reports success, or if it says 404 and sends no challenge. It
/// wants tokens if it says 401 and sends a challenge that can be read, from the realm and for the
/// service that the challenge names. Any other reply is an error that tells its status.
pub proof fn law_how_an_upstream_authenticates(id: Seq<char>, reply: UpstreamReply)
    ensures
        source::shape_for(id, None) == Err::<ShapeView, Failure>(
            Failure::AuthProbe { upstream: id },
        ),
        ({
            let nothing = (200 <= reply.status < 300) || (reply.status == 404
                && reply.www_authenticate is None);
            let challenge = if reply.www_authenticate is Some {
                registry_auth::challenge_in(reply.www_authenticate->0@)
            } else {
                None
            };
            let token = reply.status == 401 && challenge is Some;
            &&& nothing ==> source::shape_for(id, Some(reply)) == Ok::<ShapeView, Failure>(
                ShapeView::Anonymous,
            )
            &&& token ==> source::shape_for(id, Some(reply)) == Ok::<ShapeView, Failure>(
                ShapeView::Bearer { realm: challenge->0.realm, service: challenge->0.service },
            )
            &&& !nothing && !token ==> source::shape_for(id, Some(reply)) == Err::<
                ShapeView,
                Failure,
            >(Failure::UnexpectedAuthProbeStatus { upstream: id, status: reply.status })
        }),
{
}

/// For a trusted realm, a token is asked for that allows to pull from the repository, first without
/// credentials; if one is issued and credentials are configured, a token for the very same is asked
/// for with them.
pub proof fn law_what_tokens_are_asked_for(
    upstream: Upstream,
    repository: Seq<char>,
    realm: Seq<char>,
    service: Option<Seq<char>>,
    challenge: ChallengeView,
    token: Seq<char>,
    credentials: UpstreamCredentials,
)
    ensures
        source::step_for_shape(upstream, repository, ShapeView::Bearer { realm, service }, true)
            == (AuthStepView::FetchToken {
            challenge: ChallengeView {
                realm,
                service,
                scope: Some("repository:"@ + repository + ":pull"@),
            },
            credentials: None,
            purpose: TokenPurpose::Check,
        }),
        upstream.credentials == Some(credentials) ==> source::step_for_token(
            upstream,
            repository,
            challenge,
            TokenPurpose::Check,
            Some(token),
            true,
        ) == (AuthStepView::FetchToken {
            challenge,
            credentials: Some(credentials),
            purpose: TokenPurpose::Credentials,
        }),
        upstream.credentials is None ==> source::step_for_token(
            upstream,
            repository,
            challenge,
            TokenPurpose::Check,
            Some(token),
            true,
        ) == AuthStepView::Done(Ok(AuthView::Bearer(token))),
{
}

/// Without a token from the check, the content is refused; with one, and credentials that the realm
/// is not trusted with, the realm is refused, as it is if it issues no token for the credentials. A
/// token for the credentials is what authentication ends with.
pub proof fn law_what_comes_of_a_token(
    upstream: Upstream,
    repository: Seq<char>,
    challenge: ChallengeView,
    token: Seq<char>,
    trusted: bool,
)
    ensures
        source::step_for_token(
            upstream,
            repository,
            challenge,
            TokenPurpose::Check,
            None,
            trusted,
        ) == AuthStepView::Done(
            Err(Failure::AuthenticationRequired { upstream: upstream.id@, repository }),
        ),
        upstream.credentials is Some ==> source::step_for_token(
            upstream,
            repository,
            challenge,
            TokenPurpose::Check,
            Some(token),
            false,
        ) == AuthStepView::Done(
            Err(Failure::UntrustedRealm { upstream: upstream.id@, realm: challenge.realm }),
        ),
        upstream.credentials is None ==> source::step_for_token(
            upstream,
            repository,
            challenge,
            TokenPurpose::Check,
            Some(token),
            trusted,
        ) == AuthStepView::Done(Ok(AuthView::Bearer(token))),
        source::step_for_token(
            upstream,
            repository,
            challenge,
            TokenPurpose::Credentials,
            None,
            trusted,
        ) == AuthStepView::Done(
            Err(Failure::UntrustedRealm { upstream: upstream.id@, realm: challenge.realm }),
        ),
        source::step_for_token(
            upstream,
            repository,
            challenge,
            TokenPurpose::Credentials,
            Some(token),
            trusted,
        ) == AuthStepView::Done(Ok(AuthView::Bearer(token))),
{
}

/// How authentication of a repository begins: an upstream of which nothing is known is asked at
/// `/v2/`, and one that wants nothing is done with.
pub proof fn law_authentication_begins(
    source: OciBlobSource,
    upstream: Upstream,
    repository: Seq<char>,
)
    ensures
        !source@.contains_key(upstream.id@) ==> source.auth_step(upstream, repository)
            == AuthStepView::AskUpstream(upstream.base_url@ + "/v2/"@),
        source@.contains_key(upstream.id@) && source@[upstream.id@] is Anonymous
            ==> source.auth_step(upstream, repository) == AuthStepView::Done(
            Ok(AuthView::Anonymous),
        ),
        source@.contains_key(upstream.id@) && source@[upstream.id@] is Bearer ==> {
            let realm = source@[upstream.id@]->realm;
            if registry_auth::trusts(upstream, realm) {
                source.auth_step(upstream, repository) == (AuthStepView::FetchToken {
                    challenge: ChallengeView {
                        realm,
                        service: source@[upstream.id@]->service,
                        scope: Some("repository:"@ + repository + ":pull"@),
                    },
                    credentials: None,
                    purpose: TokenPurpose::Check,
                })
            } else {
                source.auth_step(upstream, repository) == AuthStepView::Done(
                    Err(Failure::UntrustedRealm { upstream: upstream.id@, realm }),
                )
            }
        },
{
}

/// A pull logs in with exactly the token that authentication ended with, and where it ended with
/// none, not at all. The token is the one that was issued last.
pub proof fn law_pull_logs_in_with_the_issued_token(
    upstream: Upstream,
    repository: Seq<char>,
    shape: ShapeView,
    check: Option<Seq<char>>,
    credentialed: Option<Seq<char>>,
    trusted: bool,
    auth: AuthView,
    given: RegistryAuth,
)
    requires
        authentication(upstream, repository, shape, check, credentialed, trusted)
            == AuthStepView::Done(Ok(auth)),
        given@ == auth,
    ensures
        given is Bearer ==> source::login_of(auth) == Some(given->Bearer_0@),
        given is Anonymous ==> source::login_of(auth) is None,
        shape is Anonymous ==> source::login_of(auth) is None,
        shape is Bearer && upstream.credentials is None ==> source::login_of(auth) is Some
            && source::login_of(auth) == check,
        shape is Bearer && upstream.credentials is Some ==> source::login_of(auth) is Some
            && source::login_of(auth) == credentialed,
{
}

/// What a step of authentication shows is all there is to it.
pub proof fn law_authentication_steps_show_what_they_are(
    url: String,
    request: TokenRequest,
    pending: PendingToken,
    auth: RegistryAuth,
    error: BlobFetchError,
    step: AuthStepView,
    token: String,
    realm: String,
    service: Option<String>,
)
    ensures
        AuthStep::AskUpstream(url).shows(step) <==> step == AuthStepView::AskUpstream(url@),
        AuthStep::FetchToken(request, pending).shows(step) <==> {
            &&& step is FetchToken
            &&& request.asks_for(step->challenge, step->credentials)
            &&& pending.challenge@ == step->challenge
            &&& pending.purpose == step->purpose
        },
        AuthStep::Done(Ok(auth)).shows(step) <==> step == AuthStepView::Done(Ok(auth@)),
        AuthStep::Done(Err(error)).shows(step) <==> step == AuthStepView::Done(Err(error@)),
        RegistryAuth::Bearer(token)@ == AuthView::Bearer(token@),
        RegistryAuth::Anonymous@ == AuthView::Anonymous,
        AuthShape::Anonymous@ == ShapeView::Anonymous,
        (AuthShape::Bearer { realm, service })@ is Bearer,
        (AuthShape::Bearer { realm, service })@->realm == realm@,
        (AuthShape::Bearer { realm, service })@->service is Some <==> service is Some,
        service is Some ==> (AuthShape::Bearer { realm, service })@->service->0 == service->0@,
{
}

/// What a failure shows is all there is to it.
pub proof fn law_failures_show_what_they_are(a: String, b: String, status: u16)
    ensures
        BlobFetchError::InvalidDigest(a)@ == Failure::InvalidDigest(a@),
        BlobFetchError::InvalidUpstreamUrl(a)@ == Failure::InvalidUpstreamUrl(a@),
        (BlobFetchError::AuthProbe { upstream: a })@ == (Failure::AuthProbe { upstream: a@ }),
        (BlobFetchError::UnexpectedAuthProbeStatus { upstream: a, status })@ == (
        Failure::UnexpectedAuthProbeStatus { upstream: a@, status }),
        (BlobFetchError::UntrustedRealm { upstream: a, realm: b })@ == (Failure::UntrustedRealm {
            upstream: a@,
            realm: b@,
        }),
        (BlobFetchError::AuthenticationRequired { upstream: a, repository: b })@ == (
        Failure::AuthenticationRequired { upstream: a@, repository: b@ }),
{
}

} // verus!
