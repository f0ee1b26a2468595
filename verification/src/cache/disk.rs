//! What the files of the store hold.
//!
//! The work on content says what is to be done; this is what comes of doing it. A deed is done as
//! its stage says: whether content is there is told as it is, a file for incomplete content is made
//! only where there is none, and a write that is complete has written all of the content.
use std::time::Duration;
use vstd::prelude::*;

use crate::cache::blob;
use crate::cache::blob::{StoreEvent, StoreStage, StoreWork};
use crate::cache::laws;
use crate::cache::manifest;
use crate::cache::manifest::{FetchedView, Outcome, TagStates, World};
use crate::clock;

verus! {

/// The names that lead from the root of the store to a file.
pub type FileName = Seq<Seq<char>>;

/// What each file holds.
pub type Files = Map<FileName, Seq<u8>>;

/// The content that is worked on.
pub struct Target {
    pub algorithm: Seq<char>,
    pub hex: Seq<char>,
    /// The content, where it is at hand. Else it is what an upstream sends.
    pub at_hand: Option<Seq<u8>>,
}

impl Target {
    /// Where the content is to be.
    pub open spec fn place(self) -> FileName {
        blob::place_names(self.algorithm, self.hex)
    }

    /// Where it is written before it is complete.
    pub open spec fn tmp(self, process: u32, n: u64) -> FileName {
        blob::tmp_names(self.algorithm, self.hex, process, n)
    }
}

/// The content that `work` is to have in the store.
pub open spec fn target_of<'a, E>(work: StoreWork<'a, E>) -> Target {
    Target {
        algorithm: work.path.algorithm@,
        hex: work.path.hex@,
        at_hand: work.filling.at_hand(),
    }
}

/// Something that was done.
pub struct Deed<E> {
    /// How it went.
    pub event: StoreEvent<E>,
    /// The process and the number in the name for incomplete content, where a file was to be made
    /// under it.
    pub process: u32,
    pub n: u64,
    /// What the file for incomplete content held afterwards, where it was written to.
    pub bytes: Seq<u8>,
}

/// The files, and where the work stands.
pub struct Scene<E> {
    pub files: Files,
    pub stage: StoreStage<E>,
    /// The file for incomplete content, once it was made.
    pub tmp: FileName,
    /// What was written to it, once that was done.
    pub written: Seq<u8>,
}

impl<E> Scene<E> {
    /// `deed` can come of doing what the stage says.
    pub open spec fn allows(self, target: Target, deed: Deed<E>) -> bool {
        &&& self.stage.expects(deed.event)
        &&& match (self.stage, deed.event) {
            (StoreStage::CheckFirst, StoreEvent::Checked(there)) => there
                == self.files.contains_key(target.place()),
            (StoreStage::CheckAgain, StoreEvent::Checked(there)) => there
                == self.files.contains_key(target.place()),
            (StoreStage::CreateTmp, StoreEvent::Done) => !self.files.contains_key(
                target.tmp(deed.process, deed.n),
            ),
            (StoreStage::CreateTmp, StoreEvent::Taken) => self.files.contains_key(
                target.tmp(deed.process, deed.n),
            ),
            (StoreStage::Fill, StoreEvent::Done) => target.at_hand is Some ==> deed.bytes
                == target.at_hand->0,
            _ => true,
        }
    }

    /// What comes of `deed`.
    pub open spec fn after(self, target: Target, deed: Deed<E>) -> Scene<E> {
        let stage = self.stage.next(deed.event);
        match (self.stage, deed.event) {
            (StoreStage::CreateTmp, StoreEvent::Done) => {
                let tmp = target.tmp(deed.process, deed.n);
                Scene { files: self.files.insert(tmp, Seq::empty()), stage, tmp, ..self }
            },
            (StoreStage::Fill, _) => Scene {
                files: self.files.insert(self.tmp, deed.bytes),
                stage,
                written: deed.bytes,
                ..self
            },
            (StoreStage::Discard(_), StoreEvent::Done) => Scene {
                files: self.files.remove(self.tmp),
                stage,
                ..self
            },
            (StoreStage::Publish, StoreEvent::Done) => Scene {
                files: self.files.insert(target.place(), self.files[self.tmp]).remove(self.tmp),
                stage,
                ..self
            },
            _ => Scene { stage, ..self },
        }
    }
}

/// What came of `deeds`, done one after another from the beginning of the work on.
pub open spec fn scene<E>(files: Files, target: Target, deeds: Seq<Deed<E>>) -> Scene<E>
    decreases deeds.len(),
{
    if deeds.len() == 0 {
        Scene {
            files,
            stage: StoreStage::CheckFirst,
            tmp: Seq::empty(),
            written: Seq::empty(),
        }
    } else {
        scene(files, target, deeds.drop_last()).after(target, deeds.last())
    }
}

/// `deeds` are work on `target`, done while nobody else touches its files.
pub open spec fn is_work<E>(files: Files, target: Target, deeds: Seq<Deed<E>>) -> bool
    decreases deeds.len(),
{
    deeds.len() == 0 || {
        &&& is_work(files, target, deeds.drop_last())
        &&& scene(files, target, deeds.drop_last()).allows(target, deeds.last())
    }
}

/// The work is at its end, and has succeeded.
pub open spec fn has_succeeded<E>(files: Files, target: Target, deeds: Seq<Deed<E>>) -> bool {
    is_work(files, target, deeds) && scene(files, target, deeds).stage == StoreStage::<E>::Ended(
        Ok(()),
    )
}

/// This is a file for incomplete content of `target`.
pub open spec fn is_tmp(target: Target, name: FileName) -> bool {
    exists|process: u32, n: u64| name == #[trigger] target.tmp(process, n)
}

/// What the files hold at each stage, if they held `before` at the beginning.
spec fn accounts_for<E>(before: Files, target: Target, s: Scene<E>) -> bool {
    let there = before.contains_key(target.place());
    let kept = s.files == before;
    let in_tmp = is_tmp(target, s.tmp) && !before.contains_key(s.tmp) && !there;
    let complete = target.at_hand is Some ==> s.written == target.at_hand->0;
    let published = !there && complete && s.files == before.insert(target.place(), s.written);
    match s.stage {
        StoreStage::CheckFirst => kept,
        StoreStage::Reserve => kept && !there,
        StoreStage::CheckAgain => kept && !there,
        StoreStage::CreateParent => kept && !there,
        StoreStage::CreateTmp => kept && !there,
        StoreStage::Fill => in_tmp && s.files == before.insert(s.tmp, Seq::empty()),
        StoreStage::Discard(_) => in_tmp && s.files == before.insert(s.tmp, s.written),
        StoreStage::SyncTmp => in_tmp && complete && s.files == before.insert(s.tmp, s.written),
        StoreStage::Publish => in_tmp && complete && s.files == before.insert(s.tmp, s.written),
        StoreStage::SyncParent => published,
        StoreStage::Ended(Ok(_)) => (there && kept) || published,
        StoreStage::Ended(Err(_)) => {
            ||| kept
            ||| in_tmp && s.files == before.insert(s.tmp, s.written)
            ||| published
        },
    }
}

/// A file for incomplete content is no place of content.
proof fn lemma_tmp_is_no_place(target: Target, name: FileName, algorithm: Seq<char>, hex: Seq<char>)
    requires
        blob::is_hex(target.hex),
        blob::is_hex(hex),
        is_tmp(target, name),
    ensures
        name != blob::place_names(algorithm, hex),
{
    let (process, n) = choose|process: u32, n: u64| name == #[trigger] target.tmp(process, n);
    laws::law_incomplete_content_is_kept_apart(target.hex, process, n, hex, process, n);
    assert(name[2] == blob::tmp_name_for(target.hex, process, n));
    assert(blob::place_names(algorithm, hex)[2] == hex);
}

/// What the files hold is accounted for at every point of the work.
proof fn lemma_files_are_accounted_for<E>(files: Files, target: Target, deeds: Seq<Deed<E>>)
    requires
        blob::is_hex(target.hex),
        is_work(files, target, deeds),
    ensures
        accounts_for(files, target, scene(files, target, deeds)),
    decreases deeds.len(),
{
    if deeds.len() > 0 {
        let deed = deeds.last();
        let before = scene(files, target, deeds.drop_last());
        let s = scene(files, target, deeds);
        lemma_files_are_accounted_for(files, target, deeds.drop_last());
        match before.stage {
            StoreStage::CreateTmp => {
                if deed.event is Done {
                    assert(s.tmp == target.tmp(deed.process, deed.n));
                    assert(is_tmp(target, s.tmp));
                }
            },
            StoreStage::Fill => {
                assert(s.files =~= files.insert(s.tmp, s.written));
            },
            StoreStage::Discard(_) => {
                if deed.event is Done {
                    assert(s.files =~= files);
                }
            },
            StoreStage::Publish => {
                if deed.event is Done {
                    lemma_tmp_is_no_place(target, before.tmp, target.algorithm, target.hex);
                    assert(before.files[before.tmp] == before.written);
                    assert(s.files =~= files.insert(target.place(), s.written));
                }
            },
            _ => {},
        }
    }
}

// ---------------------------------------------------------------------------
// Laws
// ---------------------------------------------------------------------------

/// Each deed touches no file but the one for incomplete content of the work and, in the end, the
/// place of the content, which then holds what was written. This holds whatever others do
/// meanwhile.
pub proof fn law_deed_touches_only_its_own_files<E>(
    s: Scene<E>,
    target: Target,
    deed: Deed<E>,
    name: FileName,
)
    requires
        s.allows(target, deed),
    ensures
        ({
            let after = s.after(target, deed);
            &&& name != target.place() && name != after.tmp ==> {
                &&& after.files.contains_key(name) == s.files.contains_key(name)
                &&& s.files.contains_key(name) ==> after.files[name] == s.files[name]
            }
            &&& s.stage is Publish && deed.event is Done && s.tmp != target.place() ==> {
                &&& after.files.contains_key(target.place())
                &&& after.files[target.place()] == s.files[s.tmp]
            }
            &&& !(s.stage is Publish && deed.event is Done) && after.tmp != target.place() ==> {
                &&& after.files.contains_key(target.place()) == s.files.contains_key(target.place())
                &&& s.files.contains_key(target.place()) ==> after.files[target.place()]
                    == s.files[target.place()]
            }
        }),
{
}

/// After success, the place of a digest holds what it held before, or else exactly what was
/// written: all of the content that was at hand, or all that the upstream sent. No other file is
/// changed, made or left behind.
pub proof fn law_success_leaves_the_content<E>(files: Files, target: Target, deeds: Seq<Deed<E>>)
    requires
        blob::is_hex(target.hex),
        has_succeeded(files, target, deeds),
    ensures
        ({
            let end = scene(files, target, deeds);
            &&& end.files.contains_key(target.place())
            &&& if files.contains_key(target.place()) {
                end.files == files
            } else {
                &&& end.files == files.insert(target.place(), end.written)
                &&& target.at_hand is Some ==> end.written == target.at_hand->0
            }
        }),
{
    lemma_files_are_accounted_for(files, target, deeds);
}

/// Whether work fails or is given up at any point, the place of its digest holds what it held
/// before, or else complete content; and no file is changed but that and one for incomplete
/// content.
pub proof fn law_place_never_holds_incomplete_content<E>(
    files: Files,
    target: Target,
    deeds: Seq<Deed<E>>,
)
    requires
        blob::is_hex(target.hex),
        is_work(files, target, deeds),
    ensures
        ({
            let now = scene(files, target, deeds);
            ||| now.files == files
            ||| {
                &&& !files.contains_key(target.place())
                &&& now.files == files.insert(target.place(), now.written)
                &&& target.at_hand is Some ==> now.written == target.at_hand->0
            }
            ||| {
                &&& is_tmp(target, now.tmp)
                &&& !files.contains_key(now.tmp)
                &&& now.tmp != target.place()
                &&& now.files.remove(now.tmp) == files
            }
        }),
{
    lemma_files_are_accounted_for(files, target, deeds);
    let now = scene(files, target, deeds);
    if is_tmp(target, now.tmp) {
        lemma_tmp_is_no_place(target, now.tmp, target.algorithm, target.hex);
        if !files.contains_key(now.tmp) {
            assert(files.insert(now.tmp, now.written).remove(now.tmp) =~= files);
            assert(files.insert(now.tmp, Seq::<u8>::empty()).remove(now.tmp) =~= files);
        }
    }
}

/// Content that is in the store stays there unchanged, whatever work is done on it or on any other
/// content.
pub proof fn law_stored_content_is_lasting<E>(
    files: Files,
    target: Target,
    deeds: Seq<Deed<E>>,
    algorithm: Seq<char>,
    hex: Seq<char>,
)
    requires
        blob::is_hex(target.hex),
        blob::is_hex(hex),
        is_work(files, target, deeds),
        files.contains_key(blob::place_names(algorithm, hex)),
    ensures
        ({
            let place = blob::place_names(algorithm, hex);
            let now = scene(files, target, deeds).files;
            now.contains_key(place) && now[place] == files[place]
        }),
{
    lemma_files_are_accounted_for(files, target, deeds);
    let now = scene(files, target, deeds);
    if is_tmp(target, now.tmp) {
        lemma_tmp_is_no_place(target, now.tmp, algorithm, hex);
    }
}

/// Content that was at hand and was put into the store under a digest, where there was none, is
/// there exactly as it was. Putting other content there under the same digest succeeds without
/// changing anything.
pub proof fn law_first_content_stays<'a, 'b, E>(
    digest: Seq<char>,
    files: Files,
    first: StoreWork<'a, E>,
    content: Seq<u8>,
    deeds: Seq<Deed<E>>,
    second: StoreWork<'b, E>,
    more: Seq<Deed<E>>,
)
    requires
        first.path.is_for(digest),
        second.path.is_for(digest),
        first.filling.at_hand() == Some(content),
        !files.contains_key(first.path.names()),
        has_succeeded(files, target_of(first), deeds),
        has_succeeded(scene(files, target_of(first), deeds).files, target_of(second), more),
    ensures
        ({
            let place = first.path.names();
            let once = scene(files, target_of(first), deeds).files;
            let twice = scene(once, target_of(second), more).files;
            &&& second.path.names() == place
            &&& once == files.insert(place, content)
            &&& twice == once
            &&& twice[place] == content
        }),
{
    law_success_leaves_the_content(files, target_of(first), deeds);
    let once = scene(files, target_of(first), deeds).files;
    law_success_leaves_the_content(once, target_of(second), more);
}

/// What an upstream sent for a tag, once it was put into the store where there was none, serves
/// the next request within the tag's time as it was sent, without asking the upstream, if the file
/// is read.
pub proof fn law_second_request_is_served_what_was_sent<E>(
    states: TagStates,
    upstream: Seq<char>,
    repository: Seq<char>,
    tag: Seq<char>,
    first: u64,
    second: u64,
    ttl: Duration,
    world: World<E>,
    later: World<E>,
    sent: FetchedView,
    files: Files,
    deeds: Seq<Deed<E>>,
)
    requires
        manifest::outcome(states, upstream, repository, tag, first, ttl, world).asked,
        world.fetched == Ok::<FetchedView, E>(sent),
        world.stored is Ok,
        clock::elapsed(second, first) < clock::nanos(ttl),
        blob::digest_parts(sent.digest) is Some,
        ({
            let (algorithm, hex) = blob::digest_parts(sent.digest)->0;
            let target = Target { algorithm, hex, at_hand: Some(sent.content) };
            &&& !files.contains_key(target.place())
            &&& has_succeeded(files, target, deeds)
            &&& later.at_first == Some(scene(files, target, deeds).files[target.place()])
        }),
    ensures
        ({
            let known = manifest::outcome(states, upstream, repository, tag, first, ttl, world);
            manifest::outcome(known.states, upstream, repository, tag, second, ttl, later) == (
            Outcome {
                states: known.states,
                end: manifest::served::<E>(sent.content, sent.digest, false),
                asked: false,
            })
        }),
{
    let (algorithm, hex) = blob::digest_parts(sent.digest)->0;
    let target = Target { algorithm, hex, at_hand: Some(sent.content) };
    law_success_leaves_the_content(files, target, deeds);
    manifest::law_second_request_is_served_from_the_store(
        states,
        upstream,
        repository,
        tag,
        first,
        second,
        ttl,
        world,
        later,
    );
}

} // verus!
