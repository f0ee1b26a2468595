//! Keeping content under its digest.
use vstd::hash_map::StringHashMap;
use vstd::prelude::*;
use vstd::string::*;

use crate::cache::error::{BlobFetchError, Failure};
use crate::cache::in_flight::{InFlightEntry, InFlightView, Reservation};
use crate::routing::config::Upstream;
use crate::text;

verus! {

// ---------------------------------------------------------------------------
// Digests and paths
// ---------------------------------------------------------------------------

/// A lower-case ASCII letter or a digit.
pub open spec fn is_algorithm_char(c: char) -> bool {
    'a' <= c <= 'z' || '0' <= c <= '9'
}

/// A hexadecimal digit, in either case.
pub open spec fn is_hex_char(c: char) -> bool {
    '0' <= c <= '9' || 'a' <= c <= 'f' || 'A' <= c <= 'F'
}

/// The name of a hash algorithm.
pub open spec fn is_algorithm(s: Seq<char>) -> bool {
    s.len() > 0 && forall|i: int| 0 <= i < s.len() ==> is_algorithm_char(#[trigger] s[i])
}

/// A hash in hexadecimal notation.
pub open spec fn is_hex(s: Seq<char>) -> bool {
    s.len() > 0 && forall|i: int| 0 <= i < s.len() ==> is_hex_char(#[trigger] s[i])
}

/// The algorithm and the hash of a digest `<algorithm>:<hex>`.
pub open spec fn digest_parts(digest: Seq<char>) -> Option<(Seq<char>, Seq<char>)> {
    match text::cut_first(digest, ':') {
        Some((algorithm, hex)) => if is_algorithm(algorithm) && is_hex(hex) {
            Some((algorithm, hex))
        } else {
            None
        },
        None => None,
    }
}

/// The place of content, below the root of the store.
#[derive(Debug, PartialEq, Eq)]
pub struct BlobPath {
    pub algorithm: String,
    pub hex: String,
}

impl BlobPath {
    /// This is the place for `digest`.
    pub open spec fn is_for(&self, digest: Seq<char>) -> bool {
        digest_parts(digest) == Some((self.algorithm@, self.hex@))
    }

    /// The names of the directories and of the file, from the root of the store.
    pub open spec fn names(&self) -> Seq<Seq<char>> {
        place_names(self.algorithm@, self.hex@)
    }

    /// The names of the directories and of the file, from the root of the store.
    pub fn components(&self) -> (names: Vec<String>)
        ensures
            names@.map_values(|name: String| name@) == self.names(),
    {
        let names = vec!["blobs".to_owned(), self.algorithm.clone(), self.hex.clone()];
        assert(names@.map_values(|name: String| name@) =~= self.names());
        names
    }

    /// The name, in the directory of the file, under which content is written before it is
    /// complete. `process` is the writing process and `n` a number that it uses only once.
    pub fn tmp_name(&self, process: u32, n: u64) -> (name: String)
        ensures
            name@ == tmp_name_for(self.hex@, process, n),
    {
        let mut name = self.hex.clone();
        name.append(".tmp.");
        name.append(text::decimal_text(process as u64).as_str());
        name.append(".");
        name.append(text::decimal_text(n).as_str());
        name
    }
}

/// The names that lead from the root of the store to the content with this hash.
pub open spec fn place_names(algorithm: Seq<char>, hex: Seq<char>) -> Seq<Seq<char>> {
    seq!["blobs"@, algorithm, hex]
}

/// The names that lead from the root of the store to incomplete content with this hash.
pub open spec fn tmp_names(
    algorithm: Seq<char>,
    hex: Seq<char>,
    process: u32,
    n: u64,
) -> Seq<Seq<char>> {
    seq!["blobs"@, algorithm, tmp_name_for(hex, process, n)]
}

/// The name of incomplete content.
pub open spec fn tmp_name_for(hex: Seq<char>, process: u32, n: u64) -> Seq<char> {
    hex + ".tmp."@ + text::decimal(process as nat) + "."@ + text::decimal(n as nat)
}

/// Whether `s` is the name of a hash algorithm.
fn check_algorithm(s: &str) -> (ok: bool)
    ensures
        ok == is_algorithm(s@),
{
    let chars = text::chars_of(s);
    let mut i: usize = 0;
    while i < chars.len()
        invariant
            chars@ == s@,
            i <= chars.len(),
            forall|j: int| 0 <= j < i ==> is_algorithm_char(#[trigger] s@[j]),
        decreases chars.len() - i,
    {
        let c = chars[i];
        if !(('a' <= c && c <= 'z') || ('0' <= c && c <= '9')) {
            assert(!is_algorithm_char(s@[i as int]));
            return false;
        }
        i += 1;
    }
    chars.len() > 0
}

/// Whether `s` is a hash in hexadecimal notation.
fn check_hex(s: &str) -> (ok: bool)
    ensures
        ok == is_hex(s@),
{
    let chars = text::chars_of(s);
    let mut i: usize = 0;
    while i < chars.len()
        invariant
            chars@ == s@,
            i <= chars.len(),
            forall|j: int| 0 <= j < i ==> is_hex_char(#[trigger] s@[j]),
        decreases chars.len() - i,
    {
        let c = chars[i];
        if !(('0' <= c && c <= '9') || ('a' <= c && c <= 'f') || ('A' <= c && c <= 'F')) {
            assert(!is_hex_char(s@[i as int]));
            return false;
        }
        i += 1;
    }
    chars.len() > 0
}

/// The place for `digest`.
pub fn blob_path(digest: &str) -> (path: Result<BlobPath, BlobFetchError>)
    ensures
        match path {
            Ok(path) => path.is_for(digest@),
            Err(error) => digest_parts(digest@) is None && error@ == Failure::InvalidDigest(
                digest@,
            ),
        },
{
    if let Some((algorithm, hex)) = text::split_once(digest, ':') {
        if check_algorithm(algorithm) && check_hex(hex) {
            return Ok(BlobPath { algorithm: algorithm.to_owned(), hex: hex.to_owned() });
        }
    }
    Err(BlobFetchError::InvalidDigest(digest.to_owned()))
}

// ---------------------------------------------------------------------------
// Getting content into the store
// ---------------------------------------------------------------------------

/// Where the content comes from that is written to the store.
#[derive(Debug, Clone, Copy)]
pub enum Filling<'a> {
    /// It is fetched from an upstream.
    Upstream { upstream: &'a Upstream, repository: &'a str },
    /// It is at hand, and no upstream is asked.
    Bytes(&'a [u8]),
}

impl<'a> Filling<'a> {
    /// The content, where it is at hand.
    pub open spec fn at_hand(self) -> Option<Seq<u8>> {
        match self {
            Filling::Upstream { .. } => None,
            Filling::Bytes(bytes) => Some(bytes@),
        }
    }
}

/// Work that has content in the store in the end.
#[derive(Debug)]
pub struct StoreWork<'a, E> {
    /// Where the content is to be.
    pub path: BlobPath,
    /// What is written there if it is not there already.
    pub filling: Filling<'a>,
    pub stage: StoreStage<E>,
}

/// What is to be done next to have content in the store. `E` is what the doing may fail with.
#[derive(Debug)]
pub enum StoreStage<E> {
    /// See whether the content is there already.
    CheckFirst,
    /// Become a holder of the digest and wait for one's turn.
    Reserve,
    /// See again whether the content is there: another holder may have put it there meanwhile.
    CheckAgain,
    /// Make the directory.
    CreateParent,
    /// Make a new file for incomplete content.
    CreateTmp,
    /// Write the content to it, all of it.
    Fill,
    /// Remove it, as writing failed.
    Discard(E),
    /// Make its content durable.
    SyncTmp,
    /// Give it the name under which complete content is found.
    Publish,
    /// Make the name durable.
    SyncParent,
    /// Nothing: the content is in the store, or is not.
    Ended(Result<(), E>),
}

/// How the doing went.
#[derive(Debug)]
pub enum StoreEvent<E> {
    /// It is now known whether the content is there.
    Checked(bool),
    /// It was done.
    Done,
    /// The name for incomplete content is taken.
    Taken,
    /// It failed.
    Failed(E),
}

impl<E> StoreStage<E> {
    /// `event` can come of doing what this stage says.
    pub open spec fn expects(self, event: StoreEvent<E>) -> bool {
        match self {
            StoreStage::CheckFirst => event is Checked || event is Failed,
            StoreStage::Reserve => event is Done,
            StoreStage::CheckAgain => event is Checked || event is Failed,
            StoreStage::CreateTmp => event is Done || event is Taken || event is Failed,
            StoreStage::Ended(_) => false,
            _ => event is Done || event is Failed,
        }
    }

    /// What is to be done after `event`.
    pub open spec fn next(self, event: StoreEvent<E>) -> StoreStage<E> {
        match (self, event) {
            (StoreStage::Discard(error), _) => StoreStage::Ended(Err(error)),
            (StoreStage::Fill, StoreEvent::Failed(error)) => StoreStage::Discard(error),
            (_, StoreEvent::Failed(error)) => StoreStage::Ended(Err(error)),
            (_, StoreEvent::Checked(true)) => StoreStage::Ended(Ok(())),
            (StoreStage::CheckFirst, _) => StoreStage::Reserve,
            (StoreStage::Reserve, _) => StoreStage::CheckAgain,
            (StoreStage::CheckAgain, _) => StoreStage::CreateParent,
            (StoreStage::CreateParent, _) => StoreStage::CreateTmp,
            (StoreStage::CreateTmp, StoreEvent::Taken) => StoreStage::CreateTmp,
            (StoreStage::CreateTmp, _) => StoreStage::Fill,
            (StoreStage::Fill, _) => StoreStage::SyncTmp,
            (StoreStage::SyncTmp, _) => StoreStage::Publish,
            (StoreStage::Publish, _) => StoreStage::SyncParent,
            (StoreStage::SyncParent, _) => StoreStage::Ended(Ok(())),
            (StoreStage::Ended(result), _) => StoreStage::Ended(result),
        }
    }

    /// Determines what is to be done after `event`.
    pub fn advance(self, event: StoreEvent<E>) -> (stage: Self)
        requires
            self.expects(event),
        ensures
            stage == self.next(event),
    {
        match self {
            StoreStage::Discard(error) => StoreStage::Ended(Err(error)),
            StoreStage::Fill => match event {
                StoreEvent::Failed(error) => StoreStage::Discard(error),
                _ => StoreStage::SyncTmp,
            },
            stage => match event {
                StoreEvent::Failed(error) => StoreStage::Ended(Err(error)),
                StoreEvent::Checked(true) => StoreStage::Ended(Ok(())),
                StoreEvent::Taken => StoreStage::CreateTmp,
                StoreEvent::Checked(false) | StoreEvent::Done => match stage {
                    StoreStage::CheckFirst => StoreStage::Reserve,
                    StoreStage::Reserve => StoreStage::CheckAgain,
                    StoreStage::CheckAgain => StoreStage::CreateParent,
                    StoreStage::CreateParent => StoreStage::CreateTmp,
                    StoreStage::CreateTmp => StoreStage::Fill,
                    StoreStage::SyncTmp => StoreStage::Publish,
                    StoreStage::Publish => StoreStage::SyncParent,
                    StoreStage::SyncParent => StoreStage::Ended(Ok(())),
                    other => other,
                },
            },
        }
    }
}

/// The store of content by digest. Content has one place, whichever upstream it came from.
pub struct BlobCache {
    in_flight: StringHashMap<InFlightEntry>,
    next_id: u64,
}

impl View for BlobCache {
    type V = InFlightView;

    closed spec fn view(&self) -> InFlightView {
        InFlightView { entries: self.in_flight@, next_id: self.next_id }
    }
}

impl BlobCache {
    /// A store for which nothing is being fetched.
    pub fn new() -> (cache: Self)
        ensures
            cache@.entries == Map::<Seq<char>, InFlightEntry>::empty(),
            cache@.next_id == 0,
            cache@.well_formed(),
    {
        BlobCache { in_flight: StringHashMap::new(), next_id: 0 }
    }

    /// Begins to get the content of `digest`: from the store, or else from `upstream` into it.
    pub fn get<'a, E>(&self, upstream: &'a Upstream, repository: &'a str, digest: &str) -> (work:
        Result<StoreWork<'a, E>, BlobFetchError>)
        ensures
            match work {
                Ok(work) => {
                    &&& work.path.is_for(digest@)
                    &&& work.filling == (Filling::Upstream { upstream, repository })
                    &&& work.stage == StoreStage::<E>::CheckFirst
                },
                Err(error) => digest_parts(digest@) is None && error@ == Failure::InvalidDigest(
                    digest@,
                ),
            },
    {
        match blob_path(digest) {
            Ok(path) => Ok(
                StoreWork {
                    path,
                    filling: Filling::Upstream { upstream, repository },
                    stage: StoreStage::CheckFirst,
                },
            ),
            Err(error) => Err(error),
        }
    }

    /// Begins to put `content`, which is at hand, into the store under `digest`.
    pub fn store<'a, E>(&self, digest: &str, content: &'a [u8]) -> (work: Result<
        StoreWork<'a, E>,
        BlobFetchError,
    >)
        ensures
            match work {
                Ok(work) => {
                    &&& work.path.is_for(digest@)
                    &&& work.filling == Filling::Bytes(content)
                    &&& work.stage == StoreStage::<E>::CheckFirst
                },
                Err(error) => digest_parts(digest@) is None && error@ == Failure::InvalidDigest(
                    digest@,
                ),
            },
    {
        match blob_path(digest) {
            Ok(path) => Ok(
                StoreWork { path, filling: Filling::Bytes(content), stage: StoreStage::CheckFirst },
            ),
            Err(error) => Err(error),
        }
    }

    /// Whether there is room for one more holder of `digest`.
    pub fn has_room(&self, digest: &str) -> (room: bool)
        ensures
            room == self@.has_room(digest@),
    {
        match self.in_flight.get(digest) {
            Some(entry) => entry.waiters < u64::MAX,
            None => self.next_id < u64::MAX,
        }
    }

    /// Whether anyone holds `digest`.
    pub fn is_in_flight(&self, digest: &str) -> (held: bool)
        ensures
            held == self@.entries.contains_key(digest@),
    {
        self.in_flight.contains_key(digest)
    }

    /// Becomes a holder of `digest`.
    pub fn acquire_in_flight(&mut self, digest: &str) -> (reservation: Reservation)
        requires
            old(self)@.has_room(digest@),
        ensures
            final(self)@ == old(self)@.acquire(digest@),
            old(self)@.well_formed() ==> final(self)@.well_formed(),
            reservation.digest@ == digest@,
            reservation.id == final(self)@.entries[digest@].id,
    {
        let entry = match self.in_flight.get(digest) {
            Some(entry) => InFlightEntry { id: entry.id, waiters: entry.waiters + 1 },
            None => {
                let id = self.next_id;
                self.next_id = id + 1;
                InFlightEntry { id, waiters: 1 }
            },
        };
        self.in_flight.insert(digest.to_owned(), entry);
        assert(self@ =~= old(self)@.acquire(digest@));
        Reservation { digest: digest.to_owned(), id: entry.id }
    }

    /// Lets go of what `reservation` holds.
    pub fn release_in_flight(&mut self, reservation: Reservation)
        ensures
            final(self)@ == old(self)@.release(reservation.digest@, reservation.id),
            old(self)@.well_formed() ==> final(self)@.well_formed(),
    {
        let digest = reservation.digest;
        let current = match self.in_flight.get(digest.as_str()) {
            Some(entry) => *entry,
            None => {
                return ;
            },
        };
        if current.id != reservation.id {
            return ;
        }
        if current.waiters <= 1 {
            self.in_flight.remove(digest.as_str());
        } else {
            let entry = InFlightEntry { id: current.id, waiters: current.waiters - 1 };
            self.in_flight.insert(digest, entry);
        }
        assert(self@ =~= old(self)@.release(reservation.digest@, reservation.id));
    }
}

} // verus!
