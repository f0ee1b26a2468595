use vstd::hash_map::StringHashMap;
use vstd::prelude::*;

use crate::text;

verus! {

/// What a routing memo holds.
#[verifier::ext_equal]
pub struct MemoView {
    /// The upstream that was found to serve a repository.
    pub entries: Map<Seq<char>, Seq<char>>,
    /// When the finding that no upstream has a repository expires.
    pub negative: Map<Seq<char>, u128>,
    /// The fingerprint of the upstream order under which `entries` were recorded.
    pub fingerprint: Option<Seq<char>>,
    /// How many times the order has changed.
    pub generation: u64,
}

impl MemoView {
    /// A memo in which nothing was ever recorded.
    pub open spec fn fresh() -> MemoView {
        MemoView {
            entries: Map::empty(),
            negative: Map::empty(),
            fingerprint: None,
            generation: 0,
        }
    }

    /// After the record of `upstream` for `repository`; nothing changes if the writer's
    /// `generation` is no longer the current one.
    pub open spec fn put(
        self,
        repository: Seq<char>,
        upstream: Seq<char>,
        generation: u64,
    ) -> MemoView {
        if self.generation == generation {
            MemoView { entries: self.entries.insert(repository, upstream), ..self }
        } else {
            self
        }
    }

    /// After the record for `repository` was dropped.
    pub open spec fn discard(self, repository: Seq<char>) -> MemoView {
        MemoView { entries: self.entries.remove(repository), ..self }
    }

    /// After the upstream order with this fingerprint came into force: a different order than
    /// before drops every record and starts a new generation.
    pub open spec fn activate(self, fingerprint: Seq<char>) -> MemoView {
        if self.fingerprint == Some(fingerprint) {
            self
        } else {
            MemoView {
                entries: Map::empty(),
                fingerprint: Some(fingerprint),
                generation: (self.generation + 1) as u64,
                ..self
            }
        }
    }

    /// Whether there is a generation left for the order with this fingerprint.
    pub open spec fn can_activate(self, fingerprint: Seq<char>) -> bool {
        self.fingerprint == Some(fingerprint) || self.generation < u64::MAX
    }

    /// After the finding that no upstream has `repository`, valid until `expires_at`.
    pub open spec fn put_negative(self, repository: Seq<char>, expires_at: u128) -> MemoView {
        MemoView { negative: self.negative.insert(repository, expires_at), ..self }
    }

    /// Whether the finding that no upstream has `repository` is in force at `now`.
    pub open spec fn negative_at(self, repository: Seq<char>, now: u64) -> bool {
        self.negative.contains_key(repository) && self.negative[repository] > now
    }

    /// Without the finding for `repository` if it has expired at `now`.
    pub open spec fn prune(self, repository: Seq<char>, now: u64) -> MemoView {
        if self.negative_at(repository, now) {
            self
        } else {
            MemoView { negative: self.negative.remove(repository), ..self }
        }
    }
}

/// The record of which upstream serves which repository.
///
/// One memo may serve several routers, one after another, as the configuration is reloaded. A
/// router that was made before a reload may still be waiting for an upstream afterwards and try
/// to record what it finds. It passes the generation under which it was made, and the memo takes
/// the record only if that generation is still the current one.
pub trait RoutingMemoStore {
    /// What the memo holds.
    spec fn view(&self) -> MemoView;

    /// The upstream recorded for `repository`.
    fn get(&self, repository: &str) -> (upstream: Option<String>)
        ensures
            match upstream {
                Some(upstream) => self.view().entries.contains_key(repository@) && upstream@
                    == self.view().entries[repository@],
                None => !self.view().entries.contains_key(repository@),
            },
    ;

    /// Records `upstream_id` for `repository`, unless `generation` is out of date.
    fn put(&mut self, repository: &str, upstream_id: &str, generation: u64)
        ensures
            final(self).view() == old(self).view().put(repository@, upstream_id@, generation),
    ;

    /// Drops the record for `repository`.
    fn discard(&mut self, repository: &str)
        ensures
            final(self).view() == old(self).view().discard(repository@),
    ;

    /// Puts an upstream order into force and returns the generation for later records. The
    /// comparison of the order, the dropping of the records and the new generation are one
    /// operation, so that two orders never share a generation.
    fn activate_order(&mut self, fingerprint: &str) -> (generation: u64)
        requires
            old(self).view().can_activate(fingerprint@),
        ensures
            final(self).view() == old(self).view().activate(fingerprint@),
            generation == final(self).view().generation,
    ;

    /// Records that no upstream has `repository`, until `expires_at`.
    fn put_negative(&mut self, repository: &str, expires_at: u128)
        ensures
            final(self).view() == old(self).view().put_negative(repository@, expires_at),
    ;

    /// Whether it is on record, and still valid at `now`, that no upstream has `repository`. An
    /// expired record is dropped.
    fn is_negative_cached(&mut self, repository: &str, now: u64) -> (cached: bool)
        ensures
            cached == old(self).view().negative_at(repository@, now),
            final(self).view() == old(self).view().prune(repository@, now),
    ;
}

/// A routing memo that lives in memory.
pub struct InMemoryRoutingMemo {
    entries: StringHashMap<String>,
    negative_entries: StringHashMap<u128>,
    order_fingerprint: Option<String>,
    generation: u64,
}

/// The characters of each value of `m`.
pub open spec fn texts(m: Map<Seq<char>, String>) -> Map<Seq<char>, Seq<char>> {
    m.map_values(|s: String| s@)
}

impl Default for InMemoryRoutingMemo {
    fn default() -> (memo: Self)
        ensures
            memo.view() == MemoView::fresh(),
    {
        let memo = InMemoryRoutingMemo {
            entries: StringHashMap::new(),
            negative_entries: StringHashMap::new(),
            order_fingerprint: None,
            generation: 0,
        };
        assert(memo.view() =~= MemoView::fresh());
        memo
    }
}

impl InMemoryRoutingMemo {
    /// The current generation.
    pub fn generation(&self) -> (generation: u64)
        ensures
            generation == self.view().generation,
    {
        self.generation
    }
}

impl RoutingMemoStore for InMemoryRoutingMemo {
    closed spec fn view(&self) -> MemoView {
        MemoView {
            entries: texts(self.entries@),
            negative: self.negative_entries@,
            fingerprint: text::opt_text(self.order_fingerprint),
            generation: self.generation,
        }
    }

    fn get(&self, repository: &str) -> (upstream: Option<String>) {
        match self.entries.get(repository) {
            Some(upstream) => Some(upstream.clone()),
            None => None,
        }
    }

    fn put(&mut self, repository: &str, upstream_id: &str, generation: u64) {
        if self.generation != generation {
            return ;
        }
        self.entries.insert(repository.to_owned(), upstream_id.to_owned());
        assert(self.view() =~= old(self).view().put(repository@, upstream_id@, generation));
    }

    fn discard(&mut self, repository: &str) {
        self.entries.remove(repository);
        assert(self.view() =~= old(self).view().discard(repository@));
    }

    fn activate_order(&mut self, fingerprint: &str) -> (generation: u64) {
        let wanted = fingerprint.to_owned();
        let unchanged = match &self.order_fingerprint {
            Some(current) => *current == wanted,
            None => false,
        };
        if !unchanged {
            self.entries.clear();
            self.generation = self.generation + 1;
            self.order_fingerprint = Some(wanted);
        }
        assert(self.view() =~= old(self).view().activate(fingerprint@));
        self.generation
    }

    fn put_negative(&mut self, repository: &str, expires_at: u128) {
        self.negative_entries.insert(repository.to_owned(), expires_at);
    }

    fn is_negative_cached(&mut self, repository: &str, now: u64) -> (cached: bool) {
        let cached = match self.negative_entries.get(repository) {
            Some(expires_at) => *expires_at > now as u128,
            None => false,
        };
        if !cached {
            self.negative_entries.remove(repository);
        }
        cached
    }
}

} // verus!
