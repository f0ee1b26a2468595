//! At most one fetch per digest at a time.
use vstd::prelude::*;

verus! {

/// A digest that someone fetches or waits for.
#[derive(Debug, Clone, Copy, PartialEq, Eq, Structural)]
pub struct InFlightEntry {
    /// Tells this entry from earlier and later ones for the same digest.
    pub id: u64,
    /// How many hold the entry.
    pub waiters: u64,
}

/// What someone holds who fetches a digest or waits for it.
#[derive(Debug)]
pub struct Reservation {
    pub digest: String,
    pub id: u64,
}

/// The digests that are being fetched or waited for.
///
/// All who hold an entry take turns. An entry goes when its last holder lets go, and not before,
/// so that no one who comes meanwhile starts a second fetch beside the first.
#[verifier::ext_equal]
pub struct InFlightView {
    pub entries: Map<Seq<char>, InFlightEntry>,
    pub next_id: u64,
}

impl InFlightView {
    /// Every entry is held by someone and is older than the next one.
    pub open spec fn well_formed(self) -> bool {
        forall|digest: Seq<char>| #[trigger]
            self.entries.contains_key(digest) ==> {
                &&& self.entries[digest].waiters > 0
                &&& self.entries[digest].id < self.next_id
            }
    }

    /// There is room for one more holder of `digest`.
    pub open spec fn has_room(self, digest: Seq<char>) -> bool {
        if self.entries.contains_key(digest) {
            self.entries[digest].waiters < u64::MAX
        } else {
            self.next_id < u64::MAX
        }
    }

    /// The entry for `digest` with one more holder.
    pub open spec fn joined(self, digest: Seq<char>) -> InFlightEntry {
        if self.entries.contains_key(digest) {
            InFlightEntry {
                id: self.entries[digest].id,
                waiters: (self.entries[digest].waiters + 1) as u64,
            }
        } else {
            InFlightEntry { id: self.next_id, waiters: 1 }
        }
    }

    /// After one more came to hold `digest`.
    pub open spec fn acquire(self, digest: Seq<char>) -> InFlightView {
        InFlightView {
            entries: self.entries.insert(digest, self.joined(digest)),
            next_id: if self.entries.contains_key(digest) {
                self.next_id
            } else {
                (self.next_id + 1) as u64
            },
        }
    }

    /// After a holder of the entry `id` for `digest` let go.
    pub open spec fn release(self, digest: Seq<char>, id: u64) -> InFlightView {
        if self.entries.contains_key(digest) && self.entries[digest].id == id {
            let waiters = self.entries[digest].waiters;
            if waiters <= 1 {
                InFlightView { entries: self.entries.remove(digest), ..self }
            } else {
                InFlightView {
                    entries: self.entries.insert(
                        digest,
                        InFlightEntry { id, waiters: (waiters - 1) as u64 },
                    ),
                    ..self
                }
            }
        } else {
            self
        }
    }

    /// How many hold `digest`.
    pub open spec fn holders(self, digest: Seq<char>) -> nat {
        if self.entries.contains_key(digest) {
            self.entries[digest].waiters as nat
        } else {
            0
        }
    }
}

/// All who hold a digest at the same time hold the same entry: as long as one of them holds it,
/// one who comes later is given the entry that is there.
pub proof fn law_overlapping_holders_share_an_entry(table: InFlightView, digest: Seq<char>)
    requires
        table.entries.contains_key(digest),
        table.has_room(digest),
    ensures
        table.acquire(digest).entries[digest].id == table.entries[digest].id,
        table.acquire(digest).holders(digest) == table.holders(digest) + 1,
{
}

/// Letting go undoes coming to hold, for the digest and for every other one.
pub proof fn law_release_undoes_acquire(table: InFlightView, digest: Seq<char>)
    requires
        table.well_formed(),
        table.has_room(digest),
    ensures
        ({
            let id = table.acquire(digest).entries[digest].id;
            table.acquire(digest).release(digest, id).entries == table.entries
        }),
{
    let id = table.acquire(digest).entries[digest].id;
    assert(table.acquire(digest).release(digest, id).entries =~= table.entries);
}

/// An entry goes exactly when its last holder lets go.
pub proof fn law_entry_lives_while_it_is_held(table: InFlightView, digest: Seq<char>, id: u64)
    requires
        table.well_formed(),
        table.entries.contains_key(digest),
        table.entries[digest].id == id,
    ensures
        table.release(digest, id).entries.contains_key(digest) == (table.holders(digest) > 1),
        table.release(digest, id).holders(digest) == table.holders(digest) - 1,
{
}

/// One who lets go of an entry that is no longer there does not touch the one that took its
/// place, and an entry made after another one went is told from it.
pub proof fn law_late_release_is_harmless(table: InFlightView, digest: Seq<char>, id: u64)
    requires
        table.well_formed(),
        table.has_room(digest),
        !table.entries.contains_key(digest),
        id < table.next_id,
    ensures
        table.acquire(digest).entries[digest].id != id,
        table.acquire(digest).release(digest, id) == table.acquire(digest),
{
}

/// One who comes to hold a digest makes its holders one more, and joins the entry that is there, or
/// makes a new one that is told from every earlier one. One who lets go of the entry that is there
/// makes them one fewer. Neither affects another digest.
pub proof fn law_holders_are_counted(
    table: InFlightView,
    digest: Seq<char>,
    id: u64,
    other: Seq<char>,
)
    requires
        table.well_formed(),
        table.has_room(digest),
    ensures
        ({
            let after = table.acquire(digest);
            let held = table.entries.contains_key(digest);
            &&& after.entries.contains_key(digest)
            &&& held ==> after.entries[digest].waiters == table.entries[digest].waiters + 1
            &&& held ==> after.entries[digest].id == table.entries[digest].id
            &&& held ==> after.next_id == table.next_id
            &&& !held ==> after.entries[digest].waiters == 1
            &&& !held ==> after.entries[digest].id == table.next_id
            &&& !held ==> after.next_id == table.next_id + 1
            &&& after.well_formed()
            &&& other != digest ==> {
                &&& after.entries.contains_key(other) == table.entries.contains_key(other)
                &&& table.entries.contains_key(other) ==> after.entries[other]
                    == table.entries[other]
            }
        }),
        ({
            let after = table.release(digest, id);
            let held = table.entries.contains_key(digest) && table.entries[digest].id == id;
            &&& !held ==> after == table
            &&& held && table.entries[digest].waiters == 1 ==> !after.entries.contains_key(digest)
            &&& held && table.entries[digest].waiters > 1 ==> {
                &&& after.entries.contains_key(digest)
                &&& after.entries[digest].waiters == table.entries[digest].waiters - 1
                &&& after.entries[digest].id == id
            }
            &&& after.next_id == table.next_id
            &&& after.well_formed()
            &&& other != digest ==> {
                &&& after.entries.contains_key(other) == table.entries.contains_key(other)
                &&& table.entries.contains_key(other) ==> after.entries[other]
                    == table.entries[other]
            }
        }),
{
}

/// There is room unless a counter is at its end.
pub proof fn law_room(table: InFlightView, digest: Seq<char>)
    ensures
        table.entries.contains_key(digest) ==> (table.has_room(digest)
            <==> table.entries[digest].waiters < u64::MAX),
        !table.entries.contains_key(digest) ==> (table.has_room(digest) <==> table.next_id
            < u64::MAX),
{
}

} // verus!
