//! The catalog store and the lookup handler: the current snapshot sits
//! behind a reader/writer lock that lets many simultaneous readers or
//! one exclusive writer. A refresh builds its snapshot entirely outside
//! the lock and only the install is exclusive, so readers are blocked
//! only for the duration of the swap. Every snapshot that enters the
//! lock is well formed, so every reader observes a fully self-consistent
//! snapshot: the lock holds whole values, never a partial mixture, and a
//! snapshot a reader already holds is an owned value that a later
//! replacement cannot touch.

use vstd::prelude::*;
use vstd::rwlock::RwLock;
use vstd::rwlock::RwLockPredicate;

use crate::matcher::lookup_in_snapshot;
use crate::matcher::lookup_spec;
use crate::matcher::opt_game_view;
use crate::record::MetacriticGame;
use crate::record::RawEntry;
use crate::snapshot::Snapshot;
use crate::snapshot::SnapshotView;
use crate::snapshot::build_snapshot;

verus! {

/// The lock invariant: only well-formed snapshots are ever stored.
pub struct SnapshotInv {}

impl RwLockPredicate<Snapshot> for SnapshotInv {
    open spec fn inv(self, v: Snapshot) -> bool {
        v.wf()
    }
}

/// Holds the one current snapshot behind a reader/writer lock.
pub struct CatalogStore {
    lock: RwLock<Snapshot, SnapshotInv>,
}

impl CatalogStore {
    /// The store's lock enforces snapshot well-formedness.
    pub closed spec fn wf(self) -> bool {
        self.lock.pred() == (SnapshotInv {  })
    }

    /// Wrap an initial snapshot.
    pub fn new(initial: Snapshot) -> (s: Self)
        requires
            initial.wf(),
        ensures
            s.wf(),
    {
        CatalogStore { lock: RwLock::new(initial, Ghost(SnapshotInv {  })) }
    }

    /// A copy of the presently-active snapshot. Shared access: other
    /// readers proceed concurrently; only an in-progress install blocks,
    /// and only for the duration of the pointer swap.
    pub fn current(&self) -> (s: Snapshot)
        requires
            self.wf(),
        ensures
            s.wf(),
    {
        let handle = self.lock.acquire_read();
        let stored = handle.borrow();
        let snap = stored.duplicate();
        proof {
            assert(stored.wf());
            assert(snap@ == stored@);
        }
        handle.release_read();
        snap
    }

    /// Atomically install `snapshot` as current. The exclusive section
    /// covers only the swap; building the snapshot happened before.
    pub fn replace(&self, snapshot: Snapshot)
        requires
            self.wf(),
            snapshot.wf(),
    {
        let (_displaced, write_handle) = self.lock.acquire_write();
        write_handle.release_write(snapshot);
    }

    /// Answer one query against the presently-active snapshot, under
    /// shared access.
    pub fn query(&self, game: &str) -> (r: Option<MetacriticGame>)
        requires
            self.wf(),
        ensures
            exists|sv: SnapshotView|
                (#[trigger] sv.wf()) && opt_game_view(r) == lookup_spec(sv, game@),
    {
        let handle = self.lock.acquire_read();
        let stored = handle.borrow();
        let r = lookup_in_snapshot(stored, game);
        proof {
            assert(stored@.wf() && opt_game_view(r) == lookup_spec(stored@, game@));
        }
        handle.release_read();
        r
    }
}

/// The public lookup handler: a catalog store plus the query entry
/// point. Share it across threads from outside; lookups take shared
/// access and a refresh takes exclusive access only for the swap.
pub struct MetacriticLookupHandler {
    store: CatalogStore,
}

impl MetacriticLookupHandler {
    /// The handler's store enforces snapshot well-formedness.
    pub closed spec fn wf(self) -> bool {
        self.store.wf()
    }

    /// Normalize `game` and look it up: an exact stem-index hit is
    /// returned at once; otherwise the fuzzy fallback scans the
    /// records; absence is a normal outcome. The result is exactly
    /// what [`lookup_spec`] says of the well-formed snapshot that was
    /// current when the query ran.
    pub fn lookup_game(&self, game: &str) -> (r: Option<MetacriticGame>)
        requires
            self.wf(),
        ensures
            exists|sv: SnapshotView|
                (#[trigger] sv.wf()) && opt_game_view(r) == lookup_spec(sv, game@),
    {
        self.store.query(game)
    }

    /// A copy of the presently-active snapshot.
    pub fn current_snapshot(&self) -> (s: Snapshot)
        requires
            self.wf(),
        ensures
            s.wf(),
    {
        self.store.current()
    }

    /// One refresh cycle's install: build a snapshot from the gathered
    /// entries, entirely outside the lock, then swap it in atomically.
    pub fn update(&self, entries: Vec<RawEntry>)
        requires
            self.wf(),
    {
        let snapshot = build_snapshot(&entries);
        self.store.replace(snapshot);
    }
}

/// Build the initial snapshot from the first ingestion's entries and
/// wrap it in a ready lookup handler. An empty entry sequence yields an
/// empty catalog whose lookups all miss, not a failure.
pub fn create_lookup_handler(entries: Vec<RawEntry>) -> (h: MetacriticLookupHandler)
    ensures
        h.wf(),
{
    let snapshot = build_snapshot(&entries);
    MetacriticLookupHandler { store: CatalogStore::new(snapshot) }
}

} // verus!
