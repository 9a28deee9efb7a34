//! The session bookkeeping of the PDF workers and of the pool that routes
//! requests to them, and the schedule of disk-cache pruning.

use vstd::prelude::*;
use vstd::string::*;
use crate::table::StringTable;
use crate::keys::{session_id_for, spec_session_id, lemma_session_id_injective};

verus! {

/// The error of a request that names a session that is not open.
pub open spec fn unknown_session_message() -> Seq<char> {
    "Unknown or closed PDF session."@
}

/// The error given for a request about a session that is not open.
pub fn unknown_session_error() -> (r: String)
    ensures
        r@ == unknown_session_message(),
{
    String::from_str("Unknown or closed PDF session.")
}

/// The sessions that one worker has open: for each session id, the loaded
/// document and the path it was loaded from; and the number the next session
/// will get.
pub struct WorkerSessions<D> {
    sessions: StringTable<(D, String)>,
    next_session_id: u64,
}

impl<D> WorkerSessions<D> {
    /// The open sessions.
    pub closed spec fn sessions(&self) -> Map<Seq<char>, (D, String)> {
        self.sessions@
    }

    /// The number that the next opened session gets.
    pub closed spec fn next_number(&self) -> nat {
        self.next_session_id as nat
    }

    #[verifier::type_invariant]
    spec fn inv(&self) -> bool {
        &&& self.next_session_id >= 1
        &&& forall|k: Seq<char>| #[trigger] self.sessions@.contains_key(k) ==> exists|n: nat|
            1 <= n < self.next_session_id && k == spec_session_id(n)
    }

    /// A worker with no session open; its first session is number 1.
    pub fn new() -> (r: Self)
        ensures
            r.sessions() == Map::<Seq<char>, (D, String)>::empty(),
            r.next_number() == 1,
    {
        WorkerSessions { sessions: StringTable::new(), next_session_id: 1 }
    }

    /// The number that the next opened session gets.
    pub fn next_session_number(&self) -> (r: u64)
        ensures
            r == self.next_number(),
            r >= 1,
    {
        proof {
            use_type_invariant(self);
        }
        self.next_session_id
    }

    /// Registers a loaded document under a fresh session id, `s` followed by
    /// the session's number, and returns that id.
    pub fn open_session(&mut self, document: D, path: String) -> (id: String)
        requires
            old(self).next_number() < u64::MAX,
        ensures
            id@ == spec_session_id(old(self).next_number()),
            !old(self).sessions().contains_key(id@),
            final(self).sessions() == old(self).sessions().insert(id@, (document, path)),
            final(self).next_number() == old(self).next_number() + 1,
    {
        proof {
            use_type_invariant(&*self);
        }
        let n = self.next_session_id;
        let id = session_id_for(n);
        proof {
            if self.sessions@.contains_key(id@) {
                let m = choose|m: nat| 1 <= m < self.next_session_id && id@ == spec_session_id(m);
                lemma_session_id_injective(m, n as nat);
            }
        }
        let mut table: StringTable<(D, String)> = StringTable::new();
        std::mem::swap(&mut table, &mut self.sessions);
        table.insert(id.clone(), (document, path));
        self.next_session_id = n + 1;
        proof {
            assert forall|k: Seq<char>| #[trigger] table@.contains_key(k) implies exists|m: nat|
                1 <= m < n + 1 && k == spec_session_id(m) by {
                if k != id@ {
                    assert(old(self).sessions@.contains_key(k));
                    let m = choose|m: nat| 1 <= m < n && k == spec_session_id(m);
                    assert(1 <= m < n + 1 && k == spec_session_id(m));
                } else {
                    assert(1 <= n < n + 1 && k == spec_session_id(n as nat));
                }
            }
        }
        self.sessions = table;
        id
    }

    /// The document and path of an open session, or the unknown-session
    /// error.
    pub fn session(&self, session_id: &str) -> (r: Result<(&D, &String), String>)
        ensures
            match r {
                Ok((document, path)) => self.sessions().contains_key(session_id@)
                    && (*document, *path) == self.sessions()[session_id@],
                Err(e) => !self.sessions().contains_key(session_id@) && e@ == unknown_session_message(),
            },
    {
        match self.sessions.get(session_id) {
            Some(entry) => Ok((&entry.0, &entry.1)),
            None => Err(unknown_session_error()),
        }
    }

    /// Closes a session (closing one that is not open changes nothing).
    pub fn close_session(&mut self, session_id: &str)
        ensures
            final(self).sessions() == old(self).sessions().remove(session_id@),
            final(self).next_number() == old(self).next_number(),
    {
        proof {
            use_type_invariant(&*self);
        }
        let mut table: StringTable<(D, String)> = StringTable::new();
        std::mem::swap(&mut table, &mut self.sessions);
        let _ = table.remove(session_id);
        proof {
            assert forall|k: Seq<char>| #[trigger] table@.contains_key(k) implies exists|m: nat|
                1 <= m < self.next_session_id && k == spec_session_id(m) by {
                assert(old(self).sessions@.contains_key(k));
            }
        }
        self.sessions = table;
    }
}

/// Successful renders between two prunings of the disk cache.
pub const CACHE_PRUNE_INTERVAL_RENDERS: u32 = 40;

/// Counts successful renders to prune the disk cache after every
/// `CACHE_PRUNE_INTERVAL_RENDERS` of them.
pub struct PruneSchedule {
    renders_since_prune: u32,
}

/// The count after one more successful render, and whether a pruning is due.
pub open spec fn spec_prune_step(count: u32) -> (u32, bool) {
    let c: int = if count as int + 1 > u32::MAX { u32::MAX as int } else { count + 1 };
    if c >= CACHE_PRUNE_INTERVAL_RENDERS {
        (0, true)
    } else {
        (c as u32, false)
    }
}

impl PruneSchedule {
    /// Successful renders counted since the last pruning.
    pub closed spec fn count(&self) -> u32 {
        self.renders_since_prune
    }

    #[verifier::type_invariant]
    spec fn inv(&self) -> bool {
        self.renders_since_prune < CACHE_PRUNE_INTERVAL_RENDERS
    }

    pub fn new() -> (r: Self)
        ensures
            r.count() == 0,
    {
        PruneSchedule { renders_since_prune: 0 }
    }

    /// Counts one successful render; says whether the disk cache is to be
    /// pruned now (the count then starts again from zero).
    pub fn record_successful_render(&mut self) -> (prune_now: bool)
        ensures
            (final(self).count(), prune_now) == spec_prune_step(old(self).count()),
            final(self).count() < CACHE_PRUNE_INTERVAL_RENDERS,
    {
        proof {
            use_type_invariant(&*self);
        }
        let c = self.renders_since_prune.saturating_add(1);
        if c >= CACHE_PRUNE_INTERVAL_RENDERS {
            self.renders_since_prune = 0;
            true
        } else {
            self.renders_since_prune = c;
            false
        }
    }
}

/// The count and the pruning decision after `k` successful renders from a
/// fresh schedule.
pub open spec fn prune_after(k: nat) -> (u32, bool)
    decreases k,
{
    if k == 0 {
        (0, false)
    } else {
        spec_prune_step(prune_after((k - 1) as nat).0)
    }
}

/// The disk cache is pruned after the 40th, 80th, ... successful render and
/// after no other.
pub proof fn lemma_prune_every_interval(k: nat)
    ensures
        prune_after(k).0 == k % (CACHE_PRUNE_INTERVAL_RENDERS as nat),
        k > 0 ==> (prune_after(k).1 <==> k % (CACHE_PRUNE_INTERVAL_RENDERS as nat) == 0),
    decreases k,
{
    if k > 0 {
        lemma_prune_every_interval((k - 1) as nat);
    }
}

/// Which worker owns each open session, and the round-robin counter that
/// picks the worker of the next session.
pub struct SessionOwners {
    owners: StringTable<usize>,
    next_worker: usize,
    num_workers: usize,
}

impl SessionOwners {
    /// The owner of each open session.
    pub closed spec fn owners(&self) -> Map<Seq<char>, usize> {
        self.owners@
    }

    /// The round-robin counter.
    pub closed spec fn counter(&self) -> usize {
        self.next_worker
    }

    /// The number of workers.
    pub closed spec fn workers(&self) -> usize {
        self.num_workers
    }

    #[verifier::type_invariant]
    spec fn inv(&self) -> bool {
        forall|k: Seq<char>| #[trigger] self.owners@.contains_key(k) ==> self.owners@[k] < self.num_workers
    }

    /// No session open, the counter at zero, over `num_workers` workers.
    pub fn new(num_workers: usize) -> (r: Self)
        ensures
            r.owners() == Map::<Seq<char>, usize>::empty(),
            r.counter() == 0,
            r.workers() == num_workers,
    {
        SessionOwners { owners: StringTable::new(), next_worker: 0, num_workers }
    }

    /// The number of workers.
    pub fn num_workers(&self) -> (r: usize)
        ensures
            r == self.workers(),
    {
        self.num_workers
    }

    /// Picks the worker that opens the next session: the counter modulo the
    /// number of workers; the counter then moves on by one (wrapping).
    /// There must be a worker to pick.
    pub fn pick_worker(&mut self) -> (r: usize)
        requires
            old(self).workers() >= 1,
        ensures
            r == old(self).counter() % old(self).workers(),
            r < old(self).workers(),
            final(self).counter() == (if old(self).counter() == usize::MAX { 0 } else { old(self).counter() + 1 }),
            final(self).workers() == old(self).workers(),
            final(self).owners() == old(self).owners(),
    {
        proof {
            use_type_invariant(&*self);
        }
        let r = self.next_worker % self.num_workers;
        self.next_worker = if self.next_worker == usize::MAX { 0 } else { self.next_worker + 1 };
        r
    }

    /// Records that `worker` owns the session `session_id`.
    pub fn record_owner(&mut self, session_id: String, worker: usize)
        requires
            worker < old(self).workers(),
        ensures
            final(self).owners() == old(self).owners().insert(session_id@, worker),
            final(self).counter() == old(self).counter(),
            final(self).workers() == old(self).workers(),
    {
        proof {
            use_type_invariant(&*self);
        }
        let mut table: StringTable<usize> = StringTable::new();
        std::mem::swap(&mut table, &mut self.owners);
        table.insert(session_id, worker);
        self.owners = table;
    }

    /// The worker that owns an open session, or the unknown-session error.
    pub fn owner_of(&self, session_id: &str) -> (r: Result<usize, String>)
        ensures
            match r {
                Ok(w) => self.owners().contains_key(session_id@) && w == self.owners()[session_id@]
                    && w < self.workers(),
                Err(e) => !self.owners().contains_key(session_id@) && e@ == unknown_session_message(),
            },
    {
        proof {
            use_type_invariant(self);
        }
        match self.owners.get(session_id) {
            Some(w) => Ok(*w),
            None => Err(unknown_session_error()),
        }
    }

    /// Forgets the owner of a session and gives it back, or the
    /// unknown-session error if the session is not open.
    pub fn release(&mut self, session_id: &str) -> (r: Result<usize, String>)
        ensures
            final(self).owners() == old(self).owners().remove(session_id@),
            final(self).counter() == old(self).counter(),
            final(self).workers() == old(self).workers(),
            match r {
                Ok(w) => old(self).owners().contains_key(session_id@) && w == old(self).owners()[session_id@]
                    && w < old(self).workers(),
                Err(e) => !old(self).owners().contains_key(session_id@) && e@ == unknown_session_message(),
            },
    {
        proof {
            use_type_invariant(&*self);
        }
        let mut table: StringTable<usize> = StringTable::new();
        std::mem::swap(&mut table, &mut self.owners);
        let removed = table.remove(session_id);
        self.owners = table;
        match removed {
            Some(w) => Ok(w),
            None => Err(unknown_session_error()),
        }
    }
}

/// A session just opened (or an owner just recorded) is found with exactly
/// what was stored, and every other session is as it was.
pub proof fn lemma_lookup_after_open<V>(table: Map<Seq<char>, V>, id: Seq<char>, entry: V, other: Seq<char>)
    ensures
        table.insert(id, entry).contains_key(id),
        table.insert(id, entry)[id] == entry,
        other != id ==> table.insert(id, entry).contains_key(other) == table.contains_key(other),
        other != id && table.contains_key(other) ==> table.insert(id, entry)[other] == table[other],
{
}

/// After a session is closed (or its owner released), requests naming it
/// get the unknown-session error, and every other session is as it was.
pub proof fn lemma_unknown_after_close<V>(table: Map<Seq<char>, V>, id: Seq<char>, other: Seq<char>)
    ensures
        !table.remove(id).contains_key(id),
        other != id ==> table.remove(id).contains_key(other) == table.contains_key(other),
        other != id && table.contains_key(other) ==> table.remove(id)[other] == table[other],
{
}

/// Round robin: as many consecutive picks as there are workers, starting
/// from any counter that does not wrap on the way, give every worker
/// exactly once.
pub proof fn lemma_round_robin_visits_each_worker(counter: nat, workers: nat, i: nat, j: nat)
    requires
        workers >= 1,
        i < j < workers,
    ensures
        (counter + i) % workers != (counter + j) % workers,
{
    let a = counter + i;
    let b = counter + j;
    vstd::arithmetic::div_mod::lemma_fundamental_div_mod(a as int, workers as int);
    vstd::arithmetic::div_mod::lemma_fundamental_div_mod(b as int, workers as int);
    if a % workers == b % workers {
        let qa = a / workers;
        let qb = b / workers;
        assert(b - a == (qb - qa) * workers) by (nonlinear_arith)
            requires
                a == workers * qa + a % workers,
                b == workers * qb + b % workers,
                a % workers == b % workers;
        assert(0 < b - a < workers);
        if qb - qa >= 1 {
            assert((qb - qa) * workers >= workers) by (nonlinear_arith)
                requires qb - qa >= 1, workers >= 1;
        } else {
            assert((qb - qa) * workers <= 0) by (nonlinear_arith)
                requires qb - qa <= 0, workers >= 1;
        }
    }
}

} // verus!
