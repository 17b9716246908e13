//! The mathematical model of the account-lock table: which thread holds which
//! kind of lock on which account, how deep, and where a transaction may run.

use crate::key_map::Pubkey;
use crate::thread_set::MAX_THREADS;
use vstd::prelude::*;

verus! {

/// How often `account` occurs in `accounts`.
pub open spec fn occurrences(accounts: Seq<Pubkey>, account: Pubkey) -> nat
    decreases accounts.len(),
{
    if accounts.len() == 0 {
        0
    } else {
        occurrences(accounts.drop_last(), account) + if accounts.last() == account {
            1nat
        } else {
            0nat
        }
    }
}

/// A write lock: the one thread that holds it, and how many times.
pub struct WriteLockState {
    pub thread: int,
    pub depth: nat,
}

/// The lock table as a value: write locks by account, and read-lock counts by
/// account and thread. A count that is absent is zero.
pub struct LockTable {
    pub num_threads: nat,
    pub limit: nat,
    pub write_locks: Map<Pubkey, WriteLockState>,
    pub read_counts: Map<(Pubkey, int), nat>,
}

impl LockTable {
    /// The table with no lock in it.
    pub open spec fn empty(num_threads: nat, limit: nat) -> LockTable {
        LockTable { num_threads, limit, write_locks: Map::empty(), read_counts: Map::empty() }
    }

    /// What holds of every table that the lock operations can produce: entries
    /// exist only for positive depths and counts, a write depth stays within the
    /// limit, and on an account that is write-locked only the writer reads.
    pub open spec fn wf(self) -> bool {
        &&& 1 <= self.num_threads <= MAX_THREADS
        &&& 1 <= self.limit <= u32::MAX
        &&& forall|a: Pubkey| #[trigger]
            self.write_locks.contains_key(a) ==> 0 <= self.write_locks[a].thread < self.num_threads
                && 1 <= self.write_locks[a].depth <= self.limit
        &&& forall|a: Pubkey, t: int| #[trigger]
            self.read_counts.contains_key((a, t)) ==> 0 <= t < self.num_threads && 1
                <= self.read_counts[(a, t)] <= u32::MAX
        &&& forall|a: Pubkey, t: int|
            self.write_locks.contains_key(a) && #[trigger] self.read_counts.contains_key((a, t))
                ==> t == self.write_locks[a].thread
    }

    /// Depth of the write lock on `a`; zero where there is none.
    pub open spec fn write_depth(self, a: Pubkey) -> nat {
        if self.write_locks.contains_key(a) {
            self.write_locks[a].depth
        } else {
            0
        }
    }

    /// Number of read locks that thread `t` holds on `a`.
    pub open spec fn read_count(self, a: Pubkey, t: int) -> nat {
        if self.read_counts.contains_key((a, t)) {
            self.read_counts[(a, t)]
        } else {
            0
        }
    }

    /// The threads that hold a read lock on `a`.
    pub open spec fn read_holders(self, a: Pubkey) -> Set<int> {
        Set::new(|t: int| self.read_counts.contains_key((a, t)))
    }

    /// All threads of the pool.
    pub open spec fn all_threads(self) -> Set<int> {
        Set::new(|t: int| 0 <= t < self.num_threads)
    }

    /// The threads on which a write to `a` may be scheduled now.
    pub open spec fn write_schedulable(self, a: Pubkey) -> Set<int> {
        if self.write_locks.contains_key(a) {
            let w = self.write_locks[a];
            if w.depth + self.read_count(a, w.thread) < self.limit {
                set![w.thread]
            } else {
                Set::empty()
            }
        } else if self.read_holders(a) == Set::<int>::empty() {
            self.all_threads()
        } else {
            Set::new(
                |t: int| self.read_holders(a) == set![t] && self.read_count(a, t) < self.limit,
            )
        }
    }

    /// The threads on which a read of `a` may be scheduled now.
    pub open spec fn read_schedulable(self, a: Pubkey) -> Set<int> {
        if self.write_locks.contains_key(a) {
            set![self.write_locks[a].thread]
        } else {
            Set::new(|t: int| 0 <= t < self.num_threads && self.read_count(a, t) != self.limit)
        }
    }

    /// The threads on which a transaction that writes `writes` and reads
    /// `reads` may be scheduled now.
    pub open spec fn schedulable(self, writes: Seq<Pubkey>, reads: Seq<Pubkey>) -> Set<int> {
        Set::new(
            |t: int|
                {
                    &&& 0 <= t < self.num_threads
                    &&& forall|i: int|
                        0 <= i < writes.len() ==> self.write_schedulable(#[trigger] writes[i]).contains(t)
                    &&& forall|i: int|
                        0 <= i < reads.len() ==> self.read_schedulable(#[trigger] reads[i]).contains(t)
                },
        )
    }

    /// Whether thread `t` may take one more write lock on `a`.
    pub open spec fn can_lock_write(self, a: Pubkey, t: int) -> bool {
        &&& 0 <= t < self.num_threads
        &&& self.write_locks.contains_key(a) ==> self.write_locks[a].thread == t
        &&& self.write_depth(a) + 1 <= self.limit
        &&& forall|r: int| #[trigger] self.read_counts.contains_key((a, r)) ==> r == t
    }

    /// The table after thread `t` has taken one more write lock on `a`.
    pub open spec fn lock_write(self, a: Pubkey, t: int) -> LockTable {
        LockTable {
            write_locks: self.write_locks.insert(
                a,
                WriteLockState { thread: t, depth: self.write_depth(a) + 1 },
            ),
            ..self
        }
    }

    /// Whether thread `t` may take one more read lock on `a`.
    pub open spec fn can_lock_read(self, a: Pubkey, t: int) -> bool {
        &&& 0 <= t < self.num_threads
        &&& self.write_locks.contains_key(a) ==> self.write_locks[a].thread == t
        &&& self.read_count(a, t) + 1 <= u32::MAX
    }

    /// The table after thread `t` has taken one more read lock on `a`.
    pub open spec fn lock_read(self, a: Pubkey, t: int) -> LockTable {
        LockTable { read_counts: self.read_counts.insert((a, t), self.read_count(a, t) + 1), ..self }
    }

    /// Whether thread `t` holds a write lock on `a` that it can give back.
    pub open spec fn can_unlock_write(self, a: Pubkey, t: int) -> bool {
        self.write_locks.contains_key(a) && self.write_locks[a].thread == t
    }

    /// The table after thread `t` has given back one write lock on `a`.
    pub open spec fn unlock_write(self, a: Pubkey, t: int) -> LockTable {
        LockTable {
            write_locks: if self.write_depth(a) <= 1 {
                self.write_locks.remove(a)
            } else {
                self.write_locks.insert(
                    a,
                    WriteLockState { thread: t, depth: (self.write_depth(a) - 1) as nat },
                )
            },
            ..self
        }
    }

    /// Whether thread `t` holds a read lock on `a` that it can give back.
    pub open spec fn can_unlock_read(self, a: Pubkey, t: int) -> bool {
        self.read_counts.contains_key((a, t))
    }

    /// The table after thread `t` has given back one read lock on `a`.
    pub open spec fn unlock_read(self, a: Pubkey, t: int) -> LockTable {
        LockTable {
            read_counts: if self.read_count(a, t) <= 1 {
                self.read_counts.remove((a, t))
            } else {
                self.read_counts.insert((a, t), (self.read_count(a, t) - 1) as nat)
            },
            ..self
        }
    }

    /// Whether thread `t` may lock every account of `writes` for writing and
    /// then every account of `reads` for reading, each as often as it is listed.
    pub open spec fn can_lock_accounts(self, writes: Seq<Pubkey>, reads: Seq<Pubkey>, t: int) -> bool {
        &&& 0 <= t < self.num_threads
        &&& forall|a: Pubkey| #[trigger]
            occurrences(writes, a) > 0 ==> {
                &&& self.write_locks.contains_key(a) ==> self.write_locks[a].thread == t
                &&& self.write_depth(a) + occurrences(writes, a) <= self.limit
                &&& forall|r: int| #[trigger] self.read_counts.contains_key((a, r)) ==> r == t
            }
        &&& forall|a: Pubkey| #[trigger]
            occurrences(reads, a) > 0 ==> {
                &&& self.write_locks.contains_key(a) ==> self.write_locks[a].thread == t
                &&& self.read_count(a, t) + occurrences(reads, a) <= u32::MAX
            }
    }

    /// The table after thread `t` has locked every account of `writes` for
    /// writing and every account of `reads` for reading.
    pub open spec fn lock_accounts(self, writes: Seq<Pubkey>, reads: Seq<Pubkey>, t: int) -> LockTable {
        LockTable {
            write_locks: Map::new(
                |a: Pubkey| self.write_locks.contains_key(a) || occurrences(writes, a) > 0,
                |a: Pubkey|
                    WriteLockState {
                        thread: if occurrences(writes, a) > 0 {
                            t
                        } else {
                            self.write_locks[a].thread
                        },
                        depth: self.write_depth(a) + occurrences(writes, a),
                    },
            ),
            read_counts: Map::new(
                |k: (Pubkey, int)|
                    self.read_counts.contains_key(k) || (k.1 == t && occurrences(reads, k.0) > 0),
                |k: (Pubkey, int)|
                    if k.1 == t {
                        self.read_count(k.0, k.1) + occurrences(reads, k.0)
                    } else {
                        self.read_count(k.0, k.1)
                    },
            ),
            ..self
        }
    }

    /// Whether thread `t` holds every lock that `writes` and `reads` list, each
    /// as often as it is listed.
    pub open spec fn can_unlock_accounts(self, writes: Seq<Pubkey>, reads: Seq<Pubkey>, t: int) -> bool {
        &&& forall|a: Pubkey| #[trigger]
            occurrences(writes, a) > 0 ==> {
                &&& self.write_locks.contains_key(a)
                &&& self.write_locks[a].thread == t
                &&& self.write_depth(a) >= occurrences(writes, a)
            }
        &&& forall|a: Pubkey| #[trigger]
            occurrences(reads, a) > 0 ==> self.read_count(a, t) >= occurrences(reads, a)
    }

    /// The table after thread `t` has given back every lock that `writes` and
    /// `reads` list. An entry whose depth or count falls to zero leaves the table.
    pub open spec fn unlock_accounts(self, writes: Seq<Pubkey>, reads: Seq<Pubkey>, t: int) -> LockTable {
        LockTable {
            write_locks: Map::new(
                |a: Pubkey|
                    self.write_locks.contains_key(a) && self.write_depth(a) > occurrences(writes, a),
                |a: Pubkey|
                    WriteLockState {
                        thread: self.write_locks[a].thread,
                        depth: (self.write_depth(a) - occurrences(writes, a)) as nat,
                    },
            ),
            read_counts: Map::new(
                |k: (Pubkey, int)|
                    self.read_counts.contains_key(k) && (k.1 == t ==> self.read_count(k.0, k.1)
                        > occurrences(reads, k.0)),
                |k: (Pubkey, int)|
                    if k.1 == t {
                        (self.read_count(k.0, k.1) - occurrences(reads, k.0)) as nat
                    } else {
                        self.read_count(k.0, k.1)
                    },
            ),
            ..self
        }
    }

    /// Whether thread `t` holds a write lock on each account of `writes` and a
    /// read lock on each account of `reads`: a transaction with these accounts is
    /// in flight on `t`.
    pub open spec fn holds_locks(self, writes: Seq<Pubkey>, reads: Seq<Pubkey>, t: int) -> bool {
        &&& forall|i: int|
            0 <= i < writes.len() ==> self.write_locks.contains_key(#[trigger] writes[i])
                && self.write_locks[writes[i]].thread == t
        &&& forall|i: int|
            0 <= i < reads.len() ==> self.read_counts.contains_key((#[trigger] reads[i], t))
    }
}

impl LockTable {
    /// One more write lock keeps the table well formed.
    pub proof fn lemma_lock_write_wf(self, a: Pubkey, t: int)
        requires
            self.wf(),
            self.can_lock_write(a, t),
        ensures
            self.lock_write(a, t).wf(),
    {
        let next = self.lock_write(a, t);
        assert forall|b: Pubkey, r: int|
            next.write_locks.contains_key(b) && #[trigger] next.read_counts.contains_key(
                (b, r),
            ) implies r == next.write_locks[b].thread by {
            if b != a {
                assert(self.write_locks.contains_key(b));
            }
        }
    }

    /// One more read lock keeps the table well formed.
    pub proof fn lemma_lock_read_wf(self, a: Pubkey, t: int)
        requires
            self.wf(),
            self.can_lock_read(a, t),
        ensures
            self.lock_read(a, t).wf(),
    {
        let next = self.lock_read(a, t);
        assert forall|b: Pubkey, r: int| #[trigger]
            next.read_counts.contains_key((b, r)) implies 0 <= r < next.num_threads && 1
            <= next.read_counts[(b, r)] <= u32::MAX by {
            if (b, r) != (a, t) {
                assert(self.read_counts.contains_key((b, r)));
            }
        }
        assert forall|b: Pubkey, r: int|
            next.write_locks.contains_key(b) && #[trigger] next.read_counts.contains_key(
                (b, r),
            ) implies r == next.write_locks[b].thread by {
            if (b, r) != (a, t) {
                assert(self.read_counts.contains_key((b, r)));
            }
        }
    }

    /// Giving back a write lock keeps the table well formed.
    pub proof fn lemma_unlock_write_wf(self, a: Pubkey, t: int)
        requires
            self.wf(),
            self.can_unlock_write(a, t),
        ensures
            self.unlock_write(a, t).wf(),
    {
        let next = self.unlock_write(a, t);
        assert forall|b: Pubkey| #[trigger] next.write_locks.contains_key(b) implies 0
            <= next.write_locks[b].thread < next.num_threads && 1 <= next.write_locks[b].depth
            <= next.limit by {
            assert(self.write_locks.contains_key(b));
        }
        assert forall|b: Pubkey, r: int|
            next.write_locks.contains_key(b) && #[trigger] next.read_counts.contains_key(
                (b, r),
            ) implies r == next.write_locks[b].thread by {
            assert(self.write_locks.contains_key(b));
        }
    }

    /// Giving back a read lock keeps the table well formed.
    pub proof fn lemma_unlock_read_wf(self, a: Pubkey, t: int)
        requires
            self.wf(),
            self.can_unlock_read(a, t),
        ensures
            self.unlock_read(a, t).wf(),
    {
        let next = self.unlock_read(a, t);
        assert forall|b: Pubkey, r: int| #[trigger]
            next.read_counts.contains_key((b, r)) implies 0 <= r < next.num_threads && 1
            <= next.read_counts[(b, r)] <= u32::MAX by {
            assert(self.read_counts.contains_key((b, r)));
        }
        assert forall|b: Pubkey, r: int|
            next.write_locks.contains_key(b) && #[trigger] next.read_counts.contains_key(
                (b, r),
            ) implies r == next.write_locks[b].thread by {
            assert(self.read_counts.contains_key((b, r)));
        }
    }

    /// While a list of accounts is being locked, front to back, the next
    /// write lock can be taken.
    pub proof fn lemma_can_lock_next_write(
        self,
        writes: Seq<Pubkey>,
        reads: Seq<Pubkey>,
        t: int,
        i: int,
    )
        requires
            self.wf(),
            self.can_lock_accounts(writes, reads, t),
            0 <= i < writes.len(),
        ensures
            self.lock_accounts(writes.take(i), Seq::empty(), t).can_lock_write(writes[i], t),
    {
        let a = writes[i];
        let cur = self.lock_accounts(writes.take(i), Seq::empty(), t);
        lemma_occurrences_prefix(writes, i, a);
        lemma_occurrences_prefix(writes, i + 1, a);
        assert(occurrences(writes, a) > 0);
        assert(occurrences(Seq::<Pubkey>::empty(), a) == 0);
        assert forall|r: int| #[trigger] cur.read_counts.contains_key((a, r)) implies r == t by {
            assert(occurrences(Seq::<Pubkey>::empty(), a) == 0);
            assert(self.read_counts.contains_key((a, r)));
        }
    }

    /// After the writes are locked, and while the reads are being locked, the
    /// next read lock can be taken.
    pub proof fn lemma_can_lock_next_read(
        self,
        writes: Seq<Pubkey>,
        reads: Seq<Pubkey>,
        t: int,
        i: int,
    )
        requires
            self.wf(),
            self.can_lock_accounts(writes, reads, t),
            0 <= i < reads.len(),
        ensures
            self.lock_accounts(writes, reads.take(i), t).can_lock_read(reads[i], t),
    {
        let a = reads[i];
        lemma_occurrences_prefix(reads, i, a);
        lemma_occurrences_prefix(reads, i + 1, a);
        assert(occurrences(reads, a) > 0);
    }

    /// While a list of locks is being given back, front to back, the next one
    /// is still held.
    pub proof fn lemma_can_unlock_prefix(
        self,
        writes: Seq<Pubkey>,
        reads: Seq<Pubkey>,
        t: int,
        i: int,
        j: int,
    )
        requires
            self.can_unlock_accounts(writes, reads, t),
            0 <= i <= writes.len(),
            0 <= j <= reads.len(),
        ensures
            self.can_unlock_accounts(writes.take(i), reads.take(j), t),
    {
        assert forall|a: Pubkey| #[trigger] occurrences(writes.take(i), a) > 0 implies {
            &&& self.write_locks.contains_key(a)
            &&& self.write_locks[a].thread == t
            &&& self.write_depth(a) >= occurrences(writes.take(i), a)
        } by {
            lemma_occurrences_prefix(writes, i, a);
            assert(occurrences(writes, a) > 0);
        }
        assert forall|a: Pubkey| #[trigger] occurrences(reads.take(j), a) > 0 implies self.read_count(
            a,
            t,
        ) >= occurrences(reads.take(j), a) by {
            lemma_occurrences_prefix(reads, j, a);
            assert(occurrences(reads, a) > 0);
        }
    }

    /// A thread on which the transaction may be scheduled can take all its
    /// locks, where no account is listed twice for writing and no read count
    /// would leave the range of the counter.
    pub proof fn lemma_schedulable_can_lock(self, writes: Seq<Pubkey>, reads: Seq<Pubkey>, t: int)
        requires
            self.wf(),
            writes.no_duplicates(),
            self.schedulable(writes, reads).contains(t),
            forall|a: Pubkey| #[trigger]
                occurrences(reads, a) > 0 ==> self.read_count(a, t) + occurrences(reads, a)
                    <= u32::MAX,
        ensures
            self.can_lock_accounts(writes, reads, t),
    {
        assert forall|a: Pubkey| #[trigger] occurrences(writes, a) > 0 implies {
            &&& self.write_locks.contains_key(a) ==> self.write_locks[a].thread == t
            &&& self.write_depth(a) + occurrences(writes, a) <= self.limit
            &&& forall|r: int| #[trigger] self.read_counts.contains_key((a, r)) ==> r == t
        } by {
            lemma_occurrences_contains(writes, a);
            lemma_occurrences_no_duplicates(writes, a);
            let i = choose|i: int| 0 <= i < writes.len() && writes[i] == a;
            assert(self.write_schedulable(writes[i]).contains(t));
            if !self.write_locks.contains_key(a) {
                assert forall|r: int| #[trigger]
                    self.read_counts.contains_key((a, r)) implies r == t by {
                    assert(self.read_holders(a).contains(r));
                    if self.read_holders(a) == Set::<int>::empty() {
                    } else {
                        assert(self.read_holders(a) == set![t]);
                    }
                }
            }
        }
        assert forall|a: Pubkey| #[trigger] occurrences(reads, a) > 0 implies {
            &&& self.write_locks.contains_key(a) ==> self.write_locks[a].thread == t
            &&& self.read_count(a, t) + occurrences(reads, a) <= u32::MAX
        } by {
            lemma_occurrences_contains(reads, a);
            let i = choose|i: int| 0 <= i < reads.len() && reads[i] == a;
            assert(self.read_schedulable(reads[i]).contains(t));
        }
    }

    /// With no account to lock, every thread of the pool is schedulable.
    pub proof fn lemma_schedulable_without_accounts(self)
        ensures
            self.schedulable(Seq::empty(), Seq::empty()) == self.all_threads(),
    {
        assert(self.schedulable(Seq::empty(), Seq::empty()) =~= self.all_threads());
    }

    /// Locking a transaction's accounts and giving the same locks back leaves
    /// the table as it was.
    pub proof fn lemma_lock_unlock_round_trip(self, writes: Seq<Pubkey>, reads: Seq<Pubkey>, t: int)
        requires
            self.wf(),
            self.can_lock_accounts(writes, reads, t),
        ensures
            self.lock_accounts(writes, reads, t).can_unlock_accounts(writes, reads, t),
            self.lock_accounts(writes, reads, t).unlock_accounts(writes, reads, t) == self,
    {
        let locked = self.lock_accounts(writes, reads, t);
        let back = locked.unlock_accounts(writes, reads, t);
        assert forall|a: Pubkey| back.write_locks.contains_key(a) == self.write_locks.contains_key(
            a,
        ) by {
            if self.write_locks.contains_key(a) {
                assert(self.write_locks[a].depth >= 1);
            }
        }
        assert(back.write_locks =~= self.write_locks);
        assert forall|k: (Pubkey, int)|
            back.read_counts.contains_key(k) == self.read_counts.contains_key(k) by {
            if self.read_counts.contains_key(k) {
                assert(self.read_counts.contains_key((k.0, k.1)));
                assert(self.read_counts[k] >= 1);
            }
        }
        assert(back.read_counts =~= self.read_counts);
    }

    /// Two transactions in flight that conflict are on the same thread: no two
    /// threads hold conflicting locks at once.
    pub proof fn lemma_conflicting_holders_share_thread(
        self,
        first_writes: Seq<Pubkey>,
        first_reads: Seq<Pubkey>,
        first_thread: int,
        second_writes: Seq<Pubkey>,
        second_reads: Seq<Pubkey>,
        second_thread: int,
    )
        requires
            self.wf(),
            self.holds_locks(first_writes, first_reads, first_thread),
            self.holds_locks(second_writes, second_reads, second_thread),
            conflicting(first_writes, first_reads, second_writes, second_reads),
        ensures
            first_thread == second_thread,
    {
        let a = choose|a: Pubkey|
            (first_writes.contains(a) && (second_writes.contains(a) || second_reads.contains(a))) || (
            first_reads.contains(a) && second_writes.contains(a));
        if first_writes.contains(a) {
            let i = choose|i: int| 0 <= i < first_writes.len() && first_writes[i] == a;
            assert(self.write_locks.contains_key(first_writes[i]));
            if second_writes.contains(a) {
                let j = choose|j: int| 0 <= j < second_writes.len() && second_writes[j] == a;
                assert(self.write_locks.contains_key(second_writes[j]));
            } else {
                let j = choose|j: int| 0 <= j < second_reads.len() && second_reads[j] == a;
                assert(self.read_counts.contains_key((second_reads[j], second_thread)));
            }
        } else {
            let i = choose|i: int| 0 <= i < first_reads.len() && first_reads[i] == a;
            assert(self.read_counts.contains_key((first_reads[i], first_thread)));
            let j = choose|j: int| 0 <= j < second_writes.len() && second_writes[j] == a;
            assert(self.write_locks.contains_key(second_writes[j]));
        }
    }

    /// A transaction that conflicts with one in flight on thread `first_thread` can be
    /// scheduled on `first_thread` at most: conflicting work is routed to one thread.
    pub proof fn lemma_conflict_routes_to_holder(
        self,
        first_writes: Seq<Pubkey>,
        first_reads: Seq<Pubkey>,
        first_thread: int,
        second_writes: Seq<Pubkey>,
        second_reads: Seq<Pubkey>,
    )
        requires
            self.wf(),
            self.holds_locks(first_writes, first_reads, first_thread),
            conflicting(first_writes, first_reads, second_writes, second_reads),
        ensures
            self.schedulable(second_writes, second_reads).subset_of(set![first_thread]),
    {
        let a = choose|a: Pubkey|
            (first_writes.contains(a) && (second_writes.contains(a) || second_reads.contains(a))) || (
            first_reads.contains(a) && second_writes.contains(a));
        assert forall|t: int| self.schedulable(second_writes, second_reads).contains(t) implies t == first_thread by {
            if first_writes.contains(a) {
                let i = choose|i: int| 0 <= i < first_writes.len() && first_writes[i] == a;
                assert(self.write_locks.contains_key(first_writes[i]));
                if second_writes.contains(a) {
                    let j = choose|j: int| 0 <= j < second_writes.len() && second_writes[j] == a;
                    assert(self.write_schedulable(second_writes[j]).contains(t));
                } else {
                    let j = choose|j: int| 0 <= j < second_reads.len() && second_reads[j] == a;
                    assert(self.read_schedulable(second_reads[j]).contains(t));
                }
            } else {
                let i = choose|i: int| 0 <= i < first_reads.len() && first_reads[i] == a;
                assert(self.read_counts.contains_key((first_reads[i], first_thread)));
                assert(self.read_holders(a).contains(first_thread));
                let j = choose|j: int| 0 <= j < second_writes.len() && second_writes[j] == a;
                assert(self.write_schedulable(second_writes[j]).contains(t));
                if !self.write_locks.contains_key(a) {
                    assert(self.read_holders(a) == set![t]);
                }
            }
        }
    }
}

/// Whether two transactions conflict: one writes an account that the other
/// writes or reads.
pub open spec fn conflicting(
    first_writes: Seq<Pubkey>,
    first_reads: Seq<Pubkey>,
    second_writes: Seq<Pubkey>,
    second_reads: Seq<Pubkey>,
) -> bool {
    exists|a: Pubkey|
        (first_writes.contains(a) && (second_writes.contains(a) || second_reads.contains(a))) || (first_reads.contains(a)
            && second_writes.contains(a))
}

/// An account that is not listed occurs zero times, and one that is listed
/// occurs at least once.
pub proof fn lemma_occurrences_contains(accounts: Seq<Pubkey>, account: Pubkey)
    ensures
        occurrences(accounts, account) > 0 <==> accounts.contains(account),
        occurrences(accounts, account) <= accounts.len(),
    decreases accounts.len(),
{
    if accounts.len() > 0 {
        lemma_occurrences_contains(accounts.drop_last(), account);
        if accounts.last() == account {
            assert(accounts[accounts.len() - 1] == account);
        } else if accounts.contains(account) {
            let i = choose|i: int| 0 <= i < accounts.len() && accounts[i] == account;
            assert(accounts.drop_last()[i] == account);
        }
        if accounts.drop_last().contains(account) {
            let i = choose|i: int|
                0 <= i < accounts.drop_last().len() && accounts.drop_last()[i] == account;
            assert(accounts[i] == account);
        }
    }
}

/// In a list without repetition every listed account occurs once.
pub proof fn lemma_occurrences_no_duplicates(accounts: Seq<Pubkey>, account: Pubkey)
    requires
        accounts.no_duplicates(),
    ensures
        occurrences(accounts, account) <= 1,
    decreases accounts.len(),
{
    if accounts.len() > 0 {
        lemma_occurrences_no_duplicates(accounts.drop_last(), account);
        lemma_occurrences_contains(accounts.drop_last(), account);
        if accounts.last() == account && accounts.drop_last().contains(account) {
            let i = choose|i: int|
                0 <= i < accounts.drop_last().len() && accounts.drop_last()[i] == account;
            assert(accounts[i] == accounts[accounts.len() - 1]);
        }
    }
}

/// Counting over a longer prefix never counts less.
pub proof fn lemma_occurrences_prefix(accounts: Seq<Pubkey>, n: int, account: Pubkey)
    requires
        0 <= n <= accounts.len(),
    ensures
        occurrences(accounts.take(n), account) <= occurrences(accounts, account),
        n < accounts.len() ==> occurrences(accounts.take(n + 1), account) == occurrences(
            accounts.take(n),
            account,
        ) + if accounts[n] == account {
            1nat
        } else {
            0nat
        },
    decreases accounts.len() - n,
{
    if n < accounts.len() {
        assert(accounts.take(n + 1).drop_last() =~= accounts.take(n));
        assert(accounts.take(n + 1).last() == accounts[n]);
        lemma_occurrences_prefix(accounts, n + 1, account);
    } else {
        assert(accounts.take(n) =~= accounts);
    }
}

/// Locking one more account for writing is one write-lock step.
pub proof fn lemma_lock_accounts_push_write(s: LockTable, writes: Seq<Pubkey>, a: Pubkey, t: int)
    ensures
        s.lock_accounts(writes.push(a), Seq::empty(), t) == s.lock_accounts(
            writes,
            Seq::empty(),
            t,
        ).lock_write(a, t),
{
    let lhs = s.lock_accounts(writes.push(a), Seq::empty(), t);
    let rhs = s.lock_accounts(writes, Seq::empty(), t).lock_write(a, t);
    assert(writes.push(a).drop_last() =~= writes);
    assert forall|b: Pubkey|
        occurrences(writes.push(a), b) == occurrences(writes, b) + if a == b {
            1nat
        } else {
            0nat
        } by {}
    assert(lhs.write_locks =~= rhs.write_locks);
    assert(lhs.read_counts =~= rhs.read_counts);
}

/// Locking one more account for reading is one read-lock step.
pub proof fn lemma_lock_accounts_push_read(
    s: LockTable,
    writes: Seq<Pubkey>,
    reads: Seq<Pubkey>,
    a: Pubkey,
    t: int,
)
    ensures
        s.lock_accounts(writes, reads.push(a), t) == s.lock_accounts(writes, reads, t).lock_read(
            a,
            t,
        ),
{
    let lhs = s.lock_accounts(writes, reads.push(a), t);
    let rhs = s.lock_accounts(writes, reads, t).lock_read(a, t);
    assert(reads.push(a).drop_last() =~= reads);
    assert forall|b: Pubkey|
        occurrences(reads.push(a), b) == occurrences(reads, b) + if a == b {
            1nat
        } else {
            0nat
        } by {}
    assert(lhs.write_locks =~= rhs.write_locks);
    assert(lhs.read_counts =~= rhs.read_counts);
}

/// Giving back one more write lock is one write-unlock step.
pub proof fn lemma_unlock_accounts_push_write(s: LockTable, writes: Seq<Pubkey>, a: Pubkey, t: int)
    requires
        s.can_unlock_accounts(writes.push(a), Seq::empty(), t),
    ensures
        s.unlock_accounts(writes.push(a), Seq::empty(), t) == s.unlock_accounts(
            writes,
            Seq::empty(),
            t,
        ).unlock_write(a, t),
        s.unlock_accounts(writes, Seq::empty(), t).can_unlock_write(a, t),
{
    let lhs = s.unlock_accounts(writes.push(a), Seq::empty(), t);
    let rhs = s.unlock_accounts(writes, Seq::empty(), t).unlock_write(a, t);
    assert(writes.push(a).drop_last() =~= writes);
    assert forall|b: Pubkey|
        occurrences(writes.push(a), b) == occurrences(writes, b) + if a == b {
            1nat
        } else {
            0nat
        } by {}
    assert(occurrences(writes.push(a), a) > 0);
    assert(lhs.write_locks =~= rhs.write_locks);
    assert(lhs.read_counts =~= rhs.read_counts);
}

/// Giving back one more read lock is one read-unlock step.
pub proof fn lemma_unlock_accounts_push_read(
    s: LockTable,
    writes: Seq<Pubkey>,
    reads: Seq<Pubkey>,
    a: Pubkey,
    t: int,
)
    requires
        s.can_unlock_accounts(writes, reads.push(a), t),
    ensures
        s.unlock_accounts(writes, reads.push(a), t) == s.unlock_accounts(writes, reads, t).unlock_read(
            a,
            t,
        ),
        s.unlock_accounts(writes, reads, t).can_unlock_read(a, t),
{
    let lhs = s.unlock_accounts(writes, reads.push(a), t);
    let rhs = s.unlock_accounts(writes, reads, t).unlock_read(a, t);
    assert(reads.push(a).drop_last() =~= reads);
    assert forall|b: Pubkey|
        occurrences(reads.push(a), b) == occurrences(reads, b) + if a == b {
            1nat
        } else {
            0nat
        } by {}
    assert(occurrences(reads.push(a), a) > 0);
    assert(lhs.write_locks =~= rhs.write_locks);
    assert(lhs.read_counts =~= rhs.read_counts);
}

} // verus!
