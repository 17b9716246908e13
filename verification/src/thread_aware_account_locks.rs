//! Thread-aware account locks: a transaction may be scheduled on a thread
//! that already holds the locks it needs, up to a queue limit, so that work
//! which conflicts runs in order on one thread.

use crate::key_map::{KeyMap, Pubkey};
use crate::lock_table::{
    lemma_lock_accounts_push_read, lemma_lock_accounts_push_write,
    lemma_unlock_accounts_push_read, lemma_unlock_accounts_push_write, occurrences, LockTable,
    WriteLockState,
};
use crate::thread_set::{ThreadId, ThreadSet, MAX_THREADS};
use vstd::prelude::*;

verus! {

/// The thread that holds the write lock on an account, and how many times.
struct WriteLock {
    thread_id: ThreadId,
    count: u32,
}

/// The threads that hold read locks on an account, and how many each holds.
struct ReadLock {
    thread_set: ThreadSet,
    counts: [u32; MAX_THREADS],
}

/// Account locks that know on which thread each lock is held.
pub struct ThreadAwareAccountLocks {
    /// Number of threads.
    num_threads: usize,
    /// Limit on the number of sequentially-queued transactions per account.
    sequential_queue_limit: u32,
    /// Write locks: only one thread can hold a write lock on an account at a time.
    write_locks: KeyMap<WriteLock>,
    /// Read locks: several threads can hold read locks on an account at a time.
    read_locks: KeyMap<ReadLock>,
}

impl View for ThreadAwareAccountLocks {
    type V = LockTable;

    closed spec fn view(&self) -> LockTable {
        LockTable {
            num_threads: self.num_threads as nat,
            limit: self.sequential_queue_limit as nat,
            write_locks: Map::new(
                |a: Pubkey| self.write_locks@.contains_key(a),
                |a: Pubkey|
                    WriteLockState {
                        thread: self.write_locks@[a].thread_id as int,
                        depth: self.write_locks@[a].count as nat,
                    },
            ),
            read_counts: Map::new(
                |k: (Pubkey, int)|
                    self.read_locks@.contains_key(k.0) && 0 <= k.1 < MAX_THREADS
                        && self.read_locks@[k.0].counts[k.1] > 0,
                |k: (Pubkey, int)| self.read_locks@[k.0].counts[k.1] as nat,
            ),
        }
    }
}

impl ThreadAwareAccountLocks {
    /// The stored holder set of a read lock is the set of threads with a
    /// positive count, and an entry is kept only while some thread holds it.
    spec fn read_entry_ok(entry: ReadLock) -> bool {
        &&& entry.thread_set@ == Set::new(|t: int| 0 <= t < MAX_THREADS && entry.counts[t] > 0)
        &&& entry.thread_set@ != Set::<int>::empty()
    }

    /// The invariant of the table: every constructor establishes it and every
    /// method keeps it.
    pub closed spec fn inv(&self) -> bool {
        &&& self.write_locks.wf()
        &&& self.read_locks.wf()
        &&& forall|a: Pubkey| #[trigger]
            self.read_locks@.contains_key(a) ==> Self::read_entry_ok(self.read_locks@[a])
        &&& self@.wf()
    }

    /// The holder set that the table stores for the read locks on `a`; empty
    /// where it stores none.
    pub closed spec fn holder_set(&self, a: Pubkey) -> Set<int> {
        if self.read_locks@.contains_key(a) {
            self.read_locks@[a].thread_set@
        } else {
            Set::empty()
        }
    }

    /// The stored holder set of an account is the set of threads whose read
    /// count on it is positive.
    pub proof fn lemma_holder_set_is_positive_counts(&self, a: Pubkey)
        requires
            self.inv(),
        ensures
            self.holder_set(a) == Set::new(|t: int| self@.read_count(a, t) > 0),
            self.holder_set(a) == self@.read_holders(a),
    {
        if self.read_locks@.contains_key(a) {
            assert(Self::read_entry_ok(self.read_locks@[a]));
        }
        assert forall|t: int| self@.read_counts.contains_key((a, t)) implies self@.read_count(a, t)
            > 0 by {}
        assert(self.holder_set(a) =~= Set::new(|t: int| self@.read_count(a, t) > 0));
        assert(self.holder_set(a) =~= self@.read_holders(a));
    }

    /// On every account one of four states holds: no lock, write locks only,
    /// read locks only, or both kinds held by one and the same thread.
    pub proof fn lemma_lock_states(&self, a: Pubkey)
        requires
            self.inv(),
        ensures
            self@.write_locks.contains_key(a) && self@.read_holders(a) != Set::<int>::empty()
                ==> self@.read_holders(a) == set![self@.write_locks[a].thread],
    {
        if self@.write_locks.contains_key(a) && self@.read_holders(a) != Set::<int>::empty() {
            assert(!(self@.read_holders(a) =~= Set::<int>::empty()));
            let r = choose|r: int| self@.read_holders(a).contains(r);
            assert(self@.read_counts.contains_key((a, r)));
            assert forall|t: int| self@.read_holders(a).contains(t) implies t
                == self@.write_locks[a].thread by {
                assert(self@.read_counts.contains_key((a, t)));
            }
            assert(self@.read_holders(a) =~= set![self@.write_locks[a].thread]);
        }
    }

    /// Creates a new `ThreadAwareAccountLocks` with the given number of threads
    /// and queue limit.
    pub fn new(num_threads: usize, sequential_queue_limit: u32) -> (locks: Self)
        requires
            0 < num_threads <= MAX_THREADS,
            sequential_queue_limit > 0,
        ensures
            locks.inv(),
            locks@ == LockTable::empty(num_threads as nat, sequential_queue_limit as nat),
    {
        let locks = ThreadAwareAccountLocks {
            num_threads,
            sequential_queue_limit,
            write_locks: KeyMap::new(),
            read_locks: KeyMap::new(),
        };
        proof {
            let empty = LockTable::empty(num_threads as nat, sequential_queue_limit as nat);
            assert(locks@.write_locks =~= empty.write_locks);
            assert(locks@.read_counts =~= empty.read_counts);
        }
        locks
    }

    /// Returns the `ThreadId` if the accounts are able to be locked for some
    /// thread, otherwise `None` is returned. If accounts are schedulable, then
    /// they are locked for the thread selected by the `thread_selector`
    /// function, which is called with the schedulable threads, and only if
    /// there is one.
    pub fn try_lock_accounts<F: FnOnce(ThreadSet) -> ThreadId>(
        &mut self,
        write_account_locks: &[Pubkey],
        read_account_locks: &[Pubkey],
        thread_selector: F,
    ) -> (thread_id: Option<ThreadId>)
        requires
            old(self).inv(),
            write_account_locks@.no_duplicates(),
            read_account_locks@.no_duplicates(),
            forall|i: int, t: int|
                0 <= i < read_account_locks.len() ==> #[trigger] old(self)@.read_count(
                    read_account_locks[i],
                    t,
                ) < u32::MAX,
            forall|set: ThreadSet|
                set@ == old(self)@.schedulable(write_account_locks@, read_account_locks@) && set@
                    != Set::<int>::empty() ==> call_requires(thread_selector, (set,)),
            forall|set: ThreadSet, t: ThreadId|
                set@ == old(self)@.schedulable(write_account_locks@, read_account_locks@)
                    && call_ensures(thread_selector, (set,), t) ==> set@.contains(t as int),
        ensures
            final(self).inv(),
            match thread_id {
                Some(t) => {
                    &&& old(self)@.schedulable(write_account_locks@, read_account_locks@).contains(
                        t as int,
                    )
                    &&& forall|set: ThreadSet|
                        set@ == old(self)@.schedulable(write_account_locks@, read_account_locks@)
                            ==> call_ensures(thread_selector, (set,), t)
                    &&& final(self)@ == old(self)@.lock_accounts(
                        write_account_locks@,
                        read_account_locks@,
                        t as int,
                    )
                },
                None => {
                    &&& old(self)@.schedulable(write_account_locks@, read_account_locks@)
                        == Set::<int>::empty()
                    &&& *final(self) == *old(self)
                },
            },
    {
        let schedulable_threads = self.accounts_schedulable_threads(
            write_account_locks,
            read_account_locks,
        );
        if schedulable_threads.is_empty() {
            None
        } else {
            let thread_id = thread_selector(schedulable_threads);
            proof {
                let t = thread_id as int;
                assert forall|set: ThreadSet|
                    set@ == self@.schedulable(
                        write_account_locks@,
                        read_account_locks@,
                    ) implies call_ensures(thread_selector, (set,), thread_id) by {
                    set.lemma_extensional(schedulable_threads);
                }
                assert forall|a: Pubkey| #[trigger]
                    occurrences(read_account_locks@, a) > 0 implies self@.read_count(a, t)
                    + occurrences(read_account_locks@, a) <= u32::MAX by {
                    crate::lock_table::lemma_occurrences_contains(read_account_locks@, a);
                    crate::lock_table::lemma_occurrences_no_duplicates(read_account_locks@, a);
                    let i = choose|i: int|
                        0 <= i < read_account_locks.len() && read_account_locks[i] == a;
                    assert(self@.read_count(read_account_locks[i], t) < u32::MAX);
                }
                self@.lemma_schedulable_can_lock(write_account_locks@, read_account_locks@, t);
            }
            self.lock_accounts(write_account_locks, read_account_locks, thread_id);
            Some(thread_id)
        }
    }

    /// Returns the `ThreadSet` that the given accounts can be scheduled on.
    pub fn accounts_schedulable_threads(
        &self,
        write_account_locks: &[Pubkey],
        read_account_locks: &[Pubkey],
    ) -> (threads: ThreadSet)
        requires
            self.inv(),
        ensures
            threads@ == self@.schedulable(write_account_locks@, read_account_locks@),
    {
        let mut schedulable_threads = ThreadSet::any(self.num_threads);
        let mut i: usize = 0;
        while i < write_account_locks.len()
            invariant
                self.inv(),
                i <= write_account_locks.len(),
                schedulable_threads@ == Set::new(
                    |t: int|
                        0 <= t < self.num_threads && forall|k: int|
                            0 <= k < i ==> self@.write_schedulable(
                                #[trigger] write_account_locks@[k],
                            ).contains(t),
                ),
            decreases write_account_locks.len() - i,
        {
            let threads = self.write_schedulable_threads(&write_account_locks[i]);
            schedulable_threads.bitand_assign(threads);
            proof {
                assert(schedulable_threads@ =~= Set::new(
                    |t: int|
                        0 <= t < self.num_threads && forall|k: int|
                            0 <= k < i + 1 ==> self@.write_schedulable(
                                #[trigger] write_account_locks@[k],
                            ).contains(t),
                ));
            }
            i += 1;
        }
        let mut j: usize = 0;
        while j < read_account_locks.len()
            invariant
                self.inv(),
                i == write_account_locks.len(),
                j <= read_account_locks.len(),
                schedulable_threads@ == Set::new(
                    |t: int|
                        {
                            &&& 0 <= t < self.num_threads
                            &&& forall|k: int|
                                0 <= k < write_account_locks.len() ==> self@.write_schedulable(
                                    #[trigger] write_account_locks@[k],
                                ).contains(t)
                            &&& forall|k: int|
                                0 <= k < j ==> self@.read_schedulable(
                                    #[trigger] read_account_locks@[k],
                                ).contains(t)
                        },
                ),
            decreases read_account_locks.len() - j,
        {
            let threads = self.read_schedulable_threads(&read_account_locks[j]);
            schedulable_threads.bitand_assign(threads);
            proof {
                assert(schedulable_threads@ =~= Set::new(
                    |t: int|
                        {
                            &&& 0 <= t < self.num_threads
                            &&& forall|k: int|
                                0 <= k < write_account_locks.len() ==> self@.write_schedulable(
                                    #[trigger] write_account_locks@[k],
                                ).contains(t)
                            &&& forall|k: int|
                                0 <= k < j + 1 ==> self@.read_schedulable(
                                    #[trigger] read_account_locks@[k],
                                ).contains(t)
                        },
                ));
            }
            j += 1;
        }
        proof {
            assert(schedulable_threads@ =~= self@.schedulable(
                write_account_locks@,
                read_account_locks@,
            ));
        }
        schedulable_threads
    }

    /// Returns the `ThreadSet` of schedulable threads for the given readable account.
    /// If the account is write-locked, then only the thread holding the write
    /// lock is schedulable. Otherwise every thread is schedulable that has not
    /// reached the sequential limit of read locks on the account.
    pub fn read_schedulable_threads(&self, account: &Pubkey) -> (threads: ThreadSet)
        requires
            self.inv(),
        ensures
            threads@ == self@.read_schedulable(*account),
    {
        match self.write_locks.get(account) {
            Some(write_lock) => {
                assert(self@.write_locks.contains_key(*account));
                ThreadSet::only(write_lock.thread_id)
            },
            None => {
                let mut schedulable_threads = ThreadSet::any(self.num_threads);
                match self.read_locks.get(account) {
                    Some(read_lock) => {
                        let mut thread_id: ThreadId = 0;
                        while thread_id < self.num_threads
                            invariant
                                self.inv(),
                                thread_id <= self.num_threads,
                                self.read_locks@.contains_key(*account),
                                *read_lock == self.read_locks@[*account],
                                schedulable_threads@ == Set::new(
                                    |t: int|
                                        0 <= t < self.num_threads && (t < thread_id
                                            ==> self@.read_count(*account, t)
                                            != self.sequential_queue_limit),
                                ),
                            decreases self.num_threads - thread_id,
                        {
                            if read_lock.counts[thread_id] == self.sequential_queue_limit {
                                schedulable_threads.remove(thread_id);
                            }
                            proof {
                                assert(schedulable_threads@ =~= Set::new(
                                    |t: int|
                                        0 <= t < self.num_threads && (t < thread_id + 1
                                            ==> self@.read_count(*account, t)
                                            != self.sequential_queue_limit),
                                ));
                            }
                            thread_id += 1;
                        }
                    },
                    None => {},
                }
                proof {
                    assert(schedulable_threads@ =~= self@.read_schedulable(*account));
                }
                schedulable_threads
            },
        }
    }

    /// Returns the `ThreadSet` of schedulable threads for the given writable account.
    /// If the account is not locked, then all threads are schedulable.
    /// If read-locked on a single thread, then only that thread is schedulable.
    /// If write-locked, then only that thread is schedulable.
    /// In all other cases, no threads are schedulable.
    /// A thread is not schedulable once the locks it holds on the account have
    /// reached the sequential limit.
    pub fn write_schedulable_threads(&self, account: &Pubkey) -> (threads: ThreadSet)
        requires
            self.inv(),
        ensures
            threads@ == self@.write_schedulable(*account),
    {
        proof {
            self.lemma_holder_set_is_positive_counts(*account);
        }
        match self.write_locks.get(account) {
            Some(write_lock) => {
                assert(self@.write_locks.contains_key(*account));
                let read_count: u32 = match self.read_locks.get(account) {
                    Some(read_lock) => read_lock.counts[write_lock.thread_id],
                    None => 0,
                };
                assert(read_count == self@.read_count(*account, write_lock.thread_id as int));
                if write_lock.count as u64 + read_count as u64
                    >= self.sequential_queue_limit as u64 {
                    ThreadSet::none()
                } else {
                    ThreadSet::only(write_lock.thread_id)
                }
            },
            None => match self.read_locks.get(account) {
                Some(read_lock) => {
                    assert(Self::read_entry_ok(*read_lock));
                    let threads = match read_lock.thread_set.only_one_scheduled() {
                        Some(thread_id) => {
                            assert(read_lock.thread_set@.contains(thread_id as int));
                            if read_lock.counts[thread_id] < self.sequential_queue_limit {
                                ThreadSet::only(thread_id)
                            } else {
                                ThreadSet::none()
                            }
                        },
                        None => ThreadSet::none(),
                    };
                    proof {
                        assert forall|t: int| self@.read_holders(*account) == set![t] implies
                            self@.read_holders(*account).len() == 1 by {}
                        assert(threads@ =~= self@.write_schedulable(*account));
                    }
                    threads
                },
                None => {
                    assert(self@.read_holders(*account) =~= Set::<int>::empty());
                    ThreadSet::any(self.num_threads)
                },
            },
        }
    }

    /// Add locks for all writable and readable accounts on `thread_id`.
    pub fn lock_accounts(
        &mut self,
        write_account_locks: &[Pubkey],
        read_account_locks: &[Pubkey],
        thread_id: ThreadId,
    )
        requires
            old(self).inv(),
            old(self)@.can_lock_accounts(
                write_account_locks@,
                read_account_locks@,
                thread_id as int,
            ),
        ensures
            final(self).inv(),
            final(self)@ == old(self)@.lock_accounts(
                write_account_locks@,
                read_account_locks@,
                thread_id as int,
            ),
    {
        let ghost start = self@;
        let ghost t = thread_id as int;
        proof {
            assert(write_account_locks@.take(0) =~= Seq::<Pubkey>::empty());
            Self::lemma_lock_nothing(start, t);
        }
        let mut i: usize = 0;
        while i < write_account_locks.len()
            invariant
                self.inv(),
                start.wf(),
                start.can_lock_accounts(write_account_locks@, read_account_locks@, t),
                t == thread_id as int,
                i <= write_account_locks.len(),
                self@ == start.lock_accounts(write_account_locks@.take(i as int), Seq::empty(), t),
            decreases write_account_locks.len() - i,
        {
            proof {
                start.lemma_can_lock_next_write(write_account_locks@, read_account_locks@, t, i as int);
                lemma_lock_accounts_push_write(
                    start,
                    write_account_locks@.take(i as int),
                    write_account_locks@[i as int],
                    t,
                );
                assert(write_account_locks@.take(i as int).push(write_account_locks@[i as int])
                    =~= write_account_locks@.take(i + 1));
            }
            self.write_lock_account(&write_account_locks[i], thread_id);
            i += 1;
        }
        proof {
            assert(write_account_locks@.take(i as int) =~= write_account_locks@);
            assert(read_account_locks@.take(0) =~= Seq::<Pubkey>::empty());
        }
        let mut j: usize = 0;
        while j < read_account_locks.len()
            invariant
                self.inv(),
                start.wf(),
                start.can_lock_accounts(write_account_locks@, read_account_locks@, t),
                t == thread_id as int,
                j <= read_account_locks.len(),
                self@ == start.lock_accounts(
                    write_account_locks@,
                    read_account_locks@.take(j as int),
                    t,
                ),
            decreases read_account_locks.len() - j,
        {
            proof {
                start.lemma_can_lock_next_read(write_account_locks@, read_account_locks@, t, j as int);
                lemma_lock_accounts_push_read(
                    start,
                    write_account_locks@,
                    read_account_locks@.take(j as int),
                    read_account_locks@[j as int],
                    t,
                );
                assert(read_account_locks@.take(j as int).push(read_account_locks@[j as int])
                    =~= read_account_locks@.take(j + 1));
            }
            self.read_lock_account(&read_account_locks[j], thread_id);
            j += 1;
        }
        proof {
            assert(read_account_locks@.take(j as int) =~= read_account_locks@);
        }
    }

    /// Remove locks for all writable and readable accounts on `thread_id`.
    pub fn unlock_accounts(
        &mut self,
        write_account_locks: &[Pubkey],
        read_account_locks: &[Pubkey],
        thread_id: ThreadId,
    )
        requires
            old(self).inv(),
            old(self)@.can_unlock_accounts(
                write_account_locks@,
                read_account_locks@,
                thread_id as int,
            ),
        ensures
            final(self).inv(),
            final(self)@ == old(self)@.unlock_accounts(
                write_account_locks@,
                read_account_locks@,
                thread_id as int,
            ),
    {
        let ghost start = self@;
        let ghost t = thread_id as int;
        proof {
            assert(write_account_locks@.take(0) =~= Seq::<Pubkey>::empty());
            Self::lemma_unlock_nothing(start, t);
        }
        let mut i: usize = 0;
        while i < write_account_locks.len()
            invariant
                self.inv(),
                start.wf(),
                start.can_unlock_accounts(write_account_locks@, read_account_locks@, t),
                t == thread_id as int,
                i <= write_account_locks.len(),
                self@ == start.unlock_accounts(write_account_locks@.take(i as int), Seq::empty(), t),
            decreases write_account_locks.len() - i,
        {
            proof {
                start.lemma_can_unlock_prefix(
                    write_account_locks@,
                    read_account_locks@,
                    t,
                    i + 1,
                    0,
                );
                assert(read_account_locks@.take(0) =~= Seq::<Pubkey>::empty());
                assert(write_account_locks@.take(i as int).push(write_account_locks@[i as int])
                    =~= write_account_locks@.take(i + 1));
                lemma_unlock_accounts_push_write(
                    start,
                    write_account_locks@.take(i as int),
                    write_account_locks@[i as int],
                    t,
                );
            }
            self.write_unlock_account(&write_account_locks[i], thread_id);
            i += 1;
        }
        proof {
            assert(write_account_locks@.take(i as int) =~= write_account_locks@);
            assert(read_account_locks@.take(0) =~= Seq::<Pubkey>::empty());
        }
        let mut j: usize = 0;
        while j < read_account_locks.len()
            invariant
                self.inv(),
                start.wf(),
                start.can_unlock_accounts(write_account_locks@, read_account_locks@, t),
                t == thread_id as int,
                j <= read_account_locks.len(),
                self@ == start.unlock_accounts(
                    write_account_locks@,
                    read_account_locks@.take(j as int),
                    t,
                ),
            decreases read_account_locks.len() - j,
        {
            proof {
                start.lemma_can_unlock_prefix(
                    write_account_locks@,
                    read_account_locks@,
                    t,
                    write_account_locks.len() as int,
                    j + 1,
                );
                assert(write_account_locks@.take(write_account_locks.len() as int)
                    =~= write_account_locks@);
                assert(read_account_locks@.take(j as int).push(read_account_locks@[j as int])
                    =~= read_account_locks@.take(j + 1));
                lemma_unlock_accounts_push_read(
                    start,
                    write_account_locks@,
                    read_account_locks@.take(j as int),
                    read_account_locks@[j as int],
                    t,
                );
            }
            self.read_unlock_account(&read_account_locks[j], thread_id);
            j += 1;
        }
        proof {
            assert(read_account_locks@.take(j as int) =~= read_account_locks@);
        }
    }

    proof fn lemma_lock_nothing(s: LockTable, t: int)
        requires
            s.wf(),
        ensures
            s.lock_accounts(Seq::empty(), Seq::empty(), t) == s,
    {
        let next = s.lock_accounts(Seq::empty(), Seq::empty(), t);
        assert(next.write_locks =~= s.write_locks);
        assert forall|k: (Pubkey, int)|
            next.read_counts.contains_key(k) == s.read_counts.contains_key(k) by {}
        assert(next.read_counts =~= s.read_counts);
    }

    proof fn lemma_unlock_nothing(s: LockTable, t: int)
        requires
            s.wf(),
        ensures
            s.unlock_accounts(Seq::empty(), Seq::empty(), t) == s,
    {
        let next = s.unlock_accounts(Seq::empty(), Seq::empty(), t);
        assert forall|a: Pubkey| next.write_locks.contains_key(a) == s.write_locks.contains_key(
            a,
        ) by {}
        assert(next.write_locks =~= s.write_locks);
        assert forall|k: (Pubkey, int)|
            next.read_counts.contains_key(k) == s.read_counts.contains_key(k) by {
            if s.read_counts.contains_key(k) {
                assert(s.read_counts.contains_key((k.0, k.1)));
            }
        }
        assert(next.read_counts =~= s.read_counts);
    }

    /// Locks the given `account` for writing on `thread_id`.
    pub fn write_lock_account(&mut self, account: &Pubkey, thread_id: ThreadId)
        requires
            old(self).inv(),
            old(self)@.can_lock_write(*account, thread_id as int),
        ensures
            final(self).inv(),
            final(self)@ == old(self)@.lock_write(*account, thread_id as int),
    {
        let write_lock = match self.write_locks.remove(account) {
            Some(held) => {
                assert(old(self)@.write_locks.contains_key(*account));
                WriteLock { thread_id: held.thread_id, count: held.count + 1 }
            },
            None => WriteLock { thread_id, count: 1 },
        };
        self.write_locks.insert(*account, write_lock);
        proof {
            let next = old(self)@.lock_write(*account, thread_id as int);
            assert(self@.write_locks =~= next.write_locks);
            assert(self@.read_counts =~= next.read_counts);
            old(self)@.lemma_lock_write_wf(*account, thread_id as int);
        }
    }

    /// Unlocks the given `account` for writing on `thread_id`.
    pub fn write_unlock_account(&mut self, account: &Pubkey, thread_id: ThreadId)
        requires
            old(self).inv(),
            old(self)@.can_unlock_write(*account, thread_id as int),
        ensures
            final(self).inv(),
            final(self)@ == old(self)@.unlock_write(*account, thread_id as int),
    {
        assert(old(self)@.write_locks.contains_key(*account));
        match self.write_locks.remove(account) {
            Some(held) => {
                if held.count > 1 {
                    self.write_locks.insert(
                        *account,
                        WriteLock { thread_id: held.thread_id, count: held.count - 1 },
                    );
                }
            },
            None => {},
        }
        proof {
            let next = old(self)@.unlock_write(*account, thread_id as int);
            assert(self@.write_locks =~= next.write_locks);
            assert(self@.read_counts =~= next.read_counts);
            old(self)@.lemma_unlock_write_wf(*account, thread_id as int);
        }
    }

    /// Locks the given `account` for reading on `thread_id`.
    pub fn read_lock_account(&mut self, account: &Pubkey, thread_id: ThreadId)
        requires
            old(self).inv(),
            old(self)@.can_lock_read(*account, thread_id as int),
        ensures
            final(self).inv(),
            final(self)@ == old(self)@.lock_read(*account, thread_id as int),
    {
        let (mut thread_set, mut counts) = match self.read_locks.remove(account) {
            Some(held) => {
                assert(Self::read_entry_ok(held));
                (held.thread_set, held.counts)
            },
            None => (ThreadSet::none(), [0u32; MAX_THREADS]),
        };
        let ghost before = counts;
        assert(forall|t: int|
            0 <= t < MAX_THREADS ==> before[t] == old(self)@.read_count(*account, t));
        thread_set.insert(thread_id);
        counts[thread_id] = counts[thread_id] + 1;
        let read_lock = ReadLock { thread_set, counts };
        proof {
            assert(read_lock.thread_set@ =~= Set::new(
                |t: int| 0 <= t < MAX_THREADS && read_lock.counts[t] > 0,
            ));
            assert(read_lock.thread_set@.contains(thread_id as int));
        }
        self.read_locks.insert(*account, read_lock);
        proof {
            let next = old(self)@.lock_read(*account, thread_id as int);
            assert(self@.write_locks =~= next.write_locks);
            assert(self@.read_counts =~= next.read_counts);
            old(self)@.lemma_lock_read_wf(*account, thread_id as int);
        }
    }

    /// Unlocks the given `account` for reading on `thread_id`.
    pub fn read_unlock_account(&mut self, account: &Pubkey, thread_id: ThreadId)
        requires
            old(self).inv(),
            old(self)@.can_unlock_read(*account, thread_id as int),
        ensures
            final(self).inv(),
            final(self)@ == old(self)@.unlock_read(*account, thread_id as int),
    {
        assert(old(self)@.read_counts.contains_key((*account, thread_id as int)));
        match self.read_locks.remove(account) {
            Some(held) => {
                assert(Self::read_entry_ok(held));
                let mut thread_set = held.thread_set;
                let mut counts = held.counts;
                counts[thread_id] = counts[thread_id] - 1;
                if counts[thread_id] == 0 {
                    thread_set.remove(thread_id);
                }
                proof {
                    assert(thread_set@ =~= Set::new(
                        |t: int| 0 <= t < MAX_THREADS && counts[t] > 0,
                    ));
                }
                if !thread_set.is_empty() {
                    self.read_locks.insert(*account, ReadLock { thread_set, counts });
                } else {
                    assert forall|t: int| 0 <= t < MAX_THREADS implies counts[t] == 0 by {
                        assert(!thread_set@.contains(t));
                    }
                }
                proof {
                    let next = old(self)@.unlock_read(*account, thread_id as int);
                    assert(self@.write_locks =~= next.write_locks);
                    assert forall|k: (Pubkey, int)|
                        self@.read_counts.contains_key(k) == next.read_counts.contains_key(
                            k,
                        ) by {
                        if k.0 == *account && 0 <= k.1 < MAX_THREADS {
                            assert(counts[k.1] == if k.1 == thread_id {
                                held.counts[k.1] - 1
                            } else {
                                held.counts[k.1] as int
                            });
                        }
                    }
                    assert(self@.read_counts =~= next.read_counts);
                    old(self)@.lemma_unlock_read_wf(*account, thread_id as int);
                }
            },
            None => {},
        }
    }
}

} // verus!
