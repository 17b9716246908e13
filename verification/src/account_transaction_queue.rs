//! Per-account bookkeeping of the transaction queue: the pending reads and
//! writes of an account, and a summary of the transactions that are
//! scheduled on it now.

use crate::heap::pair_le;
use crate::transaction_priority_id::TransactionPriorityId;
use std::collections::BTreeSet;
use vstd::prelude::*;

verus! {

/// The lower of two transactions in the order of service.
pub open spec fn lower_of(a: TransactionPriorityId, b: TransactionPriorityId) -> TransactionPriorityId {
    if pair_le(a.pair(), b.pair()) {
        a
    } else {
        b
    }
}

/// The lower of two optional transactions, where `None` is not lower than anything.
pub open spec fn option_lower_of(
    lhs: Option<TransactionPriorityId>,
    rhs: Option<TransactionPriorityId>,
) -> Option<TransactionPriorityId> {
    match (lhs, rhs) {
        (Some(l), Some(r)) => Some(lower_of(l, r)),
        (Some(l), None) => Some(l),
        (None, r) => r,
    }
}

/// Whether `a` is served strictly after `b`: it is lower in the order of service.
pub fn is_lower(a: &TransactionPriorityId, b: &TransactionPriorityId) -> (lower: bool)
    ensures
        lower == (pair_le(a.pair(), b.pair()) && a != b),
{
    a.priority < b.priority || (a.priority == b.priority && a.id.0 < b.id.0)
}

/// Helper function to compare options, but None is not considered less than
pub fn option_min(lhs: Option<TransactionPriorityId>, rhs: Option<TransactionPriorityId>) -> (min:
    Option<TransactionPriorityId>)
    ensures
        min == option_lower_of(lhs, rhs),
{
    match (lhs, rhs) {
        (Some(lhs), Some(rhs)) => if is_lower(&rhs, &lhs) {
            Some(rhs)
        } else {
            Some(lhs)
        },
        (Some(lhs), None) => Some(lhs),
        (None, rhs) => rhs,
    }
}

/// The number of outstanding locks of one kind on an account, and the lowest
/// transaction among those that hold them.
#[derive(Copy, Clone, Debug, PartialEq, Eq, Structural)]
pub struct AccountLockInner {
    pub count: usize,
    pub lowest_priority_transaction: Option<TransactionPriorityId>,
}

impl AccountLockInner {
    /// No lock.
    pub open spec fn unlocked() -> AccountLockInner {
        AccountLockInner { count: 0, lowest_priority_transaction: None }
    }

    /// The summary after `transaction` has taken a lock: one more holder, and
    /// `transaction` as the lowest if it is lower than the lowest so far.
    pub open spec fn locked_for(self, transaction: TransactionPriorityId) -> AccountLockInner {
        AccountLockInner {
            count: if self.count < usize::MAX {
                (self.count + 1) as usize
            } else {
                self.count
            },
            lowest_priority_transaction: match self.lowest_priority_transaction {
                Some(lowest) => Some(lower_of(transaction, lowest)),
                None => Some(transaction),
            },
        }
    }

    /// The summary after a holder has given its lock back: one holder fewer,
    /// and no lowest transaction once there is no holder.
    pub open spec fn unlocked_once(self) -> AccountLockInner {
        if self.count <= 1 {
            AccountLockInner::unlocked()
        } else {
            AccountLockInner { count: (self.count - 1) as usize, ..self }
        }
    }

    pub fn new() -> (inner: Self)
        ensures
            inner == AccountLockInner::unlocked(),
    {
        AccountLockInner { count: 0, lowest_priority_transaction: None }
    }

    pub fn lock_for_transaction(&mut self, transaction: &TransactionPriorityId)
        ensures
            *final(self) == old(self).locked_for(*transaction),
    {
        if self.count < usize::MAX {
            self.count += 1;
        }
        match self.lowest_priority_transaction {
            Some(lowest) => {
                if is_lower(transaction, &lowest) {
                    self.lowest_priority_transaction = Some(*transaction);
                }
            },
            None => {
                self.lowest_priority_transaction = Some(*transaction);
            },
        }
    }

    pub fn unlock_for_transaction(&mut self, transaction: &TransactionPriorityId)
        ensures
            *final(self) == old(self).unlocked_once(),
    {
        if self.count > 0 {
            self.count -= 1;
        }
        // This works because we are scheduling by priority order.
        // So the lowest priority transaction scheduled is guaranteed to finish last
        if self.count == 0 {
            self.lowest_priority_transaction = None;
        }
    }
}

/// Tracks the number of outstanding write/read locks and the lowest priority
#[derive(Copy, Clone, Debug, PartialEq, Eq, Structural)]
pub struct AccountLock {
    pub write: AccountLockInner,
    pub read: AccountLockInner,
}

impl AccountLock {
    /// No lock of either kind.
    pub open spec fn unlocked() -> AccountLock {
        AccountLock { write: AccountLockInner::unlocked(), read: AccountLockInner::unlocked() }
    }

    pub open spec fn locked_on(self, transaction: TransactionPriorityId, is_write: bool) -> AccountLock {
        if is_write {
            AccountLock { write: self.write.locked_for(transaction), ..self }
        } else {
            AccountLock { read: self.read.locked_for(transaction), ..self }
        }
    }

    pub open spec fn unlocked_on(self, is_write: bool) -> AccountLock {
        if is_write {
            AccountLock { write: self.write.unlocked_once(), ..self }
        } else {
            AccountLock { read: self.read.unlocked_once(), ..self }
        }
    }

    /// The lowest scheduled transaction that a new read, or a new write,
    /// would conflict with: a write conflicts with scheduled reads and
    /// writes, a read with scheduled writes only.
    pub open spec fn min_blocking(self, is_write: bool) -> Option<TransactionPriorityId> {
        if is_write {
            option_lower_of(
                self.read.lowest_priority_transaction,
                self.write.lowest_priority_transaction,
            )
        } else {
            self.write.lowest_priority_transaction
        }
    }

    pub fn new() -> (lock: Self)
        ensures
            lock == AccountLock::unlocked(),
    {
        AccountLock { write: AccountLockInner::new(), read: AccountLockInner::new() }
    }

    pub fn lock_on_transaction(&mut self, transaction: &TransactionPriorityId, is_write: bool)
        ensures
            *final(self) == old(self).locked_on(*transaction, is_write),
    {
        if is_write {
            self.write.lock_for_transaction(transaction);
        } else {
            self.read.lock_for_transaction(transaction);
        }
    }

    pub fn unlock_on_transaction(&mut self, transaction: &TransactionPriorityId, is_write: bool)
        ensures
            *final(self) == old(self).unlocked_on(is_write),
    {
        if is_write {
            self.write.unlock_for_transaction(transaction);
        } else {
            self.read.unlock_for_transaction(transaction);
        }
    }

    pub fn write_locked(&self) -> (locked: bool)
        ensures
            locked == (self.write.count > 0),
    {
        self.write.count > 0
    }

    pub fn read_locked(&self) -> (locked: bool)
        ensures
            locked == (self.read.count > 0),
    {
        self.read.count > 0
    }

    pub fn get_lowest_priority_transaction(&self, is_write: bool) -> (lowest: Option<
        TransactionPriorityId,
    >)
        ensures
            lowest == if is_write {
                self.write.lowest_priority_transaction
            } else {
                self.read.lowest_priority_transaction
            },
    {
        if is_write {
            self.write.lowest_priority_transaction
        } else {
            self.read.lowest_priority_transaction
        }
    }
}

/// The queue of an account as a value: the pending reads and writes, as sets
/// of `(priority, id)` pairs, and the summary of the scheduled locks.
pub struct AccountQueueState {
    pub reads: Set<(u64, u64)>,
    pub writes: Set<(u64, u64)>,
    pub scheduled_lock: AccountLock,
}

impl AccountQueueState {
    /// The queue of an account that no transaction names.
    pub open spec fn empty() -> AccountQueueState {
        AccountQueueState {
            reads: Set::empty(),
            writes: Set::empty(),
            scheduled_lock: AccountLock::unlocked(),
        }
    }

    /// Whether no transaction is left in the queue.
    pub open spec fn is_empty(self) -> bool {
        self.reads == Set::<(u64, u64)>::empty() && self.writes == Set::<(u64, u64)>::empty()
    }

    /// The queue with `transaction` among its reads or its writes.
    pub open spec fn inserted(self, transaction: TransactionPriorityId, is_write: bool) -> AccountQueueState {
        if is_write {
            AccountQueueState { writes: self.writes.insert(transaction.pair()), ..self }
        } else {
            AccountQueueState { reads: self.reads.insert(transaction.pair()), ..self }
        }
    }

    /// The queue after `transaction` has been scheduled: its lock is counted.
    pub open spec fn scheduled(self, transaction: TransactionPriorityId, is_write: bool) -> AccountQueueState {
        AccountQueueState {
            scheduled_lock: self.scheduled_lock.locked_on(transaction, is_write),
            ..self
        }
    }

    /// The queue without `transaction`, and with one lock of its kind given back.
    pub open spec fn removed(self, transaction: TransactionPriorityId, is_write: bool) -> AccountQueueState {
        if is_write {
            AccountQueueState {
                writes: self.writes.remove(transaction.pair()),
                scheduled_lock: self.scheduled_lock.unlocked_on(true),
                ..self
            }
        } else {
            AccountQueueState {
                reads: self.reads.remove(transaction.pair()),
                scheduled_lock: self.scheduled_lock.unlocked_on(false),
                ..self
            }
        }
    }
}

/// Tracks all pending and blocked transactions for a given account, ordered by priority.
pub struct AccountTransactionQueue {
    /// Tree of read transactions on the account ordered by fee-priority
    reads: BTreeSet<(u64, u64)>,
    /// Tree of write transactions on the account ordered by fee-priority
    writes: BTreeSet<(u64, u64)>,
    /// Tracks currently scheduled transactions on the account
    scheduled_lock: AccountLock,
}

impl View for AccountTransactionQueue {
    type V = AccountQueueState;

    closed spec fn view(&self) -> AccountQueueState {
        AccountQueueState {
            reads: self.reads@,
            writes: self.writes@,
            scheduled_lock: self.scheduled_lock,
        }
    }
}

impl AccountTransactionQueue {
    /// The queue of an account that no transaction names yet.
    pub fn new() -> (queue: Self)
        ensures
            queue@ == AccountQueueState::empty(),
    {
        AccountTransactionQueue {
            reads: BTreeSet::new(),
            writes: BTreeSet::new(),
            scheduled_lock: AccountLock::new(),
        }
    }

    /// Insert a transaction into the queue.
    pub fn insert_transaction(&mut self, transaction: TransactionPriorityId, is_write: bool)
        ensures
            final(self)@ == old(self)@.inserted(transaction, is_write),
    {
        if is_write {
            self.writes.insert(transaction.to_pair());
        } else {
            self.reads.insert(transaction.to_pair());
        }
    }

    /// Apply account locks for `transaction`
    pub fn handle_schedule_transaction(&mut self, transaction: &TransactionPriorityId, is_write: bool)
        ensures
            final(self)@ == old(self)@.scheduled(*transaction, is_write),
    {
        self.scheduled_lock.lock_on_transaction(transaction, is_write);
    }

    /// Remove transaction from the queue whether on completion or being dropped.
    ///
    /// Returns true if there are no remaining transactions in this account's queue.
    pub fn remove_transaction(&mut self, transaction: &TransactionPriorityId, is_write: bool) -> (empty:
        bool)
        ensures
            final(self)@ == old(self)@.removed(*transaction, is_write),
            empty == final(self)@.is_empty(),
    {
        // Remove from appropriate tree
        if is_write {
            self.writes.remove(&transaction.to_pair());
        } else {
            self.reads.remove(&transaction.to_pair());
        }
        // Unlock
        self.scheduled_lock.unlock_on_transaction(transaction, is_write);
        self.writes.is_empty() && self.reads.is_empty()
    }

    /// Find the minimum priority transaction that blocks this transaction if there is one.
    pub fn get_min_blocking_transaction(&self, transaction: &TransactionPriorityId, is_write: bool) -> (
    blocking: Option<TransactionPriorityId>)
        ensures
            blocking == self@.scheduled_lock.min_blocking(is_write),
    {
        let mut min_blocking_transaction = None;
        if is_write {
            min_blocking_transaction =
            option_min(
                min_blocking_transaction,
                self.scheduled_lock.get_lowest_priority_transaction(false),
            );
        }
        min_blocking_transaction =
        option_min(
            min_blocking_transaction,
            self.scheduled_lock.get_lowest_priority_transaction(true),
        );
        min_blocking_transaction
    }

    /// Number of pending reads and of pending writes.
    pub fn len(&self) -> (lens: (usize, usize))
        ensures
            lens.0 == self@.reads.len(),
            lens.1 == self@.writes.len(),
    {
        (self.reads.len(), self.writes.len())
    }

    /// The summary of the scheduled locks.
    pub fn scheduled_lock(&self) -> (lock: AccountLock)
        ensures
            lock == self@.scheduled_lock,
    {
        self.scheduled_lock
    }
}

} // verus!
