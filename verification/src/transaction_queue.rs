//! Queue structure for ordering transactions by priority without conflict.

use crate::account_transaction_queue::{option_min, AccountQueueState, AccountTransactionQueue};
use crate::heap::{
    heap_items, heap_len, heap_pop_max, heap_push, heap_push_pop_min, heap_with_capacity,
};
use crate::key_map::{KeyMap, MessageHash, Pubkey};
use crate::packet::{
    DeserializedPacket, ImmutableDeserializedPacket, SanitizedTransaction, TransactionAccountLocks,
    MAX_TX_ACCOUNT_LOCKS,
};
use crate::queue_state::{
    insert_into, insert_one, lemma_greatest_is_unique, min_blocking_in, queue_of, remove_from,
    remove_one, schedule_in, schedule_one, QueueState, SanitizedTransactionPriority,
    TrackedTransaction, MAX_BATCH_SIZE,
};
use crate::transaction_packet_container::lemma_least_is_unique;
use crate::transaction_priority_id::{TransactionId, TransactionPriorityId};
use min_max_heap::MinMaxHeap;
use std::collections::HashMap;
use vstd::prelude::*;

verus! {

/// The account queues as values.
pub open spec fn queues_view(queues: Map<Pubkey, AccountTransactionQueue>) -> Map<
    Pubkey,
    AccountQueueState,
> {
    queues.map_values(|queue: AccountTransactionQueue| queue@)
}

/// The parked transactions as values.
pub open spec fn blocked_view(blocked: Map<u64, Vec<TransactionPriorityId>>) -> Map<
    u64,
    Seq<TransactionPriorityId>,
> {
    blocked.map_values(|parked: Vec<TransactionPriorityId>| parked@)
}

impl SanitizedTransactionPriority {
    pub fn new(id: TransactionId, priority: u64, transaction: SanitizedTransaction) -> (entry: Self)
        ensures
            entry.id == id,
            entry.priority == priority,
            entry.transaction == transaction,
    {
        SanitizedTransactionPriority { id, priority, transaction }
    }

    /// The transaction with the priority of its packet, where sanitizing the
    /// packet gave a transaction, and the transaction is that of the packet.
    pub fn try_new(
        id: TransactionId,
        packet: &ImmutableDeserializedPacket,
        transaction: Option<SanitizedTransaction>,
    ) -> (entry: Option<Self>)
        ensures
            entry == match transaction {
                Some(transaction) => if transaction.message_hash == packet.message_hash {
                    Some(SanitizedTransactionPriority { id, priority: packet.priority, transaction })
                } else {
                    None
                },
                None => None,
            },
    {
        match transaction {
            Some(transaction) => {
                if transaction.message_hash().hi == packet.message_hash().hi
                    && transaction.message_hash().lo == packet.message_hash().lo {
                    Some(SanitizedTransactionPriority { id, priority: packet.priority(), transaction })
                } else {
                    None
                }
            },
            None => None,
        }
    }

    /// Get the message hash from the transaction
    pub fn message_hash(&self) -> (hash: &MessageHash)
        ensures
            *hash == self.transaction.message_hash,
    {
        self.transaction.message_hash()
    }

    /// Get account locks from the transaction
    pub fn get_account_locks(&self) -> (locks: Option<TransactionAccountLocks<'_>>)
        ensures
            locks.is_some() == self.transaction.valid_account_locks(MAX_TX_ACCOUNT_LOCKS),
            match locks {
                Some(l) => l.writable@ == self.transaction.writable@ && l.readonly@
                    == self.transaction.readonly@,
                None => true,
            },
    {
        self.transaction.get_account_locks(MAX_TX_ACCOUNT_LOCKS)
    }

    /// The identifier and priority by which the transaction is ordered.
    pub fn priority_id(&self) -> (handle: TransactionPriorityId)
        ensures
            handle == self.handle(),
    {
        TransactionPriorityId::new(self.priority, self.id)
    }
}

/// Queue structure for ordering transactions by priority without conflict.
pub struct TransactionQueue {
    /// How many transactions may be pending at once.
    capacity: usize,
    /// Pending transactions that are not known to be blocked. Ordered by priority.
    pending_transactions: MinMaxHeap<(u64, u64)>,
    /// Transaction queues and locks by account key
    account_queues: KeyMap<AccountTransactionQueue>,
    /// Map from transaction id to transactions blocked by that transaction
    blocked_transactions: HashMap<u64, Vec<TransactionPriorityId>>,
    /// Map from transaction id to transaction and packet
    tracking_map: HashMap<u64, TrackedTransaction>,
    /// Map from message hash to transaction id
    tracked_hashes: KeyMap<u64>,
}

impl View for TransactionQueue {
    type V = QueueState;

    closed spec fn view(&self) -> QueueState {
        QueueState {
            capacity: self.capacity as nat,
            pending: heap_items(self.pending_transactions),
            account_queues: queues_view(self.account_queues@),
            blocked: blocked_view(self.blocked_transactions@),
            tracking: self.tracking_map@,
            hashes: self.tracked_hashes@,
        }
    }
}

impl TransactionQueue {
    /// The invariant of the queue: it never holds more pending transactions
    /// than its capacity.
    pub closed spec fn inv(&self) -> bool {
        &&& self.account_queues.wf()
        &&& self.tracked_hashes.wf()
        &&& heap_items(self.pending_transactions).len() <= self.capacity
    }

    /// The pending transactions stay within the capacity.
    pub proof fn lemma_pending_within_capacity(&self)
        requires
            self.inv(),
        ensures
            self@.pending.len() <= self@.capacity,
    {
    }

    /// Create a new transaction queue with capacity
    pub fn with_capacity(capacity: usize) -> (queue: Self)
        requires
            capacity * 16 <= isize::MAX,
        ensures
            queue.inv(),
            queue@ == QueueState::empty(capacity as nat),
    {
        let queue = TransactionQueue {
            capacity,
            pending_transactions: heap_with_capacity(capacity),
            account_queues: KeyMap::new(),
            blocked_transactions: HashMap::new(),
            tracking_map: HashMap::with_capacity(capacity),
            tracked_hashes: KeyMap::new(),
        };
        proof {
            let empty = QueueState::empty(capacity as nat);
            assert(queue@.account_queues =~= empty.account_queues);
            assert(queue@.blocked =~= empty.blocked);
        }
        queue
    }

    /// Enters `transaction` as pending in the queue of each of `accounts`.
    fn insert_into_queues(
        queues: &mut KeyMap<AccountTransactionQueue>,
        accounts: &[Pubkey],
        transaction: TransactionPriorityId,
        is_write: bool,
    )
        requires
            old(queues).wf(),
        ensures
            final(queues).wf(),
            queues_view(final(queues)@) == insert_into(
                queues_view(old(queues)@),
                accounts@,
                transaction,
                is_write,
            ),
    {
        let ghost start = queues_view(queues@);
        let mut i: usize = 0;
        proof {
            assert(accounts@.take(0) =~= Seq::<Pubkey>::empty());
        }
        while i < accounts.len()
            invariant
                queues.wf(),
                i <= accounts.len(),
                queues_view(queues@) == insert_into(
                    start,
                    accounts@.take(i as int),
                    transaction,
                    is_write,
                ),
            decreases accounts.len() - i,
        {
            let ghost before = queues_view(queues@);
            let mut queue = match queues.remove(&accounts[i]) {
                Some(queue) => queue,
                None => AccountTransactionQueue::new(),
            };
            assert(queue@ == queue_of(before, accounts@[i as int]));
            queue.insert_transaction(transaction, is_write);
            queues.insert(accounts[i], queue);
            proof {
                assert(accounts@.take(i + 1).drop_last() =~= accounts@.take(i as int));
                assert(queues_view(queues@) =~= insert_one(
                    before,
                    accounts@[i as int],
                    transaction,
                    is_write,
                ));
            }
            i += 1;
        }
        proof {
            assert(accounts@.take(i as int) =~= accounts@);
        }
    }

    /// Counts the lock of `transaction` in the queue of each of `accounts`.
    fn schedule_in_queues(
        queues: &mut KeyMap<AccountTransactionQueue>,
        accounts: &[Pubkey],
        transaction: TransactionPriorityId,
        is_write: bool,
    )
        requires
            old(queues).wf(),
        ensures
            final(queues).wf(),
            queues_view(final(queues)@) == schedule_in(
                queues_view(old(queues)@),
                accounts@,
                transaction,
                is_write,
            ),
    {
        let ghost start = queues_view(queues@);
        let mut i: usize = 0;
        proof {
            assert(accounts@.take(0) =~= Seq::<Pubkey>::empty());
        }
        while i < accounts.len()
            invariant
                queues.wf(),
                i <= accounts.len(),
                queues_view(queues@) == schedule_in(
                    start,
                    accounts@.take(i as int),
                    transaction,
                    is_write,
                ),
            decreases accounts.len() - i,
        {
            let ghost before = queues_view(queues@);
            match queues.remove(&accounts[i]) {
                Some(queue) => {
                    let mut queue = queue;
                    queue.handle_schedule_transaction(&transaction, is_write);
                    queues.insert(accounts[i], queue);
                },
                None => {},
            }
            proof {
                assert(accounts@.take(i + 1).drop_last() =~= accounts@.take(i as int));
                assert(queues_view(queues@) =~= schedule_one(
                    before,
                    accounts@[i as int],
                    transaction,
                    is_write,
                ));
            }
            i += 1;
        }
        proof {
            assert(accounts@.take(i as int) =~= accounts@);
        }
    }

    /// Takes `transaction` out of the queue of each of `accounts`, and each
    /// queue that is left empty out of the map.
    fn remove_from_queues(
        queues: &mut KeyMap<AccountTransactionQueue>,
        accounts: &[Pubkey],
        transaction: TransactionPriorityId,
        is_write: bool,
    )
        requires
            old(queues).wf(),
        ensures
            final(queues).wf(),
            queues_view(final(queues)@) == remove_from(
                queues_view(old(queues)@),
                accounts@,
                transaction,
                is_write,
            ),
    {
        let ghost start = queues_view(queues@);
        let mut i: usize = 0;
        proof {
            assert(accounts@.take(0) =~= Seq::<Pubkey>::empty());
        }
        while i < accounts.len()
            invariant
                queues.wf(),
                i <= accounts.len(),
                queues_view(queues@) == remove_from(
                    start,
                    accounts@.take(i as int),
                    transaction,
                    is_write,
                ),
            decreases accounts.len() - i,
        {
            let ghost before = queues_view(queues@);
            match queues.remove(&accounts[i]) {
                Some(queue) => {
                    let mut queue = queue;
                    if !queue.remove_transaction(&transaction, is_write) {
                        queues.insert(accounts[i], queue);
                    }
                },
                None => {},
            }
            proof {
                assert(accounts@.take(i + 1).drop_last() =~= accounts@.take(i as int));
                assert(queues_view(queues@) =~= remove_one(
                    before,
                    accounts@[i as int],
                    transaction,
                    is_write,
                ));
            }
            i += 1;
        }
        proof {
            assert(accounts@.take(i as int) =~= accounts@);
        }
    }

    /// The lowest of `lowest` and of the scheduled transactions that block a
    /// read, or a write, of one of `accounts`.
    fn min_blocking_in_queues(
        queues: &KeyMap<AccountTransactionQueue>,
        accounts: &[Pubkey],
        transaction: &TransactionPriorityId,
        is_write: bool,
        lowest: Option<TransactionPriorityId>,
    ) -> (blocking: Option<TransactionPriorityId>)
        ensures
            blocking == min_blocking_in(queues_view(queues@), accounts@, is_write, lowest),
    {
        let mut blocking = lowest;
        let mut i: usize = 0;
        proof {
            assert(accounts@.take(0) =~= Seq::<Pubkey>::empty());
        }
        while i < accounts.len()
            invariant
                i <= accounts.len(),
                blocking == min_blocking_in(
                    queues_view(queues@),
                    accounts@.take(i as int),
                    is_write,
                    lowest,
                ),
            decreases accounts.len() - i,
        {
            let in_account = match queues.get(&accounts[i]) {
                Some(queue) => queue.get_min_blocking_transaction(transaction, is_write),
                None => None,
            };
            blocking = option_min(blocking, in_account);
            proof {
                assert(accounts@.take(i + 1).drop_last() =~= accounts@.take(i as int));
            }
            i += 1;
        }
        proof {
            assert(accounts@.take(i as int) =~= accounts@);
        }
        blocking
    }

    /// Returns the remaining capacity of the pending queue
    pub fn remaining_capacity(&self) -> (remaining: usize)
        requires
            self.inv(),
        ensures
            remaining == self@.capacity - self@.pending.len(),
    {
        self.capacity - heap_len(&self.pending_transactions)
    }

    /// Number of pending transactions.
    pub fn pending_len(&self) -> (len: usize)
        ensures
            len == self@.pending.len(),
    {
        heap_len(&self.pending_transactions)
    }

    /// Number of tracked transactions.
    pub fn num_tracked(&self) -> (len: usize)
        ensures
            len == self@.tracking.len(),
    {
        self.tracking_map.len()
    }

    /// Whether the transaction `id` is tracked.
    pub fn is_tracked(&self, id: &TransactionId) -> (found: bool)
        ensures
            found == self@.tracking.contains_key(id.0),
    {
        self.tracking_map.contains_key(&id.0)
    }

    /// The packet of the transaction `id`, if it is tracked.
    pub fn get_packet(&self, id: &TransactionId) -> (packet: Option<DeserializedPacket>)
        ensures
            packet == if self@.tracking.contains_key(id.0) {
                Some(self@.tracking[id.0].packet)
            } else {
                None
            },
    {
        match self.tracking_map.get(&id.0) {
            Some(entry) => Some(entry.packet),
            None => None,
        }
    }

    /// The identifier and priority of the transaction `id`, if it is tracked.
    pub fn get_handle(&self, id: &TransactionId) -> (handle: Option<TransactionPriorityId>)
        ensures
            handle == if self@.tracking.contains_key(id.0) {
                Some(self@.tracking[id.0].transaction.handle())
            } else {
                None
            },
    {
        match self.tracking_map.get(&id.0) {
            Some(entry) => Some(entry.transaction.priority_id()),
            None => None,
        }
    }

    /// Whether any account has a queue.
    pub fn has_account_queues(&self) -> (any: bool)
        requires
            self.inv(),
        ensures
            any == (self@.account_queues != Map::<Pubkey, AccountQueueState>::empty()),
    {
        let empty = self.account_queues.is_empty();
        proof {
            if empty {
                assert(self@.account_queues =~= Map::<Pubkey, AccountQueueState>::empty());
            } else {
                if self.account_queues@.dom() =~= Set::<Pubkey>::empty() {
                    assert(self.account_queues@ =~= Map::<Pubkey, AccountTransactionQueue>::empty());
                }
                let a = choose|a: Pubkey| self.account_queues@.contains_key(a);
                assert(self@.account_queues.contains_key(a));
            }
        }
        !empty
    }

    /// Whether the account has a queue, and if so the number of its pending
    /// reads and writes.
    pub fn account_queue_len(&self, account: &Pubkey) -> (lens: Option<(usize, usize)>)
        ensures
            match lens {
                Some((reads, writes)) => self@.account_queues.contains_key(*account) && reads
                    == self@.account_queues[*account].reads.len() && writes
                    == self@.account_queues[*account].writes.len(),
                None => !self@.account_queues.contains_key(*account),
            },
    {
        match self.account_queues.get(account) {
            Some(queue) => Some(queue.len()),
            None => None,
        }
    }

    /// Number of transactions parked behind the transaction `id`.
    pub fn num_parked_behind(&self, id: &TransactionId) -> (len: usize)
        ensures
            len == self@.parked_behind(id.0).len(),
    {
        match self.blocked_transactions.get(&id.0) {
            Some(parked) => parked.len(),
            None => 0,
        }
    }

    /// Insert a transaction into the account queues
    fn insert_transaction_into_account_queues(&mut self, transaction: &SanitizedTransactionPriority)
        requires
            old(self).inv(),
        ensures
            final(self).inv(),
            final(self)@ == (QueueState {
                account_queues: insert_into(
                    insert_into(
                        old(self)@.account_queues,
                        transaction.transaction.readonly@,
                        transaction.handle(),
                        false,
                    ),
                    transaction.transaction.writable@,
                    transaction.handle(),
                    true,
                ),
                ..old(self)@
            }),
    {
        let handle = transaction.priority_id();
        let account_locks = transaction.transaction.get_account_locks_unchecked();
        Self::insert_into_queues(&mut self.account_queues, account_locks.readonly, handle, false);
        Self::insert_into_queues(&mut self.account_queues, account_locks.writable, handle, true);
    }

    /// Remove a transaction from account queues
    fn remove_transaction_from_account_queues(&mut self, transaction: &SanitizedTransactionPriority)
        requires
            old(self).inv(),
        ensures
            final(self).inv(),
            final(self)@ == (QueueState {
                account_queues: remove_from(
                    remove_from(
                        old(self)@.account_queues,
                        transaction.transaction.readonly@,
                        transaction.handle(),
                        false,
                    ),
                    transaction.transaction.writable@,
                    transaction.handle(),
                    true,
                ),
                ..old(self)@
            }),
    {
        let handle = transaction.priority_id();
        let account_locks = transaction.transaction.get_account_locks_unchecked();
        Self::remove_from_queues(&mut self.account_queues, account_locks.readonly, handle, false);
        Self::remove_from_queues(&mut self.account_queues, account_locks.writable, handle, true);
    }

    /// Drops the transaction `id` from the tracking map, from the queues of
    /// its accounts and from the blocked map.
    fn drop_transaction(&mut self, id: u64)
        requires
            old(self).inv(),
        ensures
            final(self).inv(),
            final(self)@ == old(self)@.evict(id),
    {
        self.blocked_transactions.remove(&id);
        proof {
            assert(self@.blocked =~= old(self)@.blocked.remove(id));
        }
        match self.tracking_map.remove(&id) {
            Some(entry) => {
                self.tracked_hashes.remove(entry.transaction.transaction.message_hash());
                self.remove_transaction_from_account_queues(&entry.transaction);
                proof {
                    assert(self@.tracking =~= old(self)@.evict(id).tracking);
                }
            },
            None => {
                proof {
                    assert(self@.tracking =~= old(self)@.tracking);
                }
            },
        }
    }

    /// Insert a transaction into the pending queue
    pub fn insert_transaction_into_pending_queue(&mut self, transaction: &TransactionPriorityId)
        requires
            old(self).inv(),
        ensures
            final(self).inv(),
            final(self)@ == old(self)@.push_pending(*transaction),
    {
        if self.remaining_capacity() > 0 {
            heap_push(&mut self.pending_transactions, transaction.to_pair());
        } else {
            let dropped = heap_push_pop_min(&mut self.pending_transactions, transaction.to_pair());
            proof {
                lemma_least_is_unique(old(self)@.pending.insert(transaction.pair()), dropped);
            }
            self.drop_transaction(dropped.1);
        }
    }

    /// Insert a new transaction into the queue(s) and maps
    pub fn insert_transaction(
        &mut self,
        transaction: SanitizedTransactionPriority,
        packet: DeserializedPacket,
    )
        requires
            old(self).inv(),
            !old(self)@.tracking.contains_key(transaction.id.0),
        ensures
            final(self).inv(),
            final(self)@ == old(self)@.insert_transaction(TrackedTransaction { transaction, packet }),
    {
        let handle = transaction.priority_id();
        let id = transaction.id.0;
        self.insert_transaction_into_account_queues(&transaction);
        self.tracked_hashes.insert(*transaction.transaction.message_hash(), id);
        self.tracking_map.insert(id, TrackedTransaction { transaction, packet });
        proof {
            assert(self@.blocked =~= old(self)@.blocked);
        }
        self.insert_transaction_into_pending_queue(&handle);
    }

    /// Gets the lowest priority transaction that blocks this one
    pub fn get_lowest_priority_blocking_transaction(&self, transaction: &TransactionPriorityId) -> (
    blocking: Option<TransactionPriorityId>)
        ensures
            blocking == self@.lowest_priority_blocking(transaction.id.0),
    {
        match self.tracking_map.get(&transaction.id.0) {
            Some(entry) => {
                let account_locks = entry.transaction.transaction.get_account_locks_unchecked();
                let min_blocking_transaction = Self::min_blocking_in_queues(
                    &self.account_queues,
                    account_locks.readonly,
                    transaction,
                    false,
                    None,
                );
                Self::min_blocking_in_queues(
                    &self.account_queues,
                    account_locks.writable,
                    transaction,
                    true,
                    min_blocking_transaction,
                )
            },
            None => None,
        }
    }

    /// Check if a transaction can be scheduled. If it cannot, add it to the blocked transactions
    pub fn can_schedule_transaction(&mut self, transaction: &TransactionPriorityId) -> (schedulable:
        bool)
        requires
            old(self).inv(),
        ensures
            final(self).inv(),
            match old(self)@.lowest_priority_blocking(transaction.id.0) {
                Some(blocker) => !schedulable && final(self)@ == old(self)@.park(
                    blocker.id.0,
                    *transaction,
                ),
                None => schedulable && final(self)@ == old(self)@,
            },
    {
        let maybe_blocking_transaction = self.get_lowest_priority_blocking_transaction(transaction);
        match maybe_blocking_transaction {
            Some(blocking_transaction) => {
                let mut parked = match self.blocked_transactions.remove(&blocking_transaction.id.0) {
                    Some(parked) => parked,
                    None => Vec::new(),
                };
                parked.push(*transaction);
                self.blocked_transactions.insert(blocking_transaction.id.0, parked);
                proof {
                    assert(self@.blocked =~= old(self)@.park(
                        blocking_transaction.id.0,
                        *transaction,
                    ).blocked);
                }
                false
            },
            None => true,
        }
    }

    /// Lock all accounts for a transaction
    pub fn lock_for_transaction(&mut self, transaction: &TransactionPriorityId)
        requires
            old(self).inv(),
        ensures
            final(self).inv(),
            final(self)@ == old(self)@.lock_for_transaction(transaction.id.0),
    {
        match self.tracking_map.get(&transaction.id.0) {
            Some(entry) => {
                let handle = entry.transaction.priority_id();
                let account_locks = entry.transaction.transaction.get_account_locks_unchecked();
                Self::schedule_in_queues(
                    &mut self.account_queues,
                    account_locks.readonly,
                    handle,
                    false,
                );
                Self::schedule_in_queues(
                    &mut self.account_queues,
                    account_locks.writable,
                    handle,
                    true,
                );
            },
            None => {},
        }
    }

    /// Lock a batch of transactions
    pub fn lock_batch(&mut self, batch: &[TransactionPriorityId])
        requires
            old(self).inv(),
        ensures
            final(self).inv(),
            final(self)@ == old(self)@.lock_batch(batch@),
    {
        let mut i: usize = 0;
        proof {
            assert(batch@.take(0) =~= Seq::<TransactionPriorityId>::empty());
        }
        while i < batch.len()
            invariant
                self.inv(),
                i <= batch.len(),
                self@ == old(self)@.lock_batch(batch@.take(i as int)),
            decreases batch.len() - i,
        {
            self.lock_for_transaction(&batch[i]);
            proof {
                assert(batch@.take(i + 1).drop_last() =~= batch@.take(i as int));
            }
            i += 1;
        }
        proof {
            assert(batch@.take(i as int) =~= batch@);
        }
    }

    /// Unblock transactions blocked by a transaction
    pub fn unblock_transaction(&mut self, id: &TransactionId)
        requires
            old(self).inv(),
        ensures
            final(self).inv(),
            final(self)@ == (QueueState {
                blocked: old(self)@.blocked.remove(id.0),
                ..old(self)@
            }).push_all_pending(old(self)@.parked_behind(id.0)),
    {
        let ghost start = QueueState { blocked: old(self)@.blocked.remove(id.0), ..old(self)@ };
        match self.blocked_transactions.remove(&id.0) {
            Some(blocked_transactions) => {
                proof {
                    assert(self@.blocked =~= start.blocked);
                    assert(blocked_transactions@.take(0) =~= Seq::<TransactionPriorityId>::empty());
                }
                let mut i: usize = 0;
                while i < blocked_transactions.len()
                    invariant
                        self.inv(),
                        i <= blocked_transactions.len(),
                        self@ == start.push_all_pending(blocked_transactions@.take(i as int)),
                    decreases blocked_transactions.len() - i,
                {
                    self.insert_transaction_into_pending_queue(&blocked_transactions[i]);
                    proof {
                        assert(blocked_transactions@.take(i + 1).drop_last()
                            =~= blocked_transactions@.take(i as int));
                    }
                    i += 1;
                }
                proof {
                    assert(blocked_transactions@.take(i as int) =~= blocked_transactions@);
                }
            },
            None => {
                proof {
                    assert(self@.blocked =~= start.blocked);
                }
            },
        }
    }

    /// Remove a transaction from the queue(s) and maps
    ///     - This will happen if a transaction is completed or dropped
    ///     - The transaction should already be removed from the pending queue
    pub fn remove_transaction(&mut self, id: &TransactionId)
        requires
            old(self).inv(),
        ensures
            final(self).inv(),
            final(self)@ == old(self)@.remove_transaction(id.0),
    {
        match self.tracking_map.remove(&id.0) {
            Some(entry) => {
                self.tracked_hashes.remove(entry.transaction.transaction.message_hash());
                self.remove_transaction_from_account_queues(&entry.transaction);
            },
            None => {},
        }
        proof {
            assert(self@.blocked =~= old(self)@.blocked);
        }
        let ghost middle = self@;
        self.unblock_transaction(id);
        proof {
            let start = QueueState { blocked: middle.blocked.remove(id.0), ..middle };
            assert(start.tracking =~= old(self)@.evict(id.0).tracking);
            assert(start == old(self)@.evict(id.0));
        }
    }

    /// Mark a transaction as complete or retry
    pub fn complete_or_retry(&mut self, id: &TransactionId, retry: bool)
        requires
            old(self).inv(),
            old(self)@.tracking.contains_key(id.0),
        ensures
            final(self).inv(),
            final(self)@ == old(self)@.complete_or_retry(id.0, retry),
    {
        if retry {
            let handle = match self.tracking_map.get(&id.0) {
                Some(entry) => entry.transaction.priority_id(),
                None => vstd::pervasive::unreached(),
            };
            self.insert_transaction_into_pending_queue(&handle);
        } else {
            self.remove_transaction(id);
        }
    }

    /// Mark a transaction as forwarded
    pub fn mark_forwarded(&mut self, id: &TransactionId)
        requires
            old(self).inv(),
            old(self)@.tracking.contains_key(id.0),
        ensures
            final(self).inv(),
            final(self)@ == old(self)@.mark_forwarded(id.0),
    {
        match self.tracking_map.remove(&id.0) {
            Some(entry) => {
                let mut entry = entry;
                entry.packet.forwarded = true;
                self.tracking_map.insert(id.0, entry);
                proof {
                    assert(self@.tracking =~= old(self)@.mark_forwarded(id.0).tracking);
                    assert(self@.blocked =~= old(self)@.blocked);
                    assert(self@.account_queues =~= old(self)@.account_queues);
                }
            },
            None => {},
        }
    }

    /// The id under which a message hash is tracked, if it is.
    pub fn get_id_by_hash(&self, message_hash: &MessageHash) -> (id: Option<TransactionId>)
        ensures
            id == if self@.hashes.contains_key(*message_hash) {
                Some(TransactionId(self@.hashes[*message_hash]))
            } else {
                None
            },
    {
        match self.tracked_hashes.get(message_hash) {
            Some(id) => Some(TransactionId::new(*id)),
            None => None,
        }
    }

    /// Get a batch of transactions to be consumed by banking stage
    pub fn get_consume_batch(&mut self) -> (batch: Option<Vec<ImmutableDeserializedPacket>>)
        requires
            old(self).inv(),
        ensures
            final(self).inv(),
            final(self)@ == old(self)@.after_consume_batch(),
            match batch {
                Some(packets) => packets.len() > 0 && packets@ == final(self)@.packets_of(
                    old(self)@.consume(Seq::empty()).1,
                ),
                None => old(self)@.consume(Seq::empty()).1.len() == 0,
            },
    {
        let mut batch: Vec<TransactionPriorityId> = Vec::new();
        loop
            invariant_except_break
                batch.len() < MAX_BATCH_SIZE,
                self@.consume(batch@) == old(self)@.consume(Seq::empty()),
            invariant
                self.inv(),
                self@.tracking == old(self)@.tracking,
                forall|i: int|
                    0 <= i < batch.len() ==> self@.tracking.contains_key(
                        (#[trigger] batch[i]).id.0,
                    ),
            ensures
                batch.len() <= MAX_BATCH_SIZE,
                (self@, batch@) == old(self)@.consume(Seq::empty()),
            decreases self@.pending.len(),
        {
            let ghost before = self@;
            match heap_pop_max(&mut self.pending_transactions) {
                Some(pair) => {
                    proof {
                        lemma_greatest_is_unique(before.pending, pair);
                        assert(self@ == (QueueState {
                            pending: before.pending.remove(pair),
                            ..before
                        }));
                    }
                    let transaction = TransactionPriorityId::from_pair(pair);
                    if self.tracking_map.contains_key(&pair.1) {
                        if self.can_schedule_transaction(&transaction) {
                            batch.push(transaction);
                            if batch.len() == MAX_BATCH_SIZE {
                                assert(self@.consume(batch@) == (self@, batch@));
                                break ;
                            }
                        }
                    }
                },
                None => {
                    assert(self@.consume(batch@) == (self@, batch@));
                    break ;
                },
            }
        }
        let ghost consumed = self@;
        if batch.len() > 0 {
            self.lock_batch(batch.as_slice());
            proof {
                consumed.lemma_lock_batch_keeps(batch@);
            }
            let mut packets: Vec<ImmutableDeserializedPacket> = Vec::new();
            let mut i: usize = 0;
            while i < batch.len()
                invariant
                    i <= batch.len(),
                    packets.len() == i,
                    self@.tracking == consumed.tracking,
                    forall|k: int|
                        0 <= k < batch.len() ==> self@.tracking.contains_key(
                            (#[trigger] batch[k]).id.0,
                        ),
                    forall|k: int|
                        0 <= k < i ==> packets[k] == self@.tracking[batch[k].id.0].packet.immutable_section,
                decreases batch.len() - i,
            {
                let packet = match self.tracking_map.get(&batch[i].id.0) {
                    Some(entry) => entry.packet.immutable_section,
                    None => vstd::pervasive::unreached(),
                };
                packets.push(packet);
                i += 1;
            }
            proof {
                assert(packets@ =~= self@.packets_of(batch@));
            }
            Some(packets)
        } else {
            None
        }
    }

    /// Settles one candidate for forwarding once the filter has spoken: an
    /// accepted transaction joins the batch with its packet, a refused one is
    /// dropped from the queue.
    pub fn forward_or_drop(
        &mut self,
        transaction: &TransactionPriorityId,
        accepted: bool,
        batch: &mut Vec<ImmutableDeserializedPacket>,
    )
        requires
            old(self).inv(),
            old(self)@.tracking.contains_key(transaction.id.0),
        ensures
            final(self).inv(),
            final(self)@ == if accepted {
                old(self)@
            } else {
                old(self)@.evict(transaction.id.0)
            },
            final(batch)@ == if accepted {
                old(batch)@.push(old(self)@.tracking[transaction.id.0].packet.immutable_section)
            } else {
                old(batch)@
            },
    {
        if accepted {
            let packet = match self.tracking_map.get(&transaction.id.0) {
                Some(entry) => entry.packet.immutable_section,
                None => vstd::pervasive::unreached(),
            };
            batch.push(packet);
        } else {
            self.drop_transaction(transaction.id.0);
        }
    }

    /// Get a batch of transactions to be forwarded by banking stage: the
    /// pending transactions are taken, highest first, and offered to the
    /// filter one by one, until none is left or the batch is full. The batch
    /// holds the packets of those that the filter accepts; those that it
    /// refuses are dropped from the queue. What the filter answers is for the
    /// filter to say: the result is what `forward` gives for its answers.
    pub fn get_forwarding_batch<F: ForwardFilter>(&mut self, forward_filter: &mut F) -> (batch:
        Option<Vec<ImmutableDeserializedPacket>>)
        requires
            old(self).inv(),
        ensures
            final(self).inv(),
            exists|verdicts: Seq<bool>|
                old(self)@.forwards_to_the_end(verdicts) && #[trigger] old(self)@.forward(verdicts)
                    == (
                    final(self)@,
                    match batch {
                        Some(packets) => packets@,
                        None => Seq::empty(),
                    },
                ),
            match batch {
                Some(packets) => 0 < packets.len() <= MAX_BATCH_SIZE,
                None => true,
            },
    {
        // Get batch of transaction simply by priority, and insert into the forwarding filter
        let mut batch: Vec<ImmutableDeserializedPacket> = Vec::new();
        let ghost mut verdicts: Seq<bool> = Seq::empty();
        loop
            invariant_except_break
                batch.len() < MAX_BATCH_SIZE,
            invariant
                self.inv(),
                batch.len() <= MAX_BATCH_SIZE,
                old(self)@.forward(verdicts) == (self@, batch@),
                forall|n: int|
                    0 <= n < verdicts.len() ==> (#[trigger] old(self)@.forward(
                        verdicts.take(n),
                    )).0.pending.len() > 0 && old(self)@.forward(verdicts.take(n)).1.len()
                        < MAX_BATCH_SIZE,
            ensures
                self@.pending.len() == 0 || batch.len() >= MAX_BATCH_SIZE,
            decreases self@.pending.len(),
        {
            let ghost before = self@;
            match heap_pop_max(&mut self.pending_transactions) {
                Some(pair) => {
                    proof {
                        lemma_greatest_is_unique(before.pending, pair);
                        assert(self@ == (QueueState {
                            pending: before.pending.remove(pair),
                            ..before
                        }));
                    }
                    let transaction = TransactionPriorityId::from_pair(pair);
                    let candidate = match self.tracking_map.get(&pair.1) {
                        Some(entry) => Some(entry.packet.immutable_section),
                        None => None,
                    };
                    match candidate {
                        Some(packet) => {
                            let accepted = forward_filter.add_packet(&packet);
                            self.forward_or_drop(&transaction, accepted, &mut batch);
                            proof {
                                Self::lemma_one_more_verdict(old(self)@, verdicts, accepted);
                                verdicts = verdicts.push(accepted);
                            }
                        },
                        None => {
                            proof {
                                Self::lemma_one_more_verdict(old(self)@, verdicts, false);
                                verdicts = verdicts.push(false);
                            }
                        },
                    }
                    if batch.len() == MAX_BATCH_SIZE {
                        break ;
                    }
                },
                None => {
                    break ;
                },
            }
        }
        proof {
            assert(old(self)@.forwards_to_the_end(verdicts));
        }
        if batch.len() > 0 {
            Some(batch)
        } else {
            proof {
                assert(batch@ =~= Seq::<ImmutableDeserializedPacket>::empty());
            }
            None
        }
    }

    /// The answers of the filter so far, and one more.
    proof fn lemma_one_more_verdict(start: QueueState, verdicts: Seq<bool>, accepted: bool)
        requires
            start.forward(verdicts).0.pending.len() > 0,
            start.forward(verdicts).1.len() < MAX_BATCH_SIZE,
            forall|n: int|
                0 <= n < verdicts.len() ==> (#[trigger] start.forward(verdicts.take(n))).0.pending.len()
                    > 0 && start.forward(verdicts.take(n)).1.len() < MAX_BATCH_SIZE,
        ensures
            start.forward(verdicts.push(accepted)) == start.forward(verdicts).0.forward_one(
                start.forward(verdicts).1,
                accepted,
            ),
            forall|n: int|
                0 <= n < verdicts.push(accepted).len() ==> (#[trigger] start.forward(
                    verdicts.push(accepted).take(n),
                )).0.pending.len() > 0 && start.forward(verdicts.push(accepted).take(n)).1.len()
                    < MAX_BATCH_SIZE,
    {
        let longer = verdicts.push(accepted);
        assert(longer.drop_last() =~= verdicts);
        assert forall|n: int| 0 <= n < longer.len() implies (#[trigger] start.forward(
            longer.take(n),
        )).0.pending.len() > 0 && start.forward(longer.take(n)).1.len() < MAX_BATCH_SIZE by {
            if n < verdicts.len() {
                assert(longer.take(n) =~= verdicts.take(n));
            } else {
                assert(longer.take(n) =~= verdicts);
            }
        }
    }
}

/// Decides, packet by packet, what a forwarding batch takes.
pub trait ForwardFilter {
    /// Offers `packet` to the filter. Returns whether the filter takes it.
    fn add_packet(&mut self, packet: &ImmutableDeserializedPacket) -> bool;
}

} // verus!
