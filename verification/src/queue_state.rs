//! The transaction queue as a value, and its operations as functions on
//! that value.

use crate::account_transaction_queue::{option_lower_of, AccountQueueState};
use crate::heap::{is_greatest, pair_le};
use crate::key_map::{MessageHash, Pubkey};
use crate::packet::{DeserializedPacket, ImmutableDeserializedPacket, SanitizedTransaction};
use crate::transaction_packet_container::least;
use crate::transaction_priority_id::{TransactionId, TransactionPriorityId};
use vstd::multiset::Multiset;
use vstd::prelude::*;

verus! {

/// Largest number of transactions in one batch.
pub const MAX_BATCH_SIZE: usize = 128;

/// A sanitized transaction with its identifier and the packet priority.
#[derive(Debug)]
pub struct SanitizedTransactionPriority {
    /// Identifier of the transaction inside the scheduler
    pub id: TransactionId,
    /// Packet priority
    pub priority: u64,
    /// Sanitized transaction
    pub transaction: SanitizedTransaction,
}

/// What the queue keeps of a transaction while it is pending or in flight.
#[derive(Debug)]
pub struct TrackedTransaction {
    pub transaction: SanitizedTransactionPriority,
    pub packet: DeserializedPacket,
}

impl SanitizedTransactionPriority {
    /// The identifier and priority by which the transaction is ordered.
    pub open spec fn handle(&self) -> TransactionPriorityId {
        TransactionPriorityId { priority: self.priority, id: self.id }
    }
}

/// The greatest pair of `items`.
pub open spec fn greatest(items: Multiset<(u64, u64)>) -> (u64, u64) {
    choose|x: (u64, u64)| is_greatest(items, x)
}

/// A multiset has one greatest pair at most.
pub proof fn lemma_greatest_is_unique(items: Multiset<(u64, u64)>, x: (u64, u64))
    requires
        is_greatest(items, x),
    ensures
        greatest(items) == x,
{
    let y = greatest(items);
    assert(is_greatest(items, y));
    assert(pair_le(x, y) && pair_le(y, x));
}

/// A multiset that is not empty has a greatest pair.
pub proof fn lemma_greatest_exists(items: Multiset<(u64, u64)>)
    requires
        items.len() > 0,
    ensures
        is_greatest(items, greatest(items)),
    decreases items.len(),
{
    let x = items.choose();
    assert(items.count(x) > 0);
    let rest = items.remove(x);
    if rest.len() == 0 {
        assert forall|y: (u64, u64)| items.count(y) > 0 implies pair_le(y, x) by {
            if y != x {
                assert(rest.count(y) > 0);
            }
        }
        assert(is_greatest(items, x));
    } else {
        lemma_greatest_exists(rest);
        let m = greatest(rest);
        let w = if pair_le(m, x) {
            x
        } else {
            m
        };
        assert forall|y: (u64, u64)| items.count(y) > 0 implies pair_le(y, w) by {
            if y != x {
                assert(rest.count(y) > 0);
                assert(pair_le(y, m));
            }
        }
        assert(items.count(m) > 0);
        assert(is_greatest(items, w));
    }
}

/// The queue of account `a`; the empty queue where the map has none.
pub open spec fn queue_of(queues: Map<Pubkey, AccountQueueState>, a: Pubkey) -> AccountQueueState {
    if queues.contains_key(a) {
        queues[a]
    } else {
        AccountQueueState::empty()
    }
}

/// The account queues after `transaction` has been entered as pending on `a`.
pub open spec fn insert_one(
    queues: Map<Pubkey, AccountQueueState>,
    a: Pubkey,
    transaction: TransactionPriorityId,
    is_write: bool,
) -> Map<Pubkey, AccountQueueState> {
    queues.insert(a, queue_of(queues, a).inserted(transaction, is_write))
}

/// The account queues after `transaction` has been entered as pending on
/// each of `accounts`, front to back.
pub open spec fn insert_into(
    queues: Map<Pubkey, AccountQueueState>,
    accounts: Seq<Pubkey>,
    transaction: TransactionPriorityId,
    is_write: bool,
) -> Map<Pubkey, AccountQueueState>
    decreases accounts.len(),
{
    if accounts.len() == 0 {
        queues
    } else {
        insert_one(
            insert_into(queues, accounts.drop_last(), transaction, is_write),
            accounts.last(),
            transaction,
            is_write,
        )
    }
}

/// The account queues after the lock of `transaction` on `a` has been counted.
pub open spec fn schedule_one(
    queues: Map<Pubkey, AccountQueueState>,
    a: Pubkey,
    transaction: TransactionPriorityId,
    is_write: bool,
) -> Map<Pubkey, AccountQueueState> {
    if queues.contains_key(a) {
        queues.insert(a, queues[a].scheduled(transaction, is_write))
    } else {
        queues
    }
}

/// The account queues after the locks of `transaction` on each of `accounts`
/// have been counted.
pub open spec fn schedule_in(
    queues: Map<Pubkey, AccountQueueState>,
    accounts: Seq<Pubkey>,
    transaction: TransactionPriorityId,
    is_write: bool,
) -> Map<Pubkey, AccountQueueState>
    decreases accounts.len(),
{
    if accounts.len() == 0 {
        queues
    } else {
        schedule_one(
            schedule_in(queues, accounts.drop_last(), transaction, is_write),
            accounts.last(),
            transaction,
            is_write,
        )
    }
}

/// The account queues after `transaction` has left the queue of `a`. A queue
/// that is left without any transaction leaves the map.
pub open spec fn remove_one(
    queues: Map<Pubkey, AccountQueueState>,
    a: Pubkey,
    transaction: TransactionPriorityId,
    is_write: bool,
) -> Map<Pubkey, AccountQueueState> {
    if queues.contains_key(a) {
        if queues[a].removed(transaction, is_write).is_empty() {
            queues.remove(a)
        } else {
            queues.insert(a, queues[a].removed(transaction, is_write))
        }
    } else {
        queues
    }
}

/// The account queues after `transaction` has left the queue of each of
/// `accounts`, front to back.
pub open spec fn remove_from(
    queues: Map<Pubkey, AccountQueueState>,
    accounts: Seq<Pubkey>,
    transaction: TransactionPriorityId,
    is_write: bool,
) -> Map<Pubkey, AccountQueueState>
    decreases accounts.len(),
{
    if accounts.len() == 0 {
        queues
    } else {
        remove_one(
            remove_from(queues, accounts.drop_last(), transaction, is_write),
            accounts.last(),
            transaction,
            is_write,
        )
    }
}

/// The lowest of `lowest` and of the scheduled transactions that block a
/// read, or a write, of one of `accounts`.
pub open spec fn min_blocking_in(
    queues: Map<Pubkey, AccountQueueState>,
    accounts: Seq<Pubkey>,
    is_write: bool,
    lowest: Option<TransactionPriorityId>,
) -> Option<TransactionPriorityId>
    decreases accounts.len(),
{
    if accounts.len() == 0 {
        lowest
    } else {
        option_lower_of(
            min_blocking_in(queues, accounts.drop_last(), is_write, lowest),
            queue_of(queues, accounts.last()).scheduled_lock.min_blocking(is_write),
        )
    }
}

/// The transaction queue as a value.
pub struct QueueState {
    /// How many transactions may be pending at once.
    pub capacity: nat,
    /// The pending transactions, as `(priority, id)` pairs.
    pub pending: Multiset<(u64, u64)>,
    /// The queue of each account that a tracked transaction names.
    pub account_queues: Map<Pubkey, AccountQueueState>,
    /// The transactions parked behind a scheduled transaction, by its id.
    pub blocked: Map<u64, Seq<TransactionPriorityId>>,
    /// The tracked transactions, by id.
    pub tracking: Map<u64, TrackedTransaction>,
    /// The id under which a message hash is tracked.
    pub hashes: Map<MessageHash, u64>,
}

impl QueueState {
    /// The queue that holds nothing.
    pub open spec fn empty(capacity: nat) -> QueueState {
        QueueState {
            capacity,
            pending: Multiset::empty(),
            account_queues: Map::empty(),
            blocked: Map::empty(),
            tracking: Map::empty(),
            hashes: Map::empty(),
        }
    }

    /// The transactions parked behind `id`.
    pub open spec fn parked_behind(self, id: u64) -> Seq<TransactionPriorityId> {
        if self.blocked.contains_key(id) {
            self.blocked[id]
        } else {
            Seq::empty()
        }
    }

    /// The queue without the transaction `id`: it leaves the tracking map,
    /// the queues of its accounts, the blocked map, and its message hash is
    /// forgotten. The pending transactions are left as they are.
    pub open spec fn evict(self, id: u64) -> QueueState {
        if self.tracking.contains_key(id) {
            let entry = self.tracking[id].transaction;
            QueueState {
                tracking: self.tracking.remove(id),
                account_queues: remove_from(
                    remove_from(
                        self.account_queues,
                        entry.transaction.readonly@,
                        entry.handle(),
                        false,
                    ),
                    entry.transaction.writable@,
                    entry.handle(),
                    true,
                ),
                blocked: self.blocked.remove(id),
                hashes: self.hashes.remove(entry.transaction.message_hash),
                ..self
            }
        } else {
            QueueState { blocked: self.blocked.remove(id), ..self }
        }
    }

    /// The queue after `transaction` has been made pending. Where the
    /// pending transactions are at capacity, the lowest of them and of
    /// `transaction` is evicted.
    pub open spec fn push_pending(self, transaction: TransactionPriorityId) -> QueueState {
        if self.pending.len() < self.capacity {
            QueueState { pending: self.pending.insert(transaction.pair()), ..self }
        } else {
            let lowest = least(self.pending.insert(transaction.pair()));
            QueueState {
                pending: self.pending.insert(transaction.pair()).remove(lowest),
                ..self
            }.evict(lowest.1)
        }
    }

    /// The queue after each of `parked` has been made pending, front to back.
    pub open spec fn push_all_pending(self, parked: Seq<TransactionPriorityId>) -> QueueState
        decreases parked.len(),
    {
        if parked.len() == 0 {
            self
        } else {
            self.push_all_pending(parked.drop_last()).push_pending(parked.last())
        }
    }

    /// The queue after the transaction `id` has been removed for good: it is
    /// evicted, and the transactions that were parked behind it are pending
    /// again.
    pub open spec fn remove_transaction(self, id: u64) -> QueueState {
        self.evict(id).push_all_pending(self.parked_behind(id))
    }

    /// The queue after a new transaction has been inserted: it is tracked,
    /// by its id and by its message hash, entered in the queue of each of its
    /// accounts, and made pending.
    pub open spec fn insert_transaction(self, entry: TrackedTransaction) -> QueueState {
        let transaction = entry.transaction;
        QueueState {
            tracking: self.tracking.insert(transaction.id.0, entry),
            hashes: self.hashes.insert(transaction.transaction.message_hash, transaction.id.0),
            account_queues: insert_into(
                insert_into(
                    self.account_queues,
                    transaction.transaction.readonly@,
                    transaction.handle(),
                    false,
                ),
                transaction.transaction.writable@,
                transaction.handle(),
                true,
            ),
            ..self
        }.push_pending(transaction.handle())
    }

    /// The lowest scheduled transaction that blocks the tracked transaction
    /// `id`, if any does.
    pub open spec fn lowest_priority_blocking(self, id: u64) -> Option<TransactionPriorityId> {
        if self.tracking.contains_key(id) {
            let transaction = self.tracking[id].transaction.transaction;
            min_blocking_in(
                self.account_queues,
                transaction.writable@,
                true,
                min_blocking_in(self.account_queues, transaction.readonly@, false, None),
            )
        } else {
            None
        }
    }

    /// The queue after `transaction` has been parked behind `blocker`.
    pub open spec fn park(self, blocker: u64, transaction: TransactionPriorityId) -> QueueState {
        QueueState {
            blocked: self.blocked.insert(blocker, self.parked_behind(blocker).push(transaction)),
            ..self
        }
    }

    /// The queue and the batch after the pending transactions have been
    /// taken, highest first, until none is left or the batch is full: each is
    /// added to `batch` if no scheduled transaction blocks it, and parked
    /// behind the lowest that blocks it otherwise. A pending id that is not
    /// tracked is discarded.
    pub open spec fn consume(self, batch: Seq<TransactionPriorityId>) -> (QueueState, Seq<
        TransactionPriorityId,
    >)
        decreases self.pending.len(),
        via Self::consume_takes_one
    {
        if self.pending.len() == 0 || batch.len() >= MAX_BATCH_SIZE {
            (self, batch)
        } else {
            let top = greatest(self.pending);
            let rest = QueueState { pending: self.pending.remove(top), ..self };
            if !rest.tracking.contains_key(top.1) {
                rest.consume(batch)
            } else {
                match rest.lowest_priority_blocking(top.1) {
                    Some(blocker) => rest.park(blocker.id.0, TransactionPriorityId::of_pair(top)).consume(
                        batch,
                    ),
                    None => rest.consume(batch.push(TransactionPriorityId::of_pair(top))),
                }
            }
        }
    }

    #[via_fn]
    proof fn consume_takes_one(self, batch: Seq<TransactionPriorityId>) {
        if self.pending.len() > 0 {
            lemma_greatest_exists(self.pending);
        }
    }

    /// The queue after the locks of the tracked transaction `id` have been
    /// counted on each of its accounts.
    pub open spec fn lock_for_transaction(self, id: u64) -> QueueState {
        if self.tracking.contains_key(id) {
            let entry = self.tracking[id].transaction;
            QueueState {
                account_queues: schedule_in(
                    schedule_in(
                        self.account_queues,
                        entry.transaction.readonly@,
                        entry.handle(),
                        false,
                    ),
                    entry.transaction.writable@,
                    entry.handle(),
                    true,
                ),
                ..self
            }
        } else {
            self
        }
    }

    /// The queue after the locks of each transaction of `batch` have been counted.
    pub open spec fn lock_batch(self, batch: Seq<TransactionPriorityId>) -> QueueState
        decreases batch.len(),
    {
        if batch.len() == 0 {
            self
        } else {
            self.lock_batch(batch.drop_last()).lock_for_transaction(batch.last().id.0)
        }
    }

    /// The packets of the transactions of `batch`.
    pub open spec fn packets_of(self, batch: Seq<TransactionPriorityId>) -> Seq<
        ImmutableDeserializedPacket,
    > {
        Seq::new(
            batch.len(),
            |i: int| self.tracking[batch[i].id.0].packet.immutable_section,
        )
    }

    /// The queue after the consume batch has been assembled and locked.
    pub open spec fn after_consume_batch(self) -> QueueState {
        self.consume(Seq::empty()).0.lock_batch(self.consume(Seq::empty()).1)
    }

    /// The queue and the forwarding batch after the highest pending
    /// transaction has been taken and the filter has said whether it accepts
    /// it: an accepted transaction joins the batch with its packet, a refused
    /// one is evicted. A pending id that is not tracked is discarded, whatever
    /// the filter would say.
    pub open spec fn forward_one(
        self,
        batch: Seq<ImmutableDeserializedPacket>,
        accepted: bool,
    ) -> (QueueState, Seq<ImmutableDeserializedPacket>) {
        let top = greatest(self.pending);
        let rest = QueueState { pending: self.pending.remove(top), ..self };
        if !rest.tracking.contains_key(top.1) {
            (rest, batch)
        } else if accepted {
            (rest, batch.push(rest.tracking[top.1].packet.immutable_section))
        } else {
            (rest.evict(top.1), batch)
        }
    }

    /// The queue and the forwarding batch after as many pending transactions
    /// have been taken, highest first, as `verdicts` has answers of the filter.
    pub open spec fn forward(self, verdicts: Seq<bool>) -> (QueueState, Seq<
        ImmutableDeserializedPacket,
    >)
        decreases verdicts.len(),
    {
        if verdicts.len() == 0 {
            (self, Seq::empty())
        } else {
            self.forward(verdicts.drop_last()).0.forward_one(
                self.forward(verdicts.drop_last()).1,
                verdicts.last(),
            )
        }
    }

    /// Whether `verdicts` are the answers of the filter for a whole
    /// forwarding batch: each was asked of a queue with a pending transaction
    /// and a batch with room, and after the last the pending transactions are
    /// none or the batch is full.
    pub open spec fn forwards_to_the_end(self, verdicts: Seq<bool>) -> bool {
        &&& forall|n: int|
            0 <= n < verdicts.len() ==> (#[trigger] self.forward(verdicts.take(n))).0.pending.len()
                > 0 && self.forward(verdicts.take(n)).1.len() < MAX_BATCH_SIZE
        &&& self.forward(verdicts).0.pending.len() == 0 || self.forward(verdicts).1.len()
            >= MAX_BATCH_SIZE
    }

    /// The queue after the tracked transaction `id` has come back from a
    /// worker: removed for good, or pending again where it is to be retried.
    pub open spec fn complete_or_retry(self, id: u64, retry: bool) -> QueueState {
        if retry {
            self.push_pending(self.tracking[id].transaction.handle())
        } else {
            self.remove_transaction(id)
        }
    }

    /// The queue after the packet of the tracked transaction `id` has been
    /// marked as forwarded.
    pub open spec fn mark_forwarded(self, id: u64) -> QueueState {
        QueueState {
            tracking: self.tracking.insert(
                id,
                TrackedTransaction {
                    transaction: self.tracking[id].transaction,
                    packet: DeserializedPacket { forwarded: true, ..self.tracking[id].packet },
                },
            ),
            ..self
        }
    }
}

impl QueueState {
    /// Assembling a batch changes the pending transactions and the blocked
    /// map alone.
    pub proof fn lemma_consume_keeps(self, batch: Seq<TransactionPriorityId>)
        ensures
            self.consume(batch).0 == (QueueState {
                pending: self.consume(batch).0.pending,
                blocked: self.consume(batch).0.blocked,
                ..self
            }),
        decreases self.pending.len(),
    {
        if self.pending.len() == 0 || batch.len() >= MAX_BATCH_SIZE {
        } else {
            lemma_greatest_exists(self.pending);
            let top = greatest(self.pending);
            let rest = QueueState { pending: self.pending.remove(top), ..self };
            if !rest.tracking.contains_key(top.1) {
                rest.lemma_consume_keeps(batch);
            } else {
                match rest.lowest_priority_blocking(top.1) {
                    Some(blocker) => {
                        rest.park(blocker.id.0, TransactionPriorityId::of_pair(top)).lemma_consume_keeps(
                            batch,
                        );
                    },
                    None => {
                        rest.lemma_consume_keeps(batch.push(TransactionPriorityId::of_pair(top)));
                    },
                }
            }
        }
    }

    /// Counting the locks of a batch changes the account queues alone.
    pub proof fn lemma_lock_batch_keeps(self, batch: Seq<TransactionPriorityId>)
        ensures
            self.lock_batch(batch) == (QueueState {
                account_queues: self.lock_batch(batch).account_queues,
                ..self
            }),
        decreases batch.len(),
    {
        if batch.len() > 0 {
            self.lemma_lock_batch_keeps(batch.drop_last());
        }
    }
}

} // verus!
