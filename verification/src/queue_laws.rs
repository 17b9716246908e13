//! What holds of the transaction queue across several of its operations.

use crate::account_transaction_queue::{AccountLock, AccountQueueState};
use crate::heap::is_greatest;
use crate::key_map::Pubkey;
use crate::queue_state::{
    insert_into, lemma_greatest_is_unique, min_blocking_in, queue_of, remove_from, schedule_in,
    QueueState, TrackedTransaction,
};
use crate::transaction_priority_id::TransactionPriorityId;
use vstd::multiset::Multiset;
use vstd::prelude::*;

verus! {

/// The accounts of `set` and of `accounts`.
spec fn with_all(set: Set<Pubkey>, accounts: Seq<Pubkey>) -> Set<Pubkey> {
    Set::new(|a: Pubkey| set.contains(a) || accounts.contains(a))
}

/// The accounts of `set` that are not among `accounts`.
spec fn without(set: Set<Pubkey>, accounts: Seq<Pubkey>) -> Set<Pubkey> {
    Set::new(|a: Pubkey| set.contains(a) && !accounts.contains(a))
}

/// Whether `queues` holds one transaction alone: a queue for each account of
/// `readers` and of `writers` and for no other, with the transaction among
/// the reads of the first and among the writes of the second.
spec fn holds_only(
    queues: Map<Pubkey, AccountQueueState>,
    transaction: TransactionPriorityId,
    readers: Set<Pubkey>,
    writers: Set<Pubkey>,
) -> bool {
    &&& forall|a: Pubkey| queues.contains_key(a) <==> readers.contains(a) || writers.contains(a)
    &&& forall|a: Pubkey, p: (u64, u64)|
        queues.contains_key(a) ==> (#[trigger] queues[a].reads.contains(p) <==> p
            == transaction.pair() && readers.contains(a))
    &&& forall|a: Pubkey, p: (u64, u64)|
        queues.contains_key(a) ==> (#[trigger] queues[a].writes.contains(p) <==> p
            == transaction.pair() && writers.contains(a))
}

/// Whether no lock is counted in any queue of `queues`.
spec fn nothing_scheduled(queues: Map<Pubkey, AccountQueueState>) -> bool {
    forall|a: Pubkey| #[trigger]
        queues.contains_key(a) ==> queues[a].scheduled_lock == AccountLock::unlocked()
}

proof fn lemma_prefix_sets(set: Set<Pubkey>, accounts: Seq<Pubkey>)
    requires
        accounts.len() > 0,
    ensures
        with_all(set, accounts) == with_all(set, accounts.drop_last()).insert(accounts.last()),
        without(set, accounts) == without(set, accounts.drop_last()).remove(accounts.last()),
{
    let front = accounts.drop_last();
    assert forall|a: Pubkey| accounts.contains(a) <==> front.contains(a) || a
        == accounts.last() by {
        if accounts.contains(a) {
            let i = choose|i: int| 0 <= i < accounts.len() && accounts[i] == a;
            if i < front.len() {
                assert(front[i] == a);
            }
        }
        if front.contains(a) {
            let i = choose|i: int| 0 <= i < front.len() && front[i] == a;
            assert(accounts[i] == a);
        }
        assert(accounts[accounts.len() - 1] == accounts.last());
    }
    assert(with_all(set, accounts) =~= with_all(set, front).insert(accounts.last()));
    assert(without(set, accounts) =~= without(set, front).remove(accounts.last()));
}

proof fn lemma_insert_reads(
    queues: Map<Pubkey, AccountQueueState>,
    accounts: Seq<Pubkey>,
    transaction: TransactionPriorityId,
    readers: Set<Pubkey>,
)
    requires
        holds_only(queues, transaction, readers, Set::empty()),
        nothing_scheduled(queues),
    ensures
        holds_only(
            insert_into(queues, accounts, transaction, false),
            transaction,
            with_all(readers, accounts),
            Set::empty(),
        ),
        nothing_scheduled(insert_into(queues, accounts, transaction, false)),
    decreases accounts.len(),
{
    if accounts.len() == 0 {
        assert(with_all(readers, accounts) =~= readers);
    } else {
        lemma_insert_reads(queues, accounts.drop_last(), transaction, readers);
        lemma_prefix_sets(readers, accounts);
        let before = insert_into(queues, accounts.drop_last(), transaction, false);
        let a = accounts.last();
        assert(queue_of(before, a).scheduled_lock == AccountLock::unlocked());
    }
}

proof fn lemma_insert_writes(
    queues: Map<Pubkey, AccountQueueState>,
    accounts: Seq<Pubkey>,
    transaction: TransactionPriorityId,
    readers: Set<Pubkey>,
    writers: Set<Pubkey>,
)
    requires
        holds_only(queues, transaction, readers, writers),
        nothing_scheduled(queues),
    ensures
        holds_only(
            insert_into(queues, accounts, transaction, true),
            transaction,
            readers,
            with_all(writers, accounts),
        ),
        nothing_scheduled(insert_into(queues, accounts, transaction, true)),
    decreases accounts.len(),
{
    if accounts.len() == 0 {
        assert(with_all(writers, accounts) =~= writers);
    } else {
        lemma_insert_writes(queues, accounts.drop_last(), transaction, readers, writers);
        lemma_prefix_sets(writers, accounts);
        let before = insert_into(queues, accounts.drop_last(), transaction, true);
        let a = accounts.last();
        assert(queue_of(before, a).scheduled_lock == AccountLock::unlocked());
    }
}

proof fn lemma_schedule_keeps(
    queues: Map<Pubkey, AccountQueueState>,
    accounts: Seq<Pubkey>,
    transaction: TransactionPriorityId,
    is_write: bool,
    readers: Set<Pubkey>,
    writers: Set<Pubkey>,
)
    requires
        holds_only(queues, transaction, readers, writers),
    ensures
        holds_only(
            schedule_in(queues, accounts, transaction, is_write),
            transaction,
            readers,
            writers,
        ),
    decreases accounts.len(),
{
    if accounts.len() > 0 {
        lemma_schedule_keeps(
            queues,
            accounts.drop_last(),
            transaction,
            is_write,
            readers,
            writers,
        );
    }
}

proof fn lemma_remove_reads(
    queues: Map<Pubkey, AccountQueueState>,
    accounts: Seq<Pubkey>,
    transaction: TransactionPriorityId,
    readers: Set<Pubkey>,
    writers: Set<Pubkey>,
)
    requires
        holds_only(queues, transaction, readers, writers),
    ensures
        holds_only(
            remove_from(queues, accounts, transaction, false),
            transaction,
            without(readers, accounts),
            writers,
        ),
    decreases accounts.len(),
{
    if accounts.len() == 0 {
        assert(without(readers, accounts) =~= readers);
    } else {
        lemma_remove_reads(queues, accounts.drop_last(), transaction, readers, writers);
        lemma_prefix_sets(readers, accounts);
        let before = remove_from(queues, accounts.drop_last(), transaction, false);
        let a = accounts.last();
        if before.contains_key(a) {
            let left = before[a].removed(transaction, false);
            if writers.contains(a) {
                assert(left.writes.contains(transaction.pair()));
            } else {
                assert(left.reads =~= Set::<(u64, u64)>::empty());
                assert(left.writes =~= Set::<(u64, u64)>::empty());
            }
        }
    }
}

proof fn lemma_remove_writes(
    queues: Map<Pubkey, AccountQueueState>,
    accounts: Seq<Pubkey>,
    transaction: TransactionPriorityId,
    readers: Set<Pubkey>,
    writers: Set<Pubkey>,
)
    requires
        holds_only(queues, transaction, readers, writers),
    ensures
        holds_only(
            remove_from(queues, accounts, transaction, true),
            transaction,
            readers,
            without(writers, accounts),
        ),
    decreases accounts.len(),
{
    if accounts.len() == 0 {
        assert(without(writers, accounts) =~= writers);
    } else {
        lemma_remove_writes(queues, accounts.drop_last(), transaction, readers, writers);
        lemma_prefix_sets(writers, accounts);
        let before = remove_from(queues, accounts.drop_last(), transaction, true);
        let a = accounts.last();
        if before.contains_key(a) {
            let left = before[a].removed(transaction, true);
            if readers.contains(a) {
                assert(left.reads.contains(transaction.pair()));
            } else {
                assert(left.reads =~= Set::<(u64, u64)>::empty());
                assert(left.writes =~= Set::<(u64, u64)>::empty());
            }
        }
    }
}

proof fn lemma_nothing_blocks(
    queues: Map<Pubkey, AccountQueueState>,
    accounts: Seq<Pubkey>,
    is_write: bool,
)
    requires
        nothing_scheduled(queues),
    ensures
        min_blocking_in(queues, accounts, is_write, None) is None,
    decreases accounts.len(),
{
    if accounts.len() > 0 {
        lemma_nothing_blocks(queues, accounts.drop_last(), is_write);
        assert(queue_of(queues, accounts.last()).scheduled_lock == AccountLock::unlocked());
    }
}

/// A transaction that is inserted into an empty queue with room for it is
/// the whole of the next consume batch, and once it has completed the queue
/// is empty again: nothing is pending, no account has a queue, nothing is
/// tracked or parked.
pub proof fn lemma_insert_consume_complete(capacity: nat, entry: TrackedTransaction)
    requires
        capacity >= 1,
    ensures
        QueueState::empty(capacity).insert_transaction(entry).consume(Seq::empty()).1
            == seq![entry.transaction.handle()],
        QueueState::empty(capacity).insert_transaction(entry).after_consume_batch().complete_or_retry(
            entry.transaction.id.0,
            false,
        ) == QueueState::empty(capacity),
{
    let start = QueueState::empty(capacity);
    let handle = entry.transaction.handle();
    let id = entry.transaction.id.0;
    let reads = entry.transaction.transaction.readonly@;
    let writes = entry.transaction.transaction.writable@;
    let none = Set::<Pubkey>::empty();
    let inserted = start.insert_transaction(entry);

    // the account queues after the insertion hold the transaction alone
    let with_reads = insert_into(start.account_queues, reads, handle, false);
    lemma_insert_reads(start.account_queues, reads, handle, none);
    lemma_insert_writes(with_reads, writes, handle, with_all(none, reads), none);
    assert(inserted.pending =~= Multiset::<(u64, u64)>::empty().insert(handle.pair()));
    assert(inserted.pending.len() == 1);

    // it is the highest pending transaction, and nothing blocks it
    assert(is_greatest(inserted.pending, handle.pair()));
    lemma_greatest_is_unique(inserted.pending, handle.pair());
    let rest = QueueState { pending: inserted.pending.remove(handle.pair()), ..inserted };
    assert(rest.pending =~= Multiset::<(u64, u64)>::empty());
    assert(rest.pending.len() == 0);
    lemma_nothing_blocks(rest.account_queues, reads, false);
    lemma_nothing_blocks(rest.account_queues, writes, true);
    assert(rest.lowest_priority_blocking(id) is None);
    assert(TransactionPriorityId::of_pair(handle.pair()) == handle);
    let batch = Seq::<TransactionPriorityId>::empty().push(handle);
    assert(rest.consume(batch) == (rest, batch));
    assert(inserted.consume(Seq::empty()) == (rest, batch));
    assert(batch =~= seq![handle]);

    // its locks are counted, and given back when it completes
    assert(batch.drop_last() =~= Seq::<TransactionPriorityId>::empty());
    assert(rest.lock_batch(batch.drop_last()) == rest);
    let locked = rest.lock_batch(batch);
    assert(locked == rest.lock_for_transaction(id));
    let readers = with_all(none, reads);
    let writers = with_all(none, writes);
    lemma_schedule_keeps(rest.account_queues, reads, handle, false, readers, writers);
    lemma_schedule_keeps(
        schedule_in(rest.account_queues, reads, handle, false),
        writes,
        handle,
        true,
        readers,
        writers,
    );
    lemma_remove_reads(locked.account_queues, reads, handle, readers, writers);
    lemma_remove_writes(
        remove_from(locked.account_queues, reads, handle, false),
        writes,
        handle,
        without(readers, reads),
        writers,
    );
    let done = locked.complete_or_retry(id, false);
    assert(locked.parked_behind(id) =~= Seq::<TransactionPriorityId>::empty());
    assert(done == locked.evict(id));
    assert(without(readers, reads) =~= none);
    assert(without(writers, writes) =~= none);
    assert(done.account_queues =~= start.account_queues);
    assert(done.tracking =~= start.tracking);
    assert(done.hashes =~= start.hashes);
    assert(done.blocked =~= start.blocked);
    assert(done.pending =~= start.pending);
}

} // verus!
