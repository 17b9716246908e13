use transaction_scheduler::key_map::{MessageHash, Pubkey};
use transaction_scheduler::packet::{
    DeserializedPacket, ImmutableDeserializedPacket, SanitizedTransaction,
};
use transaction_scheduler::queue_state::{SanitizedTransactionPriority, MAX_BATCH_SIZE};
use transaction_scheduler::transaction_priority_id::{TransactionId, TransactionPriorityId};
use transaction_scheduler::transaction_queue::{ForwardFilter, TransactionQueue};

fn account(n: u128) -> Pubkey {
    Pubkey::new(n >> 3, n.wrapping_mul(7919))
}

fn hash_of(id: u64) -> MessageHash {
    MessageHash::new(0xabcd, id as u128)
}

fn packet_of(id: u64, priority: u64) -> ImmutableDeserializedPacket {
    ImmutableDeserializedPacket::new(hash_of(id), priority, false, 100, true)
}

fn insert(queue: &mut TransactionQueue, id: u64, priority: u64, writes: &[u128], reads: &[u128]) {
    let transaction = SanitizedTransaction::new(
        hash_of(id),
        writes.iter().map(|n| account(*n)).collect(),
        reads.iter().map(|n| account(*n)).collect(),
    );
    queue.insert_transaction(
        SanitizedTransactionPriority::new(TransactionId::new(id), priority, transaction),
        DeserializedPacket::from_immutable_section(packet_of(id, priority)),
    );
}

struct TakeAll;

impl ForwardFilter for TakeAll {
    fn add_packet(&mut self, _packet: &ImmutableDeserializedPacket) -> bool {
        true
    }
}

struct TakeAbove {
    priority: u64,
    offered: Vec<u64>,
}

impl ForwardFilter for TakeAbove {
    fn add_packet(&mut self, packet: &ImmutableDeserializedPacket) -> bool {
        self.offered.push(packet.priority());
        packet.priority() > self.priority
    }
}

#[test]
fn test_insert_consume_complete_restores_the_empty_queue() {
    let mut queue = TransactionQueue::with_capacity(4);
    assert_eq!(queue.pending_len(), 0);
    assert!(!queue.has_account_queues());

    insert(&mut queue, 0, 10, &[1, 2], &[3]);
    assert_eq!(queue.pending_len(), 1);
    assert_eq!(queue.num_tracked(), 1);
    assert!(queue.has_account_queues());
    assert_eq!(queue.account_queue_len(&account(1)), Some((0, 1)));
    assert_eq!(queue.account_queue_len(&account(3)), Some((1, 0)));
    assert_eq!(queue.get_id_by_hash(&hash_of(0)), Some(TransactionId::new(0)));

    let batch = queue.get_consume_batch().unwrap();
    assert_eq!(batch, vec![packet_of(0, 10)]);
    assert_eq!(queue.pending_len(), 0);

    queue.complete_or_retry(&TransactionId::new(0), false);
    assert_eq!(queue.pending_len(), 0);
    assert_eq!(queue.num_tracked(), 0);
    assert!(!queue.has_account_queues());
    assert_eq!(queue.account_queue_len(&account(1)), None);
    assert_eq!(queue.get_id_by_hash(&hash_of(0)), None);
    assert_eq!(queue.get_consume_batch(), None);
}

#[test]
fn test_consume_batch_is_in_priority_order() {
    let mut queue = TransactionQueue::with_capacity(8);
    insert(&mut queue, 0, 6, &[1], &[]);
    insert(&mut queue, 1, 10, &[2], &[]);
    insert(&mut queue, 2, 4, &[3], &[]);
    insert(&mut queue, 3, 8, &[4], &[]);
    let batch = queue.get_consume_batch().unwrap();
    assert_eq!(
        batch,
        vec![
            packet_of(1, 10),
            packet_of(3, 8),
            packet_of(0, 6),
            packet_of(2, 4)
        ]
    );
    assert_eq!(queue.remaining_capacity(), 8);
    assert_eq!(queue.num_tracked(), 4);
}

#[test]
fn test_conflicting_transaction_is_parked_behind_the_lowest_blocker() {
    let mut queue = TransactionQueue::with_capacity(8);
    insert(&mut queue, 0, 10, &[1], &[]);
    insert(&mut queue, 1, 5, &[1], &[]);
    // conflicts inside one batch are for the worker, which runs a batch in order
    let batch = queue.get_consume_batch().unwrap();
    assert_eq!(batch, vec![packet_of(0, 10), packet_of(1, 5)]);

    // a writer of the same account is blocked by both; the lowest of them is id 1
    insert(&mut queue, 2, 20, &[1], &[]);
    let candidate = TransactionPriorityId::new(20, TransactionId::new(2));
    assert_eq!(
        queue.get_lowest_priority_blocking_transaction(&candidate),
        Some(TransactionPriorityId::new(5, TransactionId::new(1)))
    );
    assert_eq!(queue.get_consume_batch(), None);
    assert_eq!(queue.pending_len(), 0);
    assert_eq!(queue.num_parked_behind(&TransactionId::new(1)), 1);
    assert_eq!(queue.num_parked_behind(&TransactionId::new(0)), 0);

    // the higher blocker completes: the parked transaction stays parked
    queue.complete_or_retry(&TransactionId::new(0), false);
    assert_eq!(queue.pending_len(), 0);
    assert_eq!(queue.get_consume_batch(), None);

    // the lowest blocker completes: the parked transaction is pending again
    queue.complete_or_retry(&TransactionId::new(1), false);
    assert_eq!(queue.num_parked_behind(&TransactionId::new(1)), 0);
    assert_eq!(queue.pending_len(), 1);
    assert_eq!(queue.get_consume_batch(), Some(vec![packet_of(2, 20)]));
    queue.complete_or_retry(&TransactionId::new(2), false);
    assert!(!queue.has_account_queues());
    assert_eq!(queue.num_tracked(), 0);
}

#[test]
fn test_reads_do_not_block_reads() {
    let mut queue = TransactionQueue::with_capacity(8);
    insert(&mut queue, 0, 10, &[], &[1]);
    assert_eq!(queue.get_consume_batch(), Some(vec![packet_of(0, 10)]));
    insert(&mut queue, 1, 9, &[], &[1]);
    assert_eq!(queue.get_consume_batch(), Some(vec![packet_of(1, 9)]));
    // a write is blocked by the scheduled reads, the lowest of which is id 1
    insert(&mut queue, 2, 8, &[1], &[]);
    assert_eq!(queue.get_consume_batch(), None);
    assert_eq!(queue.num_parked_behind(&TransactionId::new(1)), 1);
}

#[test]
fn test_full_queue_evicts_the_lowest_priority() {
    let mut queue = TransactionQueue::with_capacity(2);
    insert(&mut queue, 0, 5, &[1], &[9]);
    insert(&mut queue, 1, 7, &[2], &[9]);
    assert_eq!(queue.remaining_capacity(), 0);

    // a higher priority takes the place of id 0
    insert(&mut queue, 2, 6, &[3], &[9]);
    assert_eq!(queue.pending_len(), 2);
    assert!(!queue.is_tracked(&TransactionId::new(0)));
    assert_eq!(queue.get_id_by_hash(&hash_of(0)), None);
    assert_eq!(queue.account_queue_len(&account(1)), None);
    assert_eq!(queue.account_queue_len(&account(9)), Some((2, 0)));

    // a lower priority is itself the one that leaves
    insert(&mut queue, 3, 1, &[4], &[9]);
    assert_eq!(queue.pending_len(), 2);
    assert!(!queue.is_tracked(&TransactionId::new(3)));
    assert_eq!(queue.account_queue_len(&account(4)), None);
    assert_eq!(queue.num_tracked(), 2);

    assert_eq!(
        queue.get_consume_batch(),
        Some(vec![packet_of(1, 7), packet_of(2, 6)])
    );
}

#[test]
fn test_queue_of_capacity_zero_keeps_nothing() {
    let mut queue = TransactionQueue::with_capacity(0);
    insert(&mut queue, 0, 5, &[1], &[2]);
    assert_eq!(queue.pending_len(), 0);
    assert_eq!(queue.num_tracked(), 0);
    assert!(!queue.has_account_queues());
    assert_eq!(queue.get_consume_batch(), None);
}

#[test]
fn test_consume_batch_is_limited_in_size() {
    let count = MAX_BATCH_SIZE as u64 + 2;
    let mut queue = TransactionQueue::with_capacity(count as usize);
    for id in 0..count {
        insert(&mut queue, id, id, &[id as u128], &[]);
    }
    let first = queue.get_consume_batch().unwrap();
    assert_eq!(first.len(), MAX_BATCH_SIZE);
    assert_eq!(first[0], packet_of(count - 1, count - 1));
    assert_eq!(first[MAX_BATCH_SIZE - 1], packet_of(2, 2));
    assert_eq!(queue.pending_len(), 2);
    let second = queue.get_consume_batch().unwrap();
    assert_eq!(second, vec![packet_of(1, 1), packet_of(0, 0)]);
    assert_eq!(queue.get_consume_batch(), None);
}

#[test]
fn test_retry_makes_the_transaction_pending_again() {
    let mut queue = TransactionQueue::with_capacity(4);
    insert(&mut queue, 0, 10, &[], &[1]);
    assert!(queue.get_consume_batch().is_some());
    assert_eq!(queue.pending_len(), 0);
    queue.complete_or_retry(&TransactionId::new(0), true);
    assert_eq!(queue.pending_len(), 1);
    assert!(queue.is_tracked(&TransactionId::new(0)));
    assert_eq!(queue.account_queue_len(&account(1)), Some((1, 0)));
    assert_eq!(queue.get_consume_batch(), Some(vec![packet_of(0, 10)]));
}

#[test]
fn test_mark_forwarded() {
    let mut queue = TransactionQueue::with_capacity(4);
    insert(&mut queue, 0, 10, &[1], &[]);
    insert(&mut queue, 1, 11, &[2], &[]);
    assert!(!queue.get_packet(&TransactionId::new(0)).unwrap().forwarded);
    queue.mark_forwarded(&TransactionId::new(0));
    let packet = queue.get_packet(&TransactionId::new(0)).unwrap();
    assert!(packet.forwarded);
    assert_eq!(packet.immutable_section, packet_of(0, 10));
    assert!(!queue.get_packet(&TransactionId::new(1)).unwrap().forwarded);
    assert_eq!(queue.get_packet(&TransactionId::new(2)), None);
    assert_eq!(queue.pending_len(), 2);
}

#[test]
fn test_forwarding_batch_ignores_conflicts() {
    let mut queue = TransactionQueue::with_capacity(4);
    insert(&mut queue, 0, 10, &[1], &[]);
    assert!(queue.get_consume_batch().is_some());
    insert(&mut queue, 1, 3, &[1], &[]);
    insert(&mut queue, 2, 4, &[1], &[]);
    let batch = queue.get_forwarding_batch(&mut TakeAll).unwrap();
    assert_eq!(batch, vec![packet_of(2, 4), packet_of(1, 3)]);
    assert_eq!(queue.pending_len(), 0);
    assert_eq!(queue.num_tracked(), 3);
    assert_eq!(queue.get_forwarding_batch(&mut TakeAll), None);
}

#[test]
fn test_forwarding_batch_drops_what_the_filter_refuses() {
    let mut queue = TransactionQueue::with_capacity(8);
    for (id, priority) in [(0u64, 5u64), (1, 9), (2, 1), (3, 7)] {
        insert(&mut queue, id, priority, &[id as u128], &[100]);
    }
    let mut filter = TakeAbove {
        priority: 5,
        offered: vec![],
    };
    let batch = queue.get_forwarding_batch(&mut filter).unwrap();
    assert_eq!(filter.offered, vec![9, 7, 5, 1]);
    assert_eq!(batch, vec![packet_of(1, 9), packet_of(3, 7)]);
    assert_eq!(queue.pending_len(), 0);
    assert!(queue.is_tracked(&TransactionId::new(1)));
    assert!(queue.is_tracked(&TransactionId::new(3)));
    assert!(!queue.is_tracked(&TransactionId::new(0)));
    assert!(!queue.is_tracked(&TransactionId::new(2)));
    assert_eq!(queue.account_queue_len(&account(0)), None);
    assert_eq!(queue.account_queue_len(&account(100)), Some((2, 0)));

    // the filter refuses everything: there is no batch
    insert(&mut queue, 4, 2, &[4], &[]);
    assert_eq!(queue.get_forwarding_batch(&mut filter), None);
    assert!(!queue.is_tracked(&TransactionId::new(4)));
}

#[test]
fn test_forward_or_drop() {
    let mut queue = TransactionQueue::with_capacity(8);
    insert(&mut queue, 0, 5, &[1], &[]);
    insert(&mut queue, 1, 6, &[2], &[]);
    let mut batch = vec![];
    queue.forward_or_drop(
        &TransactionPriorityId::new(5, TransactionId::new(0)),
        true,
        &mut batch,
    );
    assert_eq!(batch, vec![packet_of(0, 5)]);
    assert!(queue.is_tracked(&TransactionId::new(0)));
    queue.forward_or_drop(
        &TransactionPriorityId::new(6, TransactionId::new(1)),
        false,
        &mut batch,
    );
    assert_eq!(batch, vec![packet_of(0, 5)]);
    assert!(!queue.is_tracked(&TransactionId::new(1)));
    assert_eq!(queue.account_queue_len(&account(2)), None);
}

#[test]
fn test_unblocked_transactions_respect_the_capacity() {
    let mut queue = TransactionQueue::with_capacity(1);
    insert(&mut queue, 0, 10, &[1], &[]);
    assert!(queue.get_consume_batch().is_some());
    // two writers are parked behind id 0, one after the other
    insert(&mut queue, 1, 4, &[1], &[]);
    assert_eq!(queue.get_consume_batch(), None);
    insert(&mut queue, 2, 6, &[1], &[]);
    assert_eq!(queue.get_consume_batch(), None);
    assert_eq!(queue.num_parked_behind(&TransactionId::new(0)), 2);
    assert_eq!(queue.num_tracked(), 3);

    // both become pending again, but the queue has room for one: the lower is dropped
    queue.complete_or_retry(&TransactionId::new(0), false);
    assert_eq!(queue.pending_len(), 1);
    assert!(queue.is_tracked(&TransactionId::new(2)));
    assert!(!queue.is_tracked(&TransactionId::new(1)));
    assert_eq!(queue.get_consume_batch(), Some(vec![packet_of(2, 6)]));
}

#[test]
fn test_sanitized_transaction_priority_try_new() {
    let packet = packet_of(7, 42);
    let id = TransactionId::new(3);
    let matching = SanitizedTransaction::new(hash_of(7), vec![account(1)], vec![account(2)]);
    let entry = SanitizedTransactionPriority::try_new(id, &packet, Some(matching)).unwrap();
    assert_eq!(entry.priority, 42);
    assert_eq!(entry.id, id);
    assert_eq!(*entry.message_hash(), hash_of(7));
    assert_eq!(
        entry.priority_id(),
        TransactionPriorityId::new(42, TransactionId::new(3))
    );
    let locks = entry.get_account_locks().unwrap();
    assert_eq!(locks.writable, &[account(1)]);
    assert_eq!(locks.readonly, &[account(2)]);

    // sanitizing failed
    assert!(SanitizedTransactionPriority::try_new(id, &packet, None).is_none());
    // the transaction of another packet
    let other = SanitizedTransaction::new(hash_of(8), vec![], vec![]);
    assert!(SanitizedTransactionPriority::try_new(id, &packet, Some(other)).is_none());

    // more accounts than a transaction may lock
    let many = SanitizedTransaction::new(hash_of(7), (0..129).map(account).collect(), vec![]);
    let entry = SanitizedTransactionPriority::try_new(id, &packet, Some(many)).unwrap();
    assert!(entry.get_account_locks().is_none());
    let most = SanitizedTransaction::new(hash_of(7), (0..128).map(account).collect(), vec![]);
    let entry = SanitizedTransactionPriority::try_new(id, &packet, Some(most)).unwrap();
    assert!(entry.get_account_locks().is_some());
}
