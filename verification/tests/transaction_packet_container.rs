use transaction_scheduler::key_map::{MessageHash, Pubkey};
use transaction_scheduler::packet::{
    ImmutableDeserializedPacket, SanitizedTransaction, SanitizedTransactionTTL, Slot,
};
use transaction_scheduler::transaction_packet_container::TransactionPacketContainer;
use transaction_scheduler::transaction_priority_id::{TransactionId, TransactionPriorityId};

fn test_packet_and_transaction(
    priority: u64,
) -> (ImmutableDeserializedPacket, SanitizedTransactionTTL) {
    let from = Pubkey::new(1, priority as u128);
    let to = Pubkey::new(2, priority as u128);
    let message_hash = MessageHash::new(3, priority as u128);
    let packet = ImmutableDeserializedPacket::new(message_hash, priority, false, 215, false);
    let transaction_ttl = SanitizedTransactionTTL {
        transaction: SanitizedTransaction::new(message_hash, vec![from, to], vec![]),
        max_age_slot: Slot::MAX,
    };
    (packet, transaction_ttl)
}

fn push_to_container(container: &mut TransactionPacketContainer, num: usize) {
    for id in 0..num as u64 {
        let priority = id;
        let (packet, transaction_ttl) = test_packet_and_transaction(priority);
        container.insert_new_transaction(TransactionId::new(id), packet, transaction_ttl);
    }
}

#[test]
fn test_is_empty() {
    let mut container = TransactionPacketContainer::with_capacity(1);
    assert!(container.is_empty());

    push_to_container(&mut container, 1);
    assert!(!container.is_empty());
}

#[test]
fn test_priority_queue_capacity() {
    let mut container = TransactionPacketContainer::with_capacity(1);
    push_to_container(&mut container, 5);

    assert_eq!(container.queue_len(), 1);
    assert_eq!(container.num_packets(), 1);
    assert_eq!(container.num_transactions(), 1);
    assert_eq!(
        container
            .get_packet_entry(TransactionId::new(4))
            .unwrap()
            .get()
            .immutable_section()
            .priority(),
        4
    );
}

#[test]
fn test_drain() {
    let mut container = TransactionPacketContainer::with_capacity(5);
    push_to_container(&mut container, 5);

    let drained = container.drain_queue();
    assert_eq!(
        drained,
        vec![
            TransactionPriorityId::new(4, TransactionId::new(4)),
            TransactionPriorityId::new(3, TransactionId::new(3)),
            TransactionPriorityId::new(2, TransactionId::new(2)),
            TransactionPriorityId::new(1, TransactionId::new(1)),
            TransactionPriorityId::new(0, TransactionId::new(0)),
        ]
    );
    assert!(container.is_empty());
}

#[test]
fn test_take_top_n() {
    let mut container = TransactionPacketContainer::with_capacity(5);
    push_to_container(&mut container, 5);

    let taken = container.take_top_n(3);
    assert_eq!(
        taken,
        vec![
            TransactionPriorityId::new(4, TransactionId::new(4)),
            TransactionPriorityId::new(3, TransactionId::new(3)),
            TransactionPriorityId::new(2, TransactionId::new(2)),
        ]
    );
    assert_eq!(container.queue_len(), 2);
}

#[test]
fn test_remove_by_id() {
    let mut container = TransactionPacketContainer::with_capacity(5);
    push_to_container(&mut container, 5);

    container.remove_by_id(&TransactionId::new(3));
    assert_eq!(container.queue_len(), 5); // remove_by_id does not remove from priority queue
    assert_eq!(container.num_packets(), 4);
    assert_eq!(container.num_transactions(), 4);

    container.remove_by_id(&TransactionId::new(7));
    assert_eq!(container.num_packets(), 4);
    assert_eq!(container.num_transactions(), 4);
}

#[test]
fn test_push_id_into_queue() {
    let mut container = TransactionPacketContainer::with_capacity(1);
    assert!(container.push_id_into_queue(TransactionPriorityId::new(1, TransactionId::new(0))));
    assert_eq!(container.queue_len(), 1);
    assert_eq!(container.num_packets(), 0);
    assert_eq!(container.num_transactions(), 0);

    assert!(container.push_id_into_queue(TransactionPriorityId::new(1, TransactionId::new(1))));
    assert_eq!(container.queue_len(), 1);
    // should be dropped due to capacity
    assert!(!container.push_id_into_queue(TransactionPriorityId::new(0, TransactionId::new(2))));
    assert_eq!(container.queue_len(), 1);
}

#[test]
fn test_get_packet_entry_missing() {
    let mut container = TransactionPacketContainer::with_capacity(5);
    push_to_container(&mut container, 5);

    assert!(container.get_packet_entry(TransactionId::new(7)).is_none());
}

#[test]
fn test_get_packet_entry() {
    let mut container = TransactionPacketContainer::with_capacity(5);
    push_to_container(&mut container, 5);

    let transaction_id = TransactionId::new(3);
    let packet_entry = container.get_packet_entry(transaction_id).unwrap();
    assert_eq!(TransactionId::new(*packet_entry.key()), transaction_id);
}

#[test]
fn test_get_transaction_entry() {
    let mut container = TransactionPacketContainer::with_capacity(5);
    push_to_container(&mut container, 5);

    let transaction_id = TransactionId::new(3);
    let transaction_ttl_entry = container.get_transaction_entry(transaction_id);
    assert_eq!(TransactionId::new(*transaction_ttl_entry.key()), transaction_id);
}

#[test]
fn test_get_transaction_and_packet_entries() {
    let mut container = TransactionPacketContainer::with_capacity(5);
    push_to_container(&mut container, 5);

    let (transaction_entry, mut packet_entry) =
        container.get_transaction_and_packet_entries(TransactionId::new(2));
    assert_eq!(*transaction_entry.key(), 2);
    assert_eq!(transaction_entry.get().max_age_slot, Slot::MAX);
    packet_entry.get_mut().forwarded = true;
    transaction_entry.remove();
    assert_eq!(container.num_transactions(), 4);
    assert_eq!(container.num_packets(), 5);
    assert!(
        container
            .get_packet_entry(TransactionId::new(2))
            .unwrap()
            .get()
            .forwarded
    );
}

#[test]
fn test_capacity_one_evicts_the_lower_priority() {
    let mut container = TransactionPacketContainer::with_capacity(1);

    let (packet, ttl) = test_packet_and_transaction(5);
    container.insert_new_transaction(TransactionId::new(0), packet, ttl);
    assert_eq!(container.queue_len(), 1);
    assert!(container.get_packet_entry(TransactionId::new(0)).is_some());

    // a higher priority evicts id 0 from the queue and from both maps
    let (packet, ttl) = test_packet_and_transaction(10);
    container.insert_new_transaction(TransactionId::new(1), packet, ttl);
    assert_eq!(container.queue_len(), 1);
    assert_eq!(container.num_packets(), 1);
    assert_eq!(container.num_transactions(), 1);
    assert!(container.get_packet_entry(TransactionId::new(0)).is_none());
    assert!(container.get_packet_entry(TransactionId::new(1)).is_some());

    // a lower priority is turned away and nothing changes
    let (packet, ttl) = test_packet_and_transaction(3);
    container.insert_new_transaction(TransactionId::new(2), packet, ttl);
    assert_eq!(container.queue_len(), 1);
    assert_eq!(container.num_packets(), 1);
    assert_eq!(container.num_transactions(), 1);
    assert!(container.get_packet_entry(TransactionId::new(2)).is_none());
    assert_eq!(
        container.drain_queue(),
        vec![TransactionPriorityId::new(10, TransactionId::new(1))]
    );
}

#[test]
fn test_capacity_zero_takes_nothing() {
    let mut container = TransactionPacketContainer::with_capacity(0);
    assert_eq!(container.remaining_queue_capacity(), 0);
    assert!(!container.push_id_into_queue(TransactionPriorityId::new(9, TransactionId::new(1))));
    push_to_container(&mut container, 3);
    assert!(container.is_empty());
    assert_eq!(container.num_packets(), 0);
    assert_eq!(container.num_transactions(), 0);
}

#[test]
fn test_remaining_queue_capacity() {
    let mut container = TransactionPacketContainer::with_capacity(4);
    assert_eq!(container.remaining_queue_capacity(), 4);
    push_to_container(&mut container, 3);
    assert_eq!(container.remaining_queue_capacity(), 1);
    push_to_container(&mut container, 3);
    assert_eq!(container.queue_len(), 4);
    assert_eq!(container.remaining_queue_capacity(), 0);
}

#[test]
fn test_queue_never_exceeds_capacity_and_stays_synced() {
    let capacity = 3;
    let mut container = TransactionPacketContainer::with_capacity(capacity);
    let priorities = [7u64, 2, 9, 4, 4, 1, 8, 3, 10, 6];
    for (id, priority) in priorities.iter().enumerate() {
        let (packet, ttl) = test_packet_and_transaction(*priority);
        container.insert_new_transaction(TransactionId::new(id as u64), packet, ttl);
        assert!(container.queue_len() <= capacity);
        assert_eq!(container.queue_len(), container.num_packets());
        assert_eq!(container.queue_len(), container.num_transactions());
    }
    let drained = container.drain_queue();
    assert_eq!(
        drained,
        vec![
            TransactionPriorityId::new(10, TransactionId::new(8)),
            TransactionPriorityId::new(9, TransactionId::new(2)),
            TransactionPriorityId::new(8, TransactionId::new(6)),
        ]
    );
    // every id that was drained still has its packet and its transaction
    for priority_id in drained {
        assert!(container.get_packet_entry(priority_id.id).is_some());
        let entry = container.get_transaction_entry(priority_id.id);
        assert_eq!(*entry.key(), priority_id.id.0);
    }
}

#[test]
fn test_drain_orders_equal_priorities_by_id() {
    let mut container = TransactionPacketContainer::with_capacity(8);
    for (priority, id) in [(5u64, 3u64), (5, 1), (7, 0), (5, 2), (1, 9)] {
        assert!(container.push_id_into_queue(TransactionPriorityId::new(
            priority,
            TransactionId::new(id)
        )));
    }
    let drained = container.drain_queue();
    let pairs: Vec<(u64, u64)> = drained.iter().map(|p| p.to_pair()).collect();
    assert_eq!(pairs, vec![(7, 0), (5, 3), (5, 2), (5, 1), (1, 9)]);
    for window in pairs.windows(2) {
        assert!(window[0].0 >= window[1].0);
    }
}

#[test]
fn test_take_top_n_more_than_there_is() {
    let mut container = TransactionPacketContainer::with_capacity(5);
    push_to_container(&mut container, 2);
    let taken = container.take_top_n(10);
    assert_eq!(
        taken,
        vec![
            TransactionPriorityId::new(1, TransactionId::new(1)),
            TransactionPriorityId::new(0, TransactionId::new(0)),
        ]
    );
    assert!(container.is_empty());
    assert_eq!(container.take_top_n(0), vec![]);
    assert_eq!(container.take_top_n(3), vec![]);
}

#[test]
fn test_retry_transaction() {
    let mut container = TransactionPacketContainer::with_capacity(2);
    push_to_container(&mut container, 2);
    // id 1 is taken for processing: it leaves the queue, and its transaction the map
    let taken = container.take_top_n(1);
    assert_eq!(taken[0], TransactionPriorityId::new(1, TransactionId::new(1)));
    let transaction_ttl = container.get_transaction_entry(TransactionId::new(1)).remove();
    assert_eq!(container.num_transactions(), 1);
    assert_eq!(container.queue_len(), 1);

    container.retry_transaction(TransactionId::new(1), transaction_ttl.transaction, 77);
    assert_eq!(container.queue_len(), 2);
    assert_eq!(container.num_transactions(), 2);
    assert_eq!(container.num_packets(), 2);
    assert_eq!(
        container
            .get_transaction_entry(TransactionId::new(1))
            .get()
            .max_age_slot,
        77
    );
    assert_eq!(
        container.take_top_n(1),
        vec![TransactionPriorityId::new(1, TransactionId::new(1))]
    );
}

#[test]
fn test_sanitized_transaction_account_locks() {
    let a = Pubkey::new(0, 1);
    let b = Pubkey::new(0, 2);
    let c = Pubkey::new(1, 1);
    let hash = MessageHash::new(9, 9);

    let valid = SanitizedTransaction::new(hash, vec![a, b], vec![c]);
    let locks = valid.get_account_locks(3).unwrap();
    assert_eq!(locks.writable, &[a, b]);
    assert_eq!(locks.readonly, &[c]);
    // too many account locks
    assert!(valid.get_account_locks(2).is_none());

    // an account that is loaded twice
    let twice_written = SanitizedTransaction::new(hash, vec![a, b, a], vec![c]);
    assert!(twice_written.get_account_locks(64).is_none());
    let written_and_read = SanitizedTransaction::new(hash, vec![a], vec![c, a]);
    assert!(written_and_read.get_account_locks(64).is_none());
    let unchecked = written_and_read.get_account_locks_unchecked();
    assert_eq!(unchecked.writable, &[a]);
    assert_eq!(unchecked.readonly, &[c, a]);

    let no_accounts = SanitizedTransaction::new(hash, vec![], vec![]);
    assert!(no_accounts.get_account_locks(0).is_some());
}
