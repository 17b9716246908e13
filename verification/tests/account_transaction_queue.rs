use transaction_scheduler::account_transaction_queue::{
    is_lower, option_min, AccountLock, AccountLockInner, AccountTransactionQueue,
};
use transaction_scheduler::transaction_priority_id::{TransactionId, TransactionPriorityId};

fn tx(priority: u64, id: u64) -> TransactionPriorityId {
    TransactionPriorityId::new(priority, TransactionId::new(id))
}

#[test]
fn test_option_min() {
    assert_eq!(option_min(None, None), None);
    assert_eq!(option_min(Some(tx(3, 0)), None), Some(tx(3, 0)));
    assert_eq!(option_min(None, Some(tx(3, 0))), Some(tx(3, 0)));
    assert_eq!(option_min(Some(tx(3, 0)), Some(tx(2, 1))), Some(tx(2, 1)));
    assert_eq!(option_min(Some(tx(2, 1)), Some(tx(3, 0))), Some(tx(2, 1)));
    // the id decides among equal priorities
    assert_eq!(option_min(Some(tx(2, 1)), Some(tx(2, 0))), Some(tx(2, 0)));
    assert_eq!(option_min(Some(tx(2, 0)), Some(tx(2, 1))), Some(tx(2, 0)));
}

#[test]
fn test_is_lower() {
    assert!(is_lower(&tx(1, 9), &tx(2, 0)));
    assert!(!is_lower(&tx(2, 0), &tx(1, 9)));
    assert!(is_lower(&tx(2, 0), &tx(2, 1)));
    assert!(!is_lower(&tx(2, 1), &tx(2, 1)));
}

#[test]
fn test_account_lock_inner_tracks_the_lowest() {
    let mut inner = AccountLockInner::new();
    assert_eq!(inner.count, 0);
    assert_eq!(inner.lowest_priority_transaction, None);

    inner.lock_for_transaction(&tx(10, 0));
    assert_eq!(inner.count, 1);
    assert_eq!(inner.lowest_priority_transaction, Some(tx(10, 0)));

    inner.lock_for_transaction(&tx(12, 1));
    assert_eq!(inner.count, 2);
    assert_eq!(inner.lowest_priority_transaction, Some(tx(10, 0)));

    inner.lock_for_transaction(&tx(4, 2));
    assert_eq!(inner.count, 3);
    assert_eq!(inner.lowest_priority_transaction, Some(tx(4, 2)));

    inner.unlock_for_transaction(&tx(12, 1));
    inner.unlock_for_transaction(&tx(10, 0));
    assert_eq!(inner.count, 1);
    assert_eq!(inner.lowest_priority_transaction, Some(tx(4, 2)));

    inner.unlock_for_transaction(&tx(4, 2));
    assert_eq!(inner, AccountLockInner::new());

    // giving back what is not held changes nothing
    inner.unlock_for_transaction(&tx(4, 2));
    assert_eq!(inner, AccountLockInner::new());
}

#[test]
fn test_account_lock_kinds_are_counted_apart() {
    let mut lock = AccountLock::new();
    assert!(!lock.write_locked());
    assert!(!lock.read_locked());

    lock.lock_on_transaction(&tx(5, 0), false);
    assert!(lock.read_locked());
    assert!(!lock.write_locked());
    assert_eq!(lock.get_lowest_priority_transaction(false), Some(tx(5, 0)));
    assert_eq!(lock.get_lowest_priority_transaction(true), None);

    lock.lock_on_transaction(&tx(3, 1), true);
    assert!(lock.write_locked());
    assert_eq!(lock.get_lowest_priority_transaction(true), Some(tx(3, 1)));

    lock.unlock_on_transaction(&tx(5, 0), false);
    assert!(!lock.read_locked());
    assert!(lock.write_locked());
    lock.unlock_on_transaction(&tx(3, 1), true);
    assert_eq!(lock, AccountLock::new());
}

#[test]
fn test_account_queue_min_blocking() {
    let mut queue = AccountTransactionQueue::new();
    let reader = tx(9, 0);
    let writer = tx(7, 1);
    let candidate = tx(1, 2);
    queue.insert_transaction(reader, false);
    queue.insert_transaction(writer, true);
    queue.insert_transaction(candidate, true);
    assert_eq!(queue.len(), (1, 2));

    // nothing is scheduled: nothing blocks
    assert_eq!(queue.get_min_blocking_transaction(&candidate, true), None);
    assert_eq!(queue.get_min_blocking_transaction(&candidate, false), None);

    // a scheduled reader blocks a write and no read
    queue.handle_schedule_transaction(&reader, false);
    assert_eq!(
        queue.get_min_blocking_transaction(&candidate, true),
        Some(reader)
    );
    assert_eq!(queue.get_min_blocking_transaction(&candidate, false), None);

    // a scheduled writer blocks both; the lowest blocker is reported
    queue.handle_schedule_transaction(&writer, true);
    assert_eq!(
        queue.get_min_blocking_transaction(&candidate, true),
        Some(writer)
    );
    assert_eq!(
        queue.get_min_blocking_transaction(&candidate, false),
        Some(writer)
    );

    assert!(!queue.remove_transaction(&writer, true));
    assert_eq!(
        queue.get_min_blocking_transaction(&candidate, true),
        Some(reader)
    );
    assert!(!queue.remove_transaction(&reader, false));
    assert_eq!(queue.get_min_blocking_transaction(&candidate, true), None);
    assert_eq!(queue.len(), (0, 1));
    // the last transaction leaves: the queue reports that it is empty
    assert!(queue.remove_transaction(&candidate, true));
    assert_eq!(queue.len(), (0, 0));
    assert_eq!(queue.scheduled_lock(), AccountLock::new());
}
