use transaction_scheduler::key_map::Pubkey;
use transaction_scheduler::thread_aware_account_locks::ThreadAwareAccountLocks;
use transaction_scheduler::thread_set::{ThreadId, ThreadSet, MAX_THREADS};

const TEST_NUM_THREADS: usize = 4;
const TEST_SEQ_LIMIT: u32 = 2;

fn key(n: u128) -> Pubkey {
    Pubkey::new(n.wrapping_mul(0x9e37_79b9_7f4a_7c15_f39c_c060_5ced_c835), n)
}

#[test]
fn test_accounts_schedulable_threads_no_outstanding_locks() {
    let pk1 = key(1);
    let locks = ThreadAwareAccountLocks::new(TEST_NUM_THREADS, TEST_SEQ_LIMIT);

    assert_eq!(
        locks.accounts_schedulable_threads(&[pk1], &[]),
        ThreadSet::any(TEST_NUM_THREADS)
    );

    assert_eq!(
        locks.accounts_schedulable_threads(&[], &[pk1]),
        ThreadSet::any(TEST_NUM_THREADS)
    );
}

#[test]
fn test_accounts_schedulable_threads_outstanding_write_only() {
    let pk1 = key(1);
    let pk2 = key(2);
    let mut locks = ThreadAwareAccountLocks::new(TEST_NUM_THREADS, TEST_SEQ_LIMIT);
    locks.write_lock_account(&pk1, 2);

    assert_eq!(
        locks.accounts_schedulable_threads(&[pk1, pk2], &[]),
        ThreadSet::only(2)
    );

    assert_eq!(
        locks.accounts_schedulable_threads(&[], &[pk1, pk2]),
        ThreadSet::only(2)
    );
}

#[test]
fn test_accounts_schedulable_threads_outstanding_read_only() {
    let pk1 = key(1);
    let pk2 = key(2);
    let mut locks = ThreadAwareAccountLocks::new(TEST_NUM_THREADS, TEST_SEQ_LIMIT);
    locks.read_lock_account(&pk1, 2);

    assert_eq!(
        locks.accounts_schedulable_threads(&[pk1, pk2], &[]),
        ThreadSet::only(2)
    );
    assert_eq!(
        locks.accounts_schedulable_threads(&[], &[pk1, pk2]),
        ThreadSet::any(TEST_NUM_THREADS)
    );

    locks.read_lock_account(&pk1, 0);
    assert_eq!(
        locks.accounts_schedulable_threads(&[pk1, pk2], &[]),
        ThreadSet::none()
    );
    assert_eq!(
        locks.accounts_schedulable_threads(&[], &[pk1, pk2]),
        ThreadSet::any(TEST_NUM_THREADS)
    );
}

#[test]
fn test_accounts_schedulable_threads_outstanding_mixed() {
    let pk1 = key(1);
    let pk2 = key(2);
    let mut locks = ThreadAwareAccountLocks::new(TEST_NUM_THREADS, TEST_SEQ_LIMIT);
    locks.read_lock_account(&pk1, 2);
    locks.write_lock_account(&pk2, 2);

    assert_eq!(
        locks.accounts_schedulable_threads(&[pk1, pk2], &[]),
        ThreadSet::only(2)
    );

    assert_eq!(
        locks.accounts_schedulable_threads(&[], &[pk1, pk2]),
        ThreadSet::only(2)
    );
}

#[test]
fn test_write_exclusivity() {
    let pk1 = key(1);
    let pk2 = key(2);
    let mut locks = ThreadAwareAccountLocks::new(MAX_THREADS, TEST_SEQ_LIMIT);
    locks.write_lock_account(&pk1, 0);
    assert_eq!(
        locks.accounts_schedulable_threads(&[pk1, pk2], &[]),
        ThreadSet::only(0)
    );
    locks.write_lock_account(&pk2, 1);
    assert_eq!(
        locks.accounts_schedulable_threads(&[pk1, pk2], &[]),
        ThreadSet::none()
    );
}

#[test]
fn test_read_compatibility() {
    let pk1 = key(1);
    let mut locks = ThreadAwareAccountLocks::new(MAX_THREADS, TEST_SEQ_LIMIT);
    locks.read_lock_account(&pk1, 2);
    assert_eq!(
        locks.read_schedulable_threads(&pk1),
        ThreadSet::any(MAX_THREADS)
    );
    assert_eq!(locks.write_schedulable_threads(&pk1), ThreadSet::only(2));

    locks.read_lock_account(&pk1, 0);
    assert_eq!(locks.write_schedulable_threads(&pk1), ThreadSet::none());
    assert_eq!(
        locks.read_schedulable_threads(&pk1),
        ThreadSet::any(MAX_THREADS)
    );
}

#[test]
fn test_mixed_locks_on_one_thread() {
    let pk1 = key(1);
    let pk2 = key(2);
    let mut locks = ThreadAwareAccountLocks::new(MAX_THREADS, TEST_SEQ_LIMIT);
    locks.read_lock_account(&pk1, 2);
    locks.write_lock_account(&pk2, 2);
    assert_eq!(
        locks.accounts_schedulable_threads(&[pk1, pk2], &[]),
        ThreadSet::only(2)
    );
    assert_eq!(
        locks.accounts_schedulable_threads(&[], &[pk1, pk2]),
        ThreadSet::only(2)
    );
}

#[test]
fn test_write_depth_and_release() {
    let pk = key(7);
    let mut locks = ThreadAwareAccountLocks::new(MAX_THREADS, 3);
    locks.write_lock_account(&pk, 4);
    locks.write_lock_account(&pk, 4);
    locks.write_unlock_account(&pk, 4);
    assert_eq!(locks.write_schedulable_threads(&pk), ThreadSet::only(4));
    assert_eq!(locks.read_schedulable_threads(&pk), ThreadSet::only(4));
    locks.write_unlock_account(&pk, 4);
    assert_eq!(
        locks.write_schedulable_threads(&pk),
        ThreadSet::any(MAX_THREADS)
    );
    assert_eq!(
        locks.accounts_schedulable_threads(&[pk], &[pk]),
        ThreadSet::any(MAX_THREADS)
    );
}

#[test]
fn test_sequential_limit_for_writes() {
    let pk = key(3);
    let mut locks = ThreadAwareAccountLocks::new(TEST_NUM_THREADS, TEST_SEQ_LIMIT);
    locks.write_lock_account(&pk, 1);
    assert_eq!(locks.write_schedulable_threads(&pk), ThreadSet::only(1));
    locks.write_lock_account(&pk, 1);
    // the write depth has reached the limit
    assert_eq!(locks.write_schedulable_threads(&pk), ThreadSet::none());
    // a read is still routed to the writer
    assert_eq!(locks.read_schedulable_threads(&pk), ThreadSet::only(1));
}

#[test]
fn test_sequential_limit_for_reads() {
    let pk = key(3);
    let mut locks = ThreadAwareAccountLocks::new(TEST_NUM_THREADS, TEST_SEQ_LIMIT);
    locks.read_lock_account(&pk, 1);
    locks.read_lock_account(&pk, 1);
    // thread 1 holds as many read locks as the limit allows
    let mut expected = ThreadSet::any(TEST_NUM_THREADS);
    expected.remove(1);
    assert_eq!(locks.read_schedulable_threads(&pk), expected);
    assert_eq!(locks.write_schedulable_threads(&pk), ThreadSet::none());
    locks.read_unlock_account(&pk, 1);
    assert_eq!(
        locks.read_schedulable_threads(&pk),
        ThreadSet::any(TEST_NUM_THREADS)
    );
    assert_eq!(locks.write_schedulable_threads(&pk), ThreadSet::only(1));
}

#[test]
fn test_sequential_limit_counts_reads_and_writes_of_the_writer() {
    let pk = key(3);
    let mut locks = ThreadAwareAccountLocks::new(TEST_NUM_THREADS, 3);
    locks.read_lock_account(&pk, 2);
    locks.write_lock_account(&pk, 2);
    // one read and one write on thread 2: one more write fits below the limit of 3
    assert_eq!(locks.write_schedulable_threads(&pk), ThreadSet::only(2));
    locks.read_lock_account(&pk, 2);
    // two reads and one write: the limit is reached
    assert_eq!(locks.write_schedulable_threads(&pk), ThreadSet::none());
    assert_eq!(locks.read_schedulable_threads(&pk), ThreadSet::only(2));
}

#[test]
fn test_accounts_schedulable_threads_without_accounts() {
    for num_threads in [1usize, 2, 4, 63, 64] {
        let mut locks = ThreadAwareAccountLocks::new(num_threads, TEST_SEQ_LIMIT);
        assert_eq!(
            locks.accounts_schedulable_threads(&[], &[]),
            ThreadSet::any(num_threads)
        );
        locks.write_lock_account(&key(1), 0);
        assert_eq!(
            locks.accounts_schedulable_threads(&[], &[]),
            ThreadSet::any(num_threads)
        );
    }
}

#[test]
fn test_lock_then_unlock_restores_the_table() {
    let accounts: Vec<Pubkey> = (1..=6).map(key).collect();
    let writes = [accounts[0], accounts[1], accounts[2]];
    let reads = [accounts[2], accounts[3], accounts[4]];
    let probes = [
        accounts[0],
        accounts[1],
        accounts[2],
        accounts[3],
        accounts[4],
        accounts[5],
    ];

    let mut locks = ThreadAwareAccountLocks::new(TEST_NUM_THREADS, 3);
    // some locks that are there before and must be there after
    locks.write_lock_account(&accounts[0], 1);
    locks.read_lock_account(&accounts[3], 1);
    locks.read_lock_account(&accounts[5], 3);

    let before: Vec<(ThreadSet, ThreadSet)> = probes
        .iter()
        .map(|a| {
            (
                locks.write_schedulable_threads(a),
                locks.read_schedulable_threads(a),
            )
        })
        .collect();

    locks.lock_accounts(&writes, &reads, 1);
    assert_eq!(
        locks.write_schedulable_threads(&accounts[0]),
        ThreadSet::only(1)
    );
    assert_eq!(
        locks.read_schedulable_threads(&accounts[1]),
        ThreadSet::only(1)
    );
    assert_eq!(
        locks.write_schedulable_threads(&accounts[4]),
        ThreadSet::only(1)
    );
    locks.unlock_accounts(&writes, &reads, 1);

    let after: Vec<(ThreadSet, ThreadSet)> = probes
        .iter()
        .map(|a| {
            (
                locks.write_schedulable_threads(a),
                locks.read_schedulable_threads(a),
            )
        })
        .collect();
    assert_eq!(before, after);
}

#[test]
fn test_try_lock_accounts_none() {
    let pk1 = key(1);
    let pk2 = key(2);
    let mut locks = ThreadAwareAccountLocks::new(TEST_NUM_THREADS, TEST_SEQ_LIMIT);
    locks.write_lock_account(&pk1, 2);
    locks.write_lock_account(&pk2, 3);
    let mut selector_calls = 0;
    let result = locks.try_lock_accounts(&[pk1, pk2], &[], |_: ThreadSet| -> ThreadId {
        selector_calls += 1;
        0
    });
    assert_eq!(result, None);
    assert_eq!(selector_calls, 0);
    // nothing was locked
    assert_eq!(locks.write_schedulable_threads(&pk1), ThreadSet::only(2));
    assert_eq!(locks.write_schedulable_threads(&pk2), ThreadSet::only(3));
}

#[test]
fn test_try_lock_accounts_one_option() {
    let pk1 = key(1);
    let pk2 = key(2);
    let mut locks = ThreadAwareAccountLocks::new(TEST_NUM_THREADS, TEST_SEQ_LIMIT);
    locks.write_lock_account(&pk2, 3);
    let mut offered = ThreadSet::none();
    let result = locks.try_lock_accounts(&[pk1], &[pk2], |threads: ThreadSet| -> ThreadId {
        offered = threads;
        threads.only_one_scheduled().unwrap()
    });
    assert_eq!(offered, ThreadSet::only(3));
    assert_eq!(result, Some(3));
    assert_eq!(locks.write_schedulable_threads(&pk1), ThreadSet::only(3));
    assert_eq!(locks.read_schedulable_threads(&pk1), ThreadSet::only(3));
    // pk2 now has a write and a read of thread 3, which is the limit
    assert_eq!(locks.write_schedulable_threads(&pk2), ThreadSet::none());
}

#[test]
fn test_try_lock_accounts_multiple_options() {
    let pk1 = key(1);
    let pk2 = key(2);
    let mut locks = ThreadAwareAccountLocks::new(TEST_NUM_THREADS, TEST_SEQ_LIMIT);
    locks.read_lock_account(&pk2, 0);
    locks.read_lock_account(&pk2, 0);
    let mut offered = ThreadSet::none();
    let result = locks.try_lock_accounts(&[pk1], &[pk2], |threads: ThreadSet| -> ThreadId {
        offered = threads;
        *threads.threads_iter().last().unwrap()
    });
    // thread 0 is at the limit of reads on pk2
    let mut expected = ThreadSet::any(TEST_NUM_THREADS);
    expected.remove(0);
    assert_eq!(offered, expected);
    assert_eq!(result, Some(3));
    assert_eq!(locks.write_schedulable_threads(&pk1), ThreadSet::only(3));
    assert_eq!(locks.write_schedulable_threads(&pk2), ThreadSet::none());
}

#[test]
fn test_conflicting_transactions_are_routed_to_the_holder() {
    let shared = key(10);
    let other = key(11);
    let mut locks = ThreadAwareAccountLocks::new(TEST_NUM_THREADS, 8);
    // a transaction in flight on thread 1 writes `shared`
    let first = locks.try_lock_accounts(&[shared], &[], |_: ThreadSet| -> ThreadId { 1 });
    assert_eq!(first, Some(1));
    // whatever the selector prefers, a reader of `shared` can only go to thread 1
    let second = locks.try_lock_accounts(&[other], &[shared], |threads: ThreadSet| -> ThreadId {
        *threads.threads_iter().last().unwrap()
    });
    assert_eq!(second, Some(1));
    // and so can a writer of `other`, which the second transaction wrote
    assert_eq!(
        locks.accounts_schedulable_threads(&[other], &[]),
        ThreadSet::only(1)
    );
}
