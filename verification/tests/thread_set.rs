use transaction_scheduler::thread_set::{ThreadSet, MAX_THREADS};

#[test]
fn test_thread_set() {
    let mut thread_set = ThreadSet::none();
    assert!(thread_set.is_empty());
    assert_eq!(thread_set.num_threads(), 0);
    assert_eq!(thread_set.only_one_scheduled(), None);
    for idx in 0..MAX_THREADS {
        assert!(!thread_set.contains(idx));
    }

    thread_set.insert(4);
    assert!(!thread_set.is_empty());
    assert_eq!(thread_set.num_threads(), 1);
    assert_eq!(thread_set.only_one_scheduled(), Some(4));
    for idx in 0..MAX_THREADS {
        assert_eq!(thread_set.contains(idx), idx == 4);
    }

    thread_set.insert(2);
    assert!(!thread_set.is_empty());
    assert_eq!(thread_set.num_threads(), 2);
    assert_eq!(thread_set.only_one_scheduled(), None);
    for idx in 0..MAX_THREADS {
        assert_eq!(thread_set.contains(idx), idx == 2 || idx == 4);
    }

    thread_set.remove(4);
    assert!(!thread_set.is_empty());
    assert_eq!(thread_set.num_threads(), 1);
    assert_eq!(thread_set.only_one_scheduled(), Some(2));
    for idx in 0..MAX_THREADS {
        assert_eq!(thread_set.contains(idx), idx == 2);
    }
}

#[test]
fn test_thread_set_any() {
    assert_eq!(ThreadSet::any(0), ThreadSet::none());
    let four = ThreadSet::any(4);
    assert_eq!(four.num_threads(), 4);
    assert_eq!(four.threads_iter(), vec![0, 1, 2, 3]);
    assert!(!four.contains(4));

    let all = ThreadSet::any(MAX_THREADS);
    assert_eq!(all.num_threads(), 64);
    for idx in 0..MAX_THREADS {
        assert!(all.contains(idx));
    }
    assert!(!all.contains(MAX_THREADS));
    assert!(!all.contains(usize::MAX));
}

#[test]
fn test_thread_set_only() {
    for idx in 0..MAX_THREADS {
        let set = ThreadSet::only(idx);
        assert_eq!(set.num_threads(), 1);
        assert_eq!(set.only_one_scheduled(), Some(idx));
        assert_eq!(set.threads_iter(), vec![idx]);
    }
}

#[test]
fn test_thread_set_num_threads_counts_every_member() {
    let mut set = ThreadSet::none();
    let members = [0usize, 1, 7, 31, 32, 62, 63];
    for (n, idx) in members.iter().enumerate() {
        set.insert(*idx);
        assert_eq!(set.num_threads() as usize, n + 1);
    }
    assert_eq!(set.threads_iter(), members.to_vec());
    // inserting a member again changes nothing
    set.insert(31);
    assert_eq!(set.num_threads(), 7);
    // removing one that is absent changes nothing
    set.remove(5);
    assert_eq!(set.num_threads(), 7);
}

#[test]
fn test_thread_set_intersection() {
    let mut left = ThreadSet::any(6);
    let mut right = ThreadSet::none();
    right.insert(1);
    right.insert(5);
    right.insert(9);
    left.bitand_assign(right);
    assert_eq!(left.threads_iter(), vec![1, 5]);

    left.bitand_assign(ThreadSet::only(5));
    assert_eq!(left, ThreadSet::only(5));

    left.bitand_assign(ThreadSet::none());
    assert!(left.is_empty());
}

#[test]
fn test_thread_set_equality_is_by_members() {
    let mut built = ThreadSet::none();
    built.insert(0);
    built.insert(1);
    built.insert(2);
    assert_eq!(built, ThreadSet::any(3));
    built.remove(2);
    assert_ne!(built, ThreadSet::any(3));
    assert_eq!(built, ThreadSet::any(2));
}
