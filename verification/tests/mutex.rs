use kernel_sync::mutex::{LockOutcome, Mutex, MutexBlocking, MutexSpin};

fn queue(mutex: &MutexBlocking) -> Vec<usize> {
    mutex.wait_queue.iter().copied().collect()
}

#[test]
fn spin_mutex_is_claimed_once() {
    let mut mutex = MutexSpin::new();
    assert!(!mutex.locked);
    assert_eq!(mutex.lock(), LockOutcome::Acquired);
    assert!(mutex.locked);
    assert_eq!(mutex.lock(), LockOutcome::Busy);
    assert_eq!(mutex.lock(), LockOutcome::Busy);
    assert!(mutex.locked);
    mutex.unlock();
    assert!(!mutex.locked);
    assert_eq!(mutex.lock(), LockOutcome::Acquired);
}

#[test]
fn spin_unlock_of_a_free_mutex_leaves_it_free() {
    let mut mutex = MutexSpin::new();
    mutex.unlock();
    assert!(!mutex.locked);
}

#[test]
fn blocking_mutex_queues_on_contention() {
    let mut mutex = MutexBlocking::new();
    assert_eq!(mutex.lock(4), LockOutcome::Acquired);
    assert!(mutex.locked);
    assert!(mutex.wait_queue.is_empty());
    assert_eq!(mutex.lock(2), LockOutcome::Blocked);
    assert_eq!(mutex.lock(9), LockOutcome::Blocked);
    assert_eq!(queue(&mutex), vec![2, 9]);
    assert!(mutex.locked);
}

#[test]
fn blocking_unlock_hands_the_mutex_over() {
    let mut mutex = MutexBlocking::new();
    assert_eq!(mutex.lock(4), LockOutcome::Acquired);
    assert_eq!(mutex.lock(2), LockOutcome::Blocked);
    assert_eq!(mutex.lock(9), LockOutcome::Blocked);
    // The flag stays set while the mutex goes from owner to owner.
    assert_eq!(mutex.unlock(), Some(2));
    assert!(mutex.locked);
    assert_eq!(queue(&mutex), vec![9]);
    assert_eq!(mutex.unlock(), Some(9));
    assert!(mutex.locked);
    assert!(mutex.wait_queue.is_empty());
    assert_eq!(mutex.unlock(), None);
    assert!(!mutex.locked);
}

#[test]
fn blocking_unlock_of_a_free_mutex_leaves_it_free() {
    let mut mutex = MutexBlocking::new();
    assert_eq!(mutex.unlock(), None);
    assert!(!mutex.locked);
    assert_eq!(mutex.lock(1), LockOutcome::Acquired);
}

#[test]
fn lock_succeeds_at_once_only_on_a_free_mutex() {
    for blocking in [false, true] {
        let mut mutex = Mutex::new(blocking);
        assert_eq!(mutex.lock(0), LockOutcome::Acquired);
        assert_ne!(mutex.lock(1), LockOutcome::Acquired);
        assert_ne!(mutex.lock(2), LockOutcome::Acquired);
    }
}

#[test]
fn mutex_of_either_strategy_behind_one_interface() {
    let mut spin = Mutex::new(false);
    assert!(matches!(spin, Mutex::Spin(_)));
    assert_eq!(spin.lock(0), LockOutcome::Acquired);
    assert_eq!(spin.lock(1), LockOutcome::Busy);
    assert_eq!(spin.unlock(), None);
    assert_eq!(spin.lock(1), LockOutcome::Acquired);

    let mut blocking = Mutex::new(true);
    assert!(matches!(blocking, Mutex::Blocking(_)));
    assert_eq!(blocking.lock(0), LockOutcome::Acquired);
    assert_eq!(blocking.lock(1), LockOutcome::Blocked);
    assert_eq!(blocking.unlock(), Some(1));
    assert_eq!(blocking.unlock(), None);
}

#[test]
fn waiters_get_the_mutex_in_arrival_order() {
    let mut mutex = Mutex::new(true);
    assert_eq!(mutex.lock(100), LockOutcome::Acquired);
    let order = [5usize, 3, 8, 1];
    for tid in order {
        assert_eq!(mutex.lock(tid), LockOutcome::Blocked);
    }
    for tid in order {
        assert_eq!(mutex.unlock(), Some(tid));
    }
    assert_eq!(mutex.unlock(), None);
}

#[test]
fn one_owner_at_a_time() {
    // Follow the owner through a run of calls: it changes only by an
    // acquisition of the free mutex or by a hand-over.
    let mut mutex = Mutex::new(true);
    let mut owner: Option<usize> = None;
    let script: [(bool, usize); 8] =
        [(true, 1), (true, 2), (true, 3), (false, 1), (false, 2), (true, 1), (false, 3), (false, 1)];
    for (lock, tid) in script {
        if lock {
            let outcome = mutex.lock(tid);
            if outcome == LockOutcome::Acquired {
                assert_eq!(owner, None);
                owner = Some(tid);
            }
        } else {
            assert_eq!(owner, Some(tid));
            owner = mutex.unlock();
        }
        let locked = match &mutex {
            Mutex::Spin(m) => m.locked,
            Mutex::Blocking(m) => m.locked,
        };
        assert_eq!(locked, owner.is_some());
    }
    assert_eq!(owner, None);
}
