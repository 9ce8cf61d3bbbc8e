use kernel_sync::condvar::Condvar;
use kernel_sync::mutex::{LockOutcome, Mutex};

fn queue(condvar: &Condvar) -> Vec<usize> {
    condvar.wait_queue.iter().copied().collect()
}

fn locked(mutex: &Mutex) -> bool {
    match mutex {
        Mutex::Spin(m) => m.locked,
        Mutex::Blocking(m) => m.locked,
    }
}

#[test]
fn signal_without_waiters_does_nothing() {
    let mut condvar = Condvar::new();
    assert_eq!(condvar.signal(), None);
    assert!(condvar.wait_queue.is_empty());
}

#[test]
fn wait_gives_up_the_mutex_and_queues_the_caller() {
    let mut condvar = Condvar::new();
    let mut mutex = Mutex::new(true);
    assert_eq!(mutex.lock(3), LockOutcome::Acquired);
    assert_eq!(condvar.wait(3, &mut mutex), None);
    assert!(!locked(&mutex));
    assert_eq!(queue(&condvar), vec![3]);
}

#[test]
fn wait_hands_the_mutex_to_its_next_waiter() {
    let mut condvar = Condvar::new();
    let mut mutex = Mutex::new(true);
    assert_eq!(mutex.lock(3), LockOutcome::Acquired);
    assert_eq!(mutex.lock(6), LockOutcome::Blocked);
    assert_eq!(condvar.wait(3, &mut mutex), Some(6));
    assert!(locked(&mutex));
    assert_eq!(queue(&condvar), vec![3]);
}

#[test]
fn woken_task_does_not_own_the_mutex_again() {
    let mut condvar = Condvar::new();
    let mut mutex = Mutex::new(true);
    assert_eq!(mutex.lock(3), LockOutcome::Acquired);
    assert_eq!(condvar.wait(3, &mut mutex), None);
    assert_eq!(condvar.signal(), Some(3));
    // Nobody took the mutex for the woken task.
    assert!(!locked(&mutex));
    assert_eq!(mutex.lock(3), LockOutcome::Acquired);
}

#[test]
fn wait_with_a_spinning_mutex_frees_it() {
    let mut condvar = Condvar::new();
    let mut mutex = Mutex::new(false);
    assert_eq!(mutex.lock(1), LockOutcome::Acquired);
    assert_eq!(condvar.wait(1, &mut mutex), None);
    assert!(!locked(&mutex));
}

#[test]
fn signal_wakes_one_task_per_call_in_arrival_order() {
    let mut condvar = Condvar::new();
    let mut mutex = Mutex::new(true);
    let order = [7usize, 2, 5];
    for tid in order {
        condvar.wait(tid, &mut mutex);
    }
    assert_eq!(queue(&condvar), vec![7, 2, 5]);
    for tid in order {
        assert_eq!(condvar.signal(), Some(tid));
    }
    assert_eq!(condvar.signal(), None);
}
