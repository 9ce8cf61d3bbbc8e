use kernel_sync::mutex::Mutex;
use kernel_sync::process::Process;
use kernel_sync::slots::claim_slot;
use kernel_sync::syscall::{
    sys_condvar_create, sys_enable_deadlock_detect, sys_mutex_create, sys_semaphore_create,
};

#[test]
fn new_process_is_empty_and_does_not_test_for_deadlock() {
    let process = Process::new();
    assert!(process.mutex_list.is_empty());
    assert!(process.semaphore_list.is_empty());
    assert!(process.condvar_list.is_empty());
    assert!(process.tasks.is_empty());
    assert!(!process.dl_check);
}

#[test]
fn tasks_are_numbered_from_zero() {
    let mut process = Process::new();
    assert_eq!(process.add_task(), 0);
    assert_eq!(process.add_task(), 1);
    assert_eq!(process.add_task(), 2);
    assert_eq!(process.tasks.len(), 3);
    let task = process.tasks[1].as_ref().unwrap();
    assert!(task.mutex_allocation.is_empty());
    assert!(task.sem_allocation.is_empty());
    assert_eq!(task.mutex_need, None);
    assert_eq!(task.sem_need, None);
}

#[test]
fn identifiers_count_up_in_each_table() {
    let mut process = Process::new();
    assert_eq!(sys_mutex_create(&mut process, true), 0);
    assert_eq!(sys_mutex_create(&mut process, false), 1);
    assert_eq!(sys_semaphore_create(&mut process, 5), 0);
    assert_eq!(sys_condvar_create(&mut process), 0);
    assert_eq!(sys_mutex_create(&mut process, true), 2);
    assert_eq!(sys_semaphore_create(&mut process, 0), 1);
    assert_eq!(sys_condvar_create(&mut process), 1);
    assert_eq!(process.mutex_list.len(), 3);
    assert_eq!(process.semaphore_list.len(), 2);
    assert_eq!(process.condvar_list.len(), 2);
}

#[test]
fn mutex_create_picks_the_strategy() {
    let mut process = Process::new();
    sys_mutex_create(&mut process, false);
    sys_mutex_create(&mut process, true);
    assert!(matches!(process.mutex_list[0], Some(Mutex::Spin(_))));
    assert!(matches!(process.mutex_list[1], Some(Mutex::Blocking(_))));
}

#[test]
fn semaphore_create_sets_the_count() {
    let mut process = Process::new();
    sys_semaphore_create(&mut process, 7);
    let sem = process.semaphore_list[0].as_ref().unwrap();
    assert_eq!(sem.inner.count, 7);
    assert!(sem.inner.wait_queue.is_empty());
}

#[test]
fn first_empty_slot_is_used_again() {
    let mut process = Process::new();
    for _ in 0..4 {
        sys_mutex_create(&mut process, true);
        sys_semaphore_create(&mut process, 1);
        sys_condvar_create(&mut process);
    }
    process.mutex_list[1] = None;
    process.mutex_list[3] = None;
    process.semaphore_list[2] = None;
    process.condvar_list[0] = None;
    assert_eq!(sys_mutex_create(&mut process, false), 1);
    assert_eq!(sys_mutex_create(&mut process, false), 3);
    assert_eq!(sys_mutex_create(&mut process, false), 4);
    assert_eq!(sys_semaphore_create(&mut process, 9), 2);
    assert_eq!(sys_semaphore_create(&mut process, 9), 4);
    assert_eq!(sys_condvar_create(&mut process), 0);
    assert_eq!(sys_condvar_create(&mut process), 4);
    assert_eq!(process.mutex_list.len(), 5);
    assert!(matches!(process.mutex_list[1], Some(Mutex::Spin(_))));
    assert!(matches!(process.mutex_list[2], Some(Mutex::Blocking(_))));
    assert_eq!(process.semaphore_list[2].as_ref().unwrap().inner.count, 9);
    assert_eq!(process.semaphore_list[3].as_ref().unwrap().inner.count, 1);
}

#[test]
fn claim_slot_fills_gaps_before_it_appends() {
    let mut list: Vec<Option<Mutex>> = Vec::new();
    assert_eq!(claim_slot(&mut list, Mutex::new(true)), 0);
    assert_eq!(claim_slot(&mut list, Mutex::new(true)), 1);
    list[0] = None;
    assert_eq!(claim_slot(&mut list, Mutex::new(false)), 0);
    assert_eq!(claim_slot(&mut list, Mutex::new(false)), 2);
    assert_eq!(list.len(), 3);
    assert!(list.iter().all(|slot| slot.is_some()));
}

#[test]
fn enabling_detection_twice_is_enabling_it_once() {
    let mut process = Process::new();
    assert_eq!(sys_enable_deadlock_detect(&mut process, 1), 0);
    assert!(process.dl_check);
    assert_eq!(sys_enable_deadlock_detect(&mut process, 1), 0);
    assert!(process.dl_check);
}

#[test]
fn zero_does_not_enable_and_does_not_disable() {
    let mut process = Process::new();
    assert_eq!(sys_enable_deadlock_detect(&mut process, 0), 0);
    assert!(!process.dl_check);
    assert_eq!(sys_enable_deadlock_detect(&mut process, 42), 0);
    assert!(process.dl_check);
    assert_eq!(sys_enable_deadlock_detect(&mut process, 0), 0);
    assert!(process.dl_check);
}

#[test]
fn registry_hands_out_slots_as_identifiers() {
    let mut process = Process::new();
    assert_eq!(process.create_mutex(true), 0);
    assert_eq!(process.create_mutex(false), 1);
    assert_eq!(process.create_semaphore(3), 0);
    assert_eq!(process.create_condvar(), 0);
    assert_eq!(process.create_condvar(), 1);
    process.mutex_list[0] = None;
    assert_eq!(process.create_mutex(false), 0);
    assert_eq!(process.create_mutex(false), 2);
    assert!(matches!(process.mutex_list[0], Some(Mutex::Spin(_))));
    assert_eq!(process.semaphore_list[0].as_ref().unwrap().inner.count, 3);
}

#[test]
fn detection_once_enabled_stays_enabled() {
    let mut process = Process::new();
    assert!(!process.dl_check);
    process.enable_deadlock_detection();
    assert!(process.dl_check);
    process.enable_deadlock_detection();
    assert!(process.dl_check);
    process.add_task();
    process.create_mutex(true);
    assert!(process.dl_check);
}
