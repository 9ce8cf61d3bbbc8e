use kernel_sync::semaphore::Semaphore;
use kernel_sync::task::TaskResources;

fn two_tasks() -> Vec<Option<TaskResources>> {
    vec![Some(TaskResources::new()), Some(TaskResources::new())]
}

fn queue(sem: &Semaphore) -> Vec<usize> {
    sem.inner.wait_queue.iter().copied().collect()
}

#[test]
fn new_semaphore_has_its_count_and_no_waiters() {
    let sem = Semaphore::new(3);
    assert_eq!(sem.inner.count, 3);
    assert!(sem.inner.wait_queue.is_empty());
    let sem = Semaphore::new(0);
    assert_eq!(sem.inner.count, 0);
    assert!(sem.inner.wait_queue.is_empty());
}

#[test]
fn down_with_a_free_unit_credits_the_caller() {
    let mut tasks = two_tasks();
    tasks[0].as_mut().unwrap().request_semaphore(4);
    let mut sem = Semaphore::new(2);
    let blocked = sem.down(0, &mut tasks);
    assert!(!blocked);
    assert_eq!(sem.inner.count, 1);
    assert!(sem.inner.wait_queue.is_empty());
    let task = tasks[0].as_ref().unwrap();
    assert_eq!(task.sem_allocation, vec![(4, 1)]);
    assert_eq!(task.sem_need, None);
    assert_eq!(task.semaphore_units(4), 1);
}

#[test]
fn second_unit_of_the_same_semaphore_adds_to_the_pair() {
    let mut tasks = two_tasks();
    let mut sem = Semaphore::new(2);
    tasks[0].as_mut().unwrap().request_semaphore(4);
    assert!(!sem.down(0, &mut tasks));
    tasks[0].as_mut().unwrap().request_semaphore(4);
    assert!(!sem.down(0, &mut tasks));
    assert_eq!(sem.inner.count, 0);
    assert_eq!(tasks[0].as_ref().unwrap().sem_allocation, vec![(4, 2)]);
}

#[test]
fn down_without_a_free_unit_queues_the_caller() {
    let mut tasks = two_tasks();
    tasks[1].as_mut().unwrap().request_semaphore(0);
    let mut sem = Semaphore::new(0);
    let blocked = sem.down(1, &mut tasks);
    assert!(blocked);
    assert_eq!(sem.inner.count, -1);
    assert_eq!(queue(&sem), vec![1]);
    let task = tasks[1].as_ref().unwrap();
    assert!(task.sem_allocation.is_empty());
    assert_eq!(task.sem_need, Some(0));
}

#[test]
fn down_without_a_request_changes_no_books() {
    let mut tasks = two_tasks();
    let mut sem = Semaphore::new(1);
    assert!(!sem.down(0, &mut tasks));
    assert_eq!(sem.inner.count, 0);
    let task = tasks[0].as_ref().unwrap();
    assert!(task.sem_allocation.is_empty());
    assert_eq!(task.sem_need, None);
}

#[test]
fn up_without_waiters_only_counts() {
    let mut tasks = two_tasks();
    let mut sem = Semaphore::new(0);
    assert_eq!(sem.up(&mut tasks), None);
    assert_eq!(sem.inner.count, 1);
    assert_eq!(sem.up(&mut tasks), None);
    assert_eq!(sem.inner.count, 2);
}

#[test]
fn up_wakes_the_head_of_the_queue() {
    let mut tasks = two_tasks();
    let mut sem = Semaphore::new(0);
    tasks[0].as_mut().unwrap().request_semaphore(0);
    tasks[1].as_mut().unwrap().request_semaphore(0);
    assert!(sem.down(1, &mut tasks));
    assert!(sem.down(0, &mut tasks));
    assert_eq!(sem.inner.count, -2);
    assert_eq!(queue(&sem), vec![1, 0]);
    assert_eq!(sem.up(&mut tasks), Some(1));
    assert_eq!(sem.inner.count, -1);
    assert_eq!(queue(&sem), vec![0]);
    assert_eq!(sem.up(&mut tasks), Some(0));
    assert_eq!(sem.inner.count, 0);
    assert!(sem.inner.wait_queue.is_empty());
    assert_eq!(sem.up(&mut tasks), None);
    assert_eq!(sem.inner.count, 1);
}

#[test]
fn up_credits_the_woken_task_with_the_semaphore_it_asked_for() {
    let mut tasks = two_tasks();
    {
        let task = tasks[1].as_mut().unwrap();
        task.sem_allocation.push((7, 2));
        task.sem_allocation.push((0, 1));
        task.request_semaphore(0);
    }
    let mut sem = Semaphore::new(0);
    assert!(sem.down(1, &mut tasks));
    // Waiting changes no books.
    assert_eq!(tasks[1].as_ref().unwrap().sem_allocation, vec![(7, 2), (0, 1)]);
    assert_eq!(sem.up(&mut tasks), Some(1));
    let task = tasks[1].as_ref().unwrap();
    assert_eq!(task.sem_allocation, vec![(7, 2), (0, 2)]);
    assert_eq!(task.semaphore_units(0), 2);
    assert_eq!(task.sem_need, None);
    // The other task was not touched.
    assert!(tasks[0].as_ref().unwrap().sem_allocation.is_empty());
}

#[test]
fn up_hands_the_unit_to_a_woken_task_that_held_none() {
    let mut tasks = two_tasks();
    tasks[1].as_mut().unwrap().request_semaphore(0);
    let mut sem = Semaphore::new(0);
    assert!(sem.down(1, &mut tasks));
    assert!(tasks[1].as_ref().unwrap().sem_allocation.is_empty());
    assert_eq!(sem.up(&mut tasks), Some(1));
    let task = tasks[1].as_ref().unwrap();
    assert_eq!(task.sem_allocation, vec![(0, 1)]);
    assert_eq!(task.sem_need, None);
}

#[test]
fn up_without_waiters_changes_no_books() {
    let mut tasks = two_tasks();
    tasks[0].as_mut().unwrap().request_semaphore(0);
    let mut sem = Semaphore::new(0);
    assert_eq!(sem.up(&mut tasks), None);
    let task = tasks[0].as_ref().unwrap();
    assert!(task.sem_allocation.is_empty());
    assert_eq!(task.sem_need, Some(0));
}

#[test]
fn up_wakes_a_task_that_has_left_the_table() {
    let mut tasks = two_tasks();
    tasks[1].as_mut().unwrap().request_semaphore(0);
    let mut sem = Semaphore::new(0);
    assert!(sem.down(1, &mut tasks));
    tasks[1] = None;
    assert_eq!(sem.up(&mut tasks), Some(1));
    assert!(tasks[1].is_none());
}

#[test]
fn waiters_are_woken_in_arrival_order() {
    let mut tasks: Vec<Option<TaskResources>> = Vec::new();
    for _ in 0..5 {
        tasks.push(Some(TaskResources::new()));
    }
    let mut sem = Semaphore::new(0);
    let order = [3usize, 0, 4, 1, 2];
    for tid in order {
        assert!(sem.down(tid, &mut tasks));
    }
    for tid in order {
        assert_eq!(sem.up(&mut tasks), Some(tid));
    }
    assert_eq!(sem.up(&mut tasks), None);
}

#[test]
fn count_follows_ups_and_downs() {
    let mut tasks = two_tasks();
    let mut sem = Semaphore::new(2);
    // down, down, down, up, down, up, up, up
    let script = [false, false, false, true, false, true, true, true];
    let mut ups: isize = 0;
    let mut downs: isize = 0;
    for up in script {
        if up {
            sem.up(&mut tasks);
            ups += 1;
        } else {
            sem.down(0, &mut tasks);
            downs += 1;
        }
        assert_eq!(sem.inner.count, 2 + ups - downs);
        let waiting = if sem.inner.count < 0 { -sem.inner.count } else { 0 };
        assert_eq!(sem.inner.wait_queue.len() as isize, waiting);
    }
    assert_eq!(sem.inner.count, 2);
}
