//! The calls that tasks make on the synchronisation state of their process.
//!
//! No call suspends or resumes a task. Each one changes the state of the
//! process and returns an [`Outcome`]: the value for the calling task, the
//! task to make runnable, and whether the calling task has to wait. The
//! kernel's scheduler does the rest.

use crate::deadlock::deadlock_check;
use crate::mutex::LockOutcome;
use crate::process::{Process, ProcessView};
use crate::semaphore::woken_can_credit;
use crate::slots::first_free;
use crate::snapshot::{mutex_tables, semaphore_tables};
use vstd::prelude::*;

verus! {

/// The value of a call that was refused because it could end in deadlock.
pub const DEADLOCK: isize = -0xDEAD;

/// What the scheduler has to do with the calling task.
#[derive(Clone, Copy, Debug, PartialEq, Eq)]
pub enum Wait {
    /// Nothing: the call is complete.
    No,
    /// Suspend the task until another call names it as the task to wake.
    Suspend,
    /// Let other tasks run, then make the call again with
    /// [`mutex_lock_retry`].
    Retry,
    /// Suspend the task until the clock reaches the given time in milliseconds.
    Until(usize),
}

/// What a call came to.
#[derive(Clone, Copy, Debug, PartialEq, Eq)]
pub struct Outcome {
    /// The value for the calling task.
    pub ret: isize,
    /// The task to make runnable.
    pub wake: Option<usize>,
    /// What to do with the calling task before it gets `ret`.
    pub wait: Wait,
}

impl Outcome {
    /// A complete call with value `0` that wakes `wake`.
    pub open spec fn done(wake: Option<usize>) -> Outcome {
        Outcome { ret: 0, wake, wait: Wait::No }
    }

    /// A call that succeeds once the calling task has been suspended and
    /// woken, and that wakes `wake`.
    pub open spec fn suspended(wake: Option<usize>) -> Outcome {
        Outcome { ret: 0, wake, wait: Wait::Suspend }
    }

    /// A call refused by the deadlock test.
    pub open spec fn refused() -> Outcome {
        Outcome { ret: DEADLOCK, wake: None, wait: Wait::No }
    }

    /// What a call for a mutex came to that was not refused.
    pub open spec fn of_lock(outcome: LockOutcome) -> Outcome {
        match outcome {
            LockOutcome::Acquired => Outcome::done(None),
            LockOutcome::Blocked => Outcome::suspended(None),
            LockOutcome::Busy => Outcome { ret: 0, wake: None, wait: Wait::Retry },
        }
    }
}

/// Puts the calling task to sleep for `ms` milliseconds from `now_ms`.
pub fn sys_sleep(now_ms: usize, ms: usize) -> (out: Outcome)
    requires
        now_ms + ms <= usize::MAX,
    ensures
        out == (Outcome { ret: 0, wake: None, wait: Wait::Until((now_ms + ms) as usize) }),
{
    let expire_ms = now_ms + ms;
    Outcome { ret: 0, wake: None, wait: Wait::Until(expire_ms) }
}

/// Creates a mutex, blocking or spinning, and returns its identifier.
pub fn sys_mutex_create(process: &mut Process, blocking: bool) -> (id: isize)
    requires
        old(process).wf(),
        old(process)@.mutexes.len() <= isize::MAX,
    ensures
        final(process).wf(),
        final(process)@ == old(process)@.create_mutex(blocking),
        id == first_free(old(process)@.mutexes),
        0 <= id <= old(process)@.mutexes.len(),
{
    process.create_mutex(blocking) as isize
}

/// Creates a semaphore with `res_count` free units and returns its identifier.
pub fn sys_semaphore_create(process: &mut Process, res_count: usize) -> (id: isize)
    requires
        old(process).wf(),
        res_count <= isize::MAX,
        old(process)@.semaphores.len() <= isize::MAX,
    ensures
        final(process).wf(),
        final(process)@ == old(process)@.create_semaphore(res_count as nat),
        id == first_free(old(process)@.semaphores),
        0 <= id <= old(process)@.semaphores.len(),
{
    process.create_semaphore(res_count) as isize
}

/// Creates a condition variable and returns its identifier.
pub fn sys_condvar_create(process: &mut Process) -> (id: isize)
    requires
        old(process).wf(),
        old(process)@.condvars.len() <= isize::MAX,
    ensures
        final(process).wf(),
        final(process)@ == old(process)@.create_condvar(),
        id == first_free(old(process)@.condvars),
        0 <= id <= old(process)@.condvars.len(),
{
    process.create_condvar() as isize
}

/// Switches the deadlock test on when `enabled` is above zero; never
/// switches it off.
pub fn sys_enable_deadlock_detect(process: &mut Process, enabled: usize) -> (ret: isize)
    requires
        old(process).wf(),
    ensures
        final(process).wf(),
        final(process)@ == old(process)@.enable_deadlock_detect(enabled),
        ret == 0,
{
    if enabled > 0 {
        process.enable_deadlock_detection();
    }
    0
}

/// Task `tid` calls for mutex `mutex_id`.
///
/// The request goes on the books of the task. With the deadlock test on,
/// the call is refused with [`DEADLOCK`] when the tasks could not all finish
/// any more; the request then stays on the books. Otherwise the task takes
/// the mutex if it is free, joins the queue of a blocking mutex that is
/// taken (`Wait::Suspend`: once woken, the kernel calls
/// [`mutex_lock_resumed`]), or is told to poll a spinning mutex that is
/// taken (`Wait::Retry`).
pub fn sys_mutex_lock(process: &mut Process, tid: usize, mutex_id: usize) -> (out: Outcome)
    requires
        old(process).wf(),
        old(process)@.has_task(tid),
        old(process)@.has_mutex(mutex_id),
    ensures
        final(process).wf(),
        final(process)@ == old(process)@.mutex_lock(tid, mutex_id),
        out == if old(process)@.mutex_lock_refused(tid, mutex_id) {
            Outcome::refused()
        } else {
            Outcome::of_lock(old(process)@.mutex(mutex_id).lock_outcome())
        },
{
    match &mut process.tasks[tid] {
        Some(task) => task.request_mutex(mutex_id),
        None => {},
    }
    assert(process@ =~~= old(process)@.ask_mutex(tid, mutex_id));
    if process.dl_check {
        let tables = mutex_tables(process);
        if !deadlock_check(tables.available, tables.allocation, tables.need) {
            return Outcome { ret: DEADLOCK, wake: None, wait: Wait::No };
        }
    }
    mutex_lock_retry(process, tid, mutex_id)
}

/// Task `tid` tries to take mutex `mutex_id`, without a new request or
/// test: the second half of [`sys_mutex_lock`], and the call to make again
/// for a task that was told to poll a spinning mutex. Where the task gets
/// the mutex, it goes on the books of the task.
pub fn mutex_lock_retry(process: &mut Process, tid: usize, mutex_id: usize) -> (out: Outcome)
    requires
        old(process).wf(),
        old(process)@.has_task(tid),
        old(process)@.has_mutex(mutex_id),
    ensures
        final(process).wf(),
        final(process)@ == old(process)@.mutex_lock_retry(tid, mutex_id),
        out == Outcome::of_lock(old(process)@.mutex(mutex_id).lock_outcome()),
{
    let outcome = match &mut process.mutex_list[mutex_id] {
        Some(mutex) => mutex.lock(tid),
        None => LockOutcome::Busy,
    };
    match outcome {
        LockOutcome::Acquired => {
            match &mut process.tasks[tid] {
                Some(task) => task.acquire_mutex(mutex_id),
                None => {},
            }
            assert(process@ =~~= old(process)@.mutex_lock_retry(tid, mutex_id));
            Outcome { ret: 0, wake: None, wait: Wait::No }
        },
        LockOutcome::Blocked => Outcome { ret: 0, wake: None, wait: Wait::Suspend },
        LockOutcome::Busy => Outcome { ret: 0, wake: None, wait: Wait::Retry },
    }
}

/// Task `tid`, which waited for blocking mutex `mutex_id`, has been woken
/// as its owner: the mutex goes on its books, and the value of its call is
/// returned.
pub fn mutex_lock_resumed(process: &mut Process, tid: usize, mutex_id: usize) -> (ret: isize)
    requires
        old(process).wf(),
        old(process)@.has_task(tid),
        old(process)@.has_mutex(mutex_id),
    ensures
        final(process).wf(),
        final(process)@ == old(process)@.mutex_lock_resumed(tid, mutex_id),
        ret == 0,
{
    match &mut process.tasks[tid] {
        Some(task) => task.acquire_mutex(mutex_id),
        None => {},
    }
    assert(process@ =~~= old(process)@.mutex_lock_resumed(tid, mutex_id));
    0
}

/// Task `tid` gives up mutex `mutex_id`: the mutex leaves its books and
/// goes to the task that has waited longest, which is to be woken.
pub fn sys_mutex_unlock(process: &mut Process, tid: usize, mutex_id: usize) -> (out: Outcome)
    requires
        old(process).wf(),
        old(process)@.has_task(tid),
        old(process)@.has_mutex(mutex_id),
    ensures
        final(process).wf(),
        final(process)@ == old(process)@.mutex_unlock(tid, mutex_id),
        out == Outcome::done(old(process)@.mutex(mutex_id).woken_by_unlock()),
{
    match &mut process.tasks[tid] {
        Some(task) => task.release_mutex(mutex_id),
        None => {},
    }
    let woken = match &mut process.mutex_list[mutex_id] {
        Some(mutex) => mutex.unlock(),
        None => None,
    };
    assert(process@ =~~= old(process)@.mutex_unlock(tid, mutex_id));
    Outcome { ret: 0, wake: woken, wait: Wait::No }
}

/// Task `tid` gives back a unit of semaphore `sem_id`: one unit leaves its
/// books, and where a task is waiting the unit goes to the one that has
/// waited longest. That task has the unit on its books, asks for nothing
/// any more, and is to be woken.
pub fn sys_semaphore_up(process: &mut Process, tid: usize, sem_id: usize) -> (out: Outcome)
    requires
        old(process).wf(),
        old(process)@.has_task(tid),
        old(process)@.has_semaphore(sem_id),
        old(process)@.semaphore(sem_id).count < isize::MAX,
        woken_can_credit(old(process)@.tasks, old(process)@.semaphore(sem_id).woken_by_up()),
    ensures
        final(process).wf(),
        final(process)@ == old(process)@.semaphore_up(tid, sem_id),
        out == Outcome::done(old(process)@.semaphore(sem_id).woken_by_up()),
{
    match &mut process.tasks[tid] {
        Some(task) => task.debit_semaphore(sem_id),
        None => {},
    }
    assert(process@ =~~= old(process)@.with_task(
        tid,
        old(process)@.task(tid).debit_semaphore(sem_id),
    ));
    let woken = match &mut process.semaphore_list[sem_id] {
        Some(semaphore) => semaphore.up(&mut process.tasks),
        None => None,
    };
    Outcome { ret: 0, wake: woken, wait: Wait::No }
}

/// Task `tid` calls for a unit of semaphore `sem_id`.
///
/// The request goes on the books of the task. With the deadlock test on,
/// the call is refused with [`DEADLOCK`] when the tasks could not all finish
/// any more; the request then stays on the books. Otherwise the task takes
/// a unit, which goes on its books, or joins the queue where none is free
/// (`Wait::Suspend`).
pub fn sys_semaphore_down(process: &mut Process, tid: usize, sem_id: usize) -> (out: Outcome)
    requires
        old(process).wf(),
        old(process)@.has_task(tid),
        old(process)@.has_semaphore(sem_id),
        old(process)@.semaphore(sem_id).count > isize::MIN,
        !old(process)@.semaphore(sem_id).down_blocks() ==> old(process)@.task(tid).units(sem_id)
            < usize::MAX,
    ensures
        final(process).wf(),
        final(process)@ == old(process)@.semaphore_down(tid, sem_id),
        out == if old(process)@.semaphore_down_refused(tid, sem_id) {
            Outcome::refused()
        } else if old(process)@.semaphore(sem_id).down_blocks() {
            Outcome::suspended(None)
        } else {
            Outcome::done(None)
        },
{
    match &mut process.tasks[tid] {
        Some(task) => task.request_semaphore(sem_id),
        None => {},
    }
    assert(process@ =~~= old(process)@.ask_semaphore(tid, sem_id));
    if process.dl_check {
        let tables = semaphore_tables(process);
        if !deadlock_check(tables.available, tables.allocation, tables.need) {
            return Outcome { ret: DEADLOCK, wake: None, wait: Wait::No };
        }
    }
    let blocked = match &mut process.semaphore_list[sem_id] {
        Some(semaphore) => semaphore.down(tid, &mut process.tasks),
        None => false,
    };
    Outcome { ret: 0, wake: None, wait: if blocked { Wait::Suspend } else { Wait::No } }
}

/// Wakes the task that has waited longest on condition variable `condvar_id`, if any.
pub fn sys_condvar_signal(process: &mut Process, condvar_id: usize) -> (out: Outcome)
    requires
        old(process).wf(),
        old(process)@.has_condvar(condvar_id),
    ensures
        final(process).wf(),
        final(process)@ == old(process)@.condvar_signal(condvar_id),
        out == Outcome::done(old(process)@.condvar(condvar_id).woken_by_signal()),
{
    let woken = match &mut process.condvar_list[condvar_id] {
        Some(condvar) => condvar.signal(),
        None => None,
    };
    Outcome { ret: 0, wake: woken, wait: Wait::No }
}

/// Task `tid` gives up mutex `mutex_id` and waits on condition variable
/// `condvar_id`. The task to which the mutex went is to be woken, and the
/// calling task is to be suspended. When it is woken it does not own the
/// mutex, and its books are as they were.
pub fn sys_condvar_wait(process: &mut Process, tid: usize, condvar_id: usize, mutex_id: usize) -> (out:
    Outcome)
    requires
        old(process).wf(),
        old(process)@.has_condvar(condvar_id),
        old(process)@.has_mutex(mutex_id),
    ensures
        final(process).wf(),
        final(process)@ == old(process)@.condvar_wait(tid, condvar_id, mutex_id),
        out == Outcome::suspended(old(process)@.mutex(mutex_id).woken_by_unlock()),
{
    let woken = match &mut process.condvar_list[condvar_id] {
        Some(condvar) => match &mut process.mutex_list[mutex_id] {
            Some(mutex) => condvar.wait(tid, mutex),
            None => None,
        },
        None => None,
    };
    Outcome { ret: 0, wake: woken, wait: Wait::Suspend }
}

/// Switching the deadlock test on twice is switching it on once: the
/// second request changes nothing, whatever it asks for, and the test stays on.
pub proof fn enabling_twice_is_enabling_once(process: ProcessView, first: usize, second: usize)
    ensures
        process.enable_deadlock_detect(first).enable_deadlock_detect(first)
            == process.enable_deadlock_detect(first),
        first > 0 ==> process.enable_deadlock_detect(first).dl_check,
        first > 0 ==> process.enable_deadlock_detect(first).enable_deadlock_detect(second)
            == process.enable_deadlock_detect(first),
        process.enable_deadlock_detection().enable_deadlock_detection()
            == process.enable_deadlock_detection(),
{
}

} // verus!
