//! A condition variable: tasks wait on it, giving up a mutex as they do,
//! and `signal` wakes the one that has waited longest.
//!
//! A woken task does not own the mutex again: taking it back is up to the
//! task itself.

use crate::mutex::Mutex;
use std::collections::VecDeque;
use vstd::prelude::*;

verus! {

/// A condition variable.
#[derive(Debug)]
pub struct Condvar {
    /// The waiting tasks, the longest waiting first.
    pub wait_queue: VecDeque<usize>,
}

/// A condition variable as the sequence of its waiting tasks.
#[verifier::ext_equal]
pub struct CondvarView {
    /// The waiting tasks, the longest waiting first.
    pub waiters: Seq<usize>,
}

impl CondvarView {
    /// A new condition variable, with nobody waiting.
    pub open spec fn fresh() -> CondvarView {
        CondvarView { waiters: Seq::empty() }
    }

    /// The condition variable after `task` has begun to wait.
    pub open spec fn wait(self, task: usize) -> CondvarView {
        CondvarView { waiters: self.waiters.push(task) }
    }

    /// The task that `signal` wakes.
    pub open spec fn woken_by_signal(self) -> Option<usize> {
        if self.waiters.len() > 0 {
            Some(self.waiters[0])
        } else {
            None
        }
    }

    /// The condition variable after `signal`.
    pub open spec fn signal(self) -> CondvarView {
        if self.waiters.len() > 0 {
            CondvarView { waiters: self.waiters.drop_first() }
        } else {
            self
        }
    }

    /// The condition variable after each task of `tasks` has begun to wait, in order.
    pub open spec fn waits(self, tasks: Seq<usize>) -> CondvarView
        decreases tasks.len(),
    {
        if tasks.len() == 0 {
            self
        } else {
            self.waits(tasks.drop_last()).wait(tasks.last())
        }
    }

    /// The condition variable after `n` calls of `signal`.
    pub open spec fn signals(self, n: nat) -> CondvarView
        decreases n,
    {
        if n == 0 {
            self
        } else {
            self.signals((n - 1) as nat).signal()
        }
    }
}

impl View for Condvar {
    type V = CondvarView;

    open spec fn view(&self) -> CondvarView {
        CondvarView { waiters: self.wait_queue@ }
    }
}

impl Condvar {
    /// A condition variable with nobody waiting.
    pub fn new() -> (condvar: Self)
        ensures
            condvar@ == CondvarView::fresh(),
    {
        Condvar { wait_queue: VecDeque::new() }
    }

    /// Wakes the task that has waited longest, if any: it leaves the queue
    /// and is returned for the caller to make runnable.
    pub fn signal(&mut self) -> (woken: Option<usize>)
        ensures
            final(self)@ == old(self)@.signal(),
            woken == old(self)@.woken_by_signal(),
    {
        self.wait_queue.pop_front()
    }

    /// Gives up `mutex` and puts task `tid` at the end of the queue; the
    /// caller has to suspend the task. Returns the task to which giving up
    /// the mutex handed it, if one was waiting for it, for the caller to
    /// make runnable.
    pub fn wait(&mut self, tid: usize, mutex: &mut Mutex) -> (woken: Option<usize>)
        ensures
            final(mutex)@ == old(mutex)@.unlock(),
            woken == old(mutex)@.woken_by_unlock(),
            final(self)@ == old(self)@.wait(tid),
    {
        let woken = mutex.unlock();
        self.wait_queue.push_back(tid);
        woken
    }
}

/// Tasks that begin to wait one after another join the queue behind those
/// already waiting, in the order of their calls.
pub proof fn waiting_tasks_queue_in_order(condvar: CondvarView, tasks: Seq<usize>)
    ensures
        condvar.waits(tasks).waiters == condvar.waiters + tasks,
    decreases tasks.len(),
{
    if tasks.len() > 0 {
        waiting_tasks_queue_in_order(condvar, tasks.drop_last());
    }
}

/// Successive calls of `signal` wake the waiting tasks in the order in which
/// they stand in the queue.
pub proof fn signals_wake_in_queue_order(condvar: CondvarView, k: nat)
    requires
        k < condvar.waiters.len(),
    ensures
        condvar.signals(k).waiters == condvar.waiters.skip(k as int),
        condvar.signals(k).woken_by_signal() == Some(condvar.waiters[k as int]),
    decreases k,
{
    if k > 0 {
        signals_wake_in_queue_order(condvar, (k - 1) as nat);
    }
}

/// First come, first served: tasks that began to wait in the order of
/// `tasks` are woken by successive calls of `signal` in that same order,
/// after the tasks that were waiting before them.
pub proof fn condvar_wakes_first_come_first_served(condvar: CondvarView, tasks: Seq<usize>, k: nat)
    requires
        k < condvar.waiters.len() + tasks.len(),
    ensures
        condvar.waits(tasks).signals(k).woken_by_signal() == Some(
            (condvar.waiters + tasks)[k as int],
        ),
{
    waiting_tasks_queue_in_order(condvar, tasks);
    signals_wake_in_queue_order(condvar.waits(tasks), k);
}

} // verus!
