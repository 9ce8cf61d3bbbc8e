//! A counting semaphore whose waiters are served first come, first served.
//!
//! The semaphore never suspends or resumes a task itself: `down` tells the
//! caller whether it has to suspend, `up` names the task to make runnable.

use crate::slots::{occupied, views};
use crate::task::{tasks_wf, TaskResources, TaskView};
use std::collections::VecDeque;
use vstd::prelude::*;

verus! {

/// The state of a semaphore.
#[derive(Debug)]
pub struct SemaphoreInner {
    /// Free units; below zero, the number of waiting tasks.
    pub count: isize,
    /// The waiting tasks, the longest waiting first.
    pub wait_queue: VecDeque<usize>,
}

/// A counting semaphore.
#[derive(Debug)]
pub struct Semaphore {
    /// The counter and the queue.
    pub inner: SemaphoreInner,
}

/// A semaphore as an integer and a sequence of waiting tasks.
#[verifier::ext_equal]
pub struct SemaphoreView {
    /// Free units; below zero, the number of waiting tasks.
    pub count: int,
    /// The waiting tasks, the longest waiting first.
    pub waiters: Seq<usize>,
}

/// One call on a semaphore.
pub enum SemaphoreOp {
    /// `up`.
    Up,
    /// `down` by the given task.
    Down(usize),
}

impl SemaphoreView {
    /// A new semaphore with `units` free units.
    pub open spec fn fresh(units: nat) -> SemaphoreView {
        SemaphoreView { count: units as int, waiters: Seq::empty() }
    }

    /// As many tasks wait as the count lies below zero.
    pub open spec fn wf(self) -> bool {
        self.waiters.len() == if self.count < 0 {
            -self.count
        } else {
            0
        }
    }

    /// The task that `up` takes from the queue.
    pub open spec fn woken_by_up(self) -> Option<usize> {
        if self.count + 1 <= 0 && self.waiters.len() > 0 {
            Some(self.waiters[0])
        } else {
            None
        }
    }

    /// The semaphore after `up`.
    pub open spec fn up(self) -> SemaphoreView {
        SemaphoreView {
            count: self.count + 1,
            waiters: if self.woken_by_up() is Some {
                self.waiters.drop_first()
            } else {
                self.waiters
            },
        }
    }

    /// Whether a task that calls `down` now has to wait.
    pub open spec fn down_blocks(self) -> bool {
        self.count - 1 < 0
    }

    /// The semaphore after `down` by `task`.
    pub open spec fn down(self, task: usize) -> SemaphoreView {
        SemaphoreView {
            count: self.count - 1,
            waiters: if self.down_blocks() {
                self.waiters.push(task)
            } else {
                self.waiters
            },
        }
    }

    /// The semaphore after one call.
    pub open spec fn step(self, op: SemaphoreOp) -> SemaphoreView {
        match op {
            SemaphoreOp::Up => self.up(),
            SemaphoreOp::Down(task) => self.down(task),
        }
    }

    /// The semaphore after the calls of `ops`, in order.
    pub open spec fn run(self, ops: Seq<SemaphoreOp>) -> SemaphoreView
        decreases ops.len(),
    {
        if ops.len() == 0 {
            self
        } else {
            self.run(ops.drop_last()).step(ops.last())
        }
    }

    /// The semaphore after `down` by each task of `tasks`, in order.
    pub open spec fn downs(self, tasks: Seq<usize>) -> SemaphoreView
        decreases tasks.len(),
    {
        if tasks.len() == 0 {
            self
        } else {
            self.downs(tasks.drop_last()).down(tasks.last())
        }
    }

    /// The semaphore after `n` calls of `up`.
    pub open spec fn ups(self, n: nat) -> SemaphoreView
        decreases n,
    {
        if n == 0 {
            self
        } else {
            self.ups((n - 1) as nat).up()
        }
    }
}

/// Number of `up` calls in `ops`.
pub open spec fn ups_in(ops: Seq<SemaphoreOp>) -> nat
    decreases ops.len(),
{
    if ops.len() == 0 {
        0
    } else {
        ups_in(ops.drop_last()) + if ops.last() is Up {
            1nat
        } else {
            0nat
        }
    }
}

/// Number of `down` calls in `ops`.
pub open spec fn downs_in(ops: Seq<SemaphoreOp>) -> nat
    decreases ops.len(),
{
    if ops.len() == 0 {
        0
    } else {
        downs_in(ops.drop_last()) + if ops.last() is Down {
            1nat
        } else {
            0nat
        }
    }
}

/// The task table after `up` has taken `woken` from the queue: the unit
/// goes to that task, which has it on its books and asks for nothing.
pub open spec fn credit_woken(tasks: Seq<Option<TaskView>>, woken: Option<usize>) -> Seq<
    Option<TaskView>,
> {
    match woken {
        Some(task) => if occupied(tasks, task) {
            tasks.update(task as int, Some(tasks[task as int]->0.credit_semaphore()))
        } else {
            tasks
        },
        None => tasks,
    }
}

/// The task that is about to be woken, if it is in the table, can take one
/// more unit of the semaphore it is asking for.
pub open spec fn woken_can_credit(tasks: Seq<Option<TaskView>>, woken: Option<usize>) -> bool {
    woken matches Some(task) ==> (occupied(tasks, task) ==> tasks[task as int]->0.can_credit())
}

/// The task table after `down` by `task`: unless it has to wait, the task
/// has the unit on its books and asks for nothing.
pub open spec fn credit_unblocked(tasks: Seq<Option<TaskView>>, task: usize, blocked: bool) -> Seq<
    Option<TaskView>,
> {
    if !blocked && occupied(tasks, task) {
        tasks.update(task as int, Some(tasks[task as int]->0.credit_semaphore()))
    } else {
        tasks
    }
}

impl View for Semaphore {
    type V = SemaphoreView;

    open spec fn view(&self) -> SemaphoreView {
        SemaphoreView { count: self.inner.count as int, waiters: self.inner.wait_queue@ }
    }
}

impl Semaphore {
    /// A semaphore with `res_count` free units and nobody waiting.
    pub fn new(res_count: usize) -> (sem: Self)
        requires
            res_count <= isize::MAX,
        ensures
            sem@ == SemaphoreView::fresh(res_count as nat),
    {
        Semaphore { inner: SemaphoreInner { count: res_count as isize, wait_queue: VecDeque::new() } }
    }

    /// Adds a unit. Where a task is waiting, the unit goes to the one that
    /// has waited longest: it leaves the queue, its books gain one unit of
    /// the semaphore it was asking for, it asks for nothing any more, and it
    /// is returned for the caller to make runnable.
    pub fn up(&mut self, tasks: &mut Vec<Option<TaskResources>>) -> (woken: Option<usize>)
        requires
            old(self).inner.count < isize::MAX,
            tasks_wf(old(tasks)@),
            woken_can_credit(views(old(tasks)@), old(self)@.woken_by_up()),
        ensures
            final(self)@ == old(self)@.up(),
            woken == old(self)@.woken_by_up(),
            old(self)@.wf() ==> final(self)@.wf(),
            tasks_wf(final(tasks)@),
            views(final(tasks)@) == credit_woken(views(old(tasks)@), woken),
    {
        self.inner.count = self.inner.count + 1;
        if self.inner.count <= 0 {
            let head = self.inner.wait_queue.pop_front();
            match head {
                Some(task) => {
                    if task < tasks.len() {
                        match &mut tasks[task] {
                            Some(resources) => resources.credit_semaphore(),
                            None => {},
                        }
                    }
                },
                None => {},
            }
            head
        } else {
            None
        }
    }

    /// Takes a unit for task `tid`. Where none is free the task joins the
    /// queue and the result is `true`: the caller has to suspend it.
    /// Otherwise the task has the unit at once: its books gain one unit of
    /// the semaphore it was asking for, and it asks for nothing.
    pub fn down(&mut self, tid: usize, tasks: &mut Vec<Option<TaskResources>>) -> (blocked: bool)
        requires
            old(self).inner.count > isize::MIN,
            tasks_wf(old(tasks)@),
            occupied(views(old(tasks)@), tid),
            !old(self)@.down_blocks() ==> views(old(tasks)@)[tid as int]->0.can_credit(),
        ensures
            final(self)@ == old(self)@.down(tid),
            blocked == old(self)@.down_blocks(),
            old(self)@.wf() ==> final(self)@.wf(),
            tasks_wf(final(tasks)@),
            views(final(tasks)@) == credit_unblocked(views(old(tasks)@), tid, blocked),
    {
        self.inner.count = self.inner.count - 1;
        if self.inner.count < 0 {
            self.inner.wait_queue.push_back(tid);
            true
        } else {
            match &mut tasks[tid] {
                Some(resources) => resources.credit_semaphore(),
                None => {},
            }
            false
        }
    }
}

/// After any calls of `up` and `down`, the count is the count before, plus
/// the number of `up` calls, minus the number of `down` calls, and as many
/// tasks wait as the count lies below zero.
pub proof fn count_is_conserved(sem: SemaphoreView, ops: Seq<SemaphoreOp>)
    requires
        sem.wf(),
    ensures
        sem.run(ops).count == sem.count + ups_in(ops) - downs_in(ops),
        sem.run(ops).wf(),
        sem.run(ops).waiters.len() == if sem.run(ops).count < 0 {
            -sem.run(ops).count
        } else {
            0
        },
    decreases ops.len(),
{
    if ops.len() > 0 {
        count_is_conserved(sem, ops.drop_last());
    }
}

/// While tasks wait, `up` wakes one: with the count below zero the queue
/// is not empty, and its head is the task that `up` takes from it.
pub proof fn up_wakes_a_waiting_task(sem: SemaphoreView)
    requires
        sem.wf(),
        sem.count < 0,
    ensures
        sem.woken_by_up() == Some(sem.waiters[0]),
        sem.up().wf(),
{
}

/// A new semaphore is well formed, so what [`count_is_conserved`] says holds
/// of it with its initial count.
pub proof fn count_is_conserved_from_new(initial: nat, ops: Seq<SemaphoreOp>)
    ensures
        SemaphoreView::fresh(initial).run(ops).count == initial + ups_in(ops) - downs_in(ops),
        SemaphoreView::fresh(initial).run(ops).wf(),
{
    count_is_conserved(SemaphoreView::fresh(initial), ops);
}

/// Tasks that call `down` one after another while no unit is free all have
/// to wait, and join the queue behind those already waiting, in the order of
/// their calls.
pub proof fn blocked_tasks_queue_in_order(sem: SemaphoreView, tasks: Seq<usize>)
    requires
        sem.wf(),
        sem.count <= 0,
    ensures
        sem.downs(tasks).wf(),
        sem.downs(tasks).count == sem.count - tasks.len(),
        sem.downs(tasks).waiters == sem.waiters + tasks,
        forall|k: int| 0 <= k < tasks.len() ==> (#[trigger] sem.downs(tasks.take(k))).down_blocks(),
    decreases tasks.len(),
{
    if tasks.len() > 0 {
        let rest = tasks.drop_last();
        blocked_tasks_queue_in_order(sem, rest);
        assert forall|k: int| 0 <= k < tasks.len() implies (#[trigger] sem.downs(
            tasks.take(k),
        )).down_blocks() by {
            if k < rest.len() {
                assert(tasks.take(k) =~= rest.take(k));
            }
        }
    }
}

/// Successive calls of `up` wake the waiting tasks in the order in which
/// they stand in the queue: the call number `k` (counted from zero) wakes
/// the task at place `k`.
pub proof fn ups_wake_in_queue_order(sem: SemaphoreView, k: nat)
    requires
        sem.wf(),
        k < sem.waiters.len(),
    ensures
        sem.ups(k).wf(),
        sem.ups(k).count == sem.count + k,
        sem.ups(k).waiters == sem.waiters.skip(k as int),
        sem.ups(k).woken_by_up() == Some(sem.waiters[k as int]),
    decreases k,
{
    if k > 0 {
        ups_wake_in_queue_order(sem, (k - 1) as nat);
    }
}

/// First come, first served: tasks that had to wait in `down`, in the order
/// of `tasks`, are woken by successive calls of `up` in that same order,
/// after the tasks that were waiting before them.
pub proof fn semaphore_wakes_first_come_first_served(sem: SemaphoreView, tasks: Seq<usize>, k: nat)
    requires
        sem.wf(),
        sem.count <= 0,
        k < sem.waiters.len() + tasks.len(),
    ensures
        sem.downs(tasks).ups(k).woken_by_up() == Some((sem.waiters + tasks)[k as int]),
{
    blocked_tasks_queue_in_order(sem, tasks);
    ups_wake_in_queue_order(sem.downs(tasks), k);
}

} // verus!
