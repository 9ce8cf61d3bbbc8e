//! Mutual exclusion in two strategies. A spinning mutex is a flag that a
//! task polls until it can claim it. A blocking mutex keeps the tasks that
//! found it taken in a queue and, on `unlock`, hands the lock straight to
//! the one that has waited longest.
//!
//! Neither strategy suspends or resumes a task itself: `lock` tells the
//! caller what to do next, `unlock` names the task to make runnable.

use std::collections::VecDeque;
use vstd::prelude::*;

verus! {

/// What a call of `lock` came to.
#[derive(Clone, Copy, Debug, PartialEq, Eq, Structural)]
pub enum LockOutcome {
    /// The mutex was free and the caller now owns it.
    Acquired,
    /// The caller stands in the queue and has to be suspended. When it is
    /// made runnable again it owns the mutex.
    Blocked,
    /// The mutex is taken and keeps no queue: the caller has to call again.
    Busy,
}

/// A mutex that is polled.
#[derive(Debug)]
pub struct MutexSpin {
    /// Whether a task owns the mutex.
    pub locked: bool,
}

/// A mutex with a queue of waiting tasks.
#[derive(Debug)]
pub struct MutexBlocking {
    /// Whether a task owns the mutex.
    pub locked: bool,
    /// The waiting tasks, the longest waiting first.
    pub wait_queue: VecDeque<usize>,
}

/// A mutex of either strategy.
#[derive(Debug)]
pub enum Mutex {
    /// Polled.
    Spin(MutexSpin),
    /// With a queue.
    Blocking(MutexBlocking),
}

/// A mutex as its strategy, its flag and the sequence of waiting tasks.
#[verifier::ext_equal]
pub struct MutexView {
    /// Whether the mutex keeps a queue.
    pub blocking: bool,
    /// Whether a task owns the mutex.
    pub locked: bool,
    /// The waiting tasks, the longest waiting first; none for a spinning mutex.
    pub waiters: Seq<usize>,
}

/// One call on a mutex, with the task that makes it.
pub enum MutexOp {
    /// `lock`.
    Lock(usize),
    /// `unlock`.
    Unlock(usize),
}

impl MutexView {
    /// A new, free mutex.
    pub open spec fn fresh(blocking: bool) -> MutexView {
        MutexView { blocking, locked: false, waiters: Seq::empty() }
    }

    /// Tasks wait only for a blocking mutex that is taken.
    pub open spec fn wf(self) -> bool {
        self.waiters.len() > 0 ==> self.blocking && self.locked
    }

    /// What `lock` comes to.
    pub open spec fn lock_outcome(self) -> LockOutcome {
        if !self.locked {
            LockOutcome::Acquired
        } else if self.blocking {
            LockOutcome::Blocked
        } else {
            LockOutcome::Busy
        }
    }

    /// The mutex after `lock` by `task`.
    pub open spec fn lock(self, task: usize) -> MutexView {
        match self.lock_outcome() {
            LockOutcome::Acquired => MutexView { locked: true, ..self },
            LockOutcome::Blocked => MutexView { waiters: self.waiters.push(task), ..self },
            LockOutcome::Busy => self,
        }
    }

    /// The task to which `unlock` hands the mutex.
    pub open spec fn woken_by_unlock(self) -> Option<usize> {
        if self.blocking && self.waiters.len() > 0 {
            Some(self.waiters[0])
        } else {
            None
        }
    }

    /// The mutex after `unlock`.
    pub open spec fn unlock(self) -> MutexView {
        if self.woken_by_unlock() is Some {
            MutexView { waiters: self.waiters.drop_first(), ..self }
        } else {
            MutexView { locked: false, ..self }
        }
    }

    /// The mutex after `lock` by each task of `tasks`, in order.
    pub open spec fn locks(self, tasks: Seq<usize>) -> MutexView
        decreases tasks.len(),
    {
        if tasks.len() == 0 {
            self
        } else {
            self.locks(tasks.drop_last()).lock(tasks.last())
        }
    }

    /// The mutex after `n` calls of `unlock`.
    pub open spec fn unlocks(self, n: nat) -> MutexView
        decreases n,
    {
        if n == 0 {
            self
        } else {
            self.unlocks((n - 1) as nat).unlock()
        }
    }
}

/// A mutex together with the tasks that own it: those whose `lock` came
/// back `Acquired` or who were handed the mutex by an `unlock`, and have not
/// called `unlock` since.
#[verifier::ext_equal]
pub struct Ownership {
    /// The mutex.
    pub mutex: MutexView,
    /// The tasks that own it.
    pub owners: Set<usize>,
}

impl Ownership {
    /// A new mutex, owned by nobody.
    pub open spec fn fresh(blocking: bool) -> Ownership {
        Ownership { mutex: MutexView::fresh(blocking), owners: Set::empty() }
    }

    /// The call is one that a task may make: only an owner unlocks.
    pub open spec fn allows(self, op: MutexOp) -> bool {
        match op {
            MutexOp::Lock(_) => true,
            MutexOp::Unlock(task) => self.owners.contains(task),
        }
    }

    /// The mutex and its owners after one call.
    pub open spec fn step(self, op: MutexOp) -> Ownership {
        match op {
            MutexOp::Lock(task) => Ownership {
                mutex: self.mutex.lock(task),
                owners: if self.mutex.lock_outcome() is Acquired {
                    self.owners.insert(task)
                } else {
                    self.owners
                },
            },
            MutexOp::Unlock(task) => Ownership {
                mutex: self.mutex.unlock(),
                owners: match self.mutex.woken_by_unlock() {
                    Some(next) => self.owners.remove(task).insert(next),
                    None => self.owners.remove(task),
                },
            },
        }
    }

    /// The mutex and its owners after the calls of `ops`, in order.
    pub open spec fn run(self, ops: Seq<MutexOp>) -> Ownership
        decreases ops.len(),
    {
        if ops.len() == 0 {
            self
        } else {
            self.run(ops.drop_last()).step(ops.last())
        }
    }

    /// Every call of `ops` is allowed when it is made.
    pub open spec fn allows_all(self, ops: Seq<MutexOp>) -> bool {
        forall|k: int| 0 <= k < ops.len() ==> (#[trigger] self.run(ops.take(k))).allows(ops[k])
    }

    /// At most one task owns the mutex, and one does exactly when the flag is set.
    pub open spec fn exclusive(self) -> bool {
        &&& self.mutex.wf()
        &&& self.owners.finite()
        &&& self.owners.len() <= 1
        &&& self.mutex.locked <==> self.owners.len() == 1
    }
}

impl View for MutexSpin {
    type V = MutexView;

    open spec fn view(&self) -> MutexView {
        MutexView { blocking: false, locked: self.locked, waiters: Seq::empty() }
    }
}

impl View for MutexBlocking {
    type V = MutexView;

    open spec fn view(&self) -> MutexView {
        MutexView { blocking: true, locked: self.locked, waiters: self.wait_queue@ }
    }
}

impl View for Mutex {
    type V = MutexView;

    open spec fn view(&self) -> MutexView {
        match self {
            Mutex::Spin(spin) => spin@,
            Mutex::Blocking(blocking) => blocking@,
        }
    }
}

impl MutexSpin {
    /// A free mutex.
    pub fn new() -> (mutex: Self)
        ensures
            mutex@ == MutexView::fresh(false),
    {
        MutexSpin { locked: false }
    }

    /// Claims the mutex if it is free; `Busy` tells the caller to try again.
    pub fn lock(&mut self) -> (outcome: LockOutcome)
        ensures
            outcome == old(self)@.lock_outcome(),
            outcome is Acquired <==> !old(self)@.locked,
            forall|task: usize| final(self)@ == old(self)@.lock(task),
    {
        if self.locked {
            LockOutcome::Busy
        } else {
            self.locked = true;
            LockOutcome::Acquired
        }
    }

    /// Frees the mutex.
    pub fn unlock(&mut self)
        ensures
            final(self)@ == old(self)@.unlock(),
            !final(self)@.locked,
    {
        self.locked = false;
    }
}

impl MutexBlocking {
    /// A free mutex with an empty queue.
    pub fn new() -> (mutex: Self)
        ensures
            mutex@ == MutexView::fresh(true),
    {
        MutexBlocking { locked: false, wait_queue: VecDeque::new() }
    }

    /// Claims the mutex for task `tid` if it is free; otherwise puts the
    /// task at the end of the queue.
    pub fn lock(&mut self, tid: usize) -> (outcome: LockOutcome)
        ensures
            outcome == old(self)@.lock_outcome(),
            outcome is Acquired <==> !old(self)@.locked,
            final(self)@ == old(self)@.lock(tid),
    {
        if self.locked {
            self.wait_queue.push_back(tid);
            LockOutcome::Blocked
        } else {
            self.locked = true;
            LockOutcome::Acquired
        }
    }

    /// Hands the mutex to the task that has waited longest and returns it
    /// for the caller to make runnable; with nobody waiting, frees the mutex.
    pub fn unlock(&mut self) -> (woken: Option<usize>)
        ensures
            final(self)@ == old(self)@.unlock(),
            woken == old(self)@.woken_by_unlock(),
    {
        let head = self.wait_queue.pop_front();
        if head.is_none() {
            self.locked = false;
        }
        head
    }
}

impl Mutex {
    /// A free mutex: blocking if `blocking` is set, spinning otherwise.
    pub fn new(blocking: bool) -> (mutex: Self)
        ensures
            mutex@ == MutexView::fresh(blocking),
    {
        if blocking {
            Mutex::Blocking(MutexBlocking::new())
        } else {
            Mutex::Spin(MutexSpin::new())
        }
    }

    /// Tries to take the mutex for task `tid`.
    pub fn lock(&mut self, tid: usize) -> (outcome: LockOutcome)
        ensures
            outcome == old(self)@.lock_outcome(),
            outcome is Acquired <==> !old(self)@.locked,
            final(self)@ == old(self)@.lock(tid),
    {
        match self {
            Mutex::Spin(spin) => spin.lock(),
            Mutex::Blocking(blocking) => blocking.lock(tid),
        }
    }

    /// Gives the mutex up; returns the task that now owns it, if one was waiting.
    pub fn unlock(&mut self) -> (woken: Option<usize>)
        ensures
            final(self)@ == old(self)@.unlock(),
            woken == old(self)@.woken_by_unlock(),
    {
        match self {
            Mutex::Spin(spin) => {
                spin.unlock();
                None
            },
            Mutex::Blocking(blocking) => blocking.unlock(),
        }
    }
}

/// Mutual exclusion is kept by every allowed call.
pub proof fn step_keeps_exclusive(before: Ownership, op: MutexOp)
    requires
        before.exclusive(),
        before.allows(op),
    ensures
        before.step(op).exclusive(),
{
}

/// Mutual exclusion: however `lock` and `unlock` are called on a new mutex,
/// as long as only an owner unlocks, at most one task owns the mutex at any
/// time, and one does exactly when the flag is set.
pub proof fn at_most_one_owner(blocking: bool, ops: Seq<MutexOp>)
    requires
        Ownership::fresh(blocking).allows_all(ops),
    ensures
        Ownership::fresh(blocking).run(ops).exclusive(),
    decreases ops.len(),
{
    let start = Ownership::fresh(blocking);
    if ops.len() > 0 {
        let rest = ops.drop_last();
        assert forall|k: int| 0 <= k < rest.len() implies (#[trigger] start.run(rest.take(k))).allows(
            rest[k],
        ) by {
            assert(rest.take(k) =~= ops.take(k));
        }
        at_most_one_owner(blocking, rest);
        step_keeps_exclusive(start.run(rest), ops.last());
    }
}

/// A `lock` that comes back `Acquired` found the mutex free.
pub proof fn acquired_means_was_free(mutex: MutexView)
    ensures
        mutex.lock_outcome() is Acquired <==> !mutex.locked,
{
}

/// Tasks that call `lock` one after another on a blocking mutex that is
/// taken all have to wait, and join the queue behind those already waiting,
/// in the order of their calls.
pub proof fn blocked_tasks_queue_in_order(mutex: MutexView, tasks: Seq<usize>)
    requires
        mutex.blocking,
        mutex.locked,
    ensures
        mutex.locks(tasks).blocking,
        mutex.locks(tasks).locked,
        mutex.locks(tasks).waiters == mutex.waiters + tasks,
        forall|k: int|
            0 <= k < tasks.len() ==> (#[trigger] mutex.locks(tasks.take(k))).lock_outcome() is Blocked,
    decreases tasks.len(),
{
    if tasks.len() > 0 {
        let rest = tasks.drop_last();
        blocked_tasks_queue_in_order(mutex, rest);
        assert forall|k: int| 0 <= k < tasks.len() implies (#[trigger] mutex.locks(
            tasks.take(k),
        )).lock_outcome() is Blocked by {
            if k < rest.len() {
                assert(tasks.take(k) =~= rest.take(k));
            }
        }
    }
}

/// Successive calls of `unlock` hand a blocking mutex to the waiting tasks
/// in the order in which they stand in the queue, and the mutex stays taken
/// throughout.
pub proof fn unlocks_wake_in_queue_order(mutex: MutexView, k: nat)
    requires
        mutex.blocking,
        k < mutex.waiters.len(),
    ensures
        mutex.unlocks(k).blocking,
        mutex.unlocks(k).locked == mutex.locked,
        mutex.unlocks(k).waiters == mutex.waiters.skip(k as int),
        mutex.unlocks(k).woken_by_unlock() == Some(mutex.waiters[k as int]),
    decreases k,
{
    if k > 0 {
        unlocks_wake_in_queue_order(mutex, (k - 1) as nat);
    }
}

/// First come, first served: tasks that had to wait in `lock`, in the order
/// of `tasks`, are handed the mutex by successive calls of `unlock` in that
/// same order, after the tasks that were waiting before them.
pub proof fn mutex_wakes_first_come_first_served(mutex: MutexView, tasks: Seq<usize>, k: nat)
    requires
        mutex.blocking,
        mutex.locked,
        k < mutex.waiters.len() + tasks.len(),
    ensures
        mutex.locks(tasks).unlocks(k).woken_by_unlock() == Some((mutex.waiters + tasks)[k as int]),
{
    blocked_tasks_queue_in_order(mutex, tasks);
    unlocks_wake_in_queue_order(mutex.locks(tasks), k);
}

} // verus!
