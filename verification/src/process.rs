//! What a process owns for synchronising its tasks: three tables of
//! primitives, the bookkeeping of its tasks, and the switch that puts every
//! acquisition under the deadlock test.

use crate::condvar::{Condvar, CondvarView};
use crate::deadlock::ResourceState;
use crate::mutex::{Mutex, MutexView};
use crate::semaphore::{credit_unblocked, credit_woken, Semaphore, SemaphoreView};
use crate::slots::{claim_slot, first_free, install, lemma_first_free_exists, occupied, views};
use crate::task::{tasks_wf, TaskResources, TaskView};
use vstd::prelude::*;

verus! {

/// The synchronisation state of one process.
#[derive(Debug)]
pub struct Process {
    /// The mutexes, by identifier.
    pub mutex_list: Vec<Option<Mutex>>,
    /// The semaphores, by identifier.
    pub semaphore_list: Vec<Option<Semaphore>>,
    /// The condition variables, by identifier.
    pub condvar_list: Vec<Option<Condvar>>,
    /// The bookkeeping of the tasks, by task number.
    pub tasks: Vec<Option<TaskResources>>,
    /// Whether acquisitions are tested for deadlock.
    pub dl_check: bool,
}

/// The synchronisation state of one process over views.
#[verifier::ext_equal]
pub struct ProcessView {
    /// The mutexes, by identifier.
    pub mutexes: Seq<Option<MutexView>>,
    /// The semaphores, by identifier.
    pub semaphores: Seq<Option<SemaphoreView>>,
    /// The condition variables, by identifier.
    pub condvars: Seq<Option<CondvarView>>,
    /// The bookkeeping of the tasks, by task number.
    pub tasks: Seq<Option<TaskView>>,
    /// Whether acquisitions are tested for deadlock.
    pub dl_check: bool,
}

impl ProcessView {
    /// A process without primitives or tasks, with the deadlock test off.
    pub open spec fn fresh() -> ProcessView {
        ProcessView {
            mutexes: Seq::empty(),
            semaphores: Seq::empty(),
            condvars: Seq::empty(),
            tasks: Seq::empty(),
            dl_check: false,
        }
    }

    /// Every slot that a task names exists in its table.
    pub open spec fn wf(self) -> bool {
        forall|i: int|
            0 <= i < self.tasks.len() ==> ((#[trigger] self.tasks[i]) matches Some(task)
                ==> task.within(self.mutexes.len(), self.semaphores.len()))
    }

    /// Every semaphore has as many tasks waiting as its count lies below
    /// zero, and tasks wait only for blocking mutexes that are taken.
    pub open spec fn queues_consistent(self) -> bool {
        &&& forall|j: int|
            0 <= j < self.semaphores.len() ==> ((#[trigger] self.semaphores[j]) matches Some(
                semaphore,
            ) ==> semaphore.wf())
        &&& forall|j: int|
            0 <= j < self.mutexes.len() ==> ((#[trigger] self.mutexes[j]) matches Some(mutex)
                ==> mutex.wf())
    }

    /// `tid` is a task of the process.
    pub open spec fn has_task(self, tid: usize) -> bool {
        occupied(self.tasks, tid)
    }

    /// `id` is a mutex of the process.
    pub open spec fn has_mutex(self, id: usize) -> bool {
        occupied(self.mutexes, id)
    }

    /// `id` is a semaphore of the process.
    pub open spec fn has_semaphore(self, id: usize) -> bool {
        occupied(self.semaphores, id)
    }

    /// `id` is a condition variable of the process.
    pub open spec fn has_condvar(self, id: usize) -> bool {
        occupied(self.condvars, id)
    }

    /// The bookkeeping of task `tid`.
    pub open spec fn task(self, tid: usize) -> TaskView {
        self.tasks[tid as int]->0
    }

    /// Mutex `id`.
    pub open spec fn mutex(self, id: usize) -> MutexView {
        self.mutexes[id as int]->0
    }

    /// Semaphore `id`.
    pub open spec fn semaphore(self, id: usize) -> SemaphoreView {
        self.semaphores[id as int]->0
    }

    /// Condition variable `id`.
    pub open spec fn condvar(self, id: usize) -> CondvarView {
        self.condvars[id as int]->0
    }

    /// The process with the bookkeeping of task `tid` replaced.
    pub open spec fn with_task(self, tid: usize, task: TaskView) -> ProcessView {
        ProcessView { tasks: self.tasks.update(tid as int, Some(task)), ..self }
    }

    /// The process with mutex `id` replaced.
    pub open spec fn with_mutex(self, id: usize, mutex: MutexView) -> ProcessView {
        ProcessView { mutexes: self.mutexes.update(id as int, Some(mutex)), ..self }
    }

    /// The process with semaphore `id` replaced.
    pub open spec fn with_semaphore(self, id: usize, semaphore: SemaphoreView) -> ProcessView {
        ProcessView { semaphores: self.semaphores.update(id as int, Some(semaphore)), ..self }
    }

    /// The process with condition variable `id` replaced.
    pub open spec fn with_condvar(self, id: usize, condvar: CondvarView) -> ProcessView {
        ProcessView { condvars: self.condvars.update(id as int, Some(condvar)), ..self }
    }

    /// The process with one more task, which holds and asks for nothing.
    pub open spec fn add_task(self) -> ProcessView {
        ProcessView { tasks: self.tasks.push(Some(TaskView::fresh())), ..self }
    }

    /// The process with a new mutex in the first empty slot.
    pub open spec fn create_mutex(self, blocking: bool) -> ProcessView {
        ProcessView { mutexes: install(self.mutexes, MutexView::fresh(blocking)), ..self }
    }

    /// The process with a new semaphore in the first empty slot.
    pub open spec fn create_semaphore(self, units: nat) -> ProcessView {
        ProcessView { semaphores: install(self.semaphores, SemaphoreView::fresh(units)), ..self }
    }

    /// The process with a new condition variable in the first empty slot.
    pub open spec fn create_condvar(self) -> ProcessView {
        ProcessView { condvars: install(self.condvars, CondvarView::fresh()), ..self }
    }

    /// The process with the deadlock test switched on.
    pub open spec fn enable_deadlock_detection(self) -> ProcessView {
        ProcessView { dl_check: true, ..self }
    }

    /// The process after a request to switch the deadlock test on: any
    /// value above zero switches it on, and nothing switches it off.
    pub open spec fn enable_deadlock_detect(self, enabled: usize) -> ProcessView {
        if enabled > 0 {
            self.enable_deadlock_detection()
        } else {
            self
        }
    }

    /// Task `i` holds mutex `j`.
    pub open spec fn holds_mutex(self, i: int, j: int) -> bool {
        &&& 0 <= i < self.tasks.len()
        &&& 0 <= j <= usize::MAX
        &&& self.tasks[i] matches Some(task) && task.mutex_held.contains(j as usize)
    }

    /// Some task below `upto` holds mutex `j`.
    pub open spec fn mutex_held_below(self, upto: int, j: int) -> bool {
        exists|i: int| 0 <= i < upto && #[trigger] self.holds_mutex(i, j)
    }

    /// Task `i` is asking for mutex `j`.
    pub open spec fn needs_mutex(self, i: int, j: int) -> bool {
        &&& 0 <= i < self.tasks.len()
        &&& 0 <= j <= usize::MAX
        &&& self.tasks[i] matches Some(task) && task.mutex_need == Some(j as usize)
    }

    /// Units of semaphore `j` that task `i` holds.
    pub open spec fn semaphore_units(self, i: int, j: int) -> int {
        if 0 <= i < self.tasks.len() && 0 <= j <= usize::MAX && self.tasks[i] is Some {
            self.tasks[i]->0.units(j as usize) as int
        } else {
            0
        }
    }

    /// Task `i` is asking for semaphore `j`.
    pub open spec fn needs_semaphore(self, i: int, j: int) -> bool {
        &&& 0 <= i < self.tasks.len()
        &&& 0 <= j <= usize::MAX
        &&& self.tasks[i] matches Some(task) && task.sem_need == Some(j as usize)
    }

    /// The mutexes as resources for the deadlock test. Of each slot there
    /// is one unit, which is free unless some task holds the mutex; a task
    /// holds one unit of each mutex on its books and needs one unit of the
    /// mutex it is asking for. A slot without a task holds and needs nothing.
    pub open spec fn mutex_state(self) -> ResourceState {
        ResourceState {
            available: Seq::new(
                self.mutexes.len(),
                |j: int|
                    if self.mutex_held_below(self.tasks.len() as int, j) {
                        0int
                    } else {
                        1int
                    },
            ),
            allocation: Seq::new(
                self.tasks.len(),
                |i: int|
                    Seq::new(
                        self.mutexes.len(),
                        |j: int|
                            if self.holds_mutex(i, j) {
                                1int
                            } else {
                                0int
                            },
                    ),
            ),
            need: Seq::new(
                self.tasks.len(),
                |i: int|
                    Seq::new(
                        self.mutexes.len(),
                        |j: int|
                            if self.needs_mutex(i, j) {
                                1int
                            } else {
                                0int
                            },
                    ),
            ),
        }
    }

    /// The semaphores as resources for the deadlock test. The free units of
    /// a semaphore are its count, or none where the count is negative or the
    /// slot is empty; a task holds the units on its books and needs one unit
    /// of the semaphore it is asking for.
    pub open spec fn semaphore_state(self) -> ResourceState {
        ResourceState {
            available: Seq::new(
                self.semaphores.len(),
                |j: int|
                    match self.semaphores[j] {
                        Some(semaphore) => if semaphore.count > 0 {
                            semaphore.count
                        } else {
                            0int
                        },
                        None => 0int,
                    },
            ),
            allocation: Seq::new(
                self.tasks.len(),
                |i: int| Seq::new(self.semaphores.len(), |j: int| self.semaphore_units(i, j)),
            ),
            need: Seq::new(
                self.tasks.len(),
                |i: int|
                    Seq::new(
                        self.semaphores.len(),
                        |j: int|
                            if self.needs_semaphore(i, j) {
                                1int
                            } else {
                                0int
                            },
                    ),
            ),
        }
    }

    /// The deadlock test is on and finds no order in which the tasks of
    /// `state` can all finish.
    pub open spec fn refuses(self, state: ResourceState) -> bool {
        self.dl_check && !state.is_safe()
    }

    /// The process after task `tid` has tried to take mutex `id`, without
    /// any test: a free mutex goes on the books of the task.
    pub open spec fn mutex_lock_retry(self, tid: usize, id: usize) -> ProcessView {
        let taken = self.with_mutex(id, self.mutex(id).lock(tid));
        if self.mutex(id).lock_outcome() is Acquired {
            taken.with_task(tid, self.task(tid).acquire_mutex(id))
        } else {
            taken
        }
    }

    /// The process with the request of task `tid` for mutex `id` on the books.
    pub open spec fn ask_mutex(self, tid: usize, id: usize) -> ProcessView {
        self.with_task(tid, self.task(tid).request_mutex(id))
    }

    /// Whether the call of task `tid` for mutex `id` is refused: the
    /// deadlock test sees the request of the task on its books.
    pub open spec fn mutex_lock_refused(self, tid: usize, id: usize) -> bool {
        self.ask_mutex(tid, id).refuses(self.ask_mutex(tid, id).mutex_state())
    }

    /// The process after task `tid` has called for mutex `id`. The request
    /// goes on the books first and stays there when the call is refused.
    pub open spec fn mutex_lock(self, tid: usize, id: usize) -> ProcessView {
        if self.mutex_lock_refused(tid, id) {
            self.ask_mutex(tid, id)
        } else {
            self.ask_mutex(tid, id).mutex_lock_retry(tid, id)
        }
    }

    /// The process after a task that waited for mutex `id` has been made
    /// runnable as its owner: the mutex goes on its books.
    pub open spec fn mutex_lock_resumed(self, tid: usize, id: usize) -> ProcessView {
        self.with_task(tid, self.task(tid).acquire_mutex(id))
    }

    /// The process after task `tid` has given up mutex `id`.
    pub open spec fn mutex_unlock(self, tid: usize, id: usize) -> ProcessView {
        self.with_task(tid, self.task(tid).release_mutex(id)).with_mutex(id, self.mutex(id).unlock())
    }

    /// The process with the request of task `tid` for semaphore `id` on the books.
    pub open spec fn ask_semaphore(self, tid: usize, id: usize) -> ProcessView {
        self.with_task(tid, self.task(tid).request_semaphore(id))
    }

    /// Whether the call of task `tid` for a unit of semaphore `id` is refused.
    pub open spec fn semaphore_down_refused(self, tid: usize, id: usize) -> bool {
        self.ask_semaphore(tid, id).refuses(self.ask_semaphore(tid, id).semaphore_state())
    }

    /// The process after task `tid` has called for a unit of semaphore `id`.
    pub open spec fn semaphore_down(self, tid: usize, id: usize) -> ProcessView {
        let asked = self.ask_semaphore(tid, id);
        if self.semaphore_down_refused(tid, id) {
            asked
        } else {
            ProcessView {
                tasks: credit_unblocked(asked.tasks, tid, self.semaphore(id).down_blocks()),
                ..asked.with_semaphore(id, self.semaphore(id).down(tid))
            }
        }
    }

    /// The process after task `tid` has given back a unit of semaphore `id`.
    pub open spec fn semaphore_up(self, tid: usize, id: usize) -> ProcessView {
        let released = self.with_task(tid, self.task(tid).debit_semaphore(id));
        ProcessView {
            tasks: credit_woken(released.tasks, self.semaphore(id).woken_by_up()),
            ..released.with_semaphore(id, self.semaphore(id).up())
        }
    }

    /// The process after a signal on condition variable `id`.
    pub open spec fn condvar_signal(self, id: usize) -> ProcessView {
        self.with_condvar(id, self.condvar(id).signal())
    }

    /// The process after task `tid` has begun to wait on condition variable
    /// `condvar_id`, giving up mutex `mutex_id`. The books of the task stay
    /// as they are.
    pub open spec fn condvar_wait(self, tid: usize, condvar_id: usize, mutex_id: usize) -> ProcessView {
        self.with_mutex(mutex_id, self.mutex(mutex_id).unlock()).with_condvar(
            condvar_id,
            self.condvar(condvar_id).wait(tid),
        )
    }
}

impl View for Process {
    type V = ProcessView;

    open spec fn view(&self) -> ProcessView {
        ProcessView {
            mutexes: views(self.mutex_list@),
            semaphores: views(self.semaphore_list@),
            condvars: views(self.condvar_list@),
            tasks: views(self.tasks@),
            dl_check: self.dl_check,
        }
    }
}

impl Process {
    /// The books of every task are well formed and name only slots that exist.
    pub open spec fn wf(&self) -> bool {
        &&& tasks_wf(self.tasks@)
        &&& self@.wf()
    }

    /// A process without primitives or tasks, with the deadlock test off.
    pub fn new() -> (process: Self)
        ensures
            process.wf(),
            process@ == ProcessView::fresh(),
    {
        Process {
            mutex_list: Vec::new(),
            semaphore_list: Vec::new(),
            condvar_list: Vec::new(),
            tasks: Vec::new(),
            dl_check: false,
        }
    }

    /// Adds a task that holds and asks for nothing, and returns its number.
    pub fn add_task(&mut self) -> (tid: usize)
        requires
            old(self).wf(),
        ensures
            final(self).wf(),
            tid == old(self)@.tasks.len(),
            final(self)@ == old(self)@.add_task(),
    {
        let tid = self.tasks.len();
        self.tasks.push(Some(TaskResources::new()));
        assert forall|i: int| 0 <= i < self@.tasks.len() implies ((#[trigger] self@.tasks[i]) matches Some(
            task,
        ) ==> task.within(self@.mutexes.len(), self@.semaphores.len())) by {
            if i < old(self)@.tasks.len() {
                assert(self@.tasks[i] == old(self)@.tasks[i]);
            }
        }
        tid
    }

    /// Creates a mutex, blocking or spinning, in the first empty slot and
    /// returns the slot, which is its identifier.
    pub fn create_mutex(&mut self, blocking: bool) -> (id: usize)
        requires
            old(self).wf(),
        ensures
            final(self).wf(),
            final(self)@ == old(self)@.create_mutex(blocking),
            id == first_free(old(self)@.mutexes),
            id <= old(self)@.mutexes.len(),
    {
        proof {
            lemma_first_free_exists(self@.mutexes);
        }
        let id = claim_slot(&mut self.mutex_list, Mutex::new(blocking));
        assert(self@ =~~= old(self)@.create_mutex(blocking));
        id
    }

    /// Creates a semaphore with `res_count` free units in the first empty
    /// slot and returns the slot, which is its identifier.
    pub fn create_semaphore(&mut self, res_count: usize) -> (id: usize)
        requires
            old(self).wf(),
            res_count <= isize::MAX,
        ensures
            final(self).wf(),
            final(self)@ == old(self)@.create_semaphore(res_count as nat),
            id == first_free(old(self)@.semaphores),
            id <= old(self)@.semaphores.len(),
    {
        proof {
            lemma_first_free_exists(self@.semaphores);
        }
        let id = claim_slot(&mut self.semaphore_list, Semaphore::new(res_count));
        assert(self@ =~~= old(self)@.create_semaphore(res_count as nat));
        id
    }

    /// Creates a condition variable in the first empty slot and returns the
    /// slot, which is its identifier.
    pub fn create_condvar(&mut self) -> (id: usize)
        requires
            old(self).wf(),
        ensures
            final(self).wf(),
            final(self)@ == old(self)@.create_condvar(),
            id == first_free(old(self)@.condvars),
            id <= old(self)@.condvars.len(),
    {
        proof {
            lemma_first_free_exists(self@.condvars);
        }
        let id = claim_slot(&mut self.condvar_list, Condvar::new());
        assert(self@ =~~= old(self)@.create_condvar());
        id
    }

    /// Switches the deadlock test on, for good.
    pub fn enable_deadlock_detection(&mut self)
        requires
            old(self).wf(),
        ensures
            final(self).wf(),
            final(self)@ == old(self)@.enable_deadlock_detection(),
    {
        self.dl_check = true;
    }
}

/// No call switches the deadlock test off: whatever is done to a process
/// in which the test is on, it stays on.
pub proof fn detection_stays_on(
    process: ProcessView,
    tid: usize,
    id: usize,
    other: usize,
    blocking: bool,
    units: nat,
    enabled: usize,
)
    requires
        process.dl_check,
    ensures
        process.add_task().dl_check,
        process.create_mutex(blocking).dl_check,
        process.create_semaphore(units).dl_check,
        process.create_condvar().dl_check,
        process.enable_deadlock_detection().dl_check,
        process.enable_deadlock_detect(enabled).dl_check,
        process.mutex_lock(tid, id).dl_check,
        process.mutex_lock_retry(tid, id).dl_check,
        process.mutex_lock_resumed(tid, id).dl_check,
        process.mutex_unlock(tid, id).dl_check,
        process.semaphore_down(tid, id).dl_check,
        process.semaphore_up(tid, id).dl_check,
        process.condvar_signal(id).dl_check,
        process.condvar_wait(tid, id, other).dl_check,
{
}

/// In a new process, and after every call on a process of which it held
/// before, every semaphore has as many tasks waiting as its count lies
/// below zero, and tasks wait only for blocking mutexes that are taken.
pub proof fn calls_keep_queues_consistent(
    process: ProcessView,
    tid: usize,
    id: usize,
    other: usize,
    blocking: bool,
    units: nat,
    enabled: usize,
)
    requires
        process.queues_consistent(),
    ensures
        ProcessView::fresh().queues_consistent(),
        process.add_task().queues_consistent(),
        process.create_mutex(blocking).queues_consistent(),
        process.create_semaphore(units).queues_consistent(),
        process.create_condvar().queues_consistent(),
        process.enable_deadlock_detect(enabled).queues_consistent(),
        process.has_mutex(id) ==> process.mutex_lock(tid, id).queues_consistent(),
        process.has_mutex(id) ==> process.mutex_lock_retry(tid, id).queues_consistent(),
        process.mutex_lock_resumed(tid, id).queues_consistent(),
        process.has_mutex(id) ==> process.mutex_unlock(tid, id).queues_consistent(),
        process.has_semaphore(id) ==> process.semaphore_down(tid, id).queues_consistent(),
        process.has_semaphore(id) ==> process.semaphore_up(tid, id).queues_consistent(),
        process.condvar_signal(id).queues_consistent(),
        process.has_mutex(other) ==> process.condvar_wait(tid, id, other).queues_consistent(),
{
    lemma_first_free_exists(process.mutexes);
    lemma_first_free_exists(process.semaphores);
}

/// The hand-over of a unit: when task `tid` gives back a unit that it holds
/// of semaphore `id` while another task waits for that semaphore, the unit
/// leaves the books of `tid` and stands on the books of the task that has
/// waited longest, which asks for nothing any more and leaves the queue.
pub proof fn unit_is_handed_over(process: ProcessView, tid: usize, id: usize)
    requires
        process.has_task(tid),
        process.has_semaphore(id),
        process.semaphore(id).wf(),
        process.semaphore(id).count < 0,
        process.has_task(process.semaphore(id).waiters[0]),
        process.semaphore(id).waiters[0] != tid,
        process.task(process.semaphore(id).waiters[0]).sem_need == Some(id),
        process.task(tid).units(id) >= 1,
    ensures
        ({
            let next = process.semaphore(id).waiters[0];
            let after = process.semaphore_up(tid, id);
            &&& process.semaphore(id).woken_by_up() == Some(next)
            &&& after.semaphore(id).count == process.semaphore(id).count + 1
            &&& after.semaphore(id).waiters == process.semaphore(id).waiters.drop_first()
            &&& after.task(tid).units(id) == process.task(tid).units(id) - 1
            &&& after.task(next).units(id) == process.task(next).units(id) + 1
            &&& after.task(next).sem_need is None
        }),
{
}

/// A task asks for at most one mutex and at most one semaphore: its row of
/// requests in either state names at most one slot, with one unit.
pub proof fn requests_name_one_slot(process: ProcessView, i: int, j: int, k: int)
    requires
        0 <= i < process.tasks.len(),
        0 <= j,
        0 <= k,
        j != k,
    ensures
        j < process.mutexes.len() ==> 0 <= process.mutex_state().need[i][j] <= 1,
        j < process.mutexes.len() && k < process.mutexes.len() ==> process.mutex_state().need[i][j]
            == 0 || process.mutex_state().need[i][k] == 0,
        j < process.semaphores.len() ==> 0 <= process.semaphore_state().need[i][j] <= 1,
        j < process.semaphores.len() && k < process.semaphores.len()
            ==> process.semaphore_state().need[i][j] == 0 || process.semaphore_state().need[i][k]
            == 0,
{
}

} // verus!
