//! Synchronisation primitives and deadlock avoidance for the tasks of a
//! cooperative kernel.
//!
//! A process owns counting semaphores, mutexes and condition variables in
//! tables whose slots are their identifiers ([`process`], [`slots`]), and the
//! books of each of its tasks: what the task holds and what it is waiting
//! for ([`task`]). Tasks act on this state through the calls in [`syscall`].
//! Before a task would wait for a mutex or a semaphore, and if the process
//! has asked for it, the tables are read off the books ([`snapshot`]) and
//! tested for an order in which every task can still finish ([`deadlock`]);
//! without one the call is refused.
//!
//! Nothing here suspends, resumes or schedules a task. The primitives
//! ([`semaphore`], [`mutex`], [`condvar`]) keep their queues of waiting
//! tasks, first come, first served, and every operation says in its result
//! which task is to be made runnable and whether the caller has to wait.
//! Tasks are named by their number in the process.
//!
//! Beside these stands the table of a task's open files ([`fd`]), which
//! hands out descriptors by the same rule as the tables of primitives.

pub mod condvar;
pub mod deadlock;
pub mod fd;
pub mod mutex;
pub mod process;
pub mod semaphore;
pub mod slots;
pub mod snapshot;
pub mod syscall;
pub mod task;
