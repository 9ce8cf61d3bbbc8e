//! The tables that the deadlock test reads, drawn from the state of a process.

use crate::deadlock::{state_of, ResourceState};
use crate::process::{Process, ProcessView};
use crate::task::{lemma_units_in, units_in, TaskResources};
use vstd::prelude::*;

verus! {

/// Free units, held units and requests, one column per slot of a table of
/// primitives and one row per task.
#[derive(Debug)]
pub struct Tables {
    /// Free units by slot.
    pub available: Vec<usize>,
    /// Held units by task and slot.
    pub allocation: Vec<Vec<usize>>,
    /// Requested units by task and slot.
    pub need: Vec<Vec<usize>>,
}

impl Tables {
    /// The state that the tables describe.
    pub open spec fn state(&self) -> ResourceState {
        state_of(self.available@, self.allocation@, self.need@)
    }

    /// `tasks` rows of `slots` columns each, and `slots` entries of free units.
    pub open spec fn shaped(&self, tasks: nat, slots: nat) -> bool {
        &&& self.available@.len() == slots
        &&& self.allocation@.len() == tasks
        &&& self.need@.len() == tasks
        &&& forall|i: int| 0 <= i < tasks ==> (#[trigger] self.allocation@[i])@.len() == slots
        &&& forall|i: int| 0 <= i < tasks ==> (#[trigger] self.need@[i])@.len() == slots
    }
}

/// A table of `tasks` rows and `slots` columns that holds `0` throughout.
fn zeros(tasks: usize, slots: usize) -> (table: Vec<Vec<usize>>)
    ensures
        table@.len() == tasks,
        forall|i: int| 0 <= i < tasks ==> (#[trigger] table@[i])@.len() == slots,
        forall|i: int, j: int| 0 <= i < tasks && 0 <= j < slots ==> #[trigger] table@[i]@[j] == 0,
{
    let mut table: Vec<Vec<usize>> = Vec::new();
    let mut i: usize = 0;
    while i < tasks
        invariant
            i <= tasks,
            table@.len() == i,
            forall|r: int| 0 <= r < i ==> (#[trigger] table@[r])@.len() == slots,
            forall|r: int, j: int| 0 <= r < i && 0 <= j < slots ==> #[trigger] table@[r]@[j] == 0,
        decreases tasks - i,
    {
        let row: Vec<usize> = vec![0; slots];
        table.push(row);
        i += 1;
    }
    table
}

/// `1` for a slot that is named, `0` for one that is not.
pub open spec fn unit_if(named: bool) -> usize {
    if named {
        1
    } else {
        0
    }
}

/// Enters the mutexes on the books of `task` into its row, and takes the
/// free unit of each of them away.
fn enter_mutexes(task: &TaskResources, row: &mut Vec<usize>, available: &mut Vec<usize>)
    requires
        task.wf(),
        old(row)@.len() == old(available)@.len(),
        forall|k: int|
            0 <= k < task.mutex_allocation@.len() ==> (#[trigger] task.mutex_allocation@[k])
                < old(row)@.len(),
        forall|j: int| 0 <= j < old(row)@.len() ==> #[trigger] old(row)@[j] == 0,
        forall|j: int| 0 <= j < old(available)@.len() ==> #[trigger] old(available)@[j] <= 1,
    ensures
        final(row)@.len() == old(row)@.len(),
        final(available)@.len() == old(available)@.len(),
        forall|j: usize|
            j < old(row)@.len() ==> #[trigger] final(row)@[j as int] == unit_if(
                task@.mutex_held.contains(j),
            ),
        forall|j: usize|
            j < old(row)@.len() ==> #[trigger] final(available)@[j as int] == (
            if task@.mutex_held.contains(j) {
                0
            } else {
                old(available)@[j as int]
            }),
{
    let ghost held = task.mutex_allocation@;
    let mut k: usize = 0;
    while k < task.mutex_allocation.len()
        invariant
            held == task.mutex_allocation@,
            held.no_duplicates(),
            k <= held.len(),
            row@.len() == old(row)@.len() == available@.len() == old(available)@.len(),
            forall|q: int| 0 <= q < held.len() ==> (#[trigger] held[q]) < row@.len(),
            forall|j: int| 0 <= j < old(available)@.len() ==> #[trigger] old(available)@[j] <= 1,
            forall|j: usize|
                j < row@.len() ==> #[trigger] row@[j as int] == unit_if(
                    held.take(k as int).contains(j),
                ),
            forall|j: usize|
                j < row@.len() ==> #[trigger] available@[j as int] == (if held.take(
                    k as int,
                ).contains(j) {
                    0
                } else {
                    old(available)@[j as int]
                }),
        decreases held.len() - k,
    {
        let mid = task.mutex_allocation[k];
        proof {
            lemma_take_one_more(held, k as int);
        }
        row[mid] = row[mid] + 1;
        if available[mid] > 0 {
            available[mid] = available[mid] - 1;
        }
        k += 1;
    }
    assert(held.take(k as int) =~= held);
}

/// The first `k + 1` entries of a list without repetitions are the first
/// `k` and, new among them, the entry at `k`.
proof fn lemma_take_one_more(list: Seq<usize>, k: int)
    requires
        list.no_duplicates(),
        0 <= k < list.len(),
    ensures
        !list.take(k).contains(list[k]),
        forall|x: usize|
            #[trigger] list.take(k + 1).contains(x) <==> list.take(k).contains(x) || x == list[k],
{
    let before = list.take(k);
    let after = list.take(k + 1);
    assert forall|x: usize| #[trigger] after.contains(x) <==> before.contains(x) || x == list[k] by {
        if x == list[k] {
            assert(after[k] == x);
        }
    }
}

/// Enters the semaphore units on the books of `task` into its row.
fn enter_semaphores(task: &TaskResources, row: &mut Vec<usize>)
    requires
        task.wf(),
        forall|k: int|
            0 <= k < task.sem_allocation@.len() ==> (#[trigger] task.sem_allocation@[k]).0 < old(
                row,
            )@.len(),
        forall|j: int| 0 <= j < old(row)@.len() ==> #[trigger] old(row)@[j] == 0,
    ensures
        final(row)@.len() == old(row)@.len(),
        forall|j: usize| j < old(row)@.len() ==> #[trigger] final(row)@[j as int] == task@.units(j),
{
    let ghost held = task.sem_allocation@;
    let mut k: usize = 0;
    while k < task.sem_allocation.len()
        invariant
            held == task.sem_allocation@,
            task.wf(),
            k <= held.len(),
            row@.len() == old(row)@.len(),
            forall|q: int| 0 <= q < held.len() ==> (#[trigger] held[q]).0 < row@.len(),
            forall|j: usize|
                j < row@.len() ==> #[trigger] row@[j as int] == units_in(held.take(k as int), j),
        decreases held.len() - k,
    {
        let (id, units) = task.sem_allocation[k];
        proof {
            assert(held.take(k + 1).drop_last() =~= held.take(k as int));
            lemma_units_in(held.take(k as int), id);
        }
        row[id] = row[id] + units;
        k += 1;
    }
    assert(held.take(k as int) =~= held);
}

/// The mutexes of `process` as tables for the deadlock test.
pub fn mutex_tables(process: &Process) -> (tables: Tables)
    requires
        process.wf(),
    ensures
        tables.shaped(process@.tasks.len(), process@.mutexes.len()),
        tables.state() == process@.mutex_state(),
        tables.state().wf(),
{
    let n = process.tasks.len();
    let m = process.mutex_list.len();
    let ghost view = process@;
    let mut available: Vec<usize> = vec![1; m];
    let mut allocation = zeros(n, m);
    let mut need = zeros(n, m);
    let mut i: usize = 0;
    while i < n
        invariant
            process.wf(),
            view == process@,
            n == process.tasks@.len(),
            m == process.mutex_list@.len(),
            i <= n,
            available@.len() == m,
            allocation@.len() == n,
            need@.len() == n,
            forall|r: int| 0 <= r < n ==> (#[trigger] allocation@[r])@.len() == m,
            forall|r: int| 0 <= r < n ==> (#[trigger] need@[r])@.len() == m,
            forall|c: usize|
                c < m ==> #[trigger] available@[c as int] == unit_if(
                    !view.mutex_held_below(i as int, c as int),
                ),
            forall|r: int, c: usize|
                0 <= r < n && c < m ==> #[trigger] allocation@[r]@[c as int] == unit_if(
                    r < i && view.holds_mutex(r, c as int),
                ),
            forall|r: int, c: usize|
                0 <= r < n && c < m ==> #[trigger] need@[r]@[c as int] == unit_if(
                    r < i && view.needs_mutex(r, c as int),
                ),
        decreases n - i,
    {
        proof {
            lemma_held_below_one_more(view, i as int);
        }
        match &process.tasks[i] {
            Some(task) => {
                assert(view.tasks[i as int] == Some(task@));
                assert forall|k: int| 0 <= k < task.mutex_allocation@.len() implies (
                #[trigger] task.mutex_allocation@[k]) < m by {
                    assert(task@.mutex_held.contains(task.mutex_allocation@[k]));
                }
                enter_mutexes(task, &mut allocation[i], &mut available);
                match task.mutex_need {
                    Some(nid) => {
                        need[i][nid] = need[i][nid] + 1;
                    },
                    None => {},
                }
            },
            None => {},
        }
        i += 1;
    }
    let tables = Tables { available, allocation, need };
    proof {
        assert forall|j: int| 0 <= j < m implies tables.state().available[j]
            == view.mutex_state().available[j] by {
            assert(tables.available@[(j as usize) as int] == unit_if(
                !view.mutex_held_below(n as int, j),
            ));
        }
        assert(tables.state().available =~= view.mutex_state().available);
        assert(tables.state().allocation =~~= view.mutex_state().allocation);
        assert(tables.state().need =~~= view.mutex_state().need);
    }
    tables
}

/// A mutex is held by a task below `upto + 1` when it is held by one below
/// `upto` or by task `upto`.
proof fn lemma_held_below_one_more(process: ProcessView, upto: int)
    ensures
        forall|j: int|
            #[trigger] process.mutex_held_below(upto + 1, j) <==> process.mutex_held_below(upto, j)
                || process.holds_mutex(upto, j),
{
    assert forall|j: int|
        #[trigger] process.mutex_held_below(upto + 1, j) <==> process.mutex_held_below(upto, j)
            || process.holds_mutex(upto, j) by {
        if process.mutex_held_below(upto + 1, j) {
            let r = choose|r: int| 0 <= r < upto + 1 && #[trigger] process.holds_mutex(r, j);
            assert(r < upto || process.holds_mutex(upto, j));
        }
    }
}

/// The semaphores of `process` as tables for the deadlock test.
pub fn semaphore_tables(process: &Process) -> (tables: Tables)
    requires
        process.wf(),
    ensures
        tables.shaped(process@.tasks.len(), process@.semaphores.len()),
        tables.state() == process@.semaphore_state(),
        tables.state().wf(),
{
    let n = process.tasks.len();
    let m = process.semaphore_list.len();
    let ghost view = process@;
    let mut available: Vec<usize> = Vec::new();
    let mut j: usize = 0;
    while j < m
        invariant
            view == process@,
            m == process.semaphore_list@.len(),
            j <= m,
            available@.len() == j,
            forall|c: int|
                0 <= c < j ==> #[trigger] available@[c] as int
                    == view.semaphore_state().available[c],
        decreases m - j,
    {
        match &process.semaphore_list[j] {
            Some(semaphore) => {
                let count = semaphore.inner.count;
                if count > 0 {
                    available.push(count as usize);
                } else {
                    available.push(0);
                }
            },
            None => {
                available.push(0);
            },
        }
        j += 1;
    }
    let mut allocation = zeros(n, m);
    let mut need = zeros(n, m);
    let mut i: usize = 0;
    while i < n
        invariant
            process.wf(),
            view == process@,
            n == process.tasks@.len(),
            m == process.semaphore_list@.len(),
            i <= n,
            allocation@.len() == n,
            need@.len() == n,
            forall|r: int| 0 <= r < n ==> (#[trigger] allocation@[r])@.len() == m,
            forall|r: int| 0 <= r < n ==> (#[trigger] need@[r])@.len() == m,
            forall|r: int, c: usize|
                0 <= r < n && c < m ==> #[trigger] allocation@[r]@[c as int] as int == (if r < i {
                    view.semaphore_units(r, c as int)
                } else {
                    0
                }),
            forall|r: int, c: usize|
                0 <= r < n && c < m ==> #[trigger] need@[r]@[c as int] == unit_if(
                    r < i && view.needs_semaphore(r, c as int),
                ),
        decreases n - i,
    {
        match &process.tasks[i] {
            Some(task) => {
                assert(view.tasks[i as int] == Some(task@));
                assert forall|k: int| 0 <= k < task.sem_allocation@.len() implies (
                #[trigger] task.sem_allocation@[k]).0 < m by {
                    lemma_units_in(task.sem_allocation@, task.sem_allocation@[k].0);
                    assert(task@.sem_held.dom().contains(task.sem_allocation@[k].0));
                }
                enter_semaphores(task, &mut allocation[i]);
                match task.sem_need {
                    Some(nid) => {
                        need[i][nid] = need[i][nid] + 1;
                    },
                    None => {},
                }
            },
            None => {},
        }
        i += 1;
    }
    let tables = Tables { available, allocation, need };
    proof {
        assert(tables.state().available =~= view.semaphore_state().available);
        assert(tables.state().allocation =~~= view.semaphore_state().allocation);
        assert(tables.state().need =~~= view.semaphore_state().need);
    }
    tables
}

} // verus!
