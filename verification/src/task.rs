//! What one task holds and what it is waiting for.

use vstd::prelude::*;

verus! {

/// The bookkeeping of one task: the mutexes and semaphore units it holds, and
/// the one mutex and the one semaphore it has asked for and not yet got.
#[derive(Debug)]
pub struct TaskResources {
    /// Slots of the mutexes held, none of them twice.
    pub mutex_allocation: Vec<usize>,
    /// Slot of the mutex asked for.
    pub mutex_need: Option<usize>,
    /// Pairs of a semaphore slot and the units held of it: one pair per slot,
    /// never with zero units.
    pub sem_allocation: Vec<(usize, usize)>,
    /// Slot of the semaphore asked for.
    pub sem_need: Option<usize>,
}

/// The bookkeeping of one task as a set, a map and two optional slots.
#[verifier::ext_equal]
pub struct TaskView {
    /// Slots of the mutexes held.
    pub mutex_held: Set<usize>,
    /// Slot of the mutex asked for.
    pub mutex_need: Option<usize>,
    /// Units held, by semaphore slot; a slot is present only with one unit or more.
    pub sem_held: Map<usize, nat>,
    /// Slot of the semaphore asked for.
    pub sem_need: Option<usize>,
}

impl TaskView {
    /// A task that holds nothing and asks for nothing.
    pub open spec fn fresh() -> TaskView {
        TaskView {
            mutex_held: Set::empty(),
            mutex_need: None,
            sem_held: Map::empty(),
            sem_need: None,
        }
    }

    /// Units held of semaphore `id`.
    pub open spec fn units(self, id: usize) -> nat {
        if self.sem_held.dom().contains(id) {
            self.sem_held[id]
        } else {
            0
        }
    }

    /// The task asks for mutex `id`.
    pub open spec fn request_mutex(self, id: usize) -> TaskView {
        TaskView { mutex_need: Some(id), ..self }
    }

    /// The task got mutex `id`: it holds it and asks for none.
    pub open spec fn acquire_mutex(self, id: usize) -> TaskView {
        TaskView { mutex_held: self.mutex_held.insert(id), mutex_need: None, ..self }
    }

    /// The task gives up mutex `id`.
    pub open spec fn release_mutex(self, id: usize) -> TaskView {
        TaskView { mutex_held: self.mutex_held.remove(id), ..self }
    }

    /// The task asks for a unit of semaphore `id`.
    pub open spec fn request_semaphore(self, id: usize) -> TaskView {
        TaskView { sem_need: Some(id), ..self }
    }

    /// The task can take one more unit of the semaphore it is asking for
    /// without its count leaving the range of `usize`.
    pub open spec fn can_credit(self) -> bool {
        self.sem_need matches Some(id) ==> self.units(id) < usize::MAX
    }

    /// The task got a unit of the semaphore it asked for, and asks for none.
    pub open spec fn credit_semaphore(self) -> TaskView {
        match self.sem_need {
            Some(id) => TaskView {
                sem_held: self.sem_held.insert(id, self.units(id) + 1),
                sem_need: None,
                ..self
            },
            None => self,
        }
    }

    /// One unit less of semaphore `id`, where the task holds any; the slot
    /// leaves the map with its last unit.
    pub open spec fn debit_semaphore(self, id: usize) -> TaskView {
        if self.units(id) == 0 {
            self
        } else if self.units(id) == 1 {
            TaskView { sem_held: self.sem_held.remove(id), ..self }
        } else {
            TaskView { sem_held: self.sem_held.insert(id, (self.units(id) - 1) as nat), ..self }
        }
    }

    /// Every slot that the task names lies below the given table lengths.
    pub open spec fn within(self, mutexes: nat, semaphores: nat) -> bool {
        &&& forall|id: usize| self.mutex_held.contains(id) ==> id < mutexes
        &&& self.mutex_need matches Some(id) ==> id < mutexes
        &&& forall|id: usize| self.sem_held.dom().contains(id) ==> id < semaphores
        &&& self.sem_need matches Some(id) ==> id < semaphores
    }
}

/// Units that the pairs of `entries` record for semaphore `id`.
pub open spec fn units_in(entries: Seq<(usize, usize)>, id: usize) -> nat
    decreases entries.len(),
{
    if entries.len() == 0 {
        0
    } else if entries.last().0 == id {
        units_in(entries.drop_last(), id) + entries.last().1 as nat
    } else {
        units_in(entries.drop_last(), id)
    }
}

/// No two pairs of `entries` name the same slot.
pub open spec fn one_pair_per_slot(entries: Seq<(usize, usize)>) -> bool {
    forall|a: int, b: int|
        0 <= a < entries.len() && 0 <= b < entries.len() && a != b ==> entries[a].0 != entries[b].0
}

/// With one pair per slot, the units of a slot are those of its pair, and
/// none where it has no pair.
pub proof fn lemma_units_in(entries: Seq<(usize, usize)>, id: usize)
    requires
        one_pair_per_slot(entries),
    ensures
        forall|p: int|
            0 <= p < entries.len() && (#[trigger] entries[p]).0 == id ==> units_in(entries, id)
                == entries[p].1,
        (forall|p: int| 0 <= p < entries.len() ==> (#[trigger] entries[p]).0 != id) ==> units_in(
            entries,
            id,
        ) == 0,
    decreases entries.len(),
{
    if entries.len() > 0 {
        let rest = entries.drop_last();
        lemma_units_in(rest, id);
        assert forall|p: int|
            0 <= p < entries.len() && (#[trigger] entries[p]).0 == id implies units_in(entries, id)
            == entries[p].1 by {
            if p < rest.len() {
                assert(rest[p] == entries[p]);
            }
        }
    }
}

/// Changing the units of the pair at `p` changes the units of its slot and
/// of no other.
proof fn lemma_units_after_update(before: Seq<(usize, usize)>, p: int, units: usize)
    requires
        one_pair_per_slot(before),
        0 <= p < before.len(),
    ensures
        one_pair_per_slot(before.update(p, (before[p].0, units))),
        forall|x: usize| #[trigger]
            units_in(before.update(p, (before[p].0, units)), x) == (if x == before[p].0 {
                units as nat
            } else {
                units_in(before, x)
            }),
{
    let after = before.update(p, (before[p].0, units));
    assert forall|q: int| 0 <= q < after.len() implies (#[trigger] after[q]).0 == before[q].0 by {}
    assert forall|x: usize| #[trigger]
        units_in(after, x) == (if x == before[p].0 {
            units as nat
        } else {
            units_in(before, x)
        }) by {
        lemma_units_in(before, x);
        lemma_units_in(after, x);
        if exists|q: int| 0 <= q < before.len() && (#[trigger] before[q]).0 == x {
            let q = choose|q: int| 0 <= q < before.len() && (#[trigger] before[q]).0 == x;
            assert(after[q].0 == x);
        }
    }
}

/// A new pair for a slot that had none gives that slot its units and
/// changes no other.
proof fn lemma_units_after_push(before: Seq<(usize, usize)>, id: usize, units: usize)
    requires
        one_pair_per_slot(before),
        forall|q: int| 0 <= q < before.len() ==> (#[trigger] before[q]).0 != id,
    ensures
        one_pair_per_slot(before.push((id, units))),
        forall|x: usize| #[trigger]
            units_in(before.push((id, units)), x) == (if x == id {
                units as nat
            } else {
                units_in(before, x)
            }),
{
    assert(before.push((id, units)).drop_last() =~= before);
    lemma_units_in(before, id);
}

/// Moving the last pair into place `p` and dropping the end removes the
/// slot of the pair that stood at `p` and changes no other.
proof fn lemma_units_after_swap_remove(before: Seq<(usize, usize)>, p: int)
    requires
        one_pair_per_slot(before),
        0 <= p < before.len(),
    ensures
        one_pair_per_slot(before.update(p, before.last()).drop_last()),
        forall|x: usize| #[trigger]
            units_in(before.update(p, before.last()).drop_last(), x) == (if x == before[p].0 {
                0
            } else {
                units_in(before, x)
            }),
{
    let after = before.update(p, before.last()).drop_last();
    let last = before.len() - 1;
    assert forall|q: int| 0 <= q < after.len() implies #[trigger] after[q] == before[if q == p {
        last
    } else {
        q
    }] by {}
    assert forall|x: usize| #[trigger]
        units_in(after, x) == (if x == before[p].0 {
            0
        } else {
            units_in(before, x)
        }) by {
        lemma_units_in(before, x);
        lemma_units_in(after, x);
        if x != before[p].0 && exists|q: int|
            0 <= q < before.len() && (#[trigger] before[q]).0 == x {
            let q = choose|q: int| 0 <= q < before.len() && (#[trigger] before[q]).0 == x;
            assert(after[if q == last { p } else { q }].0 == x);
        }
    }
}

/// Moving the last entry into place `p` and dropping the end takes the
/// entry that stood at `p` out of a list without repetitions, and nothing else.
proof fn lemma_swap_remove_set(before: Seq<usize>, p: int)
    requires
        before.no_duplicates(),
        0 <= p < before.len(),
    ensures
        before.update(p, before.last()).drop_last().no_duplicates(),
        before.update(p, before.last()).drop_last().to_set() == before.to_set().remove(before[p]),
{
    let after = before.update(p, before.last()).drop_last();
    let last = before.len() - 1;
    assert forall|q: int| 0 <= q < after.len() implies #[trigger] after[q] == before[if q == p {
        last
    } else {
        q
    }] by {}
    assert forall|x: usize| before.to_set().remove(before[p]).contains(x) implies after.to_set().contains(
        x,
    ) by {
        let q = choose|q: int| 0 <= q < before.len() && before[q] == x;
        assert(after[if q == last { p } else { q }] == x);
    }
}

impl View for TaskResources {
    type V = TaskView;

    open spec fn view(&self) -> TaskView {
        TaskView {
            mutex_held: self.mutex_allocation@.to_set(),
            mutex_need: self.mutex_need,
            sem_held: Map::new(
                |id: usize| units_in(self.sem_allocation@, id) > 0,
                |id: usize| units_in(self.sem_allocation@, id),
            ),
            sem_need: self.sem_need,
        }
    }
}

impl TaskResources {
    /// No mutex is listed twice, no semaphore has two pairs, and no pair is empty.
    pub open spec fn wf(&self) -> bool {
        &&& self.mutex_allocation@.no_duplicates()
        &&& one_pair_per_slot(self.sem_allocation@)
        &&& forall|p: int| 0 <= p < self.sem_allocation@.len() ==> (#[trigger] self.sem_allocation@[p]).1 >= 1
    }

    /// A task that holds nothing and asks for nothing.
    pub fn new() -> (task: Self)
        ensures
            task.wf(),
            task@ == TaskView::fresh(),
    {
        TaskResources {
            mutex_allocation: Vec::new(),
            mutex_need: None,
            sem_allocation: Vec::new(),
            sem_need: None,
        }
    }

    /// Where mutex `id` stands in the list of held mutexes.
    fn mutex_position(&self, id: usize) -> (at: Option<usize>)
        ensures
            match at {
                Some(p) => p < self.mutex_allocation.len() && self.mutex_allocation[p as int] == id,
                None => !self.mutex_allocation@.contains(id),
            },
    {
        let mut p: usize = 0;
        while p < self.mutex_allocation.len()
            invariant
                p <= self.mutex_allocation.len(),
                forall|q: int| 0 <= q < p ==> self.mutex_allocation[q] != id,
            decreases self.mutex_allocation.len() - p,
        {
            if self.mutex_allocation[p] == id {
                return Some(p);
            }
            p += 1;
        }
        None
    }

    /// Where the pair of semaphore `id` stands.
    fn semaphore_position(&self, id: usize) -> (at: Option<usize>)
        ensures
            match at {
                Some(p) => p < self.sem_allocation.len() && self.sem_allocation[p as int].0 == id,
                None => forall|q: int|
                    0 <= q < self.sem_allocation.len() ==> (#[trigger] self.sem_allocation[q]).0 != id,
            },
    {
        let mut p: usize = 0;
        while p < self.sem_allocation.len()
            invariant
                p <= self.sem_allocation.len(),
                forall|q: int| 0 <= q < p ==> (#[trigger] self.sem_allocation[q]).0 != id,
            decreases self.sem_allocation.len() - p,
        {
            if self.sem_allocation[p].0 == id {
                return Some(p);
            }
            p += 1;
        }
        None
    }

    /// Tells whether the task holds mutex `id`.
    pub fn holds_mutex(&self, id: usize) -> (held: bool)
        ensures
            held == self@.mutex_held.contains(id),
    {
        self.mutex_position(id).is_some()
    }

    /// The units that the task holds of semaphore `id`.
    pub fn semaphore_units(&self, id: usize) -> (units: usize)
        requires
            self.wf(),
        ensures
            units == self@.units(id),
    {
        proof {
            lemma_units_in(self.sem_allocation@, id);
        }
        match self.semaphore_position(id) {
            Some(p) => self.sem_allocation[p].1,
            None => 0,
        }
    }

    /// Records that the task asks for mutex `id`.
    pub fn request_mutex(&mut self, id: usize)
        requires
            old(self).wf(),
        ensures
            final(self).wf(),
            final(self)@ == old(self)@.request_mutex(id),
    {
        self.mutex_need = Some(id);
    }

    /// Records that the task got mutex `id`.
    pub fn acquire_mutex(&mut self, id: usize)
        requires
            old(self).wf(),
        ensures
            final(self).wf(),
            final(self)@ == old(self)@.acquire_mutex(id),
    {
        if self.mutex_position(id).is_none() {
            self.mutex_allocation.push(id);
            proof {
                old(self).mutex_allocation@.lemma_push_to_set_commute(id);
            }
        }
        self.mutex_need = None;
    }

    /// Records that the task gave up mutex `id`.
    pub fn release_mutex(&mut self, id: usize)
        requires
            old(self).wf(),
        ensures
            final(self).wf(),
            final(self)@ == old(self)@.release_mutex(id),
    {
        match self.mutex_position(id) {
            Some(p) => {
                self.mutex_allocation.swap_remove(p);
                proof {
                    lemma_swap_remove_set(old(self).mutex_allocation@, p as int);
                }
            },
            None => {},
        }
    }

    /// Records that the task asks for a unit of semaphore `id`.
    pub fn request_semaphore(&mut self, id: usize)
        requires
            old(self).wf(),
        ensures
            final(self).wf(),
            final(self)@ == old(self)@.request_semaphore(id),
    {
        self.sem_need = Some(id);
    }

    /// Records that the task got a unit of the semaphore it asked for.
    pub fn credit_semaphore(&mut self)
        requires
            old(self).wf(),
            old(self)@.can_credit(),
        ensures
            final(self).wf(),
            final(self)@ == old(self)@.credit_semaphore(),
    {
        match self.sem_need {
            Some(id) => {
                proof {
                    lemma_units_in(self.sem_allocation@, id);
                }
                match self.semaphore_position(id) {
                    Some(p) => {
                        let units = self.sem_allocation[p].1;
                        self.sem_allocation[p] = (id, units + 1);
                        proof {
                            lemma_units_after_update(
                                old(self).sem_allocation@,
                                p as int,
                                (units + 1) as usize,
                            );
                        }
                    },
                    None => {
                        self.sem_allocation.push((id, 1));
                        proof {
                            lemma_units_after_push(old(self).sem_allocation@, id, 1);
                        }
                    },
                }
                self.sem_need = None;
            },
            None => {},
        }
    }

    /// Takes one unit of semaphore `id` off the books, where the task holds any.
    pub fn debit_semaphore(&mut self, id: usize)
        requires
            old(self).wf(),
        ensures
            final(self).wf(),
            final(self)@ == old(self)@.debit_semaphore(id),
    {
        proof {
            lemma_units_in(self.sem_allocation@, id);
        }
        match self.semaphore_position(id) {
            Some(p) => {
                let units = self.sem_allocation[p].1;
                if units == 1 {
                    self.sem_allocation.swap_remove(p);
                    proof {
                        lemma_units_after_swap_remove(old(self).sem_allocation@, p as int);
                    }
                } else {
                    self.sem_allocation[p] = (id, units - 1);
                    proof {
                        lemma_units_after_update(
                            old(self).sem_allocation@,
                            p as int,
                            (units - 1) as usize,
                        );
                    }
                }
            },
            None => {},
        }
    }
}

/// A semaphore is on the books of a task only with one unit or more, and
/// with as many as [`TaskView::units`] says.
pub proof fn held_units_are_positive(task: TaskResources, id: usize)
    ensures
        task@.sem_held.dom().contains(id) <==> task@.units(id) >= 1,
        task@.sem_held.dom().contains(id) ==> task@.sem_held[id] == task@.units(id),
{
}

/// Every task of the table is well formed.
pub open spec fn tasks_wf(tasks: Seq<Option<TaskResources>>) -> bool {
    forall|i: int| 0 <= i < tasks.len() ==> ((#[trigger] tasks[i]) matches Some(task) ==> task.wf())
}

} // verus!
