//! The safety test that guards the acquisition of a mutex or semaphore.
//!
//! A [`ResourceState`] records, for `n` tasks and `m` kinds of resource, how
//! many units of each kind are free, how many each task holds and how many
//! each task still asks for. The state is *safe* when the tasks can be put in
//! an order in which every one of them finds what it asks for among the free
//! units and the units returned by the tasks before it.

use vstd::prelude::*;
use vstd::set_lib::{lemma_int_range, lemma_len_subset, lemma_subset_equality, set_int_range};

verus! {

/// Free units, held units and outstanding requests, as unbounded integers.
pub struct ResourceState {
    /// `available[j]`: free units of kind `j`.
    pub available: Seq<int>,
    /// `allocation[i][j]`: units of kind `j` held by task `i`.
    pub allocation: Seq<Seq<int>>,
    /// `need[i][j]`: units of kind `j` that task `i` is waiting for.
    pub need: Seq<Seq<int>>,
}

impl ResourceState {
    /// Number of tasks.
    pub open spec fn tasks(self) -> int {
        self.allocation.len() as int
    }

    /// Number of resource kinds.
    pub open spec fn kinds(self) -> int {
        self.available.len() as int
    }

    /// Every row has one column per kind, and nothing is negative.
    pub open spec fn wf(self) -> bool {
        &&& self.need.len() == self.allocation.len()
        &&& forall|j: int| 0 <= j < self.kinds() ==> 0 <= #[trigger] self.available[j]
        &&& forall|i: int|
            0 <= i < self.tasks() ==> (#[trigger] self.allocation[i]).len() == self.kinds()
        &&& forall|i: int| 0 <= i < self.tasks() ==> (#[trigger] self.need[i]).len() == self.kinds()
        &&& forall|i: int, j: int|
            0 <= i < self.tasks() && 0 <= j < self.kinds() ==> 0 <= #[trigger] self.allocation[i][j]
    }

    /// Units of kind `j` held by the tasks listed in `group`.
    pub open spec fn held_by(self, group: Seq<int>, j: int) -> int
        decreases group.len(),
    {
        if group.len() == 0 {
            0
        } else {
            self.held_by(group.drop_last(), j) + self.allocation[group.last()][j]
        }
    }

    /// Units of kind `j` that are free once the tasks in `done` have finished
    /// and handed back what they held.
    pub open spec fn free_after(self, done: Seq<int>, j: int) -> int {
        self.available[j] + self.held_by(done, j)
    }

    /// Task `i` finds everything it asks for once the tasks in `done` have finished.
    pub open spec fn can_finish(self, i: int, done: Seq<int>) -> bool {
        forall|j: int| 0 <= j < self.kinds() ==> self.need[i][j] <= #[trigger] self.free_after(done, j)
    }

    /// `group` names tasks of this state, none of them twice.
    pub open spec fn distinct_tasks(self, group: Seq<int>) -> bool {
        &&& group.no_duplicates()
        &&& forall|k: int| 0 <= k < group.len() ==> 0 <= #[trigger] group[k] < self.tasks()
    }

    /// Every task of `order` can finish after the tasks that stand before it.
    pub open spec fn finishes_in_turn(self, order: Seq<int>) -> bool {
        forall|k: int| 0 <= k < order.len() ==> #[trigger] self.can_finish(order[k], order.take(k))
    }

    /// `order` lists every task once, and each can finish after those before it.
    pub open spec fn safe_order(self, order: Seq<int>) -> bool {
        &&& order.len() == self.tasks()
        &&& self.distinct_tasks(order)
        &&& self.finishes_in_turn(order)
    }

    /// Some order lets every task finish.
    pub open spec fn is_safe(self) -> bool {
        exists|order: Seq<int>| self.safe_order(order)
    }

    /// Appending a task adds what it holds.
    pub proof fn lemma_held_by_push(self, group: Seq<int>, i: int, j: int)
        ensures
            self.held_by(group.push(i), j) == self.held_by(group, j) + self.allocation[i][j],
    {
        assert(group.push(i).drop_last() =~= group);
    }

    /// Nothing held is negative.
    pub proof fn lemma_held_by_nonnegative(self, group: Seq<int>, j: int)
        requires
            self.wf(),
            0 <= j < self.kinds(),
            forall|k: int| 0 <= k < group.len() ==> 0 <= #[trigger] group[k] < self.tasks(),
        ensures
            0 <= self.held_by(group, j),
        decreases group.len(),
    {
        if group.len() > 0 {
            self.lemma_held_by_nonnegative(group.drop_last(), j);
        }
    }

    /// Taking one task out of a group takes out what it holds.
    pub proof fn lemma_held_by_remove(self, group: Seq<int>, p: int, j: int)
        requires
            0 <= p < group.len(),
        ensures
            self.held_by(group, j) == self.held_by(group.remove(p), j) + self.allocation[group[p]][j],
        decreases group.len(),
    {
        if p < group.len() - 1 {
            self.lemma_held_by_remove(group.drop_last(), p, j);
            assert(group.remove(p).drop_last() =~= group.drop_last().remove(p));
        }
    }

    /// Distinct tasks drawn from a larger group hold no more than that group.
    pub proof fn lemma_held_by_part(self, part: Seq<int>, whole: Seq<int>, j: int)
        requires
            self.wf(),
            0 <= j < self.kinds(),
            part.no_duplicates(),
            forall|k: int| 0 <= k < part.len() ==> whole.contains(#[trigger] part[k]),
            forall|k: int| 0 <= k < whole.len() ==> 0 <= #[trigger] whole[k] < self.tasks(),
        ensures
            self.held_by(part, j) <= self.held_by(whole, j),
        decreases part.len(),
    {
        if part.len() == 0 {
            self.lemma_held_by_nonnegative(whole, j);
        } else {
            let x = part.last();
            let rest = part.drop_last();
            let p = choose|p: int| 0 <= p < whole.len() && whole[p] == x;
            let others = whole.remove(p);
            self.lemma_held_by_remove(whole, p, j);
            assert forall|k: int| 0 <= k < rest.len() implies others.contains(#[trigger] rest[k]) by {
                let q = choose|q: int| 0 <= q < whole.len() && whole[q] == part[k];
                if q < p {
                    assert(others[q] == whole[q]);
                } else {
                    assert(others[q - 1] == whole[q]);
                }
            }
            self.lemma_held_by_part(rest, others, j);
        }
    }

    /// A group of distinct tasks has at most as many members as there are
    /// tasks, and with that many it holds them all.
    pub proof fn lemma_distinct_tasks_count(self, group: Seq<int>)
        requires
            self.distinct_tasks(group),
        ensures
            group.len() <= self.tasks(),
            group.len() == self.tasks() ==> forall|i: int|
                0 <= i < self.tasks() ==> group.contains(i),
    {
        let all = set_int_range(0, self.tasks());
        lemma_int_range(0, self.tasks());
        group.unique_seq_to_set();
        assert(group.to_set().subset_of(all));
        lemma_len_subset(group.to_set(), all);
        if group.len() == self.tasks() {
            lemma_subset_equality(group.to_set(), all);
            assert forall|i: int| 0 <= i < self.tasks() implies group.contains(i) by {
                assert(group.to_set().contains(i));
            }
        }
    }

    /// The first place of `order`, below `upto`, whose task is not in `done`.
    pub proof fn lemma_first_unfinished(self, order: Seq<int>, done: Seq<int>, upto: int) -> (k: int)
        requires
            0 <= upto < order.len(),
            !done.contains(order[upto]),
        ensures
            0 <= k <= upto,
            !done.contains(order[k]),
            forall|l: int| 0 <= l < k ==> done.contains(#[trigger] order[l]),
        decreases upto,
    {
        if exists|l: int| 0 <= l < upto && !done.contains(order[l]) {
            let l = choose|l: int| 0 <= l < upto && !done.contains(order[l]);
            self.lemma_first_unfinished(order, done, l)
        } else {
            upto
        }
    }

    /// When the tasks in `done` have finished in turn and none of the others
    /// can finish after them, no order lets every task finish.
    pub proof fn lemma_stuck_is_unsafe(self, done: Seq<int>, stuck: int)
        requires
            self.wf(),
            self.distinct_tasks(done),
            0 <= stuck < self.tasks(),
            !done.contains(stuck),
            forall|i: int|
                0 <= i < self.tasks() && !done.contains(i) ==> !#[trigger] self.can_finish(i, done),
        ensures
            !self.is_safe(),
    {
        if self.is_safe() {
            let order = choose|order: Seq<int>| self.safe_order(order);
            self.lemma_distinct_tasks_count(order);
            assert(order.contains(stuck));
            let at = choose|at: int| 0 <= at < order.len() && order[at] == stuck;
            let k = self.lemma_first_unfinished(order, done, at);
            let before = order.take(k);
            let i = order[k];
            assert(self.can_finish(order[k], order.take(k)));
            assert forall|j: int| 0 <= j < self.kinds() implies self.need[i][j]
                <= #[trigger] self.free_after(done, j) by {
                assert(self.need[i][j] <= self.free_after(before, j));
                self.lemma_held_by_part(before, done, j);
            }
            assert(self.can_finish(i, done));
        }
    }
}

/// A state in which no task asks for anything is safe.
pub proof fn state_without_requests_is_safe(state: ResourceState)
    requires
        state.wf(),
        forall|i: int, j: int|
            0 <= i < state.tasks() && 0 <= j < state.kinds() ==> #[trigger] state.need[i][j] == 0,
    ensures
        state.is_safe(),
{
    let order = Seq::new(state.tasks() as nat, |i: int| i);
    assert forall|k: int| 0 <= k < order.len() implies #[trigger] state.can_finish(
        order[k],
        order.take(k),
    ) by {
        assert forall|j: int| 0 <= j < state.kinds() implies state.need[order[k]][j]
            <= #[trigger] state.free_after(order.take(k), j) by {
            state.lemma_held_by_nonnegative(order.take(k), j);
        }
    }
    assert(state.safe_order(order));
}

/// A state with tasks of which none finds what it asks for among the free
/// units is not safe: no task can be the first to finish. Tasks that wait
/// for each other in a circle are in such a state.
pub proof fn state_without_a_first_task_is_unsafe(state: ResourceState)
    requires
        state.wf(),
        state.tasks() > 0,
        forall|i: int| 0 <= i < state.tasks() ==> !#[trigger] state.can_finish(i, Seq::empty()),
    ensures
        !state.is_safe(),
{
    state.lemma_stuck_is_unsafe(Seq::empty(), 0);
}

/// The rows of a matrix of counts as sequences of integers.
pub open spec fn counts(row: Seq<usize>) -> Seq<int> {
    Seq::new(row.len(), |j: int| row[j] as int)
}

/// The state that three tables of machine integers describe.
pub open spec fn state_of(
    available: Seq<usize>,
    allocation: Seq<Vec<usize>>,
    need: Seq<Vec<usize>>,
) -> ResourceState {
    ResourceState {
        available: counts(available),
        allocation: Seq::new(allocation.len(), |i: int| counts(allocation[i]@)),
        need: Seq::new(need.len(), |i: int| counts(need[i]@)),
    }
}

/// `x` cut off at the largest `usize`.
pub open spec fn clipped(x: int) -> int {
    if x > usize::MAX {
        usize::MAX as int
    } else {
        x
    }
}

/// Tells whether every request of one task is covered by `work`.
pub fn covers(work: &Vec<usize>, request: &Vec<usize>) -> (yes: bool)
    requires
        request.len() == work.len(),
    ensures
        yes == (forall|j: int| 0 <= j < work.len() ==> request[j] <= work[j]),
{
    let mut j: usize = 0;
    while j < work.len()
        invariant
            request.len() == work.len(),
            j <= work.len(),
            forall|l: int| 0 <= l < j ==> request[l] <= work[l],
        decreases work.len() - j,
    {
        if request[j] > work[j] {
            return false;
        }
        j += 1;
    }
    true
}

/// Decides whether the tasks can all finish: repeatedly picks the first
/// unfinished task whose requests are covered by the free units, lets it
/// finish and adds what it held to the free units, until no such task is left.
///
/// The sums are kept within `usize` by saturation; since no request exceeds
/// `usize::MAX`, the answer is the one that unbounded integers give.
pub fn deadlock_check(
    available: Vec<usize>,
    allocation: Vec<Vec<usize>>,
    need: Vec<Vec<usize>>,
) -> (safe: bool)
    requires
        state_of(available@, allocation@, need@).wf(),
    ensures
        safe == state_of(available@, allocation@, need@).is_safe(),
{
    let ghost st = state_of(available@, allocation@, need@);
    let n = allocation.len();
    let m = available.len();
    let mut work = available;
    let mut finish: Vec<bool> = vec![false; n];
    let ghost mut done: Seq<int> = Seq::empty();
    loop
        invariant
            st == state_of(available@, allocation@, need@),
            st.wf(),
            n == allocation.len() == st.tasks(),
            m == st.kinds(),
            need.len() == n,
            work.len() == m,
            finish.len() == n,
            st.distinct_tasks(done),
            st.finishes_in_turn(done),
            forall|i: int| 0 <= i < n ==> finish[i] == done.contains(i),
            forall|j: int| 0 <= j < m ==> 0 <= #[trigger] st.free_after(done, j),
            forall|j: int| 0 <= j < m ==> work[j] == clipped(#[trigger] st.free_after(done, j)),
        ensures
            forall|i: int| 0 <= i < n && !done.contains(i) ==> !#[trigger] st.can_finish(i, done),
        decreases n - done.len(),
    {
        let mut idx: Option<usize> = None;
        let mut i: usize = 0;
        while i < n
            invariant_except_break
                idx is None,
            invariant
                st == state_of(available@, allocation@, need@),
                st.wf(),
                n == allocation.len() == st.tasks(),
                m == st.kinds(),
                need.len() == n,
                work.len() == m,
                finish.len() == n,
                i <= n,
                forall|i: int| 0 <= i < n ==> finish[i] == done.contains(i),
                forall|j: int| 0 <= j < m ==> 0 <= #[trigger] st.free_after(done, j),
                forall|j: int| 0 <= j < m ==> work[j] == clipped(#[trigger] st.free_after(done, j)),
                forall|l: int| 0 <= l < i && !done.contains(l) ==> !#[trigger] st.can_finish(l, done),
            ensures
                match idx {
                    Some(k) => k < n && !done.contains(k as int) && st.can_finish(k as int, done),
                    None => forall|l: int|
                        0 <= l < n && !done.contains(l) ==> !#[trigger] st.can_finish(l, done),
                },
            decreases n - i,
        {
            if !finish[i] {
                assert(st.need[i as int].len() == m);
                let fits = covers(&work, &need[i]);
                proof {
                    if !fits {
                        let j = choose|j: int| 0 <= j < m && !(need[i as int][j] <= work[j]);
                        assert(st.need[i as int][j] > st.free_after(done, j));
                    }
                }
                if fits {
                    idx = Some(i);
                    break ;
                }
            }
            i += 1;
        }
        match idx {
            Some(k) => {
                proof {
                    st.lemma_distinct_tasks_count(done.push(k as int));
                }
                let mut j: usize = 0;
                while j < m
                    invariant
                        st == state_of(available@, allocation@, need@),
                        st.wf(),
                        n == allocation.len() == st.tasks(),
                        m == st.kinds(),
                        work.len() == m,
                        k < n,
                        j <= m,
                        forall|l: int| 0 <= l < m ==> 0 <= #[trigger] st.free_after(done, l),
                        forall|l: int|
                            0 <= l < j ==> work[l] == clipped(
                                #[trigger] st.free_after(done.push(k as int), l),
                            ),
                        forall|l: int|
                            j <= l < m ==> work[l] == clipped(#[trigger] st.free_after(done, l)),
                    decreases m - j,
                {
                    proof {
                        st.lemma_held_by_push(done, k as int, j as int);
                        assert(0 <= st.free_after(done, j as int));
                    }
                    let sum = work[j].saturating_add(allocation[k][j]);
                    work[j] = sum;
                    j += 1;
                }
                finish[k] = true;
                proof {
                    let before = done;
                    done = done.push(k as int);
                    assert forall|t: int| 0 <= t < done.len() implies #[trigger] st.can_finish(
                        done[t],
                        done.take(t),
                    ) by {
                        if t < before.len() {
                            assert(done.take(t) =~= before.take(t));
                        } else {
                            assert(done.take(t) =~= before);
                        }
                    }
                    assert forall|i: int| 0 <= i < n implies finish[i] == done.contains(i) by {
                        if i == k {
                            assert(done[before.len() as int] == k);
                        } else if before.contains(i) {
                            let q = choose|q: int| 0 <= q < before.len() && before[q] == i;
                            assert(done[q] == i);
                        }
                    }
                }
            },
            None => {
                break ;
            },
        }
    }
    let mut all: bool = true;
    let mut i: usize = 0;
    while i < n
        invariant
            finish.len() == n,
            i <= n,
            all == (forall|l: int| 0 <= l < i ==> finish[l]),
        decreases n - i,
    {
        if !finish[i] {
            all = false;
        }
        i += 1;
    }
    proof {
        st.lemma_distinct_tasks_count(done);
        if all {
            assert(done.len() == n) by {
                let every = Seq::new(n as nat, |i: int| i);
                every.unique_seq_to_set();
                done.unique_seq_to_set();
                lemma_len_subset(every.to_set(), done.to_set());
            }
            assert(st.safe_order(done));
        } else {
            let stuck = choose|l: int| 0 <= l < n && !finish[l];
            st.lemma_stuck_is_unsafe(done, stuck);
        }
    }
    all
}

} // verus!
