use vstd::prelude::*;

use crate::task::{applied, views, Task, TaskView, UpdateTask, UpdateView};

verus! {

/// The mathematical value of a store: its tasks in order, and the id that
/// the next added task receives.
pub struct StoreView {
    pub tasks: Seq<TaskView>,
    pub next_id: nat,
}

/// Why an operation on the store failed. A failed operation leaves the
/// store as it was.
#[derive(Debug, Clone, Copy, PartialEq, Eq, Structural)]
pub enum StoreError {
    /// No task has the id asked for.
    NotFound,
    /// An imported task has the largest `usize` as its id, so no id can
    /// follow it.
    IdOutOfRange,
}

/// Whether some task in `ts` has id `id`.
pub open spec fn contains_id(ts: Seq<TaskView>, id: nat) -> bool {
    exists|i: int| 0 <= i < ts.len() && ts[i].id == id
}

/// Whether `i` is the first position in `ts` that holds a task with id `id`.
pub open spec fn is_first(ts: Seq<TaskView>, id: nat, i: int) -> bool {
    &&& 0 <= i < ts.len()
    &&& ts[i].id == id
    &&& forall|j: int| 0 <= j < i ==> ts[j].id != id
}

/// The first position in `ts` that holds a task with id `id`; meaningful
/// when `contains_id(ts, id)`.
pub open spec fn first_index(ts: Seq<TaskView>, id: nat) -> int {
    choose|i: int| is_first(ts, id, i)
}

/// The store after a task with description `d` is added.
pub open spec fn add_result(s: StoreView, d: Seq<char>) -> StoreView {
    StoreView {
        tasks: s.tasks.push(TaskView { id: s.next_id, description: d, completed: false }),
        next_id: s.next_id + 1,
    }
}

/// The store after the task with id `id` is updated by `u`; unchanged when
/// no task has that id.
pub open spec fn update_result(s: StoreView, id: nat, u: UpdateView) -> StoreView {
    if contains_id(s.tasks, id) {
        let i = first_index(s.tasks, id);
        StoreView { tasks: s.tasks.update(i, applied(s.tasks[i], u)), next_id: s.next_id }
    } else {
        s
    }
}

/// The store after the task with id `id` is removed; unchanged when no task
/// has that id.
pub open spec fn delete_result(s: StoreView, id: nat) -> StoreView {
    if contains_id(s.tasks, id) {
        StoreView { tasks: s.tasks.remove(first_index(s.tasks, id)), next_id: s.next_id }
    } else {
        s
    }
}

/// The larger of `n` and one past each id in `ts`.
pub open spec fn next_after(n: nat, ts: Seq<TaskView>) -> nat
    decreases ts.len(),
{
    if ts.len() == 0 {
        n
    } else {
        let m = next_after(n, ts.drop_last());
        if m > ts.last().id + 1 {
            m
        } else {
            (ts.last().id + 1) as nat
        }
    }
}

/// The store after the tasks `ts` are appended to it.
pub open spec fn import_result(s: StoreView, ts: Seq<TaskView>) -> StoreView {
    StoreView { tasks: s.tasks + ts, next_id: next_after(s.next_id, ts) }
}

/// Whether every task in `s` has an id below the next id to assign.
pub open spec fn ids_below_next(s: StoreView) -> bool {
    forall|i: int| 0 <= i < s.tasks.len() ==> s.tasks[i].id < s.next_id
}

/// Whether the tasks of `ts` have pairwise distinct ids.
pub open spec fn ids_distinct(ts: Seq<TaskView>) -> bool {
    forall|i: int, j: int| 0 <= i < j < ts.len() ==> ts[i].id != ts[j].id
}

/// The first position that holds a given id is unique.
pub proof fn lemma_first_index(ts: Seq<TaskView>, id: nat, i: int)
    requires
        is_first(ts, id, i),
    ensures
        contains_id(ts, id),
        first_index(ts, id) == i,
{
    let k = first_index(ts, id);
    assert(is_first(ts, id, k));
    if k < i {
        assert(ts[k].id != id);
    } else if k > i {
        assert(ts[i].id != id);
    }
}

/// A held id has a first position.
pub proof fn lemma_first_exists(ts: Seq<TaskView>, id: nat)
    requires
        contains_id(ts, id),
    ensures
        is_first(ts, id, first_index(ts, id)),
    decreases ts.len(),
{
    let p = ts.drop_last();
    assert(forall|j: int| 0 <= j < p.len() ==> p[j] == ts[j]);
    if contains_id(p, id) {
        lemma_first_exists(p, id);
        assert(is_first(ts, id, first_index(p, id)));
    } else {
        let k = choose|k: int| 0 <= k < ts.len() && ts[k].id == id;
        if k < p.len() {
            assert(p[k].id == id);
        }
        assert(is_first(ts, id, ts.len() - 1));
    }
}

/// The tasks of a process, in the order in which they were added, and the
/// counter from which new ids are drawn.
pub struct Store {
    tasks: Vec<Task>,
    next_id: usize,
}

impl View for Store {
    type V = StoreView;

    closed spec fn view(&self) -> StoreView {
        StoreView { tasks: views(self.tasks@), next_id: self.next_id as nat }
    }
}

impl Store {
    /// An empty store whose first task gets id 0.
    pub fn new() -> (r: Store)
        ensures
            r@ == (StoreView { tasks: Seq::empty(), next_id: 0 }),
    {
        let r = Store { tasks: Vec::new(), next_id: 0 };
        assert(r@.tasks =~= Seq::<TaskView>::empty());
        r
    }

    /// The id that the next added task receives.
    pub fn next_id(&self) -> (r: usize)
        ensures
            r as nat == self@.next_id,
    {
        self.next_id
    }

    /// A copy of all tasks, in order.
    pub fn list(&self) -> (r: Vec<Task>)
        ensures
            views(r@) == self@.tasks,
    {
        let mut r: Vec<Task> = Vec::new();
        let mut i: usize = 0;
        while i < self.tasks.len()
            invariant
                i <= self.tasks@.len(),
                r@.len() == i,
                forall|k: int| 0 <= k < i ==> r@[k]@ == self.tasks@[k]@,
            decreases self.tasks@.len() - i,
        {
            r.push(self.tasks[i].duplicate());
            i = i + 1;
        }
        assert(views(r@) =~= views(self.tasks@));
        r
    }

    /// The first position of the task with id `id`, if any.
    fn position_of(&self, id: usize) -> (r: Option<usize>)
        ensures
            match r {
                Some(i) => is_first(self@.tasks, id as nat, i as int),
                None => !contains_id(self@.tasks, id as nat),
            },
    {
        let mut i: usize = 0;
        while i < self.tasks.len()
            invariant
                i <= self.tasks@.len(),
                forall|j: int| 0 <= j < i ==> self@.tasks[j].id != id as nat,
            decreases self.tasks@.len() - i,
        {
            if self.tasks[i].id == id {
                return Some(i);
            }
            i = i + 1;
        }
        None
    }

    /// Appends a task with description `description`, not completed, under
    /// the next id, and returns that id.
    pub fn add(&mut self, description: String) -> (r: usize)
        requires
            old(self)@.next_id < usize::MAX,
        ensures
            r as nat == old(self)@.next_id,
            final(self)@ == add_result(old(self)@, description@),
    {
        let id = self.next_id;
        self.next_id = self.next_id + 1;
        let t = Task::new(id, description);
        self.tasks.push(t);
        assert(self@.tasks =~= old(self)@.tasks.push(t@));
        id
    }
    /// Applies `u` to the task with id `id`. Fails with `NotFound`, and
    /// changes nothing, when no task has that id.
    pub fn update(&mut self, id: usize, u: UpdateTask) -> (r: Result<(), StoreError>)
        ensures
            r is Ok <==> contains_id(old(self)@.tasks, id as nat),
            r is Err ==> r == Err::<(), StoreError>(StoreError::NotFound),
            final(self)@ == update_result(old(self)@, id as nat, u@),
    {
        match self.position_of(id) {
            Some(i) => {
                proof {
                    lemma_first_index(self@.tasks, id as nat, i as int);
                }
                let ghost u_view = u@;
                let mut t = self.tasks.remove(i);
                t.apply(u);
                self.tasks.insert(i, t);
                assert(self@.tasks =~= old(self)@.tasks.update(
                    i as int,
                    applied(old(self)@.tasks[i as int], u_view),
                ));
                Ok(())
            },
            None => Err(StoreError::NotFound),
        }
    }

    /// Removes the task with id `id`, keeping the order of the others. Fails
    /// with `NotFound`, and changes nothing, when no task has that id.
    pub fn delete(&mut self, id: usize) -> (r: Result<(), StoreError>)
        ensures
            r is Ok <==> contains_id(old(self)@.tasks, id as nat),
            r is Err ==> r == Err::<(), StoreError>(StoreError::NotFound),
            final(self)@ == delete_result(old(self)@, id as nat),
    {
        match self.position_of(id) {
            Some(i) => {
                proof {
                    lemma_first_index(self@.tasks, id as nat, i as int);
                }
                self.tasks.remove(i);
                assert(self@.tasks =~= old(self)@.tasks.remove(i as int));
                Ok(())
            },
            None => Err(StoreError::NotFound),
        }
    }

    /// Appends `incoming` after the present tasks, in order and without
    /// removing tasks that share an id, and moves the next id past every
    /// imported id. Fails with `IdOutOfRange`, and changes nothing, when an
    /// imported id is the largest `usize`.
    pub fn import(&mut self, incoming: Vec<Task>) -> (r: Result<(), StoreError>)
        ensures
            r is Ok <==> forall|i: int|
                0 <= i < incoming@.len() ==> incoming@[i].id < usize::MAX,
            r is Ok ==> final(self)@ == import_result(old(self)@, views(incoming@)),
            r is Err ==> r == Err::<(), StoreError>(StoreError::IdOutOfRange),
            r is Err ==> final(self)@ == old(self)@,
    {
        let mut next: usize = self.next_id;
        let mut i: usize = 0;
        while i < incoming.len()
            invariant
                i <= incoming@.len(),
                next as nat == next_after(self@.next_id, views(incoming@).subrange(0, i as int)),
                forall|k: int| 0 <= k < i ==> incoming@[k].id < usize::MAX,
            decreases incoming@.len() - i,
        {
            let id = incoming[i].id;
            if id == usize::MAX {
                return Err(StoreError::IdOutOfRange);
            }
            assert(views(incoming@).subrange(0, i + 1).drop_last() =~= views(incoming@).subrange(
                0,
                i as int,
            ));
            if next <= id {
                next = id + 1;
            }
            i = i + 1;
        }
        assert(views(incoming@).subrange(0, i as int) =~= views(incoming@));
        let ghost added = views(incoming@);
        let mut incoming = incoming;
        self.tasks.append(&mut incoming);
        self.next_id = next;
        assert(self@.tasks =~= old(self)@.tasks + added);
        Ok(())
    }
}

} // verus!
