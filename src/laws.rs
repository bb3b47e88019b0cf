use vstd::prelude::*;

use crate::store::{
    add_result, contains_id, delete_result, first_index, ids_below_next, ids_distinct,
    import_result, is_first, lemma_first_exists, lemma_first_index, next_after, update_result, StoreView,
};
use crate::task::{TaskView, UpdateView};

verus! {

/// The store after one add per description in `ds`, in order.
pub open spec fn adds(s: StoreView, ds: Seq<Seq<char>>) -> StoreView
    decreases ds.len(),
{
    if ds.len() == 0 {
        s
    } else {
        add_result(adds(s, ds.drop_last()), ds.last())
    }
}

/// The ids that those adds return, in call order: each add returns the
/// next id of the store it is called on.
pub open spec fn add_ids(s: StoreView, ds: Seq<Seq<char>>) -> Seq<nat>
    decreases ds.len(),
{
    if ds.len() == 0 {
        Seq::empty()
    } else {
        add_ids(s, ds.drop_last()).push(adds(s, ds.drop_last()).next_id)
    }
}

proof fn lemma_adds_shape(s: StoreView, ds: Seq<Seq<char>>)
    ensures
        adds(s, ds).next_id == s.next_id + ds.len(),
        add_ids(s, ds).len() == ds.len(),
        forall|k: int| 0 <= k < ds.len() ==> add_ids(s, ds)[k] == s.next_id + k,
        ids_below_next(s) ==> ids_below_next(adds(s, ds)),
        ids_below_next(s) && ids_distinct(s.tasks) ==> ids_distinct(adds(s, ds).tasks),
    decreases ds.len(),
{
    if ds.len() > 0 {
        lemma_adds_shape(s, ds.drop_last());
        let p = adds(s, ds.drop_last());
        if ids_below_next(s) {
            lemma_add_keeps_ids(p, ds.last());
        }
    }
}

/// One add keeps every id below the next one, and keeps the ids distinct.
pub proof fn lemma_add_keeps_ids(s: StoreView, d: Seq<char>)
    requires
        ids_below_next(s),
    ensures
        ids_below_next(add_result(s, d)),
        ids_distinct(s.tasks) ==> ids_distinct(add_result(s, d).tasks),
        !contains_id(s.tasks, s.next_id),
        contains_id(add_result(s, d).tasks, s.next_id),
{
    let r = add_result(s, d);
    assert(r.tasks[s.tasks.len() as int].id == s.next_id);
}

/// Over any run of adds, the returned ids strictly increase in call order,
/// so no two are equal, and no id is one already held; the ids in the
/// store stay distinct and below the next id.
pub proof fn lemma_add_ids_increase(s: StoreView, ds: Seq<Seq<char>>)
    requires
        ids_below_next(s),
    ensures
        forall|i: int, j: int|
            0 <= i < j < ds.len() ==> add_ids(s, ds)[i] < add_ids(s, ds)[j],
        forall|i: int| 0 <= i < ds.len() ==> !contains_id(s.tasks, #[trigger] add_ids(s, ds)[i]),
        ids_below_next(adds(s, ds)),
        ids_distinct(s.tasks) ==> ids_distinct(adds(s, ds).tasks),
{
    lemma_adds_shape(s, ds);
}

/// Updating or deleting keeps every id below the next one, and keeps the
/// ids distinct.
pub proof fn lemma_update_delete_keep_ids(s: StoreView, id: nat, u: UpdateView)
    requires
        ids_below_next(s),
    ensures
        ids_below_next(update_result(s, id, u)),
        ids_below_next(delete_result(s, id)),
        ids_distinct(s.tasks) ==> ids_distinct(update_result(s, id, u).tasks),
        ids_distinct(s.tasks) ==> ids_distinct(delete_result(s, id).tasks),
{
    if contains_id(s.tasks, id) {
        let i = first_index(s.tasks, id);
        lemma_first_exists(s.tasks, id);
        let d = delete_result(s, id).tasks;
        assert forall|k: int| 0 <= k < d.len() implies d[k] == s.tasks[if k < i {
            k
        } else {
            k + 1
        }] by {}
    }
}

/// The next id after importing `ts` is at least the old one and lies past
/// every imported id; it is the old one when every imported id lies below it.
pub proof fn lemma_next_after(n: nat, ts: Seq<TaskView>)
    ensures
        next_after(n, ts) >= n,
        forall|i: int| 0 <= i < ts.len() ==> ts[i].id < next_after(n, ts),
        (forall|i: int| 0 <= i < ts.len() ==> ts[i].id < n) ==> next_after(n, ts) == n,
    decreases ts.len(),
{
    if ts.len() > 0 {
        lemma_next_after(n, ts.drop_last());
        assert forall|i: int| 0 <= i < ts.len() - 1 implies ts[i] == ts.drop_last()[i] by {}
    }
}

/// Importing keeps every id below the next one.
pub proof fn lemma_import_keeps_ids_below(s: StoreView, ts: Seq<TaskView>)
    requires
        ids_below_next(s),
    ensures
        ids_below_next(import_result(s, ts)),
{
    lemma_next_after(s.next_id, ts);
    let r = import_result(s, ts);
    assert forall|i: int| 0 <= i < r.tasks.len() implies r.tasks[i].id < r.next_id by {
        if i >= s.tasks.len() {
            assert(r.tasks[i] == ts[i - s.tasks.len()]);
        }
    }
}

/// After a task is added and deleted, the next add gets a larger id than it
/// had, and the deleted task's id is held by no task.
pub proof fn lemma_ids_not_reused(s: StoreView, d1: Seq<char>, d2: Seq<char>)
    requires
        ids_below_next(s),
    ensures
        ({
            let first = s.next_id;
            let s1 = add_result(s, d1);
            let s2 = delete_result(s1, first);
            &&& s2.next_id > first
            &&& !contains_id(s2.tasks, first)
            &&& add_result(s2, d2).next_id > s2.next_id
        }),
{
    let first = s.next_id;
    let s1 = add_result(s, d1);
    lemma_add_keeps_ids(s, d1);
    let i = s.tasks.len() as int;
    assert(is_first(s1.tasks, first, i));
    lemma_first_index(s1.tasks, first, i);
    let s2 = delete_result(s1, first);
    assert(s2.tasks =~= s.tasks);
}

/// An update that supplies only `completed` leaves every description as it
/// was; one that supplies only `description` leaves every completion flag
/// as it was. Nothing else moves but the targeted field.
pub proof fn lemma_update_one_field(s: StoreView, id: nat, c: bool, d: Seq<char>)
    ensures
        ({
            let r = update_result(s, id, UpdateView { description: None, completed: Some(c) });
            &&& r.tasks.len() == s.tasks.len()
            &&& r.next_id == s.next_id
            &&& forall|i: int|
                0 <= i < s.tasks.len() ==> r.tasks[i].description == s.tasks[i].description
                    && r.tasks[i].id == s.tasks[i].id
        }),
        ({
            let r = update_result(s, id, UpdateView { description: Some(d), completed: None });
            &&& r.tasks.len() == s.tasks.len()
            &&& r.next_id == s.next_id
            &&& forall|i: int|
                0 <= i < s.tasks.len() ==> r.tasks[i].completed == s.tasks[i].completed
                    && r.tasks[i].id == s.tasks[i].id
        }),
{
    if contains_id(s.tasks, id) {
        lemma_first_exists(s.tasks, id);
    }
}

/// Updating or deleting an id that no task has leaves the store unchanged.
pub proof fn lemma_missing_id_changes_nothing(s: StoreView, id: nat, u: UpdateView)
    requires
        !contains_id(s.tasks, id),
    ensures
        update_result(s, id, u) == s,
        delete_result(s, id) == s,
{
}

/// Importing what was just listed keeps every task of the store and then
/// appends each again, with equal id, description and flag, in order; every id stays
/// below the largest `usize`, so the import succeeds, and the next id ends
/// past every imported id.
pub proof fn lemma_export_import(s: StoreView)
    requires
        ids_below_next(s),
        s.next_id <= usize::MAX,
    ensures
        ({
            let r = import_result(s, s.tasks);
            &&& r.tasks == s.tasks + s.tasks
            &&& forall|i: int|
                0 <= i < s.tasks.len() ==> r.tasks[i] == s.tasks[i] && r.tasks[i + s.tasks.len()]
                    == s.tasks[i]
            &&& forall|i: int| 0 <= i < s.tasks.len() ==> s.tasks[i].id < usize::MAX
            &&& forall|i: int| 0 <= i < r.tasks.len() ==> r.tasks[i].id < r.next_id
            &&& r.next_id == s.next_id
        }),
{
    lemma_next_after(s.next_id, s.tasks);
    lemma_import_keeps_ids_below(s, s.tasks);
}

} // verus!
