use task_store::{Store, StoreError, Task, UpdateTask};

fn fields(s: &Store) -> Vec<(usize, String, bool)> {
    s.list().into_iter().map(|t| (t.id, t.description, t.completed)).collect()
}

fn only_completed(c: bool) -> UpdateTask {
    UpdateTask { description: None, completed: Some(c) }
}

fn only_description(d: &str) -> UpdateTask {
    UpdateTask { description: Some(d.to_string()), completed: None }
}

#[test]
fn new_task_is_not_completed() {
    let t = Task::new(7, "read".to_string());
    assert_eq!(t.id, 7);
    assert_eq!(t.description, "read");
    assert!(!t.completed);
}

#[test]
fn empty_store_lists_nothing() {
    let s = Store::new();
    assert!(s.list().is_empty());
    assert_eq!(s.next_id(), 0);
}

#[test]
fn buy_milk_walk_dog_scenario() {
    let mut s = Store::new();
    assert_eq!(s.add("buy milk".to_string()), 0);
    assert_eq!(fields(&s), vec![(0, "buy milk".to_string(), false)]);
    assert_eq!(s.add("walk dog".to_string()), 1);
    assert_eq!(s.update(0, only_completed(true)), Ok(()));
    assert_eq!(
        fields(&s),
        vec![(0, "buy milk".to_string(), true), (1, "walk dog".to_string(), false)]
    );
    assert_eq!(s.delete(0), Ok(()));
    assert_eq!(fields(&s), vec![(1, "walk dog".to_string(), false)]);
    assert_eq!(s.update(0, only_completed(false)), Err(StoreError::NotFound));
}

#[test]
fn adds_return_increasing_ids() {
    let mut s = Store::new();
    let ids: Vec<usize> = (0..5).map(|k| s.add(format!("task {}", k))).collect();
    assert_eq!(ids, vec![0, 1, 2, 3, 4]);
    assert_eq!(s.next_id(), 5);
    let listed: Vec<usize> = s.list().iter().map(|t| t.id).collect();
    assert_eq!(listed, ids);
}

#[test]
fn deleted_id_is_not_reused() {
    let mut s = Store::new();
    let first = s.add("a".to_string());
    assert_eq!(s.delete(first), Ok(()));
    assert!(s.list().is_empty());
    let second = s.add("b".to_string());
    assert!(second > first);
    assert_eq!(fields(&s), vec![(1, "b".to_string(), false)]);
}

#[test]
fn update_completed_keeps_description() {
    let mut s = Store::new();
    s.add("a".to_string());
    s.add("b".to_string());
    assert_eq!(s.update(1, only_completed(true)), Ok(()));
    assert_eq!(fields(&s), vec![(0, "a".to_string(), false), (1, "b".to_string(), true)]);
}

#[test]
fn update_description_keeps_completed() {
    let mut s = Store::new();
    s.add("a".to_string());
    s.update(0, only_completed(true)).unwrap();
    assert_eq!(s.update(0, only_description("z")), Ok(()));
    assert_eq!(fields(&s), vec![(0, "z".to_string(), true)]);
}

#[test]
fn update_with_both_and_with_neither() {
    let mut s = Store::new();
    s.add("a".to_string());
    let both = UpdateTask { description: Some("q".to_string()), completed: Some(true) };
    assert_eq!(s.update(0, both), Ok(()));
    assert_eq!(fields(&s), vec![(0, "q".to_string(), true)]);
    let neither = UpdateTask { description: None, completed: None };
    assert_eq!(s.update(0, neither), Ok(()));
    assert_eq!(fields(&s), vec![(0, "q".to_string(), true)]);
}

#[test]
fn missing_id_leaves_store_unchanged() {
    let mut s = Store::new();
    s.add("a".to_string());
    s.add("b".to_string());
    let before = fields(&s);
    assert_eq!(s.update(9, only_description("x")), Err(StoreError::NotFound));
    assert_eq!(fields(&s), before);
    assert_eq!(s.delete(9), Err(StoreError::NotFound));
    assert_eq!(fields(&s), before);
    assert_eq!(s.next_id(), 2);
}

#[test]
fn delete_keeps_order_of_the_rest() {
    let mut s = Store::new();
    s.add("a".to_string());
    s.add("b".to_string());
    s.add("c".to_string());
    assert_eq!(s.delete(1), Ok(()));
    assert_eq!(fields(&s), vec![(0, "a".to_string(), false), (2, "c".to_string(), false)]);
    assert_eq!(s.next_id(), 3);
}

#[test]
fn import_of_listed_tasks_duplicates_each() {
    let mut s = Store::new();
    s.add("a".to_string());
    s.add("b".to_string());
    s.update(1, only_completed(true)).unwrap();
    let before = fields(&s);
    let exported = s.list();
    assert_eq!(s.import(exported), Ok(()));
    let mut twice = before.clone();
    twice.extend(before);
    assert_eq!(fields(&s), twice);
    assert_eq!(s.next_id(), 2);
    assert_eq!(s.add("c".to_string()), 2);
}

#[test]
fn import_advances_next_id_past_largest() {
    let mut s = Store::new();
    s.add("a".to_string());
    let incoming = vec![Task::new(10, "x".to_string()), Task::new(4, "y".to_string())];
    assert_eq!(s.import(incoming), Ok(()));
    assert_eq!(
        fields(&s),
        vec![(0, "a".to_string(), false), (10, "x".to_string(), false), (4, "y".to_string(), false)]
    );
    assert_eq!(s.next_id(), 11);
    assert_eq!(s.add("z".to_string()), 11);
}

#[test]
fn import_below_next_id_keeps_it() {
    let mut s = Store::new();
    for k in 0..6 {
        s.add(format!("{}", k));
    }
    assert_eq!(s.import(vec![Task::new(2, "dup".to_string())]), Ok(()));
    assert_eq!(s.next_id(), 6);
    assert_eq!(s.list().len(), 7);
}

#[test]
fn import_of_nothing_changes_nothing() {
    let mut s = Store::new();
    s.add("a".to_string());
    assert_eq!(s.import(Vec::new()), Ok(()));
    assert_eq!(fields(&s), vec![(0, "a".to_string(), false)]);
    assert_eq!(s.next_id(), 1);
}

#[test]
fn import_rejects_largest_id_without_change() {
    let mut s = Store::new();
    s.add("a".to_string());
    let incoming = vec![Task::new(3, "x".to_string()), Task::new(usize::MAX, "y".to_string())];
    assert_eq!(s.import(incoming), Err(StoreError::IdOutOfRange));
    assert_eq!(fields(&s), vec![(0, "a".to_string(), false)]);
    assert_eq!(s.next_id(), 1);
}

#[test]
fn import_accepts_id_just_below_largest() {
    let mut s = Store::new();
    assert_eq!(s.import(vec![Task::new(usize::MAX - 1, "y".to_string())]), Ok(()));
    assert_eq!(s.next_id(), usize::MAX);
}

#[test]
fn update_targets_first_of_duplicate_ids() {
    let mut s = Store::new();
    s.add("a".to_string());
    s.import(s.list()).unwrap();
    assert_eq!(s.update(0, only_description("first")), Ok(()));
    assert_eq!(
        fields(&s),
        vec![(0, "first".to_string(), false), (0, "a".to_string(), false)]
    );
    assert_eq!(s.delete(0), Ok(()));
    assert_eq!(fields(&s), vec![(0, "a".to_string(), false)]);
}
