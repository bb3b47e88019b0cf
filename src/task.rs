use vstd::prelude::*;

verus! {

/// The mathematical value of a task.
pub struct TaskView {
    pub id: nat,
    pub description: Seq<char>,
    pub completed: bool,
}

/// One to-do item.
#[derive(Debug)]
pub struct Task {
    pub id: usize,
    pub description: String,
    pub completed: bool,
}

impl View for Task {
    type V = TaskView;

    open spec fn view(&self) -> TaskView {
        TaskView { id: self.id as nat, description: self.description@, completed: self.completed }
    }
}

/// The changes asked of one task: a field that is `None` is left as it is.
#[derive(Debug)]
pub struct UpdateTask {
    pub description: Option<String>,
    pub completed: Option<bool>,
}

/// The mathematical value of an update request.
pub struct UpdateView {
    pub description: Option<Seq<char>>,
    pub completed: Option<bool>,
}

impl View for UpdateTask {
    type V = UpdateView;

    open spec fn view(&self) -> UpdateView {
        UpdateView {
            description: match self.description {
                Some(d) => Some(d@),
                None => None,
            },
            completed: self.completed,
        }
    }
}

/// A task as it stands after `u` is applied to `t`: each field that `u`
/// supplies replaces the old one, the id never changes.
pub open spec fn applied(t: TaskView, u: UpdateView) -> TaskView {
    TaskView {
        id: t.id,
        description: match u.description {
            Some(d) => d,
            None => t.description,
        },
        completed: match u.completed {
            Some(c) => c,
            None => t.completed,
        },
    }
}

/// The values of a sequence of tasks, in the same order.
pub open spec fn views(ts: Seq<Task>) -> Seq<TaskView> {
    ts.map_values(|t: Task| t@)
}

impl Task {
    /// A new task, not yet completed.
    pub fn new(id: usize, description: String) -> (r: Task)
        ensures
            r@ == (TaskView { id: id as nat, description: description@, completed: false }),
    {
        Task { id, description, completed: false }
    }

    /// A task with the same id, description and completion flag.
    pub fn duplicate(&self) -> (r: Task)
        ensures
            r@ == self@,
    {
        Task { id: self.id, description: self.description.clone(), completed: self.completed }
    }

    /// Sets each field for which `u` holds a value.
    pub fn apply(&mut self, u: UpdateTask)
        ensures
            final(self)@ == applied(old(self)@, u@),
    {
        match u.description {
            Some(d) => {
                self.description = d;
            },
            None => {},
        }
        match u.completed {
            Some(c) => {
                self.completed = c;
            },
            None => {},
        }
    }
}

} // verus!
