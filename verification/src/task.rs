//! Tasks and task lists.

use crate::color::Color;
use crate::date::{current_time, Date, DateView, Timestamp, TimestampView};
use crate::ident::fresh_id;
use vstd::prelude::*;

verus! {

/// The state of a task. The variants stand in their order: `NeedsAction`
/// first, `Cancelled` last.
#[derive(Clone, Copy, Debug, PartialEq, Eq, PartialOrd, Ord, Structural)]
pub enum Status {
    NeedsAction,
    InProgress,
    Completed,
    Cancelled,
}

impl Status {
    /// The place of a status in the order of the variants, from 0.
    pub open spec fn rank(self) -> int {
        match self {
            Status::NeedsAction => 0,
            Status::InProgress => 1,
            Status::Completed => 2,
            Status::Cancelled => 3,
        }
    }

    /// The place of this status in the order of the variants, from 0.
    pub fn ordinal(self) -> (n: u8)
        ensures
            n == self.rank(),
    {
        match self {
            Status::NeedsAction => 0,
            Status::InProgress => 1,
            Status::Completed => 2,
            Status::Cancelled => 3,
        }
    }

    /// Every status, once, in the order of the variants.
    pub fn iterator() -> (all: Vec<Status>)
        ensures
            all@ == seq![
                Status::NeedsAction,
                Status::InProgress,
                Status::Completed,
                Status::Cancelled,
            ],
    {
        let mut all: Vec<Status> = Vec::new();
        all.push(Status::NeedsAction);
        all.push(Status::InProgress);
        all.push(Status::Completed);
        all.push(Status::Cancelled);
        all
    }
}

impl Default for Status {
    /// A task is in progress unless it says otherwise.
    fn default() -> (s: Status)
        ensures
            s == Status::InProgress,
    {
        Status::InProgress
    }
}

/// The field by which a task list is sorted.
#[derive(Clone, Copy, Debug, PartialEq, Eq, Structural)]
pub enum TaskSort {
    /// The list stays as it is.
    Unsorted,
    Summary,
    Completed,
    Description,
    Progress,
    Priority,
    Status,
    Due,
}

impl TaskSort {
    /// Every sort field, once, `Unsorted` first.
    pub fn iterator() -> (all: Vec<TaskSort>)
        ensures
            all@ == seq![
                TaskSort::Unsorted,
                TaskSort::Summary,
                TaskSort::Completed,
                TaskSort::Description,
                TaskSort::Progress,
                TaskSort::Priority,
                TaskSort::Status,
                TaskSort::Due,
            ],
    {
        let mut all: Vec<TaskSort> = Vec::new();
        all.push(TaskSort::Unsorted);
        all.push(TaskSort::Summary);
        all.push(TaskSort::Completed);
        all.push(TaskSort::Description);
        all.push(TaskSort::Progress);
        all.push(TaskSort::Priority);
        all.push(TaskSort::Status);
        all.push(TaskSort::Due);
        all
    }
}

impl Default for TaskSort {
    /// A list is left as it is unless a field is chosen.
    fn default() -> (s: TaskSort)
        ensures
            s == TaskSort::Unsorted,
    {
        TaskSort::Unsorted
    }
}

/// One to-do item.
#[derive(Clone, Debug, PartialEq, Eq)]
pub struct Task {
    /// The identifier, a UUID as a number.
    pub uuid: u128,
    pub summary: String,
    pub completed: bool,
    pub description: String,
    /// Percent complete.
    pub progress: u8,
    /// From 1 to 10; 0 where none is set.
    pub priority: u8,
    pub status: Status,
    pub due: Option<Date>,
    pub created: Timestamp,
}

/// One to-do item, as a mathematical value.
pub struct TaskView {
    pub uuid: u128,
    pub summary: Seq<char>,
    pub completed: bool,
    pub description: Seq<char>,
    pub progress: u8,
    pub priority: u8,
    pub status: Status,
    pub due: Option<DateView>,
    pub created: TimestampView,
}

impl TaskView {
    /// The task that a new block starts with: the given identifier and time
    /// of creation, the summary "New task", in progress, and nothing else set.
    pub open spec fn fresh(uuid: u128, created: TimestampView) -> TaskView {
        TaskView {
            uuid,
            summary: "New task"@,
            completed: false,
            description: Seq::empty(),
            progress: 0,
            priority: 0,
            status: Status::InProgress,
            due: None,
            created,
        }
    }

    /// Whether the dates of the task are valid.
    pub open spec fn is_valid(self) -> bool {
        &&& self.created.is_valid()
        &&& self.due matches Some(d) ==> d.is_valid()
    }

    /// Whether a task whose status is `Completed` is also marked completed.
    pub open spec fn is_consistent(self) -> bool {
        self.status == Status::Completed ==> self.completed
    }
}

impl View for Task {
    type V = TaskView;

    open spec fn view(&self) -> TaskView {
        TaskView {
            uuid: self.uuid,
            summary: self.summary@,
            completed: self.completed,
            description: self.description@,
            progress: self.progress,
            priority: self.priority,
            status: self.status,
            due: match self.due {
                Some(d) => Some(d@),
                None => None,
            },
            created: self.created@,
        }
    }
}

impl Task {
    /// A new task with the given identifier and time of creation.
    pub fn new(uuid: u128, created: Timestamp) -> (t: Task)
        ensures
            t@ == TaskView::fresh(uuid, created@),
    {
        Task {
            uuid,
            summary: "New task".to_owned(),
            completed: false,
            description: String::new(),
            progress: 0,
            priority: 0,
            status: Status::InProgress,
            due: None,
            created,
        }
    }

    /// Marks the task completed where its status says so. A task marked
    /// completed keeps its status.
    pub fn settle(&mut self)
        ensures
            final(self)@ == (TaskView {
                completed: old(self).completed || old(self).status == Status::Completed,
                ..old(self)@
            }),
            final(self)@.is_consistent(),
    {
        if self.status == Status::Completed {
            self.completed = true;
        }
    }
}

impl Default for Task {
    /// A new task with a random identifier, created now.
    fn default() -> (t: Task)
        ensures
            exists|uuid: u128, created: TimestampView|
                created.is_valid() && t@ == TaskView::fresh(uuid, created),
    {
        let uuid = fresh_id();
        let created = current_time();
        Task::new(uuid, created)
    }
}

/// The colour of a list that has none of its own.
pub open spec fn default_color() -> Color {
    Color { red: 0, green: 200, blue: 0 }
}

/// One calendar: a named, coloured, ordered list of tasks.
#[derive(Clone, Debug, PartialEq, Eq)]
pub struct TaskList {
    pub name: String,
    pub tasks: Vec<Task>,
    pub color: Color,
}

/// One calendar, as a mathematical value.
pub struct TaskListView {
    pub name: Seq<char>,
    pub tasks: Seq<TaskView>,
    pub color: Color,
}

impl TaskListView {
    /// The list that a calendar starts as: named "New list", without tasks.
    pub open spec fn empty() -> TaskListView {
        TaskListView { name: "New list"@, tasks: Seq::empty(), color: default_color() }
    }

    /// Whether the dates of every task are valid.
    pub open spec fn is_valid(self) -> bool {
        forall|i: int| 0 <= i < self.tasks.len() ==> (#[trigger] self.tasks[i]).is_valid()
    }

    /// Whether every task whose status is `Completed` is marked completed.
    pub open spec fn is_consistent(self) -> bool {
        forall|i: int| 0 <= i < self.tasks.len() ==> (#[trigger] self.tasks[i]).is_consistent()
    }
}

/// The mathematical values of a sequence of tasks.
pub open spec fn tasks_view(tasks: Seq<Task>) -> Seq<TaskView> {
    tasks.map_values(|t: Task| t@)
}

impl View for TaskList {
    type V = TaskListView;

    open spec fn view(&self) -> TaskListView {
        TaskListView { name: self.name@, tasks: tasks_view(self.tasks@), color: self.color }
    }
}

impl TaskList {
    /// Appends a task to the end of the list.
    pub fn add(&mut self, task: Task)
        ensures
            final(self)@ == (TaskListView {
                tasks: old(self)@.tasks.push(task@),
                ..old(self)@
            }),
            final(self).tasks@ == old(self).tasks@.push(task),
    {
        self.tasks.push(task);
        assert(tasks_view(self.tasks@) == tasks_view(old(self).tasks@).push(task@));
    }
}

impl Default for TaskList {
    /// An empty list named "New list".
    fn default() -> (l: TaskList)
        ensures
            l@ == TaskListView::empty(),
            l.tasks@.len() == 0,
    {
        let l = TaskList {
            name: "New list".to_owned(),
            tasks: Vec::new(),
            color: Color { red: 0, green: 200, blue: 0 },
        };
        assert(tasks_view(l.tasks@) == Seq::<TaskView>::empty());
        l
    }
}

} // verus!
