//! The durable form of the task store: one record per task inside a
//! versioned envelope, and where that file lives.
//!
//! Only durable facts are kept. `Completing` is written as `"pending"`;
//! when read back, any state other than `"done"` is `Pending` and any
//! priority other than `"high"` or `"medium"`, or none at all, is `Low`.

use vstd::prelude::*;
use vstd::string::StringExecFns;

use crate::clock::instant_now;
use crate::task::{optional_text, Task, TaskId, TaskPriority, TaskState, TaskView, Timestamp};
use crate::text::{chars_of, same_text};

verus! {

/// Version of the envelope written by this library.
pub const SCHEMA_VERSION: u32 = 1;

pub open spec fn state_text(s: TaskState) -> Seq<char> {
    match s {
        TaskState::Done => "done"@,
        _ => "pending"@,
    }
}

pub open spec fn priority_text(p: TaskPriority) -> Seq<char> {
    match p {
        TaskPriority::Low => "low"@,
        TaskPriority::Medium => "medium"@,
        TaskPriority::High => "high"@,
    }
}

pub open spec fn state_from_text(t: Seq<char>) -> TaskState {
    if t == "done"@ {
        TaskState::Done
    } else {
        TaskState::Pending
    }
}

pub open spec fn priority_from_text(t: Option<Seq<char>>) -> TaskPriority {
    match t {
        Some(x) => if x == "high"@ {
            TaskPriority::High
        } else if x == "medium"@ {
            TaskPriority::Medium
        } else {
            TaskPriority::Low
        },
        None => TaskPriority::Low,
    }
}

/// The state that survives a save: the transient `Completing` collapses to
/// `Pending`.
pub open spec fn durable_state(s: TaskState) -> TaskState {
    match s {
        TaskState::Done => TaskState::Done,
        _ => TaskState::Pending,
    }
}

/// What a task looks like after a save and a load.
pub open spec fn durable(t: TaskView) -> TaskView {
    t.with_state(durable_state(t.state))
}

pub struct TaskDataView {
    pub id: u64,
    pub content: Seq<char>,
    pub notes: Option<Seq<char>>,
    pub state: Seq<char>,
    pub priority: Option<Seq<char>>,
    pub due_date: Option<Timestamp>,
}

/// The record that a task is written as.
pub open spec fn record_of(t: TaskView) -> TaskDataView {
    TaskDataView {
        id: t.id,
        content: t.content,
        notes: t.notes,
        state: state_text(t.state),
        priority: Some(priority_text(t.priority)),
        due_date: t.due_date,
    }
}

/// The task that a record is read as.
pub open spec fn task_of_record(d: TaskDataView) -> TaskView {
    TaskView {
        id: d.id,
        content: d.content,
        notes: d.notes,
        state: state_from_text(d.state),
        priority: priority_from_text(d.priority),
        due_date: d.due_date,
    }
}

/// Writing a task and reading it back keeps its id, content, notes,
/// priority and due date, and collapses a `Completing` state to `Pending`.
pub proof fn lemma_record_round_trip(t: TaskView)
    ensures
        task_of_record(record_of(t)) == durable(t),
{
    reveal_strlit("done");
    reveal_strlit("pending");
    reveal_strlit("low");
    reveal_strlit("medium");
    reveal_strlit("high");
    assert("pending"@.len() != "done"@.len());
    assert("low"@.len() != "high"@.len() && "low"@.len() != "medium"@.len());
    assert("medium"@.len() != "high"@.len());
}

/// Saving a store and loading it back gives the same tasks in the same
/// order, each as `durable` describes it.
pub proof fn lemma_store_round_trip(tasks: Seq<TaskView>)
    ensures
        tasks.map_values(|t: TaskView| task_of_record(record_of(t))) == tasks.map_values(
            |t: TaskView| durable(t),
        ),
{
    assert forall|i: int| 0 <= i < tasks.len() implies task_of_record(record_of(tasks[i]))
        == durable(tasks[i]) by {
        lemma_record_round_trip(tasks[i]);
    }
    assert(tasks.map_values(|t: TaskView| task_of_record(record_of(t))) =~= tasks.map_values(
        |t: TaskView| durable(t),
    ));
}

/// One task as persisted. Fields that older files lack are optional.
#[derive(Debug)]
pub struct TaskData {
    pub id: u64,
    pub content: String,
    pub notes: Option<String>,
    pub state: String,
    pub priority: Option<String>,
    pub due_date: Option<Timestamp>,
}

impl View for TaskData {
    type V = TaskDataView;

    open spec fn view(&self) -> TaskDataView {
        TaskDataView {
            id: self.id,
            content: self.content@,
            notes: optional_text(self.notes),
            state: self.state@,
            priority: optional_text(self.priority),
            due_date: self.due_date,
        }
    }
}

fn copy_text(s: &Option<String>) -> (r: Option<String>)
    ensures
        r == *s,
{
    match s {
        Some(x) => Some(x.clone()),
        None => None,
    }
}

impl TaskData {
    /// The record that `task` is written as.
    pub fn from(task: &Task) -> (r: TaskData)
        ensures
            r@ == record_of(task@),
    {
        let state = match task.state {
            TaskState::Done => String::from_str("done"),
            _ => String::from_str("pending"),
        };
        let priority = match task.priority {
            TaskPriority::Low => String::from_str("low"),
            TaskPriority::Medium => String::from_str("medium"),
            TaskPriority::High => String::from_str("high"),
        };
        TaskData {
            id: task.id.0,
            content: task.content.clone(),
            notes: copy_text(&task.notes),
            state,
            priority: Some(priority),
            due_date: task.due_date,
        }
    }

    /// The task that this record is read as, stamped now.
    pub fn into_task(self) -> (t: Task)
        ensures
            t@ == task_of_record(self@),
            t.created_at == t.updated_at,
    {
        let now = instant_now();
        let state = if same_text(self.state.as_str(), "done") {
            TaskState::Done
        } else {
            TaskState::Pending
        };
        let priority = match &self.priority {
            Some(p) => if same_text(p.as_str(), "high") {
                TaskPriority::High
            } else if same_text(p.as_str(), "medium") {
                TaskPriority::Medium
            } else {
                TaskPriority::Low
            },
            None => TaskPriority::Low,
        };
        Task {
            id: TaskId(self.id),
            content: self.content,
            notes: self.notes,
            state,
            priority,
            due_date: self.due_date,
            created_at: now,
            updated_at: now,
        }
    }
}

/// The persisted envelope: a schema version and the tasks in store order.
#[derive(Debug)]
pub struct StorageData {
    pub version: u32,
    pub tasks: Vec<TaskData>,
}

impl StorageData {
    /// An empty envelope of the current version.
    pub fn new() -> (r: StorageData)
        ensures
            r.version == SCHEMA_VERSION,
            r.tasks@.len() == 0,
    {
        StorageData { version: SCHEMA_VERSION, tasks: Vec::new() }
    }

    /// The envelope that `tasks` are written as, in store order.
    pub fn from_tasks(tasks: &[Task]) -> (r: StorageData)
        ensures
            r.version == SCHEMA_VERSION,
            r.tasks@.len() == tasks@.len(),
            forall|i: int| 0 <= i < tasks@.len() ==> #[trigger] r.tasks@[i]@ == record_of(tasks@[i]@),
    {
        let mut records: Vec<TaskData> = Vec::new();
        let mut i: usize = 0;
        while i < tasks.len()
            invariant
                i <= tasks@.len(),
                records@.len() == i,
                forall|k: int| 0 <= k < i ==> #[trigger] records@[k]@ == record_of(tasks@[k]@),
            decreases tasks@.len() - i,
        {
            records.push(TaskData::from(&tasks[i]));
            i = i + 1;
        }
        StorageData { version: SCHEMA_VERSION, tasks: records }
    }

    /// The tasks that this envelope is read as, in file order.
    pub fn into_tasks(self) -> (r: Vec<Task>)
        ensures
            r@.len() == self.tasks@.len(),
            forall|i: int| 0 <= i < r@.len() ==> #[trigger] r@[i]@ == task_of_record(self.tasks@[i]@),
    {
        let ghost records = self.tasks@;
        let mut tasks: Vec<Task> = Vec::new();
        for d in it: self.tasks
            invariant
                it.seq() == records,
                tasks@.len() == it.index(),
                forall|k: int| 0 <= k < it.index() ==> #[trigger] tasks@[k]@ == task_of_record(
                    records[k]@,
                ),
        {
            tasks.push(d.into_task());
        }
        tasks
    }
}

/// `base` extended by the relative path `part`, with a separator between
/// them unless `base` is empty or already ends in one.
pub open spec fn join_path(base: Seq<char>, part: Seq<char>) -> Seq<char> {
    if base.len() == 0 || base.last() == '/' {
        base + part
    } else {
        base + seq!['/'] + part
    }
}

/// The directory that holds the task file under the home directory `home`,
/// or under the working directory where there is no home.
pub open spec fn storage_dir(home: Option<Seq<char>>) -> Seq<char> {
    let base = match home {
        Some(h) => h,
        None => "."@,
    };
    join_path(base, ".waloyo"@)
}

pub open spec fn storage_file(home: Option<Seq<char>>) -> Seq<char> {
    join_path(storage_dir(home), "tasks.json"@)
}

fn join(base: String, part: &str) -> (r: String)
    ensures
        r@ == join_path(base@, part@),
{
    let cs = chars_of(base.as_str());
    let mut out = base;
    if cs.len() > 0 && cs[cs.len() - 1] != '/' {
        out.append("/");
        proof {
            reveal_strlit("/");
        }
    }
    out.append(part);
    out
}

/// Relies on `dirs::home_dir`: the user's home directory, if the platform
/// reports one. A path that is not valid Unicode counts as none.
#[verifier::external_body]
fn home_dir() -> (r: Option<String>) {
    match dirs::home_dir() {
        Some(p) => p.into_os_string().into_string().ok(),
        None => None,
    }
}

/// Where the task file lives.
#[derive(Debug)]
pub struct TaskStorage {
    dir: String,
    file_path: String,
}

impl TaskStorage {
    /// Storage at the fixed per-user location, `~/.waloyo/tasks.json`.
    pub fn new() -> (r: TaskStorage)
        ensures
            exists|home: Option<Seq<char>>|
                r.spec_dir() == storage_dir(home) && r.spec_file_path() == storage_file(home),
    {
        TaskStorage::under(home_dir())
    }

    /// Storage for the home directory `home` (`None`: no home is known).
    pub fn under(home: Option<String>) -> (r: TaskStorage)
        ensures
            r.spec_dir() == storage_dir(optional_text(home)),
            r.spec_file_path() == storage_file(optional_text(home)),
    {
        let base = match home {
            Some(h) => h,
            None => String::from_str("."),
        };
        let dir = join(base, ".waloyo");
        let file_path = join(dir.clone(), "tasks.json");
        TaskStorage { dir, file_path }
    }

    pub closed spec fn spec_dir(&self) -> Seq<char> {
        self.dir@
    }

    pub closed spec fn spec_file_path(&self) -> Seq<char> {
        self.file_path@
    }

    /// The directory that must exist before the file is written.
    pub fn dir(&self) -> (r: &str)
        ensures
            r@ == self.spec_dir(),
    {
        self.dir.as_str()
    }

    /// The task file.
    pub fn file_path(&self) -> (r: &str)
        ensures
            r@ == self.spec_file_path(),
    {
        self.file_path.as_str()
    }
}

} // verus!
