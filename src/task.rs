//! The task entity and its lifecycle state machine.

use vstd::prelude::*;

use crate::clock::instant_now;

verus! {

/// Lifecycle state of a task.
///
/// `Pending` is the initial state; `Completing` is the short-lived state in
/// which the front end plays its completion animation; `Done` is terminal in
/// the normal flow and is left only when a completion is undone.
#[derive(Debug, Clone, Copy, PartialEq, Eq, Structural)]
pub enum TaskState {
    Pending,
    Completing,
    Done,
}

impl Default for TaskState {
    fn default() -> (r: TaskState)
        ensures
            r == TaskState::Pending,
    {
        TaskState::Pending
    }
}

/// Priority level of a task; `Low` is the default.
#[derive(Debug, Clone, Copy, PartialEq, Eq, Structural, PartialOrd, Ord, Hash)]
pub enum TaskPriority {
    Low,
    Medium,
    High,
}

impl Default for TaskPriority {
    fn default() -> (r: TaskPriority)
        ensures
            r == TaskPriority::Low,
    {
        TaskPriority::Low
    }
}

/// Identity of a task. Identifiers are handed out in increasing order by
/// the owner of a counter and are never reused.
#[derive(Debug, Clone, Copy, PartialEq, Eq, Structural, Hash)]
pub struct TaskId(pub u64);

impl TaskId {
    /// Takes the next identifier from `next` and advances the counter.
    pub fn new(next: &mut u64) -> (id: TaskId)
        requires
            *old(next) < u64::MAX,
        ensures
            id.0 == *old(next),
            *final(next) == *old(next) + 1,
    {
        let id = TaskId(*next);
        *next = *next + 1;
        id
    }
}

/// A wall-clock instant: whole seconds since the Unix epoch and the
/// nanoseconds within that second. Rendered in the local time zone.
#[derive(Debug, Clone, Copy, PartialEq, Eq, Structural, Hash)]
pub struct Timestamp {
    pub secs: i64,
    pub nanos: u32,
}

/// Seconds in one day.
pub const SECS_PER_DAY: i64 = 86400;

/// Bound on the seconds of the instants that tasks are added at, in both
/// directions. It is wider than any date a calendar library represents
/// (chrono's span is about 8.3e12 seconds each way) and leaves room to add
/// days without overflow.
pub const TIMESTAMP_LIMIT: i64 = 10_000_000_000_000;

impl Timestamp {
    /// The instant one day (86400 seconds) later.
    pub open spec fn spec_next_day(self) -> Timestamp {
        Timestamp { secs: (self.secs + SECS_PER_DAY) as i64, nanos: self.nanos }
    }

    pub fn next_day(self) -> (r: Timestamp)
        requires
            -TIMESTAMP_LIMIT < self.secs < TIMESTAMP_LIMIT,
        ensures
            r == self.spec_next_day(),
            r.secs == self.secs + SECS_PER_DAY,
    {
        Timestamp { secs: self.secs + SECS_PER_DAY, nanos: self.nanos }
    }
}

/// What a task is, apart from its monotonic lifecycle stamps.
pub struct TaskView {
    pub id: u64,
    pub content: Seq<char>,
    pub notes: Option<Seq<char>>,
    pub state: TaskState,
    pub priority: TaskPriority,
    pub due_date: Option<Timestamp>,
}

pub open spec fn optional_text(s: Option<String>) -> Option<Seq<char>> {
    match s {
        Some(t) => Some(t@),
        None => None,
    }
}

/// A to-do item.
#[derive(Debug)]
pub struct Task {
    pub id: TaskId,
    pub content: String,
    pub notes: Option<String>,
    pub state: TaskState,
    pub priority: TaskPriority,
    pub due_date: Option<Timestamp>,
    pub created_at: std::time::Instant,
    pub updated_at: std::time::Instant,
}

impl View for Task {
    type V = TaskView;

    open spec fn view(&self) -> TaskView {
        TaskView {
            id: self.id.0,
            content: self.content@,
            notes: optional_text(self.notes),
            state: self.state,
            priority: self.priority,
            due_date: self.due_date,
        }
    }
}

impl TaskView {
    pub open spec fn with_state(self, state: TaskState) -> TaskView {
        TaskView { state, ..self }
    }

    pub open spec fn with_content(self, content: Seq<char>) -> TaskView {
        TaskView { content, ..self }
    }
}

fn clone_notes(notes: &Option<String>) -> (r: Option<String>)
    ensures
        r == *notes,
{
    match notes {
        Some(s) => Some(s.clone()),
        None => None,
    }
}

impl Clone for Task {
    fn clone(&self) -> (r: Task)
        ensures
            r == *self,
    {
        Task {
            id: self.id,
            content: self.content.clone(),
            notes: clone_notes(&self.notes),
            state: self.state,
            priority: self.priority,
            due_date: self.due_date,
            created_at: self.created_at,
            updated_at: self.updated_at,
        }
    }
}

impl Task {
    /// A new pending task of low priority, without notes or due date,
    /// stamped now.
    pub fn new(id: TaskId, content: String) -> (t: Task)
        ensures
            t@ == (TaskView {
                id: id.0,
                content: content@,
                notes: None,
                state: TaskState::Pending,
                priority: TaskPriority::Low,
                due_date: None,
            }),
            t.created_at == t.updated_at,
    {
        let now = instant_now();
        Task {
            id,
            content,
            notes: None,
            state: TaskState::Pending,
            priority: TaskPriority::Low,
            due_date: None,
            created_at: now,
            updated_at: now,
        }
    }

    /// Starts the completion of a pending task. On a task in any other state
    /// nothing changes, which tells the caller that no transition happened.
    pub fn begin_completing(&mut self)
        ensures
            old(self).state == TaskState::Pending ==> final(self)@ == old(self)@.with_state(
                TaskState::Completing,
            ) && final(self).created_at == old(self).created_at,
            old(self).state != TaskState::Pending ==> *final(self) == *old(self),
    {
        if self.state == TaskState::Pending {
            self.state = TaskState::Completing;
            self.updated_at = instant_now();
        }
    }

    /// Marks the task done, from whatever state it is in.
    pub fn complete(&mut self)
        ensures
            final(self)@ == old(self)@.with_state(TaskState::Done),
            final(self).created_at == old(self).created_at,
    {
        self.state = TaskState::Done;
        self.updated_at = instant_now();
    }

    /// Replaces the content and stamps the change.
    pub fn set_content(&mut self, content: String)
        ensures
            final(self)@ == old(self)@.with_content(content@),
            final(self).created_at == old(self).created_at,
    {
        self.content = content;
        self.updated_at = instant_now();
    }

    /// Takes a completed task back to `Pending`, skipping `Completing`;
    /// this is how a completion is undone.
    pub fn reopen(&mut self)
        ensures
            final(self)@ == old(self)@.with_state(TaskState::Pending),
            final(self).created_at == old(self).created_at,
    {
        self.state = TaskState::Pending;
        self.updated_at = instant_now();
    }

    pub fn is_pending(&self) -> (r: bool)
        ensures
            r == (self.state == TaskState::Pending),
    {
        self.state == TaskState::Pending
    }

    pub fn is_completing(&self) -> (r: bool)
        ensures
            r == (self.state == TaskState::Completing),
    {
        self.state == TaskState::Completing
    }

    pub fn is_done(&self) -> (r: bool)
        ensures
            r == (self.state == TaskState::Done),
    {
        self.state == TaskState::Done
    }
}

/// The event a text input raises when the user submits a new task.
#[derive(Debug, Clone)]
pub struct TaskSubmitted(pub String);

} // verus!
