use waloyo::storage::{StorageData, TaskData, TaskStorage, SCHEMA_VERSION};
use waloyo::task::{Task, TaskId, TaskPriority, TaskState, Timestamp};

fn record(id: u64, state: &str, priority: Option<&str>) -> TaskData {
    TaskData {
        id,
        content: String::from("Read a book"),
        notes: None,
        state: String::from(state),
        priority: priority.map(String::from),
        due_date: None,
    }
}

#[test]
fn missing_priority_loads_as_low() {
    let t = record(4, "pending", None).into_task();
    assert_eq!(t.priority, TaskPriority::Low);
    assert_eq!(t.id, TaskId(4));
    assert_eq!(t.content, "Read a book");
}

#[test]
fn unknown_values_load_leniently() {
    let t = record(1, "archived", Some("urgent")).into_task();
    assert_eq!(t.state, TaskState::Pending);
    assert_eq!(t.priority, TaskPriority::Low);
    let d = record(2, "done", Some("medium")).into_task();
    assert_eq!(d.state, TaskState::Done);
    assert_eq!(d.priority, TaskPriority::Medium);
    let h = record(3, "DONE", Some("high")).into_task();
    assert_eq!(h.state, TaskState::Pending);
    assert_eq!(h.priority, TaskPriority::High);
}

#[test]
fn records_spell_state_and_priority() {
    let mut t = Task::new(TaskId(8), String::from("Fix bike"));
    t.priority = TaskPriority::Medium;
    t.notes = Some(String::from("rear tyre"));
    t.begin_completing();
    let d = TaskData::from(&t);
    assert_eq!(d.id, 8);
    assert_eq!(d.state, "pending");
    assert_eq!(d.priority.as_deref(), Some("medium"));
    assert_eq!(d.notes.as_deref(), Some("rear tyre"));
    t.complete();
    assert_eq!(TaskData::from(&t).state, "done");
}

#[test]
fn save_then_load_round_trip() {
    let due = Timestamp { secs: 1_717_171_717, nanos: 123 };
    let mut a = Task::new(TaskId(1), String::from("Buy milk"));
    a.priority = TaskPriority::High;
    a.due_date = Some(due);
    let mut b = Task::new(TaskId(2), String::from("Call mom"));
    b.begin_completing();
    let mut c = Task::new(TaskId(5), String::from("Pay rent"));
    c.complete();
    c.notes = Some(String::from("by Friday"));
    let tasks = vec![a, b, c];

    let data = StorageData::from_tasks(&tasks);
    assert_eq!(data.version, SCHEMA_VERSION);
    let back = data.into_tasks();
    assert_eq!(back.len(), 3);
    for (x, y) in tasks.iter().zip(back.iter()) {
        assert_eq!(x.id, y.id);
        assert_eq!(x.content, y.content);
        assert_eq!(x.priority, y.priority);
        assert_eq!(x.due_date, y.due_date);
        assert_eq!(x.notes, y.notes);
    }
    assert_eq!(back[0].state, TaskState::Pending);
    assert_eq!(back[1].state, TaskState::Pending);
    assert_eq!(back[2].state, TaskState::Done);
}

#[test]
fn empty_envelope() {
    let d = StorageData::new();
    assert_eq!(d.version, 1);
    assert!(d.tasks.is_empty());
    assert!(d.into_tasks().is_empty());
}

#[test]
fn storage_lives_under_home() {
    let s = TaskStorage::under(Some(String::from("/home/ana")));
    assert_eq!(s.dir(), "/home/ana/.waloyo");
    assert_eq!(s.file_path(), "/home/ana/.waloyo/tasks.json");
    let t = TaskStorage::under(Some(String::from("/home/ana/")));
    assert_eq!(t.file_path(), "/home/ana/.waloyo/tasks.json");
}

#[test]
fn storage_without_home_uses_working_directory() {
    let s = TaskStorage::under(None);
    assert_eq!(s.dir(), "./.waloyo");
    assert_eq!(s.file_path(), "./.waloyo/tasks.json");
}

#[test]
fn default_storage_ends_in_task_file() {
    let s = TaskStorage::new();
    assert!(s.file_path().ends_with(".waloyo/tasks.json"));
    assert!(s.file_path().starts_with(s.dir()));
}
