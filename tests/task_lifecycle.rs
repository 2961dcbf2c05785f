use waloyo::task::{Task, TaskId, TaskPriority, TaskState, Timestamp};

fn sample(id: u64) -> Task {
    Task::new(TaskId(id), String::from("Water the plants"))
}

#[test]
fn new_task_is_pending_low_priority() {
    let t = sample(3);
    assert_eq!(t.id, TaskId(3));
    assert_eq!(t.content, "Water the plants");
    assert_eq!(t.state, TaskState::Pending);
    assert_eq!(t.priority, TaskPriority::Low);
    assert_eq!(t.due_date, None);
    assert_eq!(t.notes, None);
    assert_eq!(t.created_at, t.updated_at);
}

#[test]
fn id_counter_hands_out_increasing_ids() {
    let mut next: u64 = 1;
    let a = TaskId::new(&mut next);
    let b = TaskId::new(&mut next);
    assert_eq!(a, TaskId(1));
    assert_eq!(b, TaskId(2));
    assert_eq!(next, 3);
}

#[test]
fn begin_completing_moves_pending_to_completing() {
    let mut t = sample(1);
    t.begin_completing();
    assert_eq!(t.state, TaskState::Completing);
    assert!(t.is_completing());
    assert!(!t.is_pending());
}

#[test]
fn begin_completing_elsewhere_changes_nothing() {
    let mut t = sample(1);
    t.complete();
    let stamp = t.updated_at;
    t.begin_completing();
    assert_eq!(t.state, TaskState::Done);
    assert_eq!(t.updated_at, stamp);

    let mut c = sample(2);
    c.begin_completing();
    c.begin_completing();
    assert_eq!(c.state, TaskState::Completing);
}

#[test]
fn complete_from_any_state_is_done() {
    let mut t = sample(1);
    t.complete();
    assert!(t.is_done());
    let mut c = sample(2);
    c.begin_completing();
    c.complete();
    assert!(c.is_done());
}

#[test]
fn reopen_returns_to_pending() {
    let mut t = sample(1);
    t.begin_completing();
    t.complete();
    t.reopen();
    assert_eq!(t.state, TaskState::Pending);
}

#[test]
fn set_content_replaces_text() {
    let mut t = sample(1);
    t.set_content(String::from("Water the garden"));
    assert_eq!(t.content, "Water the garden");
    assert!(t.updated_at >= t.created_at);
}

#[test]
fn clone_keeps_every_field() {
    let mut t = sample(9);
    t.notes = Some(String::from("north window"));
    t.due_date = Some(Timestamp { secs: 1_700_000_000, nanos: 5 });
    let c = t.clone();
    assert_eq!(c.id, t.id);
    assert_eq!(c.content, t.content);
    assert_eq!(c.notes, t.notes);
    assert_eq!(c.due_date, t.due_date);
    assert_eq!(c.created_at, t.created_at);
}

#[test]
fn next_day_adds_a_day_of_seconds() {
    let t = Timestamp { secs: 1_700_000_000, nanos: 42 };
    assert_eq!(t.next_day(), Timestamp { secs: 1_700_086_400, nanos: 42 });
}

#[test]
fn defaults_are_pending_and_low() {
    assert_eq!(TaskState::default(), TaskState::Pending);
    assert_eq!(TaskPriority::default(), TaskPriority::Low);
    assert!(TaskPriority::High > TaskPriority::Medium && TaskPriority::Medium > TaskPriority::Low);
}
