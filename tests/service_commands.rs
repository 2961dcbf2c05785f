use waloyo::service::{distinct_ids, TaskService};
use waloyo::storage::TaskStorage;
use waloyo::task::{Task, TaskId, TaskPriority, TaskState, Timestamp};

const NOW: Timestamp = Timestamp { secs: 1_760_000_000, nanos: 0 };

fn empty() -> TaskService {
    TaskService::new(TaskStorage::under(None), Vec::new())
}

fn contents(s: &TaskService) -> Vec<String> {
    s.all_tasks().iter().map(|t| t.content.clone()).collect()
}

fn snapshot(s: &TaskService) -> Vec<(u64, String, TaskState, TaskPriority, Option<Timestamp>)> {
    s.all_tasks()
        .iter()
        .map(|t| (t.id.0, t.content.clone(), t.state, t.priority, t.due_date))
        .collect()
}

#[test]
fn add_complete_undo_scenario() {
    let mut s = empty();
    let id = s.add_task("Buy milk !h @today", NOW).unwrap();
    let t = &s.all_tasks()[0];
    assert_eq!(t.content, "Buy milk");
    assert_eq!(t.priority, TaskPriority::High);
    assert_eq!(t.due_date, Some(NOW));
    assert!(s.begin_completing(id));
    assert_eq!(s.all_tasks()[0].state, TaskState::Completing);
    assert!(!s.all_overcome());
    assert!(s.finish_completing(id));
    assert_eq!(s.all_tasks()[0].state, TaskState::Done);
    assert!(s.all_overcome());
    assert!(s.undo());
    assert_eq!(s.all_tasks()[0].state, TaskState::Pending);
    assert!(!s.all_overcome());
}

#[test]
fn tokens_formed_by_removal_are_removed_too() {
    let mut s = empty();
    s.add_task("!!hh x", NOW).unwrap();
    let t = &s.all_tasks()[0];
    assert_eq!(t.content, "x");
    assert_eq!(t.priority, TaskPriority::High);
}

#[test]
fn tomorrow_is_one_day_after_now() {
    let mut s = empty();
    s.add_task("Dentist @tomorrow", NOW).unwrap();
    let t = &s.all_tasks()[0];
    assert_eq!(t.due_date, Some(Timestamp { secs: NOW.secs + 86_400, nanos: 0 }));
    assert_eq!(t.content, "Dentist");
}

#[test]
fn blank_text_adds_nothing() {
    let mut s = empty();
    assert_eq!(s.add_task("", NOW), None);
    assert_eq!(s.add_task("   ", NOW), None);
    assert_eq!(s.add_task("!h", NOW), None);
    assert_eq!(s.add_task("  @today !m ", NOW), None);
    assert!(s.all_tasks().is_empty());
    assert_eq!(s.history_len(), 0);
    assert!(!s.save_requested());
}

#[test]
fn ids_are_fresh_and_increasing() {
    let mut s = empty();
    let a = s.add_task("one", NOW).unwrap();
    let b = s.add_task("two", NOW).unwrap();
    s.remove_task(b);
    let c = s.add_task("three", NOW).unwrap();
    assert_eq!(a, TaskId(1));
    assert_eq!(b, TaskId(2));
    assert_eq!(c, TaskId(3));
}

#[test]
fn ids_continue_after_loaded_tasks() {
    let loaded = vec![
        Task::new(TaskId(7), String::from("old")),
        Task::new(TaskId(3), String::from("older")),
    ];
    let mut s = TaskService::new(TaskStorage::under(None), loaded);
    assert_eq!(s.add_task("new", NOW), Some(TaskId(8)));
    let full = vec![Task::new(TaskId(u64::MAX), String::from("last"))];
    let mut t = TaskService::new(TaskStorage::under(None), full);
    assert_eq!(t.add_task("no room", NOW), None);
    assert_eq!(t.all_tasks().len(), 1);
}

#[test]
fn remove_unknown_id_changes_nothing() {
    let mut s = empty();
    let id = s.add_task("Keep me", NOW).unwrap();
    assert!(s.take_save_request());
    let depth = s.history_len();
    assert!(s.remove_task(TaskId(id.0 + 100)).is_none());
    assert_eq!(s.history_len(), depth);
    assert!(!s.save_requested());
    assert_eq!(contents(&s), vec!["Keep me"]);
}

#[test]
fn remove_hands_back_the_task_and_undo_puts_it_back_in_place() {
    let mut s = empty();
    s.add_task("a", NOW);
    let b = s.add_task("b", NOW).unwrap();
    s.add_task("c", NOW);
    let removed = s.remove_task(b).unwrap();
    assert_eq!(removed.content, "b");
    assert_eq!(contents(&s), vec!["a", "c"]);
    assert!(s.save_requested());
    assert!(s.undo());
    assert_eq!(contents(&s), vec!["a", "b", "c"]);
}

#[test]
fn update_content_and_undo() {
    let mut s = empty();
    let id = s.add_task("draft", NOW).unwrap();
    s.take_save_request();
    assert!(s.update_task_content(id, "final"));
    assert_eq!(contents(&s), vec!["final"]);
    assert!(s.take_save_request());
    assert!(s.undo());
    assert_eq!(contents(&s), vec!["draft"]);
}

#[test]
fn update_without_change_records_nothing() {
    let mut s = empty();
    let id = s.add_task("same", NOW).unwrap();
    s.take_save_request();
    let depth = s.history_len();
    assert!(s.update_task_content(id, "same"));
    assert!(s.update_task_content(id, ""));
    assert_eq!(s.history_len(), depth);
    assert!(!s.save_requested());
    assert!(!s.update_task_content(TaskId(99), "other"));
    assert_eq!(contents(&s), vec!["same"]);
}

#[test]
fn undo_with_empty_history() {
    let mut s = empty();
    assert!(!s.undo());
    assert!(!s.save_requested());
}

#[test]
fn operations_then_as_many_undos_restore_the_store() {
    let mut s = empty();
    s.add_task("first !m", NOW);
    let second = s.add_task("second", NOW).unwrap();
    s.take_save_request();
    let before = snapshot(&s);
    let depth = s.history_len();

    let third = s.add_task("third @tomorrow", NOW).unwrap();
    assert!(s.update_task_content(second, "second, edited"));
    assert!(s.finish_completing(third));
    assert!(s.remove_task(second).is_some());
    assert!(s.update_task_content(third, "third, edited"));
    for _ in 0..5 {
        assert!(s.undo());
    }
    assert_eq!(snapshot(&s), before);
    assert_eq!(s.history_len(), depth);
}

#[test]
fn begin_completing_only_from_pending() {
    let mut s = empty();
    let id = s.add_task("x", NOW).unwrap();
    let depth = s.history_len();
    s.take_save_request();
    assert!(s.begin_completing(id));
    assert!(!s.begin_completing(id));
    assert_eq!(s.history_len(), depth);
    assert!(!s.save_requested());
    assert!(!s.begin_completing(TaskId(42)));
    assert!(!s.finish_completing(TaskId(42)));
}

#[test]
fn all_overcome_needs_a_nonempty_store_of_done_tasks() {
    let mut s = empty();
    assert!(!s.all_overcome());
    let a = s.add_task("a", NOW).unwrap();
    let b = s.add_task("b", NOW).unwrap();
    s.finish_completing(a);
    assert!(!s.all_overcome());
    s.begin_completing(b);
    assert!(!s.all_overcome());
    s.finish_completing(b);
    assert!(s.all_overcome());
}

#[test]
fn counts_and_filters() {
    let mut s = empty();
    let a = s.add_task("a", NOW).unwrap();
    let b = s.add_task("b", NOW).unwrap();
    s.add_task("c", NOW);
    s.finish_completing(a);
    s.begin_completing(b);
    assert_eq!(s.pending_count(), 1);
    assert_eq!(s.completed_count(), 1);
    let pending: Vec<String> = s.pending_tasks().into_iter().map(|t| t.content).collect();
    assert_eq!(pending, vec!["c"]);
    let done: Vec<String> = s.completed_tasks().into_iter().map(|t| t.content).collect();
    assert_eq!(done, vec!["a"]);
}

#[test]
fn first_run_seeds_sample_tasks_without_history() {
    let s = TaskService::new_with_defaults(TaskStorage::under(None), Vec::new(), NOW);
    assert_eq!(s.all_tasks().len(), 5);
    assert_eq!(s.history_len(), 0);
    assert!(s.save_requested());
    let t = &s.all_tasks()[1];
    assert_eq!(t.content, "Build Waloyo task manager");
    assert_eq!(t.priority, TaskPriority::High);
    assert_eq!(t.due_date, Some(NOW));
    assert_eq!(s.all_tasks()[0].priority, TaskPriority::Medium);
    assert_eq!(
        s.all_tasks()[2].due_date,
        Some(Timestamp { secs: NOW.secs + 86_400, nanos: 0 })
    );
}

#[test]
fn loaded_tasks_are_not_seeded() {
    let loaded = vec![Task::new(TaskId(1), String::from("mine"))];
    let s = TaskService::new_with_defaults(TaskStorage::under(None), loaded, NOW);
    assert_eq!(contents(&s), vec!["mine"]);
    assert!(!s.save_requested());
    let fresh = TaskService::new_with_defaults(TaskStorage::under(None), Vec::new(), NOW);
    assert_eq!(fresh.all_tasks().len(), 5);
}

#[test]
fn storage_is_kept() {
    let s = TaskService::new(TaskStorage::under(Some(String::from("/h"))), Vec::new());
    assert_eq!(s.storage().file_path(), "/h/.waloyo/tasks.json");
}

#[test]
fn duplicate_ids_are_detected() {
    let ok = vec![Task::new(TaskId(1), String::from("a")), Task::new(TaskId(2), String::from("b"))];
    assert!(distinct_ids(&ok));
    let dup = vec![
        Task::new(TaskId(4), String::from("a")),
        Task::new(TaskId(5), String::from("b")),
        Task::new(TaskId(4), String::from("c")),
    ];
    assert!(!distinct_ids(&dup));
    assert!(distinct_ids(&[]));
}

#[test]
fn finishing_a_completing_task_and_undoing_reopens_it() {
    let mut s = empty();
    let id = s.add_task("Walk the dog", NOW).unwrap();
    s.take_save_request();
    let before = contents(&s);
    assert!(s.begin_completing(id));
    assert!(s.finish_completing(id));
    assert!(s.undo());
    assert_eq!(contents(&s), before);
    assert_eq!(s.all_tasks()[0].state, TaskState::Pending);
    assert_eq!(s.history_len(), 1);
}

#[test]
fn loaded_tasks_are_stamped_once() {
    let t = waloyo::storage::TaskData {
        id: 1,
        content: String::from("x"),
        notes: None,
        state: String::from("pending"),
        priority: None,
        due_date: None,
    }
    .into_task();
    assert_eq!(t.created_at, t.updated_at);
}
