use core_engine::task::{TaskState, TaskStatus};

#[test]
fn apply_creates_pending_task() {
    let mut state = TaskState::new();

    let task = state.apply("task-1".to_string(), b"payload".to_vec());

    assert_eq!(task.id, "task-1");
    assert_eq!(task.payload, b"payload");
    assert_eq!(task.status, TaskStatus::Pending);
    assert_eq!(state.len(), 1);
}

#[test]
fn apply_is_idempotent() {
    let mut state = TaskState::new();
    state.apply("task-1".to_string(), b"payload".to_vec());
    state.set_status("task-1", TaskStatus::Completed);

    let task = state.apply("task-1".to_string(), b"payload".to_vec());

    assert_eq!(task.status, TaskStatus::Completed);
}

#[test]
fn status_can_be_advanced() {
    let mut state = TaskState::new();
    state.apply("task-1".to_string(), b"payload".to_vec());

    state.set_status("task-1", TaskStatus::Running);
    let task = state.get("task-1").expect("task exists");
    assert_eq!(task.status, TaskStatus::Running);

    state.set_status("task-1", TaskStatus::Completed);
    let task = state.get("task-1").expect("task exists");
    assert_eq!(task.status, TaskStatus::Completed);
}

#[test]
fn set_status_returns_the_named_task() {
    let mut state = core_engine::task::TaskState::new();
    state.apply("a".to_string(), b"one".to_vec());
    state.apply("b".to_string(), b"two".to_vec());

    let task = state.set_status("b", core_engine::task::TaskStatus::Running).expect("task is known");

    assert_eq!(task.id, "b");
    assert_eq!(task.payload, b"two".to_vec());
    assert_eq!(task.status, core_engine::task::TaskStatus::Running);
    assert!(state.set_status("c", core_engine::task::TaskStatus::Failed).is_none());
    assert_eq!(state.len(), 2);
}
