use core_engine::protocol::task_status::{decode_task_status_query, encode_task_status_query, TaskStatusReport};
use core_engine::protocol::ProtocolError;
use core_engine::task::TaskStatus;

#[test]
fn task_status_query_has_documented_layout() {
    let payload = encode_task_status_query("t-1").expect("query encodes");

    assert_eq!(payload, vec![0, 3, b't', b'-', b'1']);
    assert_eq!(decode_task_status_query(&payload), Some("t-1".to_string()));
    assert_eq!(decode_task_status_query(&[0, 3, b't']), None);
    assert_eq!(encode_task_status_query(&"q".repeat(70_000)), Err(ProtocolError::PayloadTooLarge));
}

#[test]
fn task_status_report_has_documented_layout() {
    let report = TaskStatusReport { status: TaskStatus::Completed, output: "ok".to_string(), error: String::new() };

    let payload = report.encode().expect("report encodes");

    assert_eq!(payload, vec![2, 0, 0, 0, 2, b'o', b'k', 0, 0, 0, 0]);
    assert_eq!(TaskStatusReport::decode(&payload), Some(report));
}

#[test]
fn task_status_report_rejects_unknown_status_and_trailing_bytes() {
    assert_eq!(TaskStatusReport::decode(&[4, 0, 0, 0, 0, 0, 0, 0, 0]), None);
    assert_eq!(TaskStatusReport::decode(&[3, 0, 0, 0, 0, 0, 0, 0, 0, 9]), None);
    assert_eq!(
        TaskStatusReport::decode(&[3, 0, 0, 0, 0, 0, 0, 0, 1, b'x']),
        Some(TaskStatusReport { status: TaskStatus::Failed, output: String::new(), error: "x".to_string() })
    );
}
