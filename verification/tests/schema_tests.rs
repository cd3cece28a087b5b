use otto::utils::format_items;
use otto::schema::{RunStatus, TaskStatus};

#[test]
fn test_run_status_conversions() {
    assert_eq!(RunStatus::Running.as_str(), "running");
    assert_eq!(RunStatus::Success.as_str(), "success");
    assert_eq!(RunStatus::Failed.as_str(), "failed");

    assert_eq!(RunStatus::parse("running"), Some(RunStatus::Running));
    assert_eq!(RunStatus::parse("success"), Some(RunStatus::Success));
    assert_eq!(RunStatus::parse("failed"), Some(RunStatus::Failed));
    assert_eq!(RunStatus::parse("invalid"), None);
}

#[test]
fn test_task_status_conversions() {
    assert_eq!(TaskStatus::Pending.as_str(), "pending");
    assert_eq!(TaskStatus::Running.as_str(), "running");
    assert_eq!(TaskStatus::Completed.as_str(), "completed");
    assert_eq!(TaskStatus::Failed.as_str(), "failed");
    assert_eq!(TaskStatus::Skipped.as_str(), "skipped");

    assert_eq!(TaskStatus::parse("pending"), Some(TaskStatus::Pending));
    assert_eq!(TaskStatus::parse("running"), Some(TaskStatus::Running));
    assert_eq!(TaskStatus::parse("completed"), Some(TaskStatus::Completed));
    assert_eq!(TaskStatus::parse("failed"), Some(TaskStatus::Failed));
    assert_eq!(TaskStatus::parse("skipped"), Some(TaskStatus::Skipped));
    assert_eq!(TaskStatus::parse("invalid"), None);
}

#[test]
fn it_works() {
    let result = 2 + 2;
    assert_eq!(result, 4);
}

#[test]
fn items_are_joined_and_wrapped() {
    assert_eq!(format_items(&["a", "b", "c"], Some("("), Some(", "), Some(")")), "(a, b, c)");
    assert_eq!(format_items(&[], Some("["), Some(","), Some("]")), "[]");
    assert_eq!(format_items(&["x"], None, None, None), "x");
}
