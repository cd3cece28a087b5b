use otto::colors::{colorize_task_prefix, TaskOrder};
use otto::output::{format_terminal_output, stream_log_paths, to_tui_status, TuiTaskStatus};
use otto::scheduler::TaskStatus;

#[test]
fn test_no_prefix_omits_task_prefix() {
    let out = format_terminal_output(&TaskOrder::new(), "loud-task", b"hello\n", true, true);
    assert_eq!(out, "hello\n");
}

#[test]
fn test_prefix_present_by_default() {
    let out = format_terminal_output(&TaskOrder::new(), "loud-task", b"hello\n", false, true);
    assert!(out.contains("loud-task"));
    assert!(out.contains("hello\n"));
}

#[test]
fn test_prefix_is_plain_for_a_stream_that_takes_no_colour() {
    let out = format_terminal_output(&TaskOrder::new(), "loud-task", b"hello\n", false, false);
    assert_eq!(out, "[loud-task] hello\n");
}

#[test]
fn test_prefix_defers_to_colored_for_a_stream_that_takes_colour() {
    let order = TaskOrder::new();
    let out = format_terminal_output(&order, "loud-task", b"hello\n", false, true);
    assert_eq!(out, format!("{} hello\n", colorize_task_prefix(&order, "loud-task")));
}

#[test]
fn an_invalid_byte_becomes_a_replacement_character() {
    let out = format_terminal_output(&TaskOrder::new(), "t", b"a\xffb", true, false);
    assert_eq!(out, "a\u{fffd}b");
}

#[test]
fn logs_sit_in_the_tasks_directory() {
    let (out, err) = stream_log_paths("build", "/tmp/run");
    assert_eq!(out, "/tmp/run/build/stdout.log");
    assert_eq!(err, "/tmp/run/build/stderr.log");
}

#[test]
fn a_failure_shows_as_failed() {
    assert_eq!(to_tui_status(&TaskStatus::Failed("x".to_string())), TuiTaskStatus::Failed);
    assert_eq!(to_tui_status(&TaskStatus::Skipped), TuiTaskStatus::Skipped);
}
