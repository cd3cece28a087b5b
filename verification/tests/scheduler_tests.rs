use otto::scheduler::{FileState, RunStep, TaskScheduler, TaskStatus};
use otto::task::Task;

fn task(name: &str, deps: Vec<&str>) -> Task {
    Task::new(name.to_string(), deps.into_iter().map(String::from).collect(), vec![], vec![], vec![], "true".to_string())
}

fn file(exists: bool, modified: Option<u128>) -> FileState {
    FileState { exists, modified }
}

#[test]
fn a_dependency_runs_first_and_its_dependant_after() {
    let mut s = TaskScheduler::new(vec![task("task1", vec!["task2"]), task("task2", vec![])], 2, false);
    s.begin_run();
    assert_eq!(s.get_task_status("task1"), TaskStatus::Pending);
    assert_eq!(s.next_step(), RunStep::CheckRebuild(1));
    s.on_rebuild_checked(1, true);
    assert_eq!(s.begin_task(1), Ok(()));
    assert_eq!(s.get_task_status("task2"), TaskStatus::Running);
    assert_eq!(s.next_step(), RunStep::AwaitCompletion);
    s.on_task_finished("task2");
    assert_eq!(s.next_step(), RunStep::CheckRebuild(0));
    s.on_rebuild_checked(0, true);
    assert_eq!(s.begin_task(0), Ok(()));
    assert_eq!(s.next_step(), RunStep::AwaitCompletion);
    s.on_task_finished("task1");
    assert_eq!(s.next_step(), RunStep::Finished);
    assert_eq!(s.get_task_status("task1"), TaskStatus::Completed);
    assert_eq!(s.get_task_status("task2"), TaskStatus::Completed);
}

#[test]
fn the_parallel_limit_holds_tasks_back() {
    let mut s = TaskScheduler::new(vec![task("a", vec![]), task("b", vec![]), task("c", vec![])], 2, false);
    s.begin_run();
    assert_eq!(s.next_step(), RunStep::CheckRebuild(0));
    s.on_rebuild_checked(0, true);
    assert_eq!(s.next_step(), RunStep::CheckRebuild(1));
    s.on_rebuild_checked(1, true);
    assert_eq!(s.next_step(), RunStep::AwaitCompletion);
    s.on_task_finished("a");
    assert_eq!(s.next_step(), RunStep::CheckRebuild(2));
}

#[test]
fn an_up_to_date_task_is_skipped_and_unblocks_its_dependants() {
    let mut s = TaskScheduler::new(vec![task("gen", vec![]), task("use", vec!["gen"])], 1, false);
    s.begin_run();
    assert_eq!(s.next_step(), RunStep::CheckRebuild(0));
    s.on_rebuild_checked(0, false);
    assert_eq!(s.get_task_status("gen"), TaskStatus::Skipped);
    assert_eq!(s.next_step(), RunStep::CheckRebuild(1));
}

#[test]
fn a_task_whose_dependency_failed_does_not_begin() {
    let mut s = TaskScheduler::new(vec![task("a", vec![]), task("b", vec!["a"])], 1, false);
    s.begin_run();
    s.on_task_failed("a", "Task a failed with exit code Some(1)");
    assert_eq!(s.begin_task(1), Err("Dependency a not completed for task b".to_string()));
    assert_eq!(s.get_task_status("a"), TaskStatus::Failed("Task a failed with exit code Some(1)".to_string()));
    assert_eq!(s.get_task_status("unknown"), TaskStatus::Pending);
}

#[test]
fn a_failure_message_names_its_task() {
    assert_eq!(TaskScheduler::failed_task_name("Task build failed with exit code Some(2)"), Some("build".to_string()));
    assert_eq!(TaskScheduler::failed_task_name("oops"), None);
}

#[test]
fn outputs_older_than_inputs_need_a_rebuild() {
    let t = Task::new("c".to_string(), vec![], vec!["in".to_string()], vec!["out".to_string()], vec![], "cp".to_string());
    assert!(TaskScheduler::needs_rebuild(&t, &vec![file(true, Some(10))], &vec![file(true, Some(5))]));
    assert!(!TaskScheduler::needs_rebuild(&t, &vec![file(true, Some(5))], &vec![file(true, Some(10))]));
    assert!(TaskScheduler::needs_rebuild(&t, &vec![file(true, Some(5))], &vec![file(false, None)]));
    assert!(TaskScheduler::needs_rebuild(&t, &vec![file(false, None)], &vec![file(true, Some(10))]));
    let no_files = Task::new("d".to_string(), vec![], vec![], vec![], vec![], "x".to_string());
    assert!(TaskScheduler::needs_rebuild(&no_files, &vec![], &vec![]));
}

#[test]
fn the_status_list_has_one_entry_per_task() {
    let mut s = TaskScheduler::new(vec![task("a", vec![]), task("b", vec![])], 1, false);
    s.begin_run();
    s.on_rebuild_checked(0, false);
    let all = s.get_task_statuses();
    assert_eq!(all.len(), 2);
    assert!(all.contains(&("a".to_string(), TaskStatus::Skipped)));
    assert!(all.contains(&("b".to_string(), TaskStatus::Pending)));
}

#[test]
fn a_failure_message_yields_the_exit_code_after_its_marker() {
    assert_eq!(otto::scheduler::failure_exit_code("Task build failed with exit code Some(2)"), 1);
    assert_eq!(otto::scheduler::failure_exit_code("failed: exit code 3"), 3);
    assert_eq!(otto::scheduler::failure_exit_code("a exit code  -7 exit code 9"), -7);
    assert_eq!(otto::scheduler::failure_exit_code("exit code +4\n"), 4);
    assert_eq!(otto::scheduler::failure_exit_code("exit code 99999999999"), 1);
    assert_eq!(otto::scheduler::failure_exit_code("exit code -2147483648"), i32::MIN);
    assert_eq!(otto::scheduler::failure_exit_code("exit code"), 1);
    assert_eq!(otto::scheduler::failure_exit_code("no code here"), 1);
}
