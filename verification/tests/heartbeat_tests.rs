use otto::colors::{plain_task_label, task_label, TaskOrder};
use otto::heartbeat::{beat_line, due_beats, max_wake, saturating_ms, wake_granularity, TaskClocks};
use std::time::Duration;

fn names_of(v: Vec<(String, otto::heartbeat::TaskClock)>) -> Vec<String> {
    v.into_iter().map(|(name, _)| name).collect()
}

#[test]
fn clocks_tests_a_live_task_with_no_clock_is_not_a_candidate() {
    let mut clocks = TaskClocks::default();
    clocks.start("build");
    let live = vec!["build".to_string(), "interactive".to_string()];
    assert_eq!(names_of(clocks.candidates(&live)), vec!["build".to_string()]);
    assert!(clocks.get("interactive").is_none());
}

#[test]
fn clocks_tests_a_clock_whose_task_is_not_live_is_not_a_candidate() {
    let mut clocks = TaskClocks::default();
    clocks.start("finished");
    clocks.start("running");
    assert_eq!(names_of(clocks.candidates(&vec!["running".to_string()])), vec!["running".to_string()]);
    assert!(clocks.get("finished").is_some());
}

#[test]
fn clocks_tests_candidates_are_ordered_by_name() {
    let mut clocks = TaskClocks::default();
    for task in ["tail:s2", "build", "tail:s1"] {
        clocks.start(task);
    }
    let live = vec!["tail:s2".to_string(), "build".to_string(), "tail:s1".to_string()];
    assert_eq!(names_of(clocks.candidates(&live)), vec!["build", "tail:s1", "tail:s2"]);
}

#[test]
fn heartbeat_tests_a_live_task_with_no_clock_is_not_a_candidate() {
    let mut clocks = TaskClocks::default();
    clocks.start("build");
    let live = vec!["build".to_string(), "interactive".to_string()];
    assert_eq!(names_of(clocks.candidates(&live)), vec!["build".to_string()]);
    assert!(clocks.get("interactive").is_none());
}

#[test]
fn heartbeat_tests_a_clock_whose_task_is_not_live_is_not_a_candidate() {
    let mut clocks = TaskClocks::default();
    clocks.start("finished");
    clocks.start("running");
    assert_eq!(names_of(clocks.candidates(&vec!["running".to_string()])), vec!["running".to_string()]);
    assert!(clocks.get("finished").is_some());
}

#[test]
fn heartbeat_tests_candidates_are_ordered_by_name() {
    let mut clocks = TaskClocks::default();
    for task in ["tail:s2", "build", "tail:s1"] {
        clocks.start(task);
    }
    let live = vec!["tail:s2".to_string(), "build".to_string(), "tail:s1".to_string()];
    assert_eq!(names_of(clocks.candidates(&live)), vec!["build", "tail:s1", "tail:s2"]);
}

#[test]
fn a_tick_wakes_at_the_interval_or_every_second_whichever_is_shorter() {
    assert_eq!(wake_granularity(Duration::from_millis(250)), Duration::from_millis(250));
    assert_eq!(wake_granularity(Duration::from_secs(1)), Duration::from_secs(1));
    assert_eq!(wake_granularity(Duration::from_secs(600)), max_wake());
}

#[test]
fn a_beat_line_carries_no_escape_and_no_carriage_return() {
    let line = beat_line(&TaskOrder::new(), "philo", Duration::from_secs(134), false, false);
    assert_eq!(line, "[philo] still running (2m14s)\n");
    assert!(!line.contains('\r'));
    assert!(!line.contains('\u{1b}'));
}

#[test]
fn a_beat_line_reports_elapsed_in_ottos_own_duration_format() {
    assert_eq!(
        beat_line(&TaskOrder::new(), "build", Duration::from_millis(45_000), false, false),
        "[build] still running (45.0s)\n"
    );
}

#[test]
fn no_prefix_drops_the_brackets() {
    assert_eq!(
        beat_line(&TaskOrder::new(), "build", Duration::from_secs(90), true, false),
        "build still running (1m30s)\n"
    );
}

#[test]
fn the_label_form_follows_stderr_not_stdout() {
    let order = TaskOrder::new();
    let redirected = beat_line(&order, "build", Duration::from_secs(90), false, false);
    let terminal = beat_line(&order, "build", Duration::from_secs(90), false, true);
    assert_eq!(redirected, format!("{} still running (1m30s)\n", plain_task_label("build", false)));
    assert_eq!(terminal, format!("{} still running (1m30s)\n", task_label(&order, "build", false)));
}

#[test]
fn a_silent_live_task_is_due_a_beat() {
    let mut clocks = TaskClocks::default();
    clocks.start("quiet");
    let due = due_beats(&clocks, &vec!["quiet".to_string()], 0);
    assert_eq!(names_of(due), vec!["quiet".to_string()]);
}

#[test]
fn a_task_that_just_produced_a_line_is_not_due_a_beat() {
    let mut clocks = TaskClocks::default();
    clocks.start("chatty");
    clocks.note_line("chatty");
    assert!(due_beats(&clocks, &vec!["chatty".to_string()], 60_000).is_empty());
}

#[test]
fn a_task_beaten_inside_the_interval_is_not_due_another() {
    let mut clocks = TaskClocks::default();
    clocks.start("quiet");
    clocks.note_beat("quiet");
    assert!(due_beats(&clocks, &vec!["quiet".to_string()], 60_000).is_empty());
}

#[test]
fn the_interval_in_milliseconds_saturates() {
    assert_eq!(saturating_ms(Duration::from_millis(1500)), 1500);
    assert_eq!(saturating_ms(Duration::from_secs(u64::MAX)), u64::MAX);
}

#[test]
fn due_is_decided_at_a_given_moment() {
    let mut clocks = TaskClocks::default();
    clocks.start("a");
    let c = clocks.get("a").unwrap();
    let start = c.last_line_ms();
    assert_eq!(c.last_beat_ms(), start);
    let live = vec!["a".to_string()];
    assert!(clocks.due_beats_at(&live, 1000, start + 999).is_empty());
    assert_eq!(names_of(clocks.due_beats_at(&live, 1000, start + 1000)), vec!["a".to_string()]);
    assert_eq!(c.idle_ms_at(start + 5), 5);
    assert_eq!(c.idle_ms_at(0), if start == 0 { 0 } else { 0 });
}

#[test]
fn start_returns_the_clock_it_keeps_for_the_task() {
    let mut clocks = TaskClocks::default();
    let first = clocks.start("build");
    clocks.start("test");
    let again = clocks.start("build");
    let kept = clocks.get("build").unwrap();
    assert_eq!(kept.last_line_ms(), again.last_line_ms());
    assert_eq!(kept.last_beat_ms(), again.last_beat_ms());
    assert!(again.last_line_ms() >= first.last_line_ms());
    assert!(clocks.get("test").is_some());
    assert!(clocks.get("lint").is_none());
}
