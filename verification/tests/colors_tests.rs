use otto::colors::{
    color_combinations, colorize_task_prefix, get_task_color, get_task_color_combination,
    plain_task_label, set_global_task_order, stderr_takes_color_from, stream_task_label, task_label,
    TaskOrder, COMBINATION_COUNT,
};

#[test]
fn test_color_combinations_count() {
    let all = color_combinations();
    assert_eq!(all.len(), 15);
    assert_eq!(COMBINATION_COUNT, 15);
    for (bracket, text) in all.iter() {
        assert_ne!(format!("{bracket:?}"), format!("{text:?}"));
    }
}

#[test]
fn stream_task_label_picks_the_plain_form_for_a_stream_that_takes_no_colour() {
    let order = TaskOrder::new();
    assert_eq!(stream_task_label(&order, "build", false, false), plain_task_label("build", false));
    assert_eq!(stream_task_label(&order, "build", false, true), task_label(&order, "build", false));
}

#[test]
fn stream_task_label_keeps_no_prefix_independent_of_colour() {
    let order = TaskOrder::new();
    assert_eq!(stream_task_label(&order, "build", true, false), "build");
    assert!(!stream_task_label(&order, "build", true, false).contains('\u{1b}'));
    assert_eq!(stream_task_label(&order, "build", false, false), "[build]");
}

#[test]
fn clicolor_force_makes_a_non_terminal_stderr_take_colour() {
    assert!(stderr_takes_color_from(false, Some("1")));
    assert!(!stderr_takes_color_from(false, None));
}

#[test]
fn only_the_value_zero_declines_the_force() {
    assert!(!stderr_takes_color_from(false, Some("0")));
    assert!(stderr_takes_color_from(false, Some("yes")));
    assert!(stderr_takes_color_from(false, Some("")));
}

#[test]
fn a_terminal_stderr_is_not_suppressed_by_a_zero_force() {
    assert!(stderr_takes_color_from(true, Some("0")));
    assert!(stderr_takes_color_from(true, None));
}

#[test]
fn the_order_is_the_names_sorted_and_picks_colours_by_position() {
    let order = set_global_task_order(vec!["zeta".to_string(), "alpha".to_string(), "mid".to_string()]);
    assert_eq!(order.names(), &vec!["alpha".to_string(), "mid".to_string(), "zeta".to_string()]);
    let all = color_combinations();
    assert_eq!(get_task_color_combination(&order, "alpha"), all[0]);
    assert_eq!(get_task_color_combination(&order, "zeta"), all[2]);
    assert_eq!(get_task_color(&order, "mid"), all[1].0);
    let again = get_task_color_combination(&TaskOrder::new(), "unlisted");
    assert_eq!(again, get_task_color_combination(&TaskOrder::new(), "unlisted"));
}

#[test]
fn a_prefix_always_carries_the_name_in_brackets() {
    let order = TaskOrder::new();
    let p = colorize_task_prefix(&order, "test_task");
    assert!(p.contains("test_task"));
    assert!(p.contains('['));
    assert!(p.contains(']'));
}

#[test]
fn the_same_names_in_another_order_get_the_same_colours() {
    let names = |v: &[&str]| v.iter().map(|s| s.to_string()).collect::<Vec<String>>();
    let first = set_global_task_order(names(&["test", "build", "lint", "build"]));
    let second = set_global_task_order(names(&["build", "lint", "build", "test"]));
    assert_eq!(first.names(), second.names());
    for n in ["build", "lint", "test"] {
        assert_eq!(get_task_color_combination(&first, n), get_task_color_combination(&second, n));
    }
}
